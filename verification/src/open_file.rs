//! How the content of an entry is opened.

use vstd::prelude::*;
use vstd::utf8::encode_utf8;

use crate::path::{PartModel, SourcePath};

verus! {

/// A file to be opened, or one of its alternate data streams.
#[derive(Debug)]
pub struct OpenFile {
    path: SourcePath,
    stream: Option<String>,
}

/// What is opened.
pub struct OpenModel {
    /// The components of the file's path.
    pub parts: Seq<PartModel>,
    /// The file's path as the platform writes it.
    pub text: Seq<u8>,
    /// The stream, or `None` for the body of the file.
    pub stream: Option<Seq<char>>,
}

impl View for OpenFile {
    type V = OpenModel;

    closed spec fn view(&self) -> OpenModel {
        OpenModel {
            parts: self.path@,
            text: self.path.text@,
            stream: match self.stream {
                Some(s) => Some(s@),
                None => None,
            },
        }
    }
}

impl OpenFile {
    /// The body of the file at `path`.
    pub fn new(path: SourcePath) -> (r: OpenFile)
        ensures
            r@ == (OpenModel { parts: path@, text: path.text@, stream: None }),
    {
        OpenFile { path, stream: None }
    }

    /// The stream of this name of the file at `host`.
    pub fn for_stream(host: SourcePath, stream: String) -> (r: OpenFile)
        ensures
            r@ == (OpenModel { parts: host@, text: host.text@, stream: Some(stream@) }),
    {
        OpenFile { path: host, stream: Some(stream) }
    }

    /// The path of the file.
    pub fn path(&self) -> (r: &SourcePath)
        ensures
            r@ == self@.parts,
            r.text@ == self@.text,
    {
        &self.path
    }

    /// The text to open: the path of the file, and for a stream `:<stream>:$DATA` behind it.
    pub fn open(self) -> (r: Vec<u8>)
        ensures
            r@ == match self@.stream {
                None => self@.text,
                Some(name) => self@.text + encode_utf8(":"@) + encode_utf8(name) + encode_utf8(
                    ":$DATA"@,
                ),
            },
    {
        let mut text: Vec<u8> = self.path.text;
        if let Some(name) = self.stream {
            let ghost t0 = text@;
            text.extend_from_slice(":".as_bytes());
            text.extend_from_slice(name.as_str().as_bytes());
            text.extend_from_slice(":$DATA".as_bytes());
            assert(text@ =~= t0 + encode_utf8(":"@) + encode_utf8(name@) + encode_utf8(
                ":$DATA"@,
            ));
        }
        text
    }
}

} // verus!

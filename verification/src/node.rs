//! The nodes that entries of a file tree become in a repository.

use vstd::prelude::*;

use crate::attribute_map::AttributeMap;
use crate::generic_attributes::ValueModel;
use crate::time::Timestamp;

verus! {

/// The identifier of a stored object.
#[derive(Debug, Clone, Copy, PartialEq, Eq)]
pub struct Id(pub [u8; 32]);

/// What an entry is.
#[derive(Debug)]
pub enum NodeType {
    /// A file.
    File,
    /// A directory.
    Dir,
    /// A symbolic link.
    Symlink {
        /// The target as text.
        linktarget: String,
        /// The target byte by byte, where the text does not carry it.
        linktarget_raw: Option<Vec<u8>>,
    },
    /// A block device.
    Dev {
        /// The device number.
        device: u64,
    },
    /// A character device.
    Chardev {
        /// The device number.
        device: u64,
    },
    /// A named pipe.
    Fifo,
    /// A socket.
    Socket,
}

/// What an entry is, with link targets as sequences.
pub enum NodeTypeModel {
    File,
    Dir,
    Symlink(Seq<char>, Option<Seq<u8>>),
    Dev(u64),
    Chardev(u64),
    Fifo,
    Socket,
}

impl View for NodeType {
    type V = NodeTypeModel;

    open spec fn view(&self) -> NodeTypeModel {
        match *self {
            NodeType::File => NodeTypeModel::File,
            NodeType::Dir => NodeTypeModel::Dir,
            NodeType::Symlink { linktarget, linktarget_raw } => NodeTypeModel::Symlink(
                linktarget@,
                match linktarget_raw {
                    Some(bytes) => Some(bytes@),
                    None => None,
                },
            ),
            NodeType::Dev { device } => NodeTypeModel::Dev(device),
            NodeType::Chardev { device } => NodeTypeModel::Chardev(device),
            NodeType::Fifo => NodeTypeModel::Fifo,
            NodeType::Socket => NodeTypeModel::Socket,
        }
    }
}

/// An extended attribute.
#[derive(Debug)]
pub struct ExtendedAttribute {
    /// The name.
    pub name: String,
    /// The value, if it has one.
    pub value: Option<Vec<u8>>,
}

/// Name and value of an extended attribute.
pub type XattrModel = (Seq<char>, Option<Seq<u8>>);

impl View for ExtendedAttribute {
    type V = XattrModel;

    open spec fn view(&self) -> XattrModel {
        (
            self.name@,
            match self.value {
                Some(bytes) => Some(bytes@),
                None => None,
            },
        )
    }
}

/// Extended attributes as names and values.
pub open spec fn xattrs_model(list: Seq<ExtendedAttribute>) -> Seq<XattrModel> {
    list.map_values(|x: ExtendedAttribute| x@)
}

/// What is known of an entry besides its name and kind.
#[derive(Debug)]
pub struct Metadata {
    /// The mode bits, in the portable form.
    pub mode: Option<u32>,
    /// When the content was last changed.
    pub mtime: Option<Timestamp>,
    /// When the content was last read.
    pub atime: Option<Timestamp>,
    /// When the entry was last changed.
    pub ctime: Option<Timestamp>,
    /// The number of the owner.
    pub uid: Option<u32>,
    /// The number of the group.
    pub gid: Option<u32>,
    /// The name of the owner.
    pub user: Option<String>,
    /// The name of the group.
    pub group: Option<String>,
    /// The inode number.
    pub inode: u64,
    /// The number of the device that holds the entry.
    pub device_id: u64,
    /// The size in bytes.
    pub size: u64,
    /// The number of hard links.
    pub links: u64,
    /// The extended attributes.
    pub extended_attributes: Vec<ExtendedAttribute>,
    /// Platform-specific attributes by name.
    pub generic_attributes: AttributeMap,
}

/// What metadata hold.
#[verifier::ext_equal]
pub struct MetaModel {
    pub mode: Option<u32>,
    pub mtime: Option<Timestamp>,
    pub atime: Option<Timestamp>,
    pub ctime: Option<Timestamp>,
    pub uid: Option<u32>,
    pub gid: Option<u32>,
    pub user: Option<Seq<char>>,
    pub group: Option<Seq<char>>,
    pub inode: u64,
    pub device_id: u64,
    pub size: u64,
    pub links: u64,
    pub extended_attributes: Seq<XattrModel>,
    pub generic_attributes: Map<Seq<char>, ValueModel>,
}

/// An optional text as characters.
pub open spec fn text_of(text: Option<String>) -> Option<Seq<char>> {
    match text {
        Some(s) => Some(s@),
        None => None,
    }
}

impl View for Metadata {
    type V = MetaModel;

    open spec fn view(&self) -> MetaModel {
        MetaModel {
            mode: self.mode,
            mtime: self.mtime,
            atime: self.atime,
            ctime: self.ctime,
            uid: self.uid,
            gid: self.gid,
            user: text_of(self.user),
            group: text_of(self.group),
            inode: self.inode,
            device_id: self.device_id,
            size: self.size,
            links: self.links,
            extended_attributes: xattrs_model(self.extended_attributes@),
            generic_attributes: self.generic_attributes@,
        }
    }
}

/// An entry of a directory as it is stored.
#[derive(Debug)]
pub struct Node {
    /// The name, without the directory.
    pub name: String,
    /// What the entry is.
    pub node_type: NodeType,
    /// What else is known of it.
    pub meta: Metadata,
    /// The pieces of a file's content, once they are stored.
    pub content: Option<Vec<Id>>,
    /// The entries of a directory, once they are stored.
    pub subtree: Option<Id>,
}

/// What a node holds.
#[verifier::ext_equal]
pub struct NodeModel {
    pub name: Seq<char>,
    pub node_type: NodeTypeModel,
    pub meta: MetaModel,
    pub content: Option<Seq<Id>>,
    pub subtree: Option<Id>,
}

impl View for Node {
    type V = NodeModel;

    open spec fn view(&self) -> NodeModel {
        NodeModel {
            name: self.name@,
            node_type: self.node_type@,
            meta: self.meta@,
            content: match self.content {
                Some(ids) => Some(ids@),
                None => None,
            },
            subtree: self.subtree,
        }
    }
}

/// A node whose content is not stored yet.
pub open spec fn fresh_node(name: Seq<char>, node_type: NodeTypeModel, meta: MetaModel) -> NodeModel {
    NodeModel { name, node_type, meta, content: None, subtree: None }
}

pub(crate) fn copy_bytes(bytes: &Option<Vec<u8>>) -> (r: Option<Vec<u8>>)
    ensures
        match (*bytes, r) {
            (Some(b), Some(c)) => b@ == c@,
            (None, None) => true,
            _ => false,
        },
{
    match bytes {
        Some(b) => {
            let mut c: Vec<u8> = Vec::new();
            c.extend_from_slice(b.as_slice());
            assert(c@ =~= b@);
            Some(c)
        },
        None => None,
    }
}

fn copy_text(text: &Option<String>) -> (r: Option<String>)
    ensures
        text_of(r) == text_of(*text),
{
    match text {
        Some(s) => Some(s.clone()),
        None => None,
    }
}

impl Metadata {
    /// The same metadata with another size and other platform-specific attributes.
    pub fn with(&self, size: u64, generic_attributes: AttributeMap) -> (r: Metadata)
        ensures
            r@ == (MetaModel { size, generic_attributes: generic_attributes@, ..self@ }),
            r.generic_attributes == generic_attributes,
    {
        let mut extended_attributes: Vec<ExtendedAttribute> = Vec::new();
        let mut i: usize = 0;
        while i < self.extended_attributes.len()
            invariant
                i <= self.extended_attributes@.len(),
                extended_attributes@.len() == i,
                forall|k: int|
                    0 <= k < i ==> (#[trigger] extended_attributes@[k])@
                        == self.extended_attributes@[k]@,
            decreases self.extended_attributes.len() - i,
        {
            let x: &ExtendedAttribute = &self.extended_attributes[i];
            extended_attributes.push(
                ExtendedAttribute { name: x.name.clone(), value: copy_bytes(&x.value) },
            );
            i = i + 1;
        }
        assert(xattrs_model(extended_attributes@) =~= xattrs_model(self.extended_attributes@));
        Metadata {
            mode: self.mode,
            mtime: self.mtime,
            atime: self.atime,
            ctime: self.ctime,
            uid: self.uid,
            gid: self.gid,
            user: copy_text(&self.user),
            group: copy_text(&self.group),
            inode: self.inode,
            device_id: self.device_id,
            size,
            links: self.links,
            extended_attributes,
            generic_attributes,
        }
    }
}

impl Node {
    /// A node whose content is not stored yet.
    pub fn new_node(name: String, node_type: NodeType, meta: Metadata) -> (r: Node)
        ensures
            r@ == fresh_node(name@, node_type@, meta@),
            r.meta == meta,
    {
        Node { name, node_type, meta, content: None, subtree: None }
    }

    /// Tells whether the node is a directory.
    pub fn is_dir(&self) -> (r: bool)
        ensures
            r == (self@.node_type is Dir),
    {
        matches!(self.node_type, NodeType::Dir)
    }

    /// Tells whether the node is a file.
    pub fn is_file(&self) -> (r: bool)
        ensures
            r == (self@.node_type is File),
    {
        matches!(self.node_type, NodeType::File)
    }
}

/// Where a time of an entry comes from.
#[derive(Debug, Clone, Copy, PartialEq, Eq, Structural)]
pub enum TimeOption {
    /// From the entry.
    Yes,
    /// Nowhere: it is not stored.
    No,
    /// From the time at which the content was last changed.
    Mtime,
}

impl TimeOption {
    /// The time that the option picks, out of the entry's own and that of its last change.
    pub open spec fn pick(self, own: Option<Timestamp>, mtime: Option<Timestamp>) -> Option<
        Timestamp,
    > {
        match self {
            TimeOption::Yes => own,
            TimeOption::No => None,
            TimeOption::Mtime => mtime,
        }
    }

    /// The time that the option picks, out of the entry's own and that of its last change.
    pub fn choose_time(self, own: Option<Timestamp>, mtime: Option<Timestamp>) -> (r: Option<
        Timestamp,
    >)
        ensures
            r == self.pick(own, mtime),
    {
        match self {
            TimeOption::Yes => own,
            TimeOption::No => None,
            TimeOption::Mtime => mtime,
        }
    }
}

/// For which entries the device number is stored.
#[derive(Debug, Clone, Copy, PartialEq, Eq, Structural)]
pub enum DevIdOption {
    /// For files with more than one hard link.
    Hardlink,
    /// For all.
    Yes,
    /// For none.
    No,
}

impl DevIdOption {
    /// The device number to store; 0 stands for none.
    pub open spec fn pick(self, device: u64, hardlink: bool) -> u64 {
        if self is Yes || (self is Hardlink && hardlink) {
            device
        } else {
            0
        }
    }

    /// The device number to store; 0 stands for none.
    pub fn choose_device(self, device: u64, hardlink: bool) -> (r: u64)
        ensures
            r == self.pick(device, hardlink),
    {
        match self {
            DevIdOption::Yes => device,
            DevIdOption::Hardlink => if hardlink {
                device
            } else {
                0
            },
            DevIdOption::No => 0,
        }
    }
}

impl Default for DevIdOption {
    fn default() -> (r: DevIdOption)
        ensures
            r == DevIdOption::Hardlink,
    {
        DevIdOption::Hardlink
    }
}

/// Whether extended attributes are stored.
#[derive(Debug, Clone, Copy, PartialEq, Eq, Structural)]
pub enum XattrOption {
    /// They are.
    Yes,
    /// They are not.
    No,
}

impl Default for XattrOption {
    fn default() -> (r: XattrOption)
        ensures
            r == XattrOption::Yes,
    {
        XattrOption::Yes
    }
}

/// What a node holds is what its fields hold: nothing is left out of the model and nothing changed.
pub proof fn law_node_model_is_the_node(node: Node)
    ensures
        node@.name == node.name@,
        node@.meta == node.meta@,
        node@.subtree == node.subtree,
        node@.content is Some <==> node.content is Some,
        node.content matches Some(ids) ==> node@.content == Some(ids@),
        node@.node_type is File <==> node.node_type is File,
        node@.node_type is Dir <==> node.node_type is Dir,
        node@.node_type is Fifo <==> node.node_type is Fifo,
        node@.node_type is Socket <==> node.node_type is Socket,
        node.node_type matches NodeType::Dev { device } ==> node@.node_type == NodeTypeModel::Dev(
            device,
        ),
        node.node_type matches NodeType::Chardev { device } ==> node@.node_type
            == NodeTypeModel::Chardev(device),
        node.node_type matches NodeType::Symlink { linktarget, linktarget_raw } ==> (
        node@.node_type matches NodeTypeModel::Symlink(text, raw) && text == linktarget@ && match linktarget_raw {
            Some(bytes) => raw == Some(bytes@),
            None => raw is None,
        }),
{
}

/// What metadata hold is what their fields hold, and each extended attribute in its place.
pub proof fn law_metadata_model_is_the_metadata(meta: Metadata)
    ensures
        meta@.mode == meta.mode,
        meta@.mtime == meta.mtime && meta@.atime == meta.atime && meta@.ctime == meta.ctime,
        meta@.uid == meta.uid && meta@.gid == meta.gid,
        match meta.user {
            Some(name) => meta@.user == Some(name@),
            None => meta@.user is None,
        },
        match meta.group {
            Some(name) => meta@.group == Some(name@),
            None => meta@.group is None,
        },
        meta@.inode == meta.inode && meta@.device_id == meta.device_id,
        meta@.size == meta.size && meta@.links == meta.links,
        meta@.generic_attributes == meta.generic_attributes@,
        meta@.extended_attributes.len() == meta.extended_attributes@.len(),
        forall|i: int|
            0 <= i < meta.extended_attributes@.len() ==> {
                let (own, model) = (
                    #[trigger] meta.extended_attributes@[i],
                    meta@.extended_attributes[i],
                );
                &&& model.0 == own.name@
                &&& match own.value {
                    Some(bytes) => model.1 == Some(bytes@),
                    None => model.1 is None,
                }
            },
{
}

} // verus!

//! Maps the entries of a walk to repository nodes.

use vstd::prelude::*;
use vstd::string::StringExecFns;

use crate::attribute_map::AttributeMap;
use crate::encoding::{base64_len, base64_text, encode};
use crate::error::{ErrorModel, IgnoreErrorKind};
use crate::generic_attributes::{
    extents_model, GenericAttributeValue, ReparseBlob, ValueModel, WindowsFiletime,
};
use crate::node::{
    copy_bytes, fresh_node, text_of, xattrs_model, DevIdOption, ExtendedAttribute, MetaModel,
    Metadata, Node, NodeModel, NodeType, NodeTypeModel, TimeOption, XattrModel, XattrOption,
};
use crate::open_file::{OpenFile, OpenModel};
use crate::path::{PartModel, SourcePath};
use crate::time::{timestamp_model, Timestamp};
use crate::win_ads::AdsName;
use crate::win_reparse::REPARSE_KEY;
use crate::win_sd::SD_KEY;
use crate::win_sparse::ints;

verus! {

/// The attribute name under which the time of creation is stored.
pub const CREATION_TIME_KEY: &'static str = "windows.creation_time";

/// The attribute name under which the attribute bits are stored.
pub const FILE_ATTRIBUTES_KEY: &'static str = "windows.file_attributes";

/// The attribute name under which the allocated extents of a sparse file are stored.
pub const SPARSE_KEY: &'static str = "windows.sparse_extents";

/// What the system told about a file on Windows. Each item is missing where it could not be read.
#[derive(Debug)]
pub struct WindowsAttributes {
    /// The attribute bits and the time of creation.
    pub file_attributes: Option<(u32, WindowsFiletime)>,
    /// The base64 text of the security descriptor.
    pub security_descriptor: Option<String>,
    /// Whether the file is sparse.
    pub is_sparse: Option<bool>,
    /// The allocated ranges of a sparse file.
    pub allocated: Option<Vec<(i64, i64)>>,
    /// Whether the file is a reparse point.
    pub is_reparse_point: Option<bool>,
    /// Tag and data of a reparse point.
    pub reparse: Option<(u32, Vec<u8>)>,
}

impl WindowsAttributes {
    /// The allocated ranges that are stored: those of a sparse file that has any.
    pub open spec fn stored_ranges(&self) -> Option<Seq<(int, int)>> {
        match self.allocated {
            Some(ranges) => if self.is_sparse == Some(true) && ranges@.len() > 0 {
                Some(ints(ranges@))
            } else {
                None
            },
            None => None,
        }
    }

    /// The reparse data that are stored: those of a reparse point that has any.
    pub open spec fn stored_reparse(&self) -> Option<(u32, Seq<u8>)> {
        match self.reparse {
            Some((tag, body)) => if self.is_reparse_point == Some(true) && body@.len() > 0 {
                Some((tag, body@))
            } else {
                None
            },
            None => None,
        }
    }

    /// The reparse data have a base64 text.
    pub open spec fn encodable(&self) -> bool {
        self.stored_reparse() matches Some((_, body)) ==> base64_len(body.len() as int)
            <= isize::MAX
    }
}

/// The attributes that are stored of a file on Windows.
pub open spec fn attributes_of(w: WindowsAttributes) -> Map<Seq<char>, ValueModel> {
    let none = Map::<Seq<char>, ValueModel>::empty();
    let basic = match w.file_attributes {
        Some((bits, created)) => none.insert(
            CREATION_TIME_KEY@,
            ValueModel::CreationTime(created.ticks()),
        ).insert(FILE_ATTRIBUTES_KEY@, ValueModel::U32(bits)),
        None => none,
    };
    let secured = match w.security_descriptor {
        Some(sd) => basic.insert(SD_KEY@, ValueModel::String(sd@)),
        None => basic,
    };
    let sparse = match w.stored_ranges() {
        Some(ranges) => secured.insert(SPARSE_KEY@, ValueModel::SparseExtents(ranges)),
        None => secured,
    };
    match w.stored_reparse() {
        Some((tag, body)) => sparse.insert(
            REPARSE_KEY@,
            ValueModel::ReparsePoint(tag, base64_text(body)),
        ),
        None => sparse,
    }
}

/// The attributes that are stored of a file; off Windows there are none.
pub open spec fn attributes_model(w: Option<WindowsAttributes>) -> Map<Seq<char>, ValueModel> {
    match w {
        Some(w) => attributes_of(w),
        None => Map::empty(),
    }
}

proof fn lemma_keys_differ()
    ensures
        CREATION_TIME_KEY@ != FILE_ATTRIBUTES_KEY@,
        CREATION_TIME_KEY@ != SD_KEY@,
        CREATION_TIME_KEY@ != SPARSE_KEY@,
        CREATION_TIME_KEY@ != REPARSE_KEY@,
        FILE_ATTRIBUTES_KEY@ != SD_KEY@,
        FILE_ATTRIBUTES_KEY@ != SPARSE_KEY@,
        FILE_ATTRIBUTES_KEY@ != REPARSE_KEY@,
        SD_KEY@ != SPARSE_KEY@,
        SD_KEY@ != REPARSE_KEY@,
        SPARSE_KEY@ != REPARSE_KEY@,
{
    reveal_strlit("windows.creation_time");
    reveal_strlit("windows.file_attributes");
    reveal_strlit("windows.security_descriptor");
    reveal_strlit("windows.sparse_extents");
    reveal_strlit("windows.reparse_point");
    // All but two differ in length, and those two differ in a letter.
    assert(CREATION_TIME_KEY@.len() == 21);
    assert(FILE_ATTRIBUTES_KEY@.len() == 23);
    assert(SD_KEY@.len() == 27);
    assert(SPARSE_KEY@.len() == 22);
    assert(REPARSE_KEY@.len() == 21);
    assert(CREATION_TIME_KEY@[8] == 'c');
    assert(REPARSE_KEY@[8] == 'r');
}

/// Each attribute is stored exactly if it could be read and there is anything to it, with the
/// value read, whatever became of the others.
pub proof fn law_attributes_are_stored_one_by_one(w: WindowsAttributes)
    ensures
        attributes_of(w).contains_key(CREATION_TIME_KEY@) <==> w.file_attributes is Some,
        attributes_of(w).contains_key(FILE_ATTRIBUTES_KEY@) <==> w.file_attributes is Some,
        attributes_of(w).contains_key(SD_KEY@) <==> w.security_descriptor is Some,
        attributes_of(w).contains_key(SPARSE_KEY@) <==> w.stored_ranges() is Some,
        attributes_of(w).contains_key(REPARSE_KEY@) <==> w.stored_reparse() is Some,
        w.file_attributes matches Some((bits, created)) ==> {
            &&& attributes_of(w)[CREATION_TIME_KEY@] == ValueModel::CreationTime(created.ticks())
            &&& attributes_of(w)[FILE_ATTRIBUTES_KEY@] == ValueModel::U32(bits)
        },
        w.security_descriptor matches Some(sd) ==> attributes_of(w)[SD_KEY@] == ValueModel::String(
            sd@,
        ),
        w.stored_ranges() matches Some(ranges) ==> attributes_of(w)[SPARSE_KEY@]
            == ValueModel::SparseExtents(ranges),
        w.stored_reparse() matches Some((tag, body)) ==> attributes_of(w)[REPARSE_KEY@]
            == ValueModel::ReparsePoint(tag, base64_text(body)),
        forall|k: Seq<char>| #[trigger]
            attributes_of(w).contains_key(k) ==> k == CREATION_TIME_KEY@ || k
                == FILE_ATTRIBUTES_KEY@ || k == SD_KEY@ || k == SPARSE_KEY@ || k == REPARSE_KEY@,
{
    lemma_keys_differ();
}

/// The content of an entry is left alone exactly if it is a reparse point whose data were read.
pub proof fn law_only_reparse_points_are_not_opened(w: Option<WindowsAttributes>)
    ensures
        attributes_model(w).contains_key(REPARSE_KEY@) <==> (w matches Some(told)
            && told.stored_reparse() is Some),
{
    if let Some(told) = w {
        law_attributes_are_stored_one_by_one(told);
    }
}

fn range_pairs(ranges: &Vec<(i64, i64)>) -> (r: Vec<[i64; 2]>)
    ensures
        extents_model(r@) == ints(ranges@),
{
    let mut r: Vec<[i64; 2]> = Vec::new();
    let mut i: usize = 0;
    while i < ranges.len()
        invariant
            i <= ranges@.len(),
            r@.len() == i,
            forall|k: int|
                0 <= k < i ==> (#[trigger] r@[k])[0] == ranges@[k].0 && r@[k][1] == ranges@[k].1,
        decreases ranges.len() - i,
    {
        r.push([ranges[i].0, ranges[i].1]);
        i = i + 1;
    }
    assert(extents_model(r@) =~= ints(ranges@));
    r
}

/// Whether block devices are stored as devices or as files.
#[derive(Debug, Clone, Copy, PartialEq, Eq, Structural)]
pub enum BlockdevOption {
    /// As devices.
    Special,
    /// As files, with the content of the device.
    File,
}

impl Default for BlockdevOption {
    fn default() -> (r: BlockdevOption)
        ensures
            r == BlockdevOption::Special,
    {
        BlockdevOption::Special
    }
}

/// How entries of a local source are saved in the repository.
#[derive(Debug, Clone, Copy, PartialEq, Eq, Structural)]
pub struct LocalSourceSaveOptions {
    /// Where the access time comes from; by default from the modification time.
    pub set_atime: Option<TimeOption>,
    /// Where the change time comes from; by default from the entry.
    pub set_ctime: Option<TimeOption>,
    /// For which entries the device number is stored; by default for hard links.
    pub set_devid: Option<DevIdOption>,
    /// How block devices are stored; by default as devices.
    pub set_blockdev: Option<BlockdevOption>,
    /// Whether extended attributes are stored; by default they are.
    pub set_xattrs: Option<XattrOption>,
    /// The number of threads that walk the tree; by default as many as the machine runs at a
    /// time.
    pub walker_threads: Option<usize>,
}

impl Default for LocalSourceSaveOptions {
    fn default() -> (r: LocalSourceSaveOptions)
        ensures
            r.set_atime is None,
            r.set_ctime is None,
            r.set_devid is None,
            r.set_blockdev is None,
            r.set_xattrs is None,
            r.walker_threads is None,
    {
        LocalSourceSaveOptions {
            set_atime: None,
            set_ctime: None,
            set_devid: None,
            set_blockdev: None,
            set_xattrs: None,
            walker_threads: None,
        }
    }
}

impl LocalSourceSaveOptions {
    /// The same options with another source of the access time.
    pub fn set_atime(self, value: Option<TimeOption>) -> (r: LocalSourceSaveOptions)
        ensures
            r == (LocalSourceSaveOptions { set_atime: value, ..self }),
    {
        LocalSourceSaveOptions { set_atime: value, ..self }
    }

    /// The same options with another source of the change time.
    pub fn set_ctime(self, value: Option<TimeOption>) -> (r: LocalSourceSaveOptions)
        ensures
            r == (LocalSourceSaveOptions { set_ctime: value, ..self }),
    {
        LocalSourceSaveOptions { set_ctime: value, ..self }
    }

    /// The same options with the device number stored for other entries.
    pub fn set_devid(self, value: Option<DevIdOption>) -> (r: LocalSourceSaveOptions)
        ensures
            r == (LocalSourceSaveOptions { set_devid: value, ..self }),
    {
        LocalSourceSaveOptions { set_devid: value, ..self }
    }

    /// The same options with block devices stored another way.
    pub fn set_blockdev(self, value: Option<BlockdevOption>) -> (r: LocalSourceSaveOptions)
        ensures
            r == (LocalSourceSaveOptions { set_blockdev: value, ..self }),
    {
        LocalSourceSaveOptions { set_blockdev: value, ..self }
    }

    /// The same options with extended attributes stored or not.
    pub fn set_xattrs(self, value: Option<XattrOption>) -> (r: LocalSourceSaveOptions)
        ensures
            r == (LocalSourceSaveOptions { set_xattrs: value, ..self }),
    {
        LocalSourceSaveOptions { set_xattrs: value, ..self }
    }

    /// The same options with another number of threads.
    pub fn walker_threads(self, value: Option<usize>) -> (r: LocalSourceSaveOptions)
        ensures
            r == (LocalSourceSaveOptions { walker_threads: value, ..self }),
    {
        LocalSourceSaveOptions { walker_threads: value, ..self }
    }
}

/// A point in time as the platform gives it: seconds and nanoseconds since the start of 1970.
pub type PlatformTime = (i64, i32);

/// What a Unix system tells about an entry.
#[derive(Debug)]
pub struct UnixMetadata {
    /// The mode bits, in the portable form.
    pub mode: u32,
    /// The number of the owner.
    pub uid: u32,
    /// The number of the group.
    pub gid: u32,
    /// The name of the owner, if the system knows one.
    pub user: Option<String>,
    /// The name of the group, if the system knows one.
    pub group: Option<String>,
    /// The inode number.
    pub ino: u64,
    /// The number of the device that holds the entry.
    pub dev: u64,
    /// The number of the device that the entry is.
    pub rdev: u64,
    /// The number of hard links.
    pub nlink: u64,
    /// The change time: whole seconds.
    pub ctime: i64,
    /// The change time: nanoseconds.
    pub ctime_nsec: i64,
}

/// What the platform tells about an entry beyond what all platforms tell.
#[derive(Debug)]
pub enum PlatformMetadata {
    /// On a Unix system.
    Unix(UnixMetadata),
    /// On Windows.
    Windows {
        /// When the entry was created.
        created: Option<PlatformTime>,
    },
}

/// What the system tells about an entry.
#[derive(Debug)]
pub struct EntryMetadata {
    /// It is a directory.
    pub is_dir: bool,
    /// It is a symbolic link.
    pub is_symlink: bool,
    /// It is a block device.
    pub is_block_device: bool,
    /// It is a character device.
    pub is_char_device: bool,
    /// It is a named pipe.
    pub is_fifo: bool,
    /// It is a socket.
    pub is_socket: bool,
    /// Its length in bytes.
    pub len: u64,
    /// When its content was last changed.
    pub modified: Option<PlatformTime>,
    /// When its content was last read.
    pub accessed: Option<PlatformTime>,
    /// What the platform tells beyond that.
    pub platform: PlatformMetadata,
}

/// The target of a link: its text, and its bytes where the text does not carry them.
#[derive(Debug)]
pub struct LinkTarget {
    /// The text.
    pub text: String,
    /// The bytes.
    pub raw: Option<Vec<u8>>,
}

/// What reading one extended attribute gave.
#[derive(Debug)]
pub struct XattrRead {
    /// The name.
    pub name: String,
    /// The value if it has one, or why it could not be read.
    pub value: Result<Option<Vec<u8>>, String>,
}

/// What the system tells about one entry of a walk.
#[derive(Debug)]
pub struct EntryInfo {
    /// The name that the node gets.
    pub name: String,
    /// The name to show to a user.
    pub display_name: String,
    /// The path.
    pub path: SourcePath,
    /// The metadata, or why they could not be read.
    pub metadata: Result<EntryMetadata, String>,
    /// The target of a link, or why it could not be read.
    pub link: Result<LinkTarget, String>,
    /// The extended attributes, or why they could not be listed.
    pub xattrs: Result<Vec<XattrRead>, String>,
    /// What Windows tells; `None` on other systems.
    pub windows: Option<WindowsAttributes>,
}

/// An entry that is ready to be stored.
#[derive(Debug)]
pub struct ReadSourceEntry {
    /// The path it was found at.
    pub path: SourcePath,
    /// The node it becomes.
    pub node: Node,
    /// How its content is read; `None` where there is none to read.
    pub open: Option<OpenFile>,
}

/// What an entry that is ready to be stored holds.
#[verifier::ext_equal]
pub struct EntryModel {
    /// The components of its path.
    pub path: Seq<PartModel>,
    /// Its path as the platform writes it.
    pub text: Seq<u8>,
    /// The node it becomes.
    pub node: NodeModel,
    /// How its content is read.
    pub open: Option<OpenModel>,
}

impl View for ReadSourceEntry {
    type V = EntryModel;

    open spec fn view(&self) -> EntryModel {
        EntryModel {
            path: self.path@,
            text: self.path.text@,
            node: self.node@,
            open: match self.open {
                Some(open) => Some(open@),
                None => None,
            },
        }
    }
}

/// The entry or error that mapping gave.
pub open spec fn mapped_model(r: Result<ReadSourceEntry, IgnoreErrorKind>) -> Result<
    EntryModel,
    ErrorModel,
> {
    match r {
        Ok(entry) => Ok(entry@),
        Err(e) => Err(e@),
    }
}

/// The point in time that the platform gave, where it is one.
pub open spec fn time_of(t: Option<PlatformTime>) -> Option<Timestamp> {
    match t {
        Some((second, nanosecond)) => timestamp_model(second as int, nanosecond as int),
        None => None,
    }
}

fn read_time(t: Option<PlatformTime>) -> (r: Option<Timestamp>)
    ensures
        r == time_of(t),
{
    match t {
        Some((second, nanosecond)) => Timestamp::new(second, nanosecond),
        None => None,
    }
}

/// The change time; on Windows the time of creation.
pub open spec fn ctime_of(m: EntryMetadata) -> Option<Timestamp> {
    match m.platform {
        PlatformMetadata::Unix(u) => timestamp_model(u.ctime as int, (u.ctime_nsec as i32) as int),
        PlatformMetadata::Windows { created } => time_of(created),
    }
}

/// The number of the device that holds the entry; on Windows 0.
pub open spec fn device_of(m: EntryMetadata) -> u64 {
    match m.platform {
        PlatformMetadata::Unix(u) => u.dev,
        PlatformMetadata::Windows { .. } => 0,
    }
}

/// The entry is one of several hard links to a file; on Windows none is.
pub open spec fn is_hardlink(m: EntryMetadata) -> bool {
    match m.platform {
        PlatformMetadata::Unix(u) => u.nlink > 1 && !m.is_dir,
        PlatformMetadata::Windows { .. } => false,
    }
}

/// What an entry becomes that is neither directory nor link.
pub open spec fn other_type(opts: LocalSourceSaveOptions, m: EntryMetadata) -> NodeTypeModel {
    match m.platform {
        PlatformMetadata::Unix(u) => if m.is_block_device {
            if opts.set_blockdev == Some(BlockdevOption::File) {
                NodeTypeModel::File
            } else {
                NodeTypeModel::Dev(u.rdev)
            }
        } else if m.is_char_device {
            NodeTypeModel::Chardev(u.rdev)
        } else if m.is_fifo {
            NodeTypeModel::Fifo
        } else if m.is_socket {
            NodeTypeModel::Socket
        } else {
            NodeTypeModel::File
        },
        PlatformMetadata::Windows { .. } => NodeTypeModel::File,
    }
}

/// The target of a link as a node carries it.
pub open spec fn link_type(target: LinkTarget) -> NodeTypeModel {
    NodeTypeModel::Symlink(
        target.text@,
        match target.raw {
            Some(bytes) => Some(bytes@),
            None => None,
        },
    )
}

/// Why the first attribute that could not be read could not be read, if there is one.
pub open spec fn first_unread(reads: Seq<XattrRead>) -> Option<Seq<char>>
    decreases reads.len(),
{
    if reads.len() == 0 {
        None
    } else {
        match reads[0].value {
            Err(cause) => Some(cause@),
            Ok(_) => first_unread(reads.skip(1)),
        }
    }
}

/// Why the extended attributes could not be listed or read, if they could not.
pub open spec fn xattr_failure(xattrs: Result<Vec<XattrRead>, String>) -> Option<Seq<char>> {
    match xattrs {
        Err(cause) => Some(cause@),
        Ok(reads) => first_unread(reads@),
    }
}

/// Name and value of an attribute that could be read.
pub open spec fn read_model(x: XattrRead) -> XattrModel {
    (
        x.name@,
        match x.value {
            Ok(Some(bytes)) => Some(bytes@),
            _ => None,
        },
    )
}

/// The extended attributes that were read.
pub open spec fn xattrs_of(xattrs: Result<Vec<XattrRead>, String>) -> Seq<XattrModel> {
    match xattrs {
        Ok(reads) => reads@.map_values(|x: XattrRead| read_model(x)),
        Err(_) => Seq::empty(),
    }
}

/// The extended attributes of entries are looked at.
pub open spec fn xattrs_wanted(opts: LocalSourceSaveOptions) -> bool {
    opts.set_xattrs != Some(XattrOption::No)
}

/// The metadata that are stored of an entry.
pub open spec fn meta_of(
    opts: LocalSourceSaveOptions,
    info: EntryInfo,
    m: EntryMetadata,
) -> MetaModel {
    let mtime = time_of(m.modified);
    let atime_from = match opts.set_atime {
        Some(option) => option,
        None => TimeOption::Mtime,
    };
    let ctime_from = match opts.set_ctime {
        Some(option) => option,
        None => TimeOption::Yes,
    };
    let devid_for = match opts.set_devid {
        Some(option) => option,
        None => DevIdOption::Hardlink,
    };
    let common = MetaModel {
        mode: None,
        mtime,
        atime: atime_from.pick(time_of(m.accessed), mtime),
        ctime: ctime_from.pick(ctime_of(m), mtime),
        uid: None,
        gid: None,
        user: None,
        group: None,
        inode: 0,
        device_id: devid_for.pick(device_of(m), is_hardlink(m)),
        size: if m.is_dir {
            0
        } else {
            m.len
        },
        links: 0,
        extended_attributes: if xattrs_wanted(opts) {
            xattrs_of(info.xattrs)
        } else {
            Seq::empty()
        },
        generic_attributes: attributes_model(info.windows),
    };
    match m.platform {
        PlatformMetadata::Unix(u) => MetaModel {
            mode: Some(u.mode),
            uid: Some(u.uid),
            gid: Some(u.gid),
            user: text_of(u.user),
            group: text_of(u.group),
            inode: u.ino,
            links: if m.is_dir {
                0
            } else {
                u.nlink
            },
            ..common
        },
        PlatformMetadata::Windows { .. } => common,
    }
}

/// The entry that is stored for what was found, if it becomes a node of type `node_type`. The
/// content of a reparse point is not read: the stored reparse data stand for it.
pub open spec fn stored_entry(
    opts: LocalSourceSaveOptions,
    info: EntryInfo,
    m: EntryMetadata,
    node_type: NodeTypeModel,
) -> EntryModel {
    EntryModel {
        path: info.path@,
        text: info.path.text@,
        node: fresh_node(info.name@, node_type, meta_of(opts, info, m)),
        open: if attributes_model(info.windows).contains_key(REPARSE_KEY@) {
            None
        } else {
            Some(OpenModel { parts: info.path@, text: info.path.text@, stream: None })
        },
    }
}

/// The entry that is stored for what was found, or why there is none: the metadata, the extended
/// attributes that are looked at, or the target of a link could not be read.
pub open spec fn mapping(opts: LocalSourceSaveOptions, info: EntryInfo) -> Result<
    EntryModel,
    ErrorModel,
> {
    match info.metadata {
        Err(cause) => Err(ErrorModel::AcquiringMetadataFailed(info.display_name@, cause@)),
        Ok(m) => if xattrs_wanted(opts) && xattr_failure(info.xattrs) is Some {
            Err(
                ErrorModel::ErrorXattr(
                    info.path@,
                    info.path.text@,
                    xattr_failure(info.xattrs)->0,
                ),
            )
        } else if m.is_dir {
            Ok(stored_entry(opts, info, m, NodeTypeModel::Dir))
        } else if m.is_symlink {
            match info.link {
                Ok(target) => Ok(stored_entry(opts, info, m, link_type(target))),
                Err(cause) => Err(ErrorModel::ErrorLink(info.path@, info.path.text@, cause@)),
            }
        } else {
            Ok(stored_entry(opts, info, m, other_type(opts, m)))
        },
    }
}

/// An entry is stored at the path at which it was found, and opened there if it is opened.
pub proof fn law_mapped_entries_keep_their_path(opts: LocalSourceSaveOptions, info: EntryInfo)
    ensures
        mapping(opts, info) matches Ok(entry) ==> entry.path == info.path@ && entry.text
            == info.path.text@,
        mapping(opts, info) matches Ok(entry) ==> (entry.open matches Some(open) ==> open.parts
            == info.path@ && open.text == info.path.text@ && open.stream is None),
{
}

/// The time is the one that lies `second` seconds and `nanosecond` nanoseconds behind the start of
/// 1970, or missing where there is no such point in time.
pub open spec fn is_moment(t: Option<Timestamp>, second: int, nanosecond: int) -> bool {
    if -377_705_023_201 <= second <= 253_402_207_200 && -999_999_999 <= nanosecond <= 999_999_999
        && second * 1_000_000_000 + nanosecond >= -377_705_023_201_000_000_000 {
        t matches Some(moment) && moment.nanosecond == second * 1_000_000_000 + nanosecond
    } else {
        t is None
    }
}

/// The time is the one that the platform gave, or missing where it gave none.
pub open spec fn is_given_time(t: Option<Timestamp>, given: Option<PlatformTime>) -> bool {
    match given {
        Some((second, nanosecond)) => is_moment(t, second as int, nanosecond as int),
        None => t is None,
    }
}

/// The optional text holds these characters.
pub open spec fn is_text(text: Option<Seq<char>>, given: Option<String>) -> bool {
    match given {
        Some(s) => text == Some(s@),
        None => text is None,
    }
}

/// Mode, owner, group, their names, and the inode number are stored as the system gave them, for
/// directories, links, devices and files alike. The number of links is stored of all but
/// directories. On Windows there are none of these.
pub proof fn law_owner_and_mode_are_stored_of_every_entry(
    opts: LocalSourceSaveOptions,
    info: EntryInfo,
)
    requires
        mapping(opts, info) is Ok,
    ensures
        info.metadata matches Ok(m) && {
            let meta = mapping(opts, info)->Ok_0.node.meta;
            match m.platform {
                PlatformMetadata::Unix(u) => {
                    &&& meta.mode == Some(u.mode)
                    &&& meta.uid == Some(u.uid)
                    &&& meta.gid == Some(u.gid)
                    &&& is_text(meta.user, u.user)
                    &&& is_text(meta.group, u.group)
                    &&& meta.inode == u.ino
                    &&& m.is_dir ==> meta.links == 0
                    &&& !m.is_dir ==> meta.links == u.nlink
                },
                PlatformMetadata::Windows { .. } => {
                    &&& meta.mode is None && meta.uid is None && meta.gid is None
                    &&& meta.user is None && meta.group is None
                    &&& meta.inode == 0 && meta.links == 0
                },
            }
        },
{
}

/// The length is stored of all but directories.
pub proof fn law_size_is_the_length(opts: LocalSourceSaveOptions, info: EntryInfo)
    requires
        mapping(opts, info) is Ok,
    ensures
        info.metadata matches Ok(m) && {
            let meta = mapping(opts, info)->Ok_0.node.meta;
            &&& m.is_dir ==> meta.size == 0
            &&& !m.is_dir ==> meta.size == m.len
        },
{
}

/// The modification time is stored as it was given. The access time is that time, unless the options
/// ask for the entry's own or for none. The change time, on Windows the time of creation, is the
/// entry's own, unless they ask for the modification time or for none.
pub proof fn law_times_come_from_where_the_options_say(
    opts: LocalSourceSaveOptions,
    info: EntryInfo,
)
    requires
        mapping(opts, info) is Ok,
    ensures
        info.metadata matches Ok(m) && {
            let meta = mapping(opts, info)->Ok_0.node.meta;
            &&& is_given_time(meta.mtime, m.modified)
            &&& opts.set_atime is None ==> meta.atime == meta.mtime
            &&& opts.set_atime == Some(TimeOption::Mtime) ==> meta.atime == meta.mtime
            &&& opts.set_atime == Some(TimeOption::Yes) ==> is_given_time(meta.atime, m.accessed)
            &&& opts.set_atime == Some(TimeOption::No) ==> meta.atime is None
            &&& opts.set_ctime == Some(TimeOption::Mtime) ==> meta.ctime == meta.mtime
            &&& opts.set_ctime == Some(TimeOption::No) ==> meta.ctime is None
            &&& opts.set_ctime is None || opts.set_ctime == Some(TimeOption::Yes) ==> match m.platform {
                PlatformMetadata::Unix(u) => is_moment(
                    meta.ctime,
                    u.ctime as int,
                    (u.ctime_nsec as i32) as int,
                ),
                PlatformMetadata::Windows { created } => is_given_time(meta.ctime, created),
            }
        },
{
}

/// The device number is stored as the options say: for all entries, for none, or, by default, for
/// those that are no directories and have more than one link. On Windows there is none.
pub proof fn law_device_is_stored_as_the_options_say(
    opts: LocalSourceSaveOptions,
    info: EntryInfo,
)
    requires
        mapping(opts, info) is Ok,
    ensures
        info.metadata matches Ok(m) && {
            let meta = mapping(opts, info)->Ok_0.node.meta;
            match m.platform {
                PlatformMetadata::Unix(u) => {
                    &&& opts.set_devid == Some(DevIdOption::Yes) ==> meta.device_id == u.dev
                    &&& opts.set_devid == Some(DevIdOption::No) ==> meta.device_id == 0
                    &&& opts.set_devid is None || opts.set_devid == Some(DevIdOption::Hardlink) ==> {
                        &&& u.nlink > 1 && !m.is_dir ==> meta.device_id == u.dev
                        &&& u.nlink <= 1 || m.is_dir ==> meta.device_id == 0
                    }
                },
                PlatformMetadata::Windows { .. } => meta.device_id == 0,
            }
        },
{
}

/// Every extended attribute that was listed is stored, under its name and with its value, in the
/// order of the list, unless the options ask for none.
pub proof fn law_extended_attributes_are_stored_one_by_one(
    opts: LocalSourceSaveOptions,
    info: EntryInfo,
)
    requires
        mapping(opts, info) is Ok,
    ensures
        opts.set_xattrs == Some(XattrOption::No) ==> mapping(
            opts,
            info,
        )->Ok_0.node.meta.extended_attributes.len() == 0,
        opts.set_xattrs != Some(XattrOption::No) ==> (info.xattrs matches Ok(reads) && {
            let stored = mapping(opts, info)->Ok_0.node.meta.extended_attributes;
            &&& stored.len() == reads@.len()
            &&& forall|i: int|
                0 <= i < reads@.len() ==> {
                    &&& (#[trigger] stored[i]).0 == reads@[i].name@
                    &&& match reads@[i].value {
                        Ok(Some(bytes)) => stored[i].1 == Some(bytes@),
                        Ok(None) => stored[i].1 is None,
                        Err(_) => false,
                    }
                }
        }),
{
    if opts.set_xattrs != Some(XattrOption::No) {
        let reads = info.xattrs->Ok_0@;
        assert forall|i: int| 0 <= i < reads.len() implies (#[trigger] reads[i]).value is Ok by {
            lemma_no_unread(reads, i);
        }
    }
}

proof fn lemma_no_unread(reads: Seq<XattrRead>, i: int)
    requires
        first_unread(reads) is None,
        0 <= i < reads.len(),
    ensures
        reads[i].value is Ok,
    decreases reads.len(),
{
    if i > 0 {
        assert(reads.skip(1)[i - 1] == reads[i]);
        lemma_no_unread(reads.skip(1), i - 1);
    }
}

proof fn lemma_first_unread(reads: Seq<XattrRead>, i: int)
    requires
        0 <= i < reads.len(),
        reads[i].value is Err,
        forall|k: int| 0 <= k < i ==> (#[trigger] reads[k]).value is Ok,
    ensures
        first_unread(reads) == Some(reads[i].value->Err_0@),
    decreases reads.len(),
{
    if i > 0 {
        let rest = reads.skip(1);
        assert(reads[0].value is Ok);
        assert forall|k: int| 0 <= k < i - 1 implies (#[trigger] rest[k]).value is Ok by {
            assert(rest[k] == reads[k + 1]);
        }
        assert(rest[i - 1] == reads[i]);
        lemma_first_unread(rest, i - 1);
    }
}

/// The name, the type and what a node starts with: a directory is stored as one, a link with its
/// target, everything else on Windows as a file, and on a Unix system as the kind of device, pipe or
/// socket that it is, with the number of the device. Only a block device can be stored as a file
/// instead.
pub proof fn law_type_is_stored_as_found(opts: LocalSourceSaveOptions, info: EntryInfo)
    requires
        mapping(opts, info) is Ok,
    ensures
        mapping(opts, info)->Ok_0.node.name == info.name@,
        mapping(opts, info)->Ok_0.node.content is None,
        mapping(opts, info)->Ok_0.node.subtree is None,
        info.metadata matches Ok(m) && {
            let kind = mapping(opts, info)->Ok_0.node.node_type;
            &&& kind is Dir <==> m.is_dir
            &&& kind is Symlink <==> !m.is_dir && m.is_symlink
            &&& kind matches NodeTypeModel::Symlink(text, raw) ==> (info.link matches Ok(target)
                && text == target.text@ && match target.raw {
                Some(bytes) => raw == Some(bytes@),
                None => raw is None,
            })
            &&& !m.is_dir && !m.is_symlink ==> match m.platform {
                PlatformMetadata::Windows { .. } => kind is File,
                PlatformMetadata::Unix(u) => {
                    &&& m.is_block_device && opts.set_blockdev != Some(BlockdevOption::File) ==> kind
                        == NodeTypeModel::Dev(u.rdev)
                    &&& m.is_block_device && opts.set_blockdev == Some(BlockdevOption::File)
                        ==> kind is File
                    &&& !m.is_block_device && m.is_char_device ==> kind == NodeTypeModel::Chardev(
                        u.rdev,
                    )
                    &&& !m.is_block_device && !m.is_char_device && m.is_fifo ==> kind is Fifo
                    &&& !m.is_block_device && !m.is_char_device && !m.is_fifo && m.is_socket
                        ==> kind is Socket
                    &&& !m.is_block_device && !m.is_char_device && !m.is_fifo && !m.is_socket
                        ==> kind is File
                },
            }
        },
{
}

/// Windows told that the entry is a reparse point, and gave its data.
pub open spec fn told_reparse(info: EntryInfo) -> bool {
    info.windows matches Some(w) && w.is_reparse_point == Some(true) && (w.reparse matches Some(
        (_, body),
    ) && body@.len() > 0)
}

/// An entry is opened at its path, and only a reparse point whose data are stored is not opened.
pub proof fn law_entries_are_opened_where_they_were_found(
    opts: LocalSourceSaveOptions,
    info: EntryInfo,
)
    requires
        mapping(opts, info) is Ok,
    ensures
        mapping(opts, info)->Ok_0.path == info.path@,
        mapping(opts, info)->Ok_0.text == info.path.text@,
        mapping(opts, info)->Ok_0.open is None <==> told_reparse(info),
        mapping(opts, info)->Ok_0.open matches Some(open) ==> {
            &&& open.parts == info.path@
            &&& open.text == info.path.text@
            &&& open.stream is None
        },
{
    law_stored_attributes_are_those_told(opts, info);
}

/// What Windows told of an entry is stored under these names, each item by itself and as it was told,
/// and nothing else is. Of a sparse file all allocated ranges are stored, and of a reparse point the
/// tag and all the data, if there are any.
pub proof fn law_stored_attributes_are_those_told(opts: LocalSourceSaveOptions, info: EntryInfo)
    requires
        mapping(opts, info) is Ok,
    ensures
        ({
            let stored = mapping(opts, info)->Ok_0.node.meta.generic_attributes;
            &&& info.windows is None ==> stored.dom() =~= Set::<Seq<char>>::empty()
            &&& forall|k: Seq<char>| #[trigger]
                stored.contains_key(k) ==> k == "windows.creation_time"@ || k
                    == "windows.file_attributes"@ || k == "windows.security_descriptor"@ || k
                    == "windows.sparse_extents"@ || k == "windows.reparse_point"@
            &&& stored.contains_key("windows.reparse_point"@) <==> told_reparse(info)
            &&& info.windows matches Some(w) ==> {
                &&& stored.contains_key("windows.creation_time"@) <==> w.file_attributes is Some
                &&& stored.contains_key("windows.file_attributes"@) <==> w.file_attributes is Some
                &&& w.file_attributes matches Some((bits, created)) ==> {
                    &&& stored["windows.file_attributes"@] == ValueModel::U32(bits)
                    &&& stored["windows.creation_time"@] == ValueModel::CreationTime(
                        created.high_date_time * 0x1_0000_0000 + created.low_date_time,
                    )
                }
                &&& stored.contains_key("windows.security_descriptor"@)
                    <==> w.security_descriptor is Some
                &&& w.security_descriptor matches Some(sd)
                    ==> stored["windows.security_descriptor"@] == ValueModel::String(sd@)
                &&& stored.contains_key("windows.sparse_extents"@) <==> w.is_sparse == Some(true)
                    && (w.allocated matches Some(ranges) && ranges@.len() > 0)
                &&& stored.contains_key("windows.sparse_extents"@) ==> {
                    let given = w.allocated->0@;
                    stored["windows.sparse_extents"@] matches ValueModel::SparseExtents(list) && {
                        &&& list.len() == given.len()
                        &&& forall|i: int|
                            0 <= i < given.len() ==> (#[trigger] list[i]).0 == given[i].0
                                && list[i].1 == given[i].1
                    }
                }
                &&& stored.contains_key("windows.reparse_point"@)
                    ==> stored["windows.reparse_point"@] == ValueModel::ReparsePoint(
                    (w.reparse->0).0,
                    base64_text((w.reparse->0).1@),
                )
            }
        }),
{
    lemma_keys_differ();
    if let Some(w) = info.windows {
        law_attributes_are_stored_one_by_one(w);
        if let Some(ranges) = w.allocated {
            assert(forall|i: int|
                0 <= i < ranges@.len() ==> (#[trigger] ints(ranges@)[i]).0 == ranges@[i].0
                    && ints(ranges@)[i].1 == ranges@[i].1);
        }
    }
}

/// Some extended attribute that the options ask for could not be read, or they could not be listed.
pub open spec fn misses_attributes(opts: LocalSourceSaveOptions, info: EntryInfo) -> bool {
    opts.set_xattrs != Some(XattrOption::No) && match info.xattrs {
        Err(_) => true,
        Ok(reads) => exists|i: int| 0 <= i < reads@.len() && (#[trigger] reads@[i]).value is Err,
    }
}

/// Mapping fails exactly if the metadata, the extended attributes that the options ask for, or the
/// target of a link could not be read. The first of these that failed is the error, with the entry
/// and the cause. Of several attributes that could not be read the first one counts.
pub proof fn law_mapping_fails_only_for_what_could_not_be_read(
    opts: LocalSourceSaveOptions,
    info: EntryInfo,
    i: int,
)
    ensures
        mapping(opts, info) is Ok <==> (info.metadata matches Ok(m) && !misses_attributes(opts, info)
            && (m.is_symlink && !m.is_dir ==> info.link is Ok)),
        info.metadata matches Err(cause) ==> mapping(opts, info) == Err::<EntryModel, ErrorModel>(
            ErrorModel::AcquiringMetadataFailed(info.display_name@, cause@),
        ),
        info.metadata is Ok && opts.set_xattrs != Some(XattrOption::No) ==> (
        info.xattrs matches Err(cause) ==> mapping(opts, info) == Err::<EntryModel, ErrorModel>(
            ErrorModel::ErrorXattr(info.path@, info.path.text@, cause@),
        )),
        info.metadata is Ok && opts.set_xattrs != Some(XattrOption::No) ==> (
        info.xattrs matches Ok(reads) ==> (0 <= i < reads@.len() && (forall|k: int|
            0 <= k < i ==> (#[trigger] reads@[k]).value is Ok) ==> (
        reads@[i].value matches Err(cause) ==> mapping(opts, info) == Err::<
            EntryModel,
            ErrorModel,
        >(ErrorModel::ErrorXattr(info.path@, info.path.text@, cause@))))),
        info.metadata matches Ok(m) && !misses_attributes(opts, info) && m.is_symlink && !m.is_dir
            ==> (info.link matches Err(cause) ==> mapping(opts, info) == Err::<
            EntryModel,
            ErrorModel,
        >(ErrorModel::ErrorLink(info.path@, info.path.text@, cause@))),
{
    if let Ok(reads) = info.xattrs {
        lemma_unread(reads@);
        if 0 <= i < reads@.len() && (forall|k: int|
            0 <= k < i ==> (#[trigger] reads@[k]).value is Ok) && reads@[i].value is Err {
            lemma_first_unread(reads@, i);
        }
    }
}

proof fn lemma_unread(reads: Seq<XattrRead>)
    ensures
        first_unread(reads) is Some <==> exists|i: int|
            0 <= i < reads.len() && (#[trigger] reads[i]).value is Err,
    decreases reads.len(),
{
    if reads.len() > 0 {
        let rest = reads.skip(1);
        lemma_unread(rest);
        if exists|i: int| 0 <= i < rest.len() && (#[trigger] rest[i]).value is Err {
            let i = choose|i: int| 0 <= i < rest.len() && (#[trigger] rest[i]).value is Err;
            assert(reads[i + 1].value is Err);
        }
        if exists|i: int| 0 <= i < reads.len() && (#[trigger] reads[i]).value is Err {
            let i = choose|i: int| 0 <= i < reads.len() && (#[trigger] reads[i]).value is Err;
            if i > 0 {
                assert(rest[i - 1].value is Err);
            }
        }
    }
}

impl LocalSourceSaveOptions {
    fn ctime(m: &EntryMetadata) -> (r: Option<Timestamp>)
        ensures
            r == ctime_of(*m),
    {
        match &m.platform {
            PlatformMetadata::Unix(u) => Timestamp::new(u.ctime, u.ctime_nsec as i32),
            PlatformMetadata::Windows { created } => read_time(*created),
        }
    }

    fn device_id(m: &EntryMetadata) -> (r: u64)
        ensures
            r == device_of(*m),
    {
        match &m.platform {
            PlatformMetadata::Unix(u) => u.dev,
            PlatformMetadata::Windows { .. } => 0,
        }
    }

    fn hardlink(m: &EntryMetadata) -> (r: bool)
        ensures
            r == is_hardlink(*m),
    {
        match &m.platform {
            PlatformMetadata::Unix(u) => u.nlink > 1 && !m.is_dir,
            PlatformMetadata::Windows { .. } => false,
        }
    }

    /// Numbers and names of owner and group, as far as the platform has them.
    fn user_group(m: &EntryMetadata) -> (r: (
        Option<u32>,
        Option<String>,
        Option<u32>,
        Option<String>,
    ))
        ensures
            match m.platform {
                PlatformMetadata::Unix(u) => {
                    &&& r.0 == Some(u.uid)
                    &&& text_of(r.1) == text_of(u.user)
                    &&& r.2 == Some(u.gid)
                    &&& text_of(r.3) == text_of(u.group)
                },
                PlatformMetadata::Windows { .. } => {
                    &&& r.0 is None
                    &&& r.1 is None
                    &&& r.2 is None
                    &&& r.3 is None
                },
            },
    {
        match &m.platform {
            PlatformMetadata::Unix(u) => {
                let user: Option<String> = match &u.user {
                    Some(name) => Some(name.clone()),
                    None => None,
                };
                let group: Option<String> = match &u.group {
                    Some(name) => Some(name.clone()),
                    None => None,
                };
                (Some(u.uid), user, Some(u.gid), group)
            },
            PlatformMetadata::Windows { .. } => (None, None, None, None),
        }
    }

    /// Mode, inode number and number of links, as far as the platform has them.
    fn nix_infos(m: &EntryMetadata) -> (r: (Option<u32>, u64, u64))
        ensures
            r == match m.platform {
                PlatformMetadata::Unix(u) => (
                    Some(u.mode),
                    u.ino,
                    if m.is_dir {
                        0
                    } else {
                        u.nlink
                    },
                ),
                PlatformMetadata::Windows { .. } => (None, 0, 0),
            },
    {
        match &m.platform {
            PlatformMetadata::Unix(u) => (
                Some(u.mode),
                u.ino,
                if m.is_dir {
                    0
                } else {
                    u.nlink
                },
            ),
            PlatformMetadata::Windows { .. } => (None, 0, 0),
        }
    }

    /// The extended attributes of the entry at `path`. The first one that could not be read, or
    /// the failure to list them, is the error.
    pub fn xattrs(path: &SourcePath, read: &Result<Vec<XattrRead>, String>) -> (r: Result<
        Vec<ExtendedAttribute>,
        IgnoreErrorKind,
    >)
        ensures
            match xattr_failure(*read) {
                None => r matches Ok(list) && xattrs_model(list@) == xattrs_of(*read),
                Some(cause) => r matches Err(e) && e@ == ErrorModel::ErrorXattr(
                    path@,
                    path.text@,
                    cause,
                ),
            },
    {
        match read {
            Err(cause) => Err(
                IgnoreErrorKind::ErrorXattr { path: path.duplicate(), source: cause.clone() },
            ),
            Ok(reads) => {
                let mut list: Vec<ExtendedAttribute> = Vec::new();
                let mut i: usize = 0;
                assert(reads@.skip(0) =~= reads@);
                while i < reads.len()
                    invariant
                        *read == Ok::<Vec<XattrRead>, String>(*reads),
                        i <= reads@.len(),
                        list@.len() == i,
                        first_unread(reads@) == first_unread(reads@.skip(i as int)),
                        forall|k: int| 0 <= k < i ==> (#[trigger] list@[k])@ == read_model(reads@[k]),
                    decreases reads.len() - i,
                {
                    let x: &XattrRead = &reads[i];
                    assert(reads@.skip(i as int)[0] == *x);
                    assert(reads@.skip(i as int).skip(1) =~= reads@.skip(i + 1));
                    match &x.value {
                        Ok(value) => {
                            list.push(
                                ExtendedAttribute { name: x.name.clone(), value: copy_bytes(value) },
                            );
                        },
                        Err(cause) => {
                            return Err(
                                IgnoreErrorKind::ErrorXattr {
                                    path: path.duplicate(),
                                    source: cause.clone(),
                                },
                            );
                        },
                    }
                    i = i + 1;
                }
                assert(xattrs_model(list@) =~= xattrs_of(*read));
                Ok(list)
            },
        }
    }

    /// The attributes that are stored of a file; off Windows there are none.
    pub fn generic_attributes(windows: &Option<WindowsAttributes>) -> (r: AttributeMap)
        requires
            *windows matches Some(w) ==> w.encodable(),
        ensures
            r@ == attributes_model(*windows),
    {
        let mut m: AttributeMap = AttributeMap::new();
        let w: &WindowsAttributes = match windows {
            Some(w) => w,
            None => {
                return m;
            },
        };
        if let Some((bits, created)) = &w.file_attributes {
            m.insert(CREATION_TIME_KEY.to_owned(), GenericAttributeValue::CreationTime(*created));
            m.insert(FILE_ATTRIBUTES_KEY.to_owned(), GenericAttributeValue::U32(*bits));
        }
        if let Some(sd) = &w.security_descriptor {
            m.insert(SD_KEY.to_owned(), GenericAttributeValue::String(sd.clone()));
        }
        if let Some(true) = w.is_sparse {
            if let Some(ranges) = &w.allocated {
                if ranges.len() > 0 {
                    m.insert(
                        SPARSE_KEY.to_owned(),
                        GenericAttributeValue::SparseExtents(range_pairs(ranges)),
                    );
                }
            }
        }
        if let Some(true) = w.is_reparse_point {
            if let Some((tag, body)) = &w.reparse {
                if body.len() > 0 {
                    let data: String = encode(body.as_slice());
                    m.insert(
                        REPARSE_KEY.to_owned(),
                        GenericAttributeValue::ReparsePoint(ReparseBlob { tag: *tag, data }),
                    );
                }
            }
        }
        m
    }

    /// The node of an entry that is neither directory nor link.
    fn to_node_other(self, name: String, m: &EntryMetadata, meta: Metadata) -> (r: Node)
        ensures
            r@ == fresh_node(name@, other_type(self, *m), meta@),
    {
        match &m.platform {
            PlatformMetadata::Unix(u) => {
                if m.is_block_device {
                    let as_file: bool = match self.set_blockdev {
                        Some(BlockdevOption::File) => true,
                        _ => false,
                    };
                    if as_file {
                        Node::new_node(name, NodeType::File, meta)
                    } else {
                        Node::new_node(name, NodeType::Dev { device: u.rdev }, meta)
                    }
                } else if m.is_char_device {
                    Node::new_node(name, NodeType::Chardev { device: u.rdev }, meta)
                } else if m.is_fifo {
                    Node::new_node(name, NodeType::Fifo, meta)
                } else if m.is_socket {
                    Node::new_node(name, NodeType::Socket, meta)
                } else {
                    Node::new_node(name, NodeType::File, meta)
                }
            },
            PlatformMetadata::Windows { .. } => Node::new_node(name, NodeType::File, meta),
        }
    }

    /// The node of an entry. A link whose target could not be read is an error.
    fn to_node(
        self,
        name: String,
        path: &SourcePath,
        link: Result<LinkTarget, String>,
        m: &EntryMetadata,
        meta: Metadata,
    ) -> (r: Result<Node, IgnoreErrorKind>)
        ensures
            m.is_dir ==> (r matches Ok(node) && node@ == fresh_node(
                name@,
                NodeTypeModel::Dir,
                meta@,
            )),
            !m.is_dir && m.is_symlink ==> match link {
                Ok(target) => r matches Ok(node) && node@ == fresh_node(
                    name@,
                    link_type(target),
                    meta@,
                ),
                Err(cause) => r matches Err(e) && e@ == ErrorModel::ErrorLink(
                    path@,
                    path.text@,
                    cause@,
                ),
            },
            !m.is_dir && !m.is_symlink ==> (r matches Ok(node) && node@ == fresh_node(
                name@,
                other_type(self, *m),
                meta@,
            )),
    {
        if m.is_dir {
            Ok(Node::new_node(name, NodeType::Dir, meta))
        } else if m.is_symlink {
            match link {
                Err(source) => Err(IgnoreErrorKind::ErrorLink { path: path.duplicate(), source }),
                Ok(target) => {
                    let node_type = NodeType::Symlink {
                        linktarget: target.text,
                        linktarget_raw: target.raw,
                    };
                    Ok(Node::new_node(name, node_type, meta))
                },
            }
        } else {
            Ok(self.to_node_other(name, m, meta))
        }
    }

    /// Tells whether the extended attributes of entries are looked at.
    pub fn wants_xattrs(self) -> (r: bool)
        ensures
            r == xattrs_wanted(self),
    {
        match self.set_xattrs {
            Some(XattrOption::No) => false,
            _ => true,
        }
    }

    /// Maps an entry of a walk to the node that is stored for it.
    ///
    /// It fails where the metadata, the extended attributes or the target of a link could not be
    /// read. The content of a reparse point is not read: the stored reparse data stand for it.
    pub fn map_entry(self, info: EntryInfo) -> (r: Result<ReadSourceEntry, IgnoreErrorKind>)
        requires
            info.windows matches Some(w) ==> w.encodable(),
        ensures
            mapped_model(r) == mapping(self, info),
    {
        let m: EntryMetadata = match info.metadata {
            Err(source) => {
                return Err(
                    IgnoreErrorKind::AcquiringMetadataFailed { name: info.display_name, source },
                );
            },
            Ok(m) => m,
        };
        let mtime: Option<Timestamp> = read_time(m.modified);
        let atime_from: TimeOption = match self.set_atime {
            Some(option) => option,
            None => TimeOption::Mtime,
        };
        let atime: Option<Timestamp> = atime_from.choose_time(read_time(m.accessed), mtime);
        let ctime_from: TimeOption = match self.set_ctime {
            Some(option) => option,
            None => TimeOption::Yes,
        };
        let ctime: Option<Timestamp> = ctime_from.choose_time(Self::ctime(&m), mtime);
        let (uid, user, gid, group): (
            Option<u32>,
            Option<String>,
            Option<u32>,
            Option<String>,
        ) = Self::user_group(&m);
        let size: u64 = if m.is_dir {
            0
        } else {
            m.len
        };
        let devid_for: DevIdOption = match self.set_devid {
            Some(option) => option,
            None => DevIdOption::Hardlink,
        };
        let device_id: u64 = devid_for.choose_device(Self::device_id(&m), Self::hardlink(&m));
        let extended_attributes: Vec<ExtendedAttribute> = if self.wants_xattrs() {
            match Self::xattrs(&info.path, &info.xattrs) {
                Ok(list) => list,
                Err(e) => {
                    return Err(e);
                },
            }
        } else {
            Vec::new()
        };
        let (mode, inode, links): (Option<u32>, u64, u64) = Self::nix_infos(&m);
        let generic_attributes: AttributeMap = Self::generic_attributes(&info.windows);
        let meta = Metadata {
            mode,
            mtime,
            atime,
            ctime,
            uid,
            gid,
            user,
            group,
            inode,
            device_id,
            size,
            links,
            extended_attributes,
            generic_attributes,
        };
        proof {
            let wanted = if xattrs_wanted(self) {
                xattrs_of(info.xattrs)
            } else {
                Seq::empty()
            };
            assert(xattrs_model(meta.extended_attributes@) =~= wanted);
            assert(meta@ =~= meta_of(self, info, m));
        }
        let node: Node = match self.to_node(info.name, &info.path, info.link, &m, meta) {
            Ok(node) => node,
            Err(e) => {
                return Err(e);
            },
        };
        let is_reparse_host: bool = node.meta.generic_attributes.contains_key(REPARSE_KEY);
        let open: Option<OpenFile> = if is_reparse_host {
            None
        } else {
            Some(OpenFile::new(info.path.duplicate()))
        };
        Ok(ReadSourceEntry { path: info.path, node, open })
    }
}

/// The node of the alternate data stream `stream` of `host`.
pub open spec fn sibling_model(host: NodeModel, stream: Seq<char>, size: u64) -> NodeModel {
    fresh_node(
        host.name + seq![':'] + stream,
        NodeTypeModel::File,
        MetaModel { size, generic_attributes: Map::empty(), ..host.meta },
    )
}

/// A stream is stored as a file under the name of its file, a colon and its own name, with its own
/// size. It has no platform-specific attributes, and everything else is as with its file.
pub proof fn law_streams_have_the_metadata_of_their_file(
    host: NodeModel,
    stream: Seq<char>,
    size: u64,
)
    ensures
        ({
            let node = sibling_model(host, stream, size);
            &&& node.name == host.name + seq![':'] + stream
            &&& node.node_type is File
            &&& node.content is None && node.subtree is None
            &&& node.meta.size == size
            &&& node.meta.generic_attributes.dom() =~= Set::<Seq<char>>::empty()
            &&& node.meta.mode == host.meta.mode
            &&& node.meta.mtime == host.meta.mtime
            &&& node.meta.atime == host.meta.atime
            &&& node.meta.ctime == host.meta.ctime
            &&& node.meta.uid == host.meta.uid && node.meta.gid == host.meta.gid
            &&& node.meta.user == host.meta.user && node.meta.group == host.meta.group
            &&& node.meta.inode == host.meta.inode
            &&& node.meta.device_id == host.meta.device_id
            &&& node.meta.links == host.meta.links
            &&& node.meta.extended_attributes == host.meta.extended_attributes
        }),
{
}

/// The node of an alternate data stream. It stands beside the node of its file, under the name of
/// the file and that of the stream, and has the metadata of the file but for its own size. The
/// platform-specific attributes stay with the file.
pub fn ads_sibling_node(host: &Node, stream_name: &AdsName, stream_size: u64) -> (r: Node)
    ensures
        r@ == sibling_model(host@, stream_name@, stream_size),
{
    let mut name: String = host.name.clone();
    name.append(":");
    name.append(stream_name.as_str());
    proof {
        reveal_strlit(":");
        assert(":"@ =~= seq![':']);
        assert(name@ =~= host.name@ + seq![':'] + stream_name@);
    }
    let meta: Metadata = host.meta.with(stream_size, AttributeMap::new());
    Node::new_node(name, NodeType::File, meta)
}

/// What an entry holds is what its fields hold, and what mapping gave is the entry or the error.
pub proof fn law_entry_model_is_the_entry(
    entry: ReadSourceEntry,
    r: Result<ReadSourceEntry, IgnoreErrorKind>,
)
    ensures
        entry@.path == entry.path@,
        entry@.text == entry.path.text@,
        entry@.node == entry.node@,
        match entry.open {
            Some(open) => entry@.open == Some(open@),
            None => entry@.open is None,
        },
        match r {
            Ok(own) => mapped_model(r) == Ok::<EntryModel, ErrorModel>(own@),
            Err(e) => mapped_model(r) == Err::<EntryModel, ErrorModel>(e@),
        },
{
}

} // verus!

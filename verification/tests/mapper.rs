use local_source::error::{EntryError, IgnoreErrorKind};
use local_source::generic_attributes::{GenericAttributeValue, WindowsFiletime};
use local_source::mapper::{
    ads_sibling_node, BlockdevOption, EntryInfo, EntryMetadata, LinkTarget,
    LocalSourceSaveOptions, PlatformMetadata, UnixMetadata, WindowsAttributes, XattrRead,
};
use local_source::node::{DevIdOption, NodeType, TimeOption, XattrOption};
use local_source::path::{PathPart, SourcePath};
use local_source::time::Timestamp;
use local_source::win_ads::AdsName;
use local_source::win_reparse::{IO_REPARSE_TAG_MOUNT_POINT, REPARSE_KEY};

fn path(text: &str) -> SourcePath {
    SourcePath {
        text: text.as_bytes().to_vec(),
        parts: text
            .split('/')
            .map(|p| PathPart::Normal(p.as_bytes().to_vec()))
            .collect(),
    }
}

fn unix(nlink: u64) -> PlatformMetadata {
    PlatformMetadata::Unix(UnixMetadata {
        mode: 0o644,
        uid: 1000,
        gid: 100,
        user: Some("ada".to_string()),
        group: None,
        ino: 42,
        dev: 7,
        rdev: 9,
        nlink,
        ctime: 30,
        ctime_nsec: 5,
    })
}

fn metadata(platform: PlatformMetadata) -> EntryMetadata {
    EntryMetadata {
        is_dir: false,
        is_symlink: false,
        is_block_device: false,
        is_char_device: false,
        is_fifo: false,
        is_socket: false,
        len: 123,
        modified: Some((10, 1)),
        accessed: Some((20, 2)),
        platform,
    }
}

fn info(metadata: Result<EntryMetadata, String>) -> EntryInfo {
    EntryInfo {
        name: "file".to_string(),
        display_name: "file".to_string(),
        path: path("dir/file"),
        metadata,
        link: Err("no link".to_string()),
        xattrs: Ok(vec![]),
        windows: None,
    }
}

fn nothing_read() -> WindowsAttributes {
    WindowsAttributes {
        file_attributes: None,
        security_descriptor: None,
        is_sparse: None,
        allocated: None,
        is_reparse_point: None,
        reparse: None,
    }
}

fn at(second: i128, nanosecond: i128) -> Option<Timestamp> {
    Some(Timestamp {
        nanosecond: second * 1_000_000_000 + nanosecond,
    })
}

#[test]
fn a_plain_file_keeps_what_the_system_tells() {
    let entry = LocalSourceSaveOptions::default().map_entry(info(Ok(metadata(unix(1))))).unwrap();
    assert_eq!(entry.path.text, b"dir/file");
    assert_eq!(entry.node.name, "file");
    assert!(matches!(entry.node.node_type, NodeType::File));
    let m = &entry.node.meta;
    assert_eq!((m.mode, m.uid, m.gid), (Some(0o644), Some(1000), Some(100)));
    assert_eq!((m.user.as_deref(), m.group.as_deref()), (Some("ada"), None));
    assert_eq!((m.inode, m.device_id, m.size, m.links), (42, 0, 123, 1));
    assert_eq!(m.mtime, at(10, 1));
    // The access time comes from the modification time unless asked for otherwise.
    assert_eq!(m.atime, at(10, 1));
    assert_eq!(m.ctime, at(30, 5));
    assert_eq!(m.generic_attributes.len(), 0);
    assert!(entry.node.content.is_none() && entry.node.subtree.is_none());
    assert_eq!(entry.open.unwrap().open(), b"dir/file");
}

#[test]
fn options_choose_times_and_devices() {
    let opts = LocalSourceSaveOptions::default()
        .set_atime(Some(TimeOption::Yes))
        .set_ctime(Some(TimeOption::No))
        .set_devid(Some(DevIdOption::Yes));
    let m = opts.map_entry(info(Ok(metadata(unix(1))))).unwrap().node.meta;
    assert_eq!((m.atime, m.ctime, m.device_id), (at(20, 2), None, 7));

    let opts = LocalSourceSaveOptions::default().set_ctime(Some(TimeOption::Mtime));
    let m = opts.map_entry(info(Ok(metadata(unix(2))))).unwrap().node.meta;
    // A hard link keeps its device by default.
    assert_eq!((m.ctime, m.device_id, m.links), (at(10, 1), 7, 2));

    let opts = LocalSourceSaveOptions::default().set_devid(Some(DevIdOption::No));
    let m = opts.map_entry(info(Ok(metadata(unix(2))))).unwrap().node.meta;
    assert_eq!(m.device_id, 0);
}

#[test]
fn directories_have_no_size_and_no_links() {
    let mut m = metadata(unix(5));
    m.is_dir = true;
    let node = LocalSourceSaveOptions::default().map_entry(info(Ok(m))).unwrap().node;
    assert!(matches!(node.node_type, NodeType::Dir));
    assert_eq!((node.meta.size, node.meta.links, node.meta.device_id), (0, 0, 0));
}

#[test]
fn special_files_keep_their_kind() {
    let kind = |set: fn(&mut EntryMetadata), opts: LocalSourceSaveOptions| {
        let mut m = metadata(unix(1));
        set(&mut m);
        opts.map_entry(info(Ok(m))).unwrap().node.node_type
    };
    let opts = LocalSourceSaveOptions::default();
    assert!(matches!(kind(|m| m.is_block_device = true, opts), NodeType::Dev { device: 9 }));
    assert!(matches!(
        kind(|m| m.is_block_device = true, opts.set_blockdev(Some(BlockdevOption::File))),
        NodeType::File
    ));
    assert!(matches!(
        kind(|m| m.is_block_device = true, opts.set_blockdev(Some(BlockdevOption::default()))),
        NodeType::Dev { device: 9 }
    ));
    assert!(matches!(kind(|m| m.is_char_device = true, opts), NodeType::Chardev { device: 9 }));
    assert!(matches!(kind(|m| m.is_fifo = true, opts), NodeType::Fifo));
    assert!(matches!(kind(|m| m.is_socket = true, opts), NodeType::Socket));
}

#[test]
fn links_keep_their_target() {
    let mut m = metadata(unix(1));
    m.is_symlink = true;
    let mut i = info(Ok(m));
    i.link = Ok(LinkTarget {
        text: "a/b".to_string(),
        raw: Some(vec![0xFF]),
    });
    match LocalSourceSaveOptions::default().map_entry(i).unwrap().node.node_type {
        NodeType::Symlink { linktarget, linktarget_raw } => {
            assert_eq!(linktarget, "a/b");
            assert_eq!(linktarget_raw, Some(vec![0xFF]));
        }
        other => panic!("unexpected {other:?}"),
    }
}

#[test]
fn unreadable_entries_are_errors() {
    match LocalSourceSaveOptions::default().map_entry(info(Err("denied".to_string()))) {
        Err(IgnoreErrorKind::AcquiringMetadataFailed { name, source }) => {
            assert_eq!((name.as_str(), source.as_str()), ("file", "denied"));
        }
        other => panic!("unexpected {other:?}"),
    }
    let mut m = metadata(unix(1));
    m.is_symlink = true;
    match LocalSourceSaveOptions::default().map_entry(info(Ok(m))) {
        Err(IgnoreErrorKind::ErrorLink { path, source }) => {
            assert_eq!((path.text.as_slice(), source.as_str()), (&b"dir/file"[..], "no link"));
            let e = EntryError::Mapping(IgnoreErrorKind::ErrorLink { path, source });
            assert_eq!(e.message(), "Failed to map Directory entry to ReadSourceEntry.");
        }
        other => panic!("unexpected {other:?}"),
    }
    assert_eq!(
        EntryError::Walk("x".to_string()).message(),
        "Failed to get next entry from walk iterator."
    );
}

#[test]
fn extended_attributes_are_all_or_none() {
    let read = |second: Result<Option<Vec<u8>>, String>| {
        Ok(vec![
            XattrRead { name: "user.a".to_string(), value: Ok(Some(vec![1])) },
            XattrRead { name: "user.b".to_string(), value: second },
        ])
    };
    let mut i = info(Ok(metadata(unix(1))));
    i.xattrs = read(Ok(None));
    let list = LocalSourceSaveOptions::default().map_entry(i).unwrap().node.meta.extended_attributes;
    assert_eq!(list.len(), 2);
    assert_eq!((list[0].name.as_str(), &list[0].value), ("user.a", &Some(vec![1])));
    assert_eq!((list[1].name.as_str(), &list[1].value), ("user.b", &None));

    match LocalSourceSaveOptions::xattrs(&path("p"), &read(Err("gone".to_string()))) {
        Err(IgnoreErrorKind::ErrorXattr { source, .. }) => assert_eq!(source, "gone"),
        other => panic!("unexpected {other:?}"),
    }
    match LocalSourceSaveOptions::xattrs(&path("p"), &Err("unlistable".to_string())) {
        Err(IgnoreErrorKind::ErrorXattr { path, source }) => {
            assert_eq!((path.text, source), (b"p".to_vec(), "unlistable".to_string()));
        }
        other => panic!("unexpected {other:?}"),
    }
    let mut i = info(Ok(metadata(unix(1))));
    i.xattrs = read(Err("gone".to_string()));
    assert!(matches!(
        LocalSourceSaveOptions::default().map_entry(i),
        Err(IgnoreErrorKind::ErrorXattr { source, .. }) if source == "gone"
    ));
    let mut i = info(Ok(metadata(unix(1))));
    i.xattrs = read(Err("gone".to_string()));
    let opts = LocalSourceSaveOptions::default().set_xattrs(Some(XattrOption::No));
    assert!(!opts.wants_xattrs());
    assert!(opts.map_entry(i).unwrap().node.meta.extended_attributes.is_empty());
}

#[test]
fn times_out_of_range_are_left_out() {
    let mut m = metadata(PlatformMetadata::Windows { created: Some((i64::MAX, 0)) });
    m.modified = Some((-377_705_023_202, 0));
    m.accessed = None;
    let meta = LocalSourceSaveOptions::default().map_entry(info(Ok(m))).unwrap().node.meta;
    assert_eq!((meta.mtime, meta.atime, meta.ctime), (None, None, None));
    assert_eq!(Timestamp::new(-377_705_023_201, 0), at(-377_705_023_201, 0));
    assert_eq!(Timestamp::new(-377_705_023_201, -1), None);
    assert_eq!(Timestamp::new(253_402_207_200, 999_999_999), at(253_402_207_200, 999_999_999));
    assert_eq!(Timestamp::new(253_402_207_201, 0), None);
    assert_eq!(Timestamp::new(2, -999_999_999), at(1, 1));
    assert_eq!(Timestamp::new(0, 1_000_000_000), None);
}

#[test]
fn windows_tells_no_owner_and_no_inode() {
    let m = metadata(PlatformMetadata::Windows { created: Some((5, 6)) });
    let meta = LocalSourceSaveOptions::default().map_entry(info(Ok(m))).unwrap().node.meta;
    assert_eq!((meta.mode, meta.uid, meta.gid), (None, None, None));
    assert_eq!((meta.inode, meta.links, meta.device_id), (0, 0, 0));
    assert_eq!(meta.ctime, at(5, 6));
}

#[test]
fn generic_attributes_omits_reparse_for_plain_files() {
    let told = WindowsAttributes {
        file_attributes: Some((0x20, WindowsFiletime { low_date_time: 1, high_date_time: 2 })),
        security_descriptor: Some("AQAEhA==".to_string()),
        is_sparse: Some(false),
        allocated: None,
        is_reparse_point: Some(false),
        reparse: Some((1, vec![1])),
    };
    let m = LocalSourceSaveOptions::generic_attributes(&Some(told));
    assert!(!m.contains_key(REPARSE_KEY));
    assert_eq!(m.len(), 3);
    assert_eq!(m.name_at(0), "windows.creation_time");
    assert_eq!(m.name_at(1), "windows.file_attributes");
    assert_eq!(m.name_at(2), "windows.security_descriptor");
    assert_eq!(m.value_at(1), &GenericAttributeValue::U32(0x20));
    assert_eq!(LocalSourceSaveOptions::generic_attributes(&None).len(), 0);
}

#[test]
fn generic_attributes_captures_a_junction_reparse_point() {
    let told = WindowsAttributes {
        is_reparse_point: Some(true),
        reparse: Some((IO_REPARSE_TAG_MOUNT_POINT, vec![0, 1, 2, 3])),
        ..nothing_read()
    };
    let m = LocalSourceSaveOptions::generic_attributes(&Some(told));
    match m.get(REPARSE_KEY) {
        Some(GenericAttributeValue::ReparsePoint(blob)) => {
            assert_eq!(blob.tag, IO_REPARSE_TAG_MOUNT_POINT);
            assert_eq!(blob.data, "AAECAw==");
        }
        other => panic!("expected ReparsePoint, got {other:?}"),
    }
    assert_eq!(m.len(), 1);
}

#[test]
fn sparse_extents_are_stored_where_there_are_any() {
    let told = |is_sparse, allocated| WindowsAttributes {
        is_sparse,
        allocated,
        ..nothing_read()
    };
    let m = LocalSourceSaveOptions::generic_attributes(&Some(told(Some(true), Some(vec![(0, 5), (9, 1)]))));
    assert_eq!(
        m.get("windows.sparse_extents"),
        Some(&GenericAttributeValue::SparseExtents(vec![[0, 5], [9, 1]]))
    );
    for (is_sparse, allocated) in [
        (Some(true), Some(vec![])),
        (Some(true), None),
        (Some(false), Some(vec![(0, 5)])),
        (None, Some(vec![(0, 5)])),
    ] {
        let m = LocalSourceSaveOptions::generic_attributes(&Some(told(is_sparse, allocated)));
        assert_eq!(m.len(), 0);
    }
}

#[test]
fn map_entry_sets_open_none_for_reparse_hosts() {
    let mut m = metadata(PlatformMetadata::Windows { created: None });
    m.is_dir = true;
    let mut i = info(Ok(m));
    i.windows = Some(WindowsAttributes {
        is_reparse_point: Some(true),
        reparse: Some((IO_REPARSE_TAG_MOUNT_POINT, vec![7])),
        ..nothing_read()
    });
    let rse = LocalSourceSaveOptions::default().map_entry(i).expect("map_entry on junction");
    assert!(rse.open.is_none(), "reparse-tagged host must have open=None");
    assert!(rse.node.meta.generic_attributes.contains_key(REPARSE_KEY));
    assert!(matches!(rse.node.node_type, NodeType::Dir));
}

#[test]
fn a_stream_stands_beside_its_file() {
    let mut i = info(Ok(metadata(unix(1))));
    i.windows = Some(WindowsAttributes {
        security_descriptor: Some("x".to_string()),
        ..nothing_read()
    });
    let host = LocalSourceSaveOptions::default().map_entry(i).unwrap().node;
    assert_eq!(host.meta.generic_attributes.len(), 1);
    let node = ads_sibling_node(&host, &AdsName::new("Zone.Identifier").unwrap(), 26);
    assert_eq!(node.name, "file:Zone.Identifier");
    assert!(matches!(node.node_type, NodeType::File));
    assert_eq!((node.meta.size, node.meta.mtime), (26, host.meta.mtime));
    assert_eq!(node.meta.user, host.meta.user);
    assert_eq!(node.meta.generic_attributes.len(), 0);
}

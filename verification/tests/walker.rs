use local_source::mapper::{
    EntryInfo, EntryMetadata, LocalSourceSaveOptions, PlatformMetadata, WindowsAttributes,
};
use local_source::path::{PathPart, SourcePath};
use local_source::source::{LocalSource, LocalSourceFilterOptions, WalkEntry, WalkResult};
use local_source::walker::{
    map_group, map_group_entry, map_group_streams, GroupStep, LocalSourceWalker, MappedGroup,
    WalkOutput, WalkerAction, NODE_BUILD_CHUNK,
};
use local_source::win_ads::AdsName;

#[derive(Clone)]
struct Item {
    path: String,
    depth: usize,
    is_dir: bool,
    junction: bool,
    streams: Option<Vec<(&'static str, u64)>>,
    failure: Option<&'static str>,
}

fn file(path: &str) -> Item {
    Item {
        path: path.to_string(),
        depth: path.matches('/').count(),
        is_dir: false,
        junction: false,
        streams: Some(vec![]),
        failure: None,
    }
}

fn dir(path: &str) -> Item {
    Item { is_dir: true, ..file(path) }
}

fn path(text: &str) -> SourcePath {
    SourcePath {
        text: text.as_bytes().to_vec(),
        parts: text
            .split('/')
            .map(|p| PathPart::Normal(p.as_bytes().to_vec()))
            .collect(),
    }
}

fn result(items: &[Item], number: usize) -> WalkResult {
    let item = &items[number];
    match item.failure {
        Some("walk") => Err("walk failed".to_string()),
        _ => Ok(WalkEntry {
            path: path(&item.path),
            depth: item.depth,
            is_dir: Some(item.is_dir),
            number,
        }),
    }
}

fn info(item: &Item) -> EntryInfo {
    let name = item.path.rsplit('/').next().unwrap().to_string();
    let metadata = match item.failure {
        Some("map") => Err("unreadable".to_string()),
        _ => Ok(EntryMetadata {
            is_dir: item.is_dir,
            is_symlink: false,
            is_block_device: false,
            is_char_device: false,
            is_fifo: false,
            is_socket: false,
            len: 1,
            modified: None,
            accessed: None,
            platform: PlatformMetadata::Windows { created: None },
        }),
    };
    EntryInfo {
        name: name.clone(),
        display_name: name,
        path: path(&item.path),
        metadata,
        link: Err(String::new()),
        xattrs: Ok(vec![]),
        windows: Some(WindowsAttributes {
            file_attributes: None,
            security_descriptor: None,
            is_sparse: None,
            allocated: None,
            is_reparse_point: Some(item.junction),
            reparse: Some((0xA000_0003, vec![1, 2, 3])),
        }),
    }
}

fn streams(item: &Item) -> Option<Vec<(AdsName, u64)>> {
    item.streams
        .as_ref()
        .map(|list| list.iter().map(|(n, s)| (AdsName::new(n).unwrap(), *s)).collect())
}

fn group(items: &[Item], number: usize) -> MappedGroup {
    let item = &items[number];
    let entry = match map_group(result(items, number)) {
        GroupStep::Done(group) => return group,
        GroupStep::Look(entry) => entry,
        other => panic!("unexpected {other:?}"),
    };
    match map_group_entry(LocalSourceSaveOptions::default(), entry.path, info(item)) {
        GroupStep::Done(group) => group,
        GroupStep::ListStreams(host) => map_group_streams(host, streams(item)),
        other => panic!("unexpected {other:?}"),
    }
}

fn show(output: WalkOutput) -> String {
    match output {
        Ok(entry) => {
            let opened = entry.open.map(|o| String::from_utf8(o.open()).unwrap());
            format!("{} as {} from {:?}", String::from_utf8(entry.path.text).unwrap(), entry.node.name, opened)
        }
        Err(e) => e.message().to_string(),
    }
}

/// Drives a walker over a walk with these items, with its own notion of what to do next.
fn drive(threads: usize, items: &[Item]) -> Vec<String> {
    let opts = LocalSourceSaveOptions::default().walker_threads(Some(threads));
    let source = LocalSource::new(opts, &LocalSourceFilterOptions::default(), &[path("root")]);
    let mut walker: LocalSourceWalker = source.entries(None);
    let mut out = vec![];
    let mut at = 0;
    let mut looked = 0;
    let mut action = walker.next();
    loop {
        action = match action {
            WalkerAction::Yield(output) => {
                out.push(show(output));
                walker.next()
            }
            WalkerAction::Pull => {
                let item = if at < items.len() { Some(result(items, at)) } else { None };
                at += 1;
                walker.pulled(item)
            }
            WalkerAction::PullChunk(most) => {
                let end = items.len().min(at + most);
                let groups = (at..end).map(|n| group(items, n)).collect();
                at = end;
                walker.chunk(groups)
            }
            WalkerAction::Look(entry) => {
                looked = entry.number;
                walker.found(info(&items[looked]))
            }
            WalkerAction::ListStreams(host) => walker.listed(host, streams(&items[looked])),
            WalkerAction::Done => return out,
        };
    }
}

fn fixture() -> Vec<Item> {
    let mut items = vec![dir("root")];
    for d in 0..50 {
        items.push(dir(&format!("root/dir_{d:02}")));
        for f in 0..20 {
            items.push(file(&format!("root/dir_{d:02}/file_{f:02}.bin")));
        }
    }
    items
}

fn shuffled(items: &[Item]) -> Vec<WalkResult> {
    // 577 and the number of items have no common divisor.
    assert_eq!(items.len() % 577 == 0, false);
    (0..items.len()).map(|i| result(items, i * 577 % items.len())).collect()
}

#[test]
fn parallel_walk_matches_single_thread_order() {
    let items = fixture();
    let sorted = LocalSource::sort_walk(shuffled(&items));
    let order: Vec<Item> = sorted.into_iter().map(|r| items[r.unwrap().number].clone()).collect();
    let serial = drive(1, &items);
    let parallel = drive(8, &order);
    assert_eq!(serial, parallel);
    assert!(serial.len() >= 1000);
    assert_eq!(serial[0], "root/dir_00 as dir_00 from Some(\"root/dir_00\")");
}

#[test]
fn failures_do_not_change_what_becomes_of_entries() {
    let failed = |cause| Item { failure: Some(cause), ..file("root/failed") };
    let mut items = vec![dir("root"), failed("walk"), file("root/a")];
    items.push(Item { junction: true, ..dir("root/b") });
    items.push(failed("walk"));
    items.push(file("root/b/inside"));
    items.push(Item { failure: Some("map"), ..file("root/c") });
    items.push(file("root/d"));
    let reversed = (0..items.len()).rev().map(|n| result(&items, n)).collect();
    let order: Vec<Item> = LocalSource::sort_walk(reversed)
        .into_iter()
        .map(|r| r.map_or_else(|_| failed("walk"), |e| items[e.number].clone()))
        .collect();
    let (serial, parallel) = (drive(1, &items), drive(8, &order));
    let walk_failure = "Failed to get next entry from walk iterator.";
    let entries = |out: &[String]| -> Vec<String> {
        out.iter().filter(|o| *o != walk_failure).cloned().collect()
    };
    assert_eq!((serial.len(), parallel.len()), (6, 6));
    assert_eq!((serial[0].as_str(), parallel[5].as_str()), (walk_failure, walk_failure));
    assert_eq!(entries(&serial), entries(&parallel));
    assert_eq!(entries(&serial)[0], "root/a as a from Some(\"root/a\")");
    assert_eq!(entries(&serial)[3], "root/d as d from Some(\"root/d\")");
}

#[test]
fn parallel_matches_single_thread_with_ads_and_junction() {
    let host = Item {
        streams: Some(vec![("adsname", 11), ("second", 0)]),
        ..file("root/host.txt")
    };
    let items = vec![
        dir("root"),
        host,
        Item { junction: true, ..dir("root/link") },
        file("root/link/inside.txt"),
        dir("root/link/sub"),
        file("root/link/sub/deep.txt"),
        file("root/link.txt"),
        dir("root/target"),
        file("root/target/inside.txt"),
    ];
    let serial = drive(1, &items);
    let parallel = drive(8, &items);
    assert_eq!(serial, parallel);
    assert_eq!(
        serial,
        vec![
            "root/host.txt as host.txt from Some(\"root/host.txt\")",
            "root/host.txt as host.txt:adsname from Some(\"root/host.txt:adsname:$DATA\")",
            "root/host.txt as host.txt:second from Some(\"root/host.txt:second:$DATA\")",
            "root/link as link from None",
            "root/link.txt as link.txt from Some(\"root/link.txt\")",
            "root/target as target from Some(\"root/target\")",
            "root/target/inside.txt as inside.txt from Some(\"root/target/inside.txt\")",
        ]
    );
}

#[test]
fn failures_stand_where_they_happened() {
    let items = vec![
        dir("root"),
        Item { failure: Some("map"), ..file("root/a") },
        Item { failure: Some("walk"), ..file("root/b") },
        Item { streams: None, ..file("root/c") },
    ];
    let serial = drive(1, &items);
    assert_eq!(serial, drive(4, &items));
    assert_eq!(
        serial,
        vec![
            "Failed to map Directory entry to ReadSourceEntry.",
            "Failed to get next entry from walk iterator.",
            "root/c as c from Some(\"root/c\")",
        ]
    );
}

#[test]
fn chunks_end_anywhere() {
    // More than two chunks, with a junction whose content runs over the end of the first.
    let mut items = vec![dir("root"), Item { junction: true, ..dir("root/a") }];
    for i in 0..NODE_BUILD_CHUNK {
        items.push(file(&format!("root/a/{i:05}")));
    }
    for i in 0..NODE_BUILD_CHUNK {
        items.push(file(&format!("root/b{i:05}")));
    }
    let serial = drive(1, &items);
    assert_eq!(serial.len(), 1 + NODE_BUILD_CHUNK);
    assert_eq!(serial, drive(2, &items));
}

#[test]
fn a_file_as_backup_path_is_stored() {
    let items = vec![file("alone")];
    assert_eq!(drive(1, &items), vec!["alone as alone from Some(\"alone\")"]);
    assert_eq!(drive(2, &items), drive(1, &items));
}

#[test]
fn backup_paths_themselves_are_not_stored() {
    let items = vec![dir("empty"), dir("full"), file("full/f"), dir("last")];
    assert_eq!(drive(1, &items), vec!["full/f as f from Some(\"full/f\")"]);
    assert_eq!(drive(2, &items), drive(1, &items));
}

#[test]
fn failures_are_sorted_behind_all_entries() {
    let results: Vec<WalkResult> = vec![
        Err("first".to_string()),
        Ok(WalkEntry { path: path("b/c"), depth: 1, is_dir: Some(false), number: 0 }),
        Err("second".to_string()),
        Ok(WalkEntry { path: path("b"), depth: 0, is_dir: Some(true), number: 1 }),
        Ok(WalkEntry { path: path("b.c"), depth: 0, is_dir: Some(false), number: 2 }),
    ];
    let shown: Vec<String> = LocalSource::sort_walk(results)
        .into_iter()
        .map(|r| match r {
            Ok(e) => String::from_utf8(e.path.text).unwrap(),
            Err(e) => e,
        })
        .collect();
    // Components are compared whole, so what is in `b` comes before `b.c`.
    assert_eq!(shown, vec!["b", "b/c", "b.c", "first", "second"]);
}

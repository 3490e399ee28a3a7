use local_source::mapper::LocalSourceSaveOptions;
use local_source::path::{PathPart, SourcePath};
use local_source::source::{walker_thread_count, LocalSource, LocalSourceFilterOptions};

fn path(text: &str) -> SourcePath {
    SourcePath {
        text: text.as_bytes().to_vec(),
        parts: vec![PathPart::Normal(text.as_bytes().to_vec())],
    }
}

fn source(threads: Option<usize>) -> LocalSource {
    LocalSource::new(
        LocalSourceSaveOptions::default().walker_threads(threads),
        &LocalSourceFilterOptions::default(),
        &[path("root")],
    )
}

#[test]
fn walker_thread_count_clamps() {
    // Auto path: in [1, 32].
    for available in [None, Some(1), Some(16), Some(500)] {
        let auto = walker_thread_count(None, available);
        assert!((1..=32).contains(&auto), "auto thread count out of bounds: {auto}");
    }
    assert_eq!(walker_thread_count(None, None), 1);
    assert_eq!(walker_thread_count(None, Some(16)), 16);
    assert_eq!(walker_thread_count(None, Some(500)), 32);

    // Explicit override is clamped to [1, 32].
    assert_eq!(walker_thread_count(Some(0), None), 1);
    assert_eq!(walker_thread_count(Some(1), None), 1);
    assert_eq!(walker_thread_count(Some(8), None), 8);
    assert_eq!(walker_thread_count(Some(32), None), 32);
    assert_eq!(walker_thread_count(Some(64), None), 32);
    assert_eq!(walker_thread_count(Some(usize::MAX), Some(4)), 32);
    assert_eq!(source(Some(8)).threads(Some(2)), 8);
    assert_eq!(source(None).threads(Some(2)), 2);
}

#[test]
fn parallel_size_matches_single_thread() {
    let mut reads = vec![];
    for _ in 0..50 {
        reads.push(Some((true, 4096)));
        for _ in 0..20 {
            reads.push(Some((false, 1)));
        }
    }
    let serial = source(Some(1)).size(&reads);
    reads.reverse();
    assert_eq!(serial, Some(1000));
    assert_eq!(source(Some(8)).size(&reads), serial);
}

#[test]
fn sizes_wrap_at_64_bits() {
    let reads = vec![Some((false, u64::MAX)), Some((true, 9)), Some((false, 3))];
    assert_eq!(source(None).size(&reads), Some(2));
    assert_eq!(source(None).size(&vec![]), Some(0));
}

#[test]
fn an_unreadable_entry_leaves_the_size_open() {
    for reads in [
        vec![None],
        vec![None, Some((false, 1))],
        vec![Some((false, 1)), Some((true, 9)), None],
    ] {
        assert_eq!(source(Some(1)).size(&reads), None);
        assert_eq!(source(Some(8)).size(&reads), None);
    }
}

#[test]
fn settings_follow_the_filter_options() {
    let plain = source(None);
    let s = plain.walk_settings();
    assert!(!s.follow_links && !s.hidden && !s.ignore && !s.git_ignore && !s.git_exclude);
    assert!(s.require_git && s.sort_by_path && !s.same_file_system);
    assert_eq!((s.max_filesize, s.custom_ignore_filenames.len(), s.roots.len()), (None, 0, 1));
    assert!(plain.entry_filter().is_none());

    let opts = LocalSourceFilterOptions {
        git_ignore: true,
        no_require_git: true,
        custom_ignorefiles: vec![".mine".to_string()],
        exclude_if_present: vec![],
        exclude_if_xattr: vec!["user.skip".to_string()],
        one_file_system: true,
        exclude_larger_than: Some(1024),
    };
    let set = LocalSource::new(LocalSourceSaveOptions::default(), &opts, &[path("a"), path("b")]);
    let s = set.walk_settings();
    assert!(s.git_ignore && s.git_exclude && !s.require_git && s.same_file_system);
    assert_eq!(s.max_filesize, Some(1024));
    assert_eq!(s.custom_ignore_filenames, vec![".mine".to_string()]);
    assert_eq!(s.roots[1].text, b"b");
    let f = set.entry_filter().unwrap();
    assert!(f.exclude_if_present.is_empty());
    assert_eq!(f.exclude_if_xattr, vec!["user.skip".to_string()]);
}

#[test]
fn markers_and_attributes_leave_entries_out() {
    let opts = LocalSourceFilterOptions {
        exclude_if_present: vec!["CACHEDIR.TAG".to_string()],
        exclude_if_xattr: vec!["user.skip".to_string(), "user.no".to_string()],
        ..LocalSourceFilterOptions::default()
    };
    let s = LocalSource::new(LocalSourceSaveOptions::default(), &opts, &[path("a")]);
    let f = s.entry_filter().unwrap();
    let none = Some(vec![]);
    assert!(f.looks_for_markers(Some(true)) && !f.looks_for_markers(Some(false)) && !f.looks_for_markers(None));
    assert!(f.looks_for_xattrs(true) && !f.looks_for_xattrs(false));
    assert!(!f.keeps(Some(true), true, true, &none));
    assert!(f.keeps(Some(true), false, true, &none));
    // Only known directories are left out for what is in them.
    assert!(f.keeps(Some(false), true, true, &none));
    assert!(f.keeps(None, true, true, &none));
    let marked = Some(vec![b"user.x".to_vec(), b"user.no".to_vec()]);
    assert!(!f.keeps(Some(false), false, true, &marked));
    assert!(f.keeps(Some(false), false, false, &marked));
    // Attributes that cannot be listed leave nothing out.
    assert!(f.keeps(Some(false), false, true, &None));
    assert!(f.keeps(Some(false), false, true, &Some(vec![b"user.nope".to_vec()])));
}

#[test]
fn backup_paths_are_walked_in_the_order_of_paths() {
    let made = |roots: &[SourcePath], threads| {
        LocalSource::new(
            LocalSourceSaveOptions::default().walker_threads(threads),
            &LocalSourceFilterOptions::default(),
            roots,
        )
    };
    let nested = |names: &[&str]| SourcePath {
        text: names.join("/").into_bytes(),
        parts: names.iter().map(|n| PathPart::Normal(n.as_bytes().to_vec())).collect(),
    };
    let s = made(&[path("b"), path("c"), path("a")], Some(1));
    let roots: Vec<_> = s.walk_settings().roots.iter().map(|r| r.text.clone()).collect();
    assert_eq!(roots, vec![b"a".to_vec(), b"b".to_vec(), b"c".to_vec()]);
    assert!(!s.needs_sorting(Some(8)));
    assert!(made(&[path("b"), path("a")], Some(2)).needs_sorting(None));
    // A tree that lies in another is come to twice.
    let s = made(&[nested(&["a", "x"]), path("ab"), path("a")], Some(1));
    let roots: Vec<_> = s.walk_settings().roots.iter().map(|r| r.text.clone()).collect();
    assert_eq!(roots, vec![b"a".to_vec(), b"a/x".to_vec(), b"ab".to_vec()]);
    assert!(s.needs_sorting(None));
    assert!(!made(&[nested(&["a", "x"]), nested(&["a", "y"])], Some(1)).needs_sorting(None));
}

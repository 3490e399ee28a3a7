use local_source::order::{compare_bytes, compare_text};
use local_source::path::{PathPart, SourcePath};
use local_source::sort::stable_sort;

fn path(parts: &[&str]) -> SourcePath {
    SourcePath {
        text: parts.join("/").into_bytes(),
        parts: parts
            .iter()
            .map(|p| match *p {
                "" => PathPart::RootDir,
                "." => PathPart::CurDir,
                ".." => PathPart::ParentDir,
                name => PathPart::Normal(name.as_bytes().to_vec()),
            })
            .collect(),
    }
}

#[test]
fn text_compares_by_code_point() {
    let texts = ["", "Z", "a", "ab", "b", "z", "é", "\u{FFFD}", "😀"];
    for (i, a) in texts.iter().enumerate() {
        for (j, b) in texts.iter().enumerate() {
            let sign = compare_text(a, b);
            assert_eq!(sign.cmp(&0), i.cmp(&j));
            assert_eq!(sign.cmp(&0), a.cmp(b));
            assert_eq!(compare_bytes(a.as_bytes(), b.as_bytes()), sign);
        }
    }
}

#[test]
fn paths_compare_by_whole_components() {
    let paths = [
        path(&["", "a"]),
        path(&["", "a", "x"]),
        path(&["", "a.b"]),
        path(&[".", "a"]),
        path(&["..", "a"]),
        path(&["a"]),
    ];
    for (i, a) in paths.iter().enumerate() {
        for (j, b) in paths.iter().enumerate() {
            assert_eq!(a.compare(b).cmp(&0), i.cmp(&j));
        }
    }
}

#[test]
fn containment_goes_by_whole_components() {
    let top = path(&["", "a"]);
    assert!(path(&["", "a", "x"]).is_strictly_under(&top));
    assert!(!path(&["", "ab"]).is_strictly_under(&top));
    assert!(!top.is_strictly_under(&top.duplicate()));
    assert!(top.starts_with(&top.duplicate()));
    assert!(!path(&[""]).starts_with(&top));
}

#[test]
fn sorting_is_stable() {
    let sorted = stable_sort(vec![(3i64, 0i64), (1, 1), (3, 2), (2, 3), (1, 4), (3, 5)]);
    assert_eq!(sorted, vec![(1, 1), (1, 4), (2, 3), (3, 0), (3, 2), (3, 5)]);
}

use local_source::win_reparse::{
    apply, capture, is_cloud_tag, is_reparse_point, ReparseError, IO_REPARSE_TAG_MOUNT_POINT,
    IO_REPARSE_TAG_SYMLINK, MAXIMUM_REPARSE_DATA_BUFFER_SIZE,
};

#[test]
fn is_cloud_tag_matches_the_family() {
    // Base CLOUD tag.
    assert!(is_cloud_tag(0x9000_001A));
    // All 16 instance variants share the masked-equality.
    for instance in 0u32..16 {
        let t = 0x9000_001A | (instance << 12);
        assert!(is_cloud_tag(t), "expected cloud, got {t:#010x}");
    }
    // Adjacent Microsoft tags are NOT cloud.
    assert!(!is_cloud_tag(IO_REPARSE_TAG_MOUNT_POINT));
    assert!(!is_cloud_tag(IO_REPARSE_TAG_SYMLINK));
    assert!(!is_cloud_tag(0x8000_0017)); // WOF
    assert!(!is_cloud_tag(0x9000_0019)); // GLOBAL_REPARSE (close but no)
    assert!(!is_cloud_tag(0x9000_001B)); // adjacent
}

#[test]
fn is_reparse_point_returns_false_for_a_plain_file() {
    assert!(!is_reparse_point(0x20));
}

#[test]
fn is_reparse_point_returns_true_for_a_junction() {
    assert!(is_reparse_point(0x10 | 0x400));
}

#[test]
fn capture_then_apply_round_trips_a_junction() {
    let body = vec![1u8, 2, 3, 4, 5];
    let full = apply(IO_REPARSE_TAG_MOUNT_POINT, &body).expect("apply must succeed");
    assert_eq!(full, vec![0x03, 0, 0, 0xA0, 5, 0, 0, 0, 1, 2, 3, 4, 5]);
    let (got_tag, got_body) = capture(&full, full.len() as u32).unwrap();
    assert_eq!(got_tag, IO_REPARSE_TAG_MOUNT_POINT);
    assert_eq!(got_body, body);
    assert_eq!(apply(got_tag, &got_body), Ok(full));
}

#[test]
fn apply_refuses_third_party_tags() {
    assert_eq!(apply(0x0000_1234, &[0u8; 4]), Err(ReparseError::ThirdPartyTag(0x1234)));
}

#[test]
fn apply_refuses_what_does_not_fit() {
    let most = MAXIMUM_REPARSE_DATA_BUFFER_SIZE - 8;
    let full = apply(IO_REPARSE_TAG_SYMLINK, &vec![7u8; most]).unwrap();
    assert_eq!(full.len(), 16384);
    assert_eq!(&full[4..8], &[0xF8, 0x3F, 0, 0]);
    assert_eq!(
        apply(IO_REPARSE_TAG_SYMLINK, &vec![7u8; most + 1]),
        Err(ReparseError::TooLarge(16377))
    );
}

#[test]
fn capture_refuses_less_than_a_header() {
    let buf = vec![0u8; 64];
    assert_eq!(capture(&buf, 7), Err(ReparseError::Truncated(7)));
    assert_eq!(capture(&buf, 8), Ok((0, vec![])));
}

use local_source::win_ads::{
    canonical_stream_name, enumerate, is_reparse_host, read_stream_name, wide, AdsName,
    AdsNameError, StreamRecord, ERROR_HANDLE_EOF, FILE_ATTRIBUTE_REPARSE_POINT,
};

fn record(name: &str, size: i64) -> StreamRecord {
    let mut buf = [0u16; 296];
    for (i, u) in name.encode_utf16().enumerate() {
        buf[i] = u;
    }
    StreamRecord { name: buf, size }
}

#[test]
fn ads_name_rejects_forbidden_chars() {
    assert!(AdsName::new("Zone.Identifier").is_ok());
    assert!(AdsName::new("foo bar").is_ok()); // spaces OK
    assert!(AdsName::new("Zone:Identifier").is_err()); // : forbidden
    assert!(AdsName::new("foo\\bar").is_err());
    assert!(AdsName::new("foo/bar").is_err());
    assert!(AdsName::new("foo|bar").is_err());
    assert!(AdsName::new("foo?bar").is_err());
    assert!(AdsName::new("foo*bar").is_err());
    assert!(AdsName::new("").is_err());
}

#[test]
fn canonical_stream_name_strips_envelope() {
    // Default (unnamed) stream.
    assert_eq!(canonical_stream_name("::$DATA"), None);
    // Named DATA stream: strip both ends.
    assert_eq!(
        canonical_stream_name(":Zone.Identifier:$DATA"),
        Some("Zone.Identifier")
    );
    assert_eq!(canonical_stream_name(":foo:$DATA"), Some("foo"));
    // Other stream types.
    assert_eq!(canonical_stream_name(":foo:$INDEX_ALLOCATION"), None);
    // Malformed.
    assert_eq!(canonical_stream_name("no_colon_or_data"), None);
}

#[test]
fn ads_name_errors_name_the_first_offender() {
    assert_eq!(AdsName::new(""), Err(AdsNameError::Empty));
    assert_eq!(AdsName::new("a*b?"), Err(AdsNameError::Forbidden('*')));
    assert_eq!(AdsName::new("a\0"), Err(AdsNameError::Forbidden('\0')));
    let name = AdsName::new("näme").unwrap();
    assert_eq!(name.as_str(), "näme");
    assert_eq!(name.clone().as_ref(), "näme");
}

#[test]
fn stream_names_end_at_nul_and_decode_surrogates() {
    assert_eq!(read_stream_name(&record(":a😀:$DATA", 0).name), ":a😀:$DATA");
    let mut buf = [0u16; 296];
    buf[0] = 0xD800;
    buf[1] = 0x61;
    buf[3] = 0x62;
    assert_eq!(read_stream_name(&buf), "\u{FFFD}a");
    assert_eq!(read_stream_name(&[0x78; 296]).chars().count(), 296);
}

#[test]
fn enumerate_returns_empty_for_a_plain_file() {
    let streams = enumerate(Some(0x20), &vec![record("::$DATA", 4)], Some(ERROR_HANDLE_EOF))
        .expect("enumerate must succeed");
    assert!(streams.is_empty());
}

#[test]
fn enumerate_finds_one_named_stream() {
    let records = vec![record("::$DATA", 4), record(":Zone.Identifier:$DATA", 6)];
    let streams = enumerate(None, &records, Some(ERROR_HANDLE_EOF)).unwrap();
    assert_eq!(streams.len(), 1);
    assert_eq!(streams[0].0.as_str(), "Zone.Identifier");
    assert_eq!(streams[0].1, 6);
}

#[test]
fn enumerate_finds_two_named_streams_in_deterministic_order() {
    let records = vec![
        record("::$DATA", 4),
        record(":alpha:$DATA", 3),
        record(":skipped:$INDEX_ALLOCATION", 9),
        record(":beta:$DATA", -4),
    ];
    let streams = enumerate(Some(0x20), &records, Some(ERROR_HANDLE_EOF)).unwrap();
    let names: Vec<&str> = streams.iter().map(|(n, _)| n.as_str()).collect();
    assert_eq!(names, vec!["alpha", "beta"]);
    assert_eq!(streams[0].1, 3);
    assert_eq!(streams[1].1, 0);
}

#[test]
fn enumerate_skips_reparse_point_host() {
    // A host that cannot be looked up surfaces the system's error.
    assert_eq!(enumerate(None, &vec![], Some(2)), Err(Some(2)));
    assert_eq!(enumerate(Some(0x20), &vec![record(":a:$DATA", 1)], None), Err(None));
    // A reparse point has no streams of its own, whatever the system reports.
    let attributes = Some(0x20 | FILE_ATTRIBUTE_REPARSE_POINT);
    assert!(is_reparse_host(attributes));
    assert!(!is_reparse_host(Some(0x20)));
    assert_eq!(enumerate(attributes, &vec![record(":a:$DATA", 1)], Some(2)), Ok(vec![]));
}

#[test]
fn wide_strings_end_in_nul() {
    assert_eq!(wide(&[0x61, 0x62]), vec![0x61, 0x62, 0]);
    assert_eq!(wide(&[]), vec![0]);
}

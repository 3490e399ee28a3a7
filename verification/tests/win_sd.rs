use local_source::win_sd::{
    apply, capture, capture_with, ApplyStep, SdApply, SdParts, ALL_SD_INFO,
    ERROR_PRIVILEGE_NOT_HELD,
};

const FULL: SdParts = SdParts {
    owner: true,
    group: true,
    dacl: true,
    sacl: true,
};

#[test]
fn descriptors_travel_as_base64() {
    assert_eq!(capture_with(0, &Some(vec![1, 0, 4, 0x84])), Some("AQAEhA==".to_string()));
    assert_eq!(capture_with(5, &Some(vec![1])), None);
    assert_eq!(capture_with(0, &None), None);
    assert_eq!(apply("AQAEhA=="), Some(vec![1, 0, 4, 0x84]));
    assert_eq!(apply(""), Some(vec![]));
}

#[test]
fn text_that_encoding_never_gives_is_refused() {
    assert_eq!(apply("AQAEh=="), None);
    assert_eq!(apply("AQAEhA"), None);
    assert_eq!(apply("AQAEhB=="), None);
    assert_eq!(apply("äöü="), None);
}

#[test]
fn capture_gives_nothing_on_any_failure() {
    assert_eq!(ALL_SD_INFO, 0x1 | 0x2 | 0x4 | 0x8);
    // The audit list is refused.
    assert_eq!(capture(ERROR_PRIVILEGE_NOT_HELD, &None), None);
    assert_eq!(capture(5, &Some(vec![0xFF])), None);
    assert_eq!(capture(0, &None), None);
    let text = capture(0, &Some(vec![0xFF, 0xFF, 0xFF]));
    assert_eq!(text.as_deref(), Some("////"));
    assert_eq!(apply(&text.unwrap()), Some(vec![0xFF, 0xFF, 0xFF]));
}

#[test]
fn apply_shrinks_the_request_until_privileges_suffice() {
    let (mut run, first) = SdApply::start(FULL);
    let mut infos = vec![];
    let mut step = first;
    while let ApplyStep::Write(write) = step {
        infos.push((write.info, write.with_owner, write.with_group, write.with_dacl, write.with_sacl));
        let rc = if infos.len() == 3 { 0 } else { ERROR_PRIVILEGE_NOT_HELD };
        step = run.answered(rc);
    }
    assert_eq!(step, ApplyStep::Done(true));
    assert_eq!(
        infos,
        vec![
            (0xF, true, true, true, true),
            (0x7, true, true, true, false),
            (0x4, false, false, true, false),
        ]
    );
}

#[test]
fn apply_stops_at_any_other_error() {
    let (mut run, _) = SdApply::start(FULL);
    assert_eq!(run.answered(5), ApplyStep::Done(false));
}

#[test]
fn apply_passes_over_empty_requests() {
    let only_sacl = SdParts { owner: false, group: false, dacl: false, sacl: true };
    let (mut run, first) = SdApply::start(only_sacl);
    assert!(matches!(first, ApplyStep::Write(w) if w.info == 0x8));
    assert_eq!(run.answered(ERROR_PRIVILEGE_NOT_HELD), ApplyStep::Done(false));

    let nothing = SdParts { owner: false, group: false, dacl: false, sacl: false };
    let (_, step) = SdApply::start(nothing);
    assert_eq!(step, ApplyStep::Done(false));
}

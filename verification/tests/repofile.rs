use local_source::repofile::{handed_on, settled, to_zoned, RusticTime, TimeError, Zone};
use local_source::time::{
    civil_second, Annotation, CivilDate, CivilTime, DateTimePieces, Timestamp, ZonedTime,
};

fn timestamp(text: &str) -> Timestamp {
    RusticTime::timestamp_from_string(text).unwrap()
}

/// Writes a point in time, reads it back and writes it again: both texts must be the same.
fn assert_round_trip_stable(ts: Timestamp, label: &str) {
    let text0 = RusticTime::timestamp_to_string(ts);
    let back = RusticTime::timestamp_from_string(&text0)
        .unwrap_or_else(|e| panic!("{label}: reading failed: {e:?} (input: {text0})"));
    let text1 = RusticTime::timestamp_to_string(back);
    assert_eq!(text0, text1, "{label}: not the same text, {}", back == ts);
}

#[test]
fn timestamp_round_trip_is_byte_identical_simple() {
    assert_round_trip_stable(timestamp("2026-05-24T00:00:00Z"), "midnight_utc_no_subsec");
}

#[test]
fn timestamp_round_trip_is_byte_identical_with_nanos() {
    assert_round_trip_stable(timestamp("2026-05-24T10:11:12.345678901Z"), "nanosecond_precision");
}

#[test]
fn timestamp_round_trip_is_byte_identical_dst_summer() {
    assert_round_trip_stable(timestamp("2026-07-15T14:30:00Z"), "dst_summer_edt");
}

#[test]
fn timestamp_round_trip_is_byte_identical_dst_winter() {
    assert_round_trip_stable(timestamp("2026-01-15T14:30:00Z"), "dst_winter_est");
}

#[test]
fn timestamp_round_trip_is_byte_identical_dst_transition_spring() {
    for s in ["2026-03-09T06:30:00Z", "2026-03-09T07:30:00Z", "2026-03-09T08:30:00Z"] {
        assert_round_trip_stable(timestamp(s), &format!("spring_forward_{s}"));
    }
}

#[test]
fn timestamp_round_trip_is_byte_identical_dst_transition_fall() {
    for s in ["2026-11-02T05:30:00Z", "2026-11-02T06:30:00Z", "2026-11-02T07:30:00Z"] {
        assert_round_trip_stable(timestamp(s), &format!("fall_back_{s}"));
    }
}

#[test]
fn timestamp_round_trip_handles_epoch_zero() {
    assert_round_trip_stable(Timestamp { nanosecond: 0 }, "unix_epoch_zero");
}

#[test]
fn timestamp_texts_say_what_they_were_made_of() {
    for offset in [0, 3600, -4 * 3600, 19800, 93540, -93540] {
        for nanosecond in [
            0,
            -1,
            1_779_617_472_345_678_901,
            -377_705_023_201_000_000_000,
            253_402_207_200_999_999_999,
        ] {
            let ts = Timestamp { nanosecond };
            let text = RusticTime::timestamp_text(ts, offset);
            assert_eq!(RusticTime::timestamp_from_string(&text).unwrap(), ts);
            let z = RusticTime::parse_utc(&text).unwrap();
            assert_eq!((z.timestamp, z.offset), (ts, offset));
            assert_eq!(RusticTime::to_string(&z), text);
        }
    }
    assert_eq!(
        RusticTime::timestamp_text(timestamp("2026-07-15T14:30:00Z"), -14400),
        "2026-07-15T10:30:00-04:00"
    );
}

#[test]
fn offsets_are_written_to_the_minute() {
    let ts = Timestamp { nanosecond: 0 };
    let text = RusticTime::timestamp_text(ts, 75);
    assert_eq!(text, "1970-01-01T00:01:15+00:01");
    assert_eq!(timestamp(&text), Timestamp { nanosecond: 15_000_000_000 });
}

#[test]
fn zoned_times_are_written_without_the_zone() {
    let z = ZonedTime {
        timestamp: timestamp("2026-05-24T10:11:12.5Z"),
        offset: 7200,
        zone_name: Some("Europe/Berlin".to_string()),
    };
    assert_eq!(RusticTime::to_string(&z), "2026-05-24T12:11:12.5+02:00");
}

#[test]
fn missing_parts_take_the_defaults() {
    let z = RusticTime::parse_utc("2026-05-24").unwrap();
    assert_eq!((z.timestamp, z.offset), (timestamp("2026-05-24T00:00:00Z"), 0));
    assert_eq!(z.zone_name.as_deref(), Some("UTC"));

    let noon = CivilTime { hour: 12, minute: 0, second: 0, nanosecond: 0 };
    let z = RusticTime::parse("2026-05-24", noon, Zone::Fixed(-3600)).unwrap();
    assert_eq!((z.timestamp, z.offset), (timestamp("2026-05-24T13:00:00Z"), -3600));
    assert_eq!(z.zone_name, None);

    let z = RusticTime::parse("2026-05-24T01:02:03+02:00", noon, Zone::Fixed(-3600)).unwrap();
    assert_eq!((z.timestamp, z.offset), (timestamp("2026-05-23T23:02:03Z"), 7200));

    let z = RusticTime::parse_system("2026-05-24T01:02:03Z").unwrap();
    assert_eq!((z.timestamp, z.offset), (timestamp("2026-05-24T01:02:03Z"), 0));
    assert!(RusticTime::parse_system("2026-05-24").is_ok());
}

#[test]
fn zones_in_brackets_come_first() {
    let z = RusticTime::parse_utc("2026-05-24T01:02:03[+01:30]").unwrap();
    assert_eq!((z.timestamp, z.offset), (timestamp("2026-05-23T23:32:03Z"), 5400));
    // A conflicting offset gives way to the zone.
    let z = RusticTime::parse_utc("2026-05-24T01:02:03+05:00[+01:30]").unwrap();
    assert_eq!((z.timestamp, z.offset), (timestamp("2026-05-23T23:32:03Z"), 5400));
    let z = RusticTime::parse_utc("2026-05-24T01:02:03Z[+01:30]").unwrap();
    assert_eq!((z.timestamp, z.offset), (timestamp("2026-05-24T01:02:03Z"), 5400));
    let z = RusticTime::parse_utc("2026-05-24T01:02:03[UTC]").unwrap();
    assert_eq!((z.timestamp, z.offset), (timestamp("2026-05-24T01:02:03Z"), 0));
    assert!(matches!(
        RusticTime::parse_utc("2026-05-24T01:02:03[No/Such_Zone]"),
        Err(TimeError::Refused(_))
    ));
}

#[test]
fn texts_that_say_no_time_are_refused() {
    for text in ["", "yesterday", "2026-13-01", "2026-02-29", "2026-05-24T25:00:00Z"] {
        assert!(matches!(RusticTime::parse_utc(text), Err(TimeError::Refused(_))));
        assert!(matches!(RusticTime::timestamp_from_string(text), Err(TimeError::Refused(_))));
    }
    for text in ["2026-05-24", "2026-05-24T01:02:03"] {
        assert!(matches!(RusticTime::timestamp_from_string(text), Err(TimeError::Refused(_))));
    }
}

#[test]
fn times_before_the_least_one_are_refused() {
    let least = "-009999-01-02T01:59:59Z";
    assert_eq!(timestamp(least).nanosecond, -377_705_023_201_000_000_000);
    assert!(RusticTime::parse_utc(least).is_ok());
    let early = "-009999-01-02T01:59:58.5Z";
    assert!(matches!(RusticTime::timestamp_from_string(early), Err(TimeError::OutOfRange)));
    assert!(matches!(RusticTime::parse_utc(early), Err(TimeError::OutOfRange)));
    let earlier = "-009999-01-02T01:59:58Z";
    assert!(matches!(RusticTime::timestamp_from_string(earlier), Err(TimeError::Refused(_))));
}

#[test]
fn early_times_are_read_to_the_fraction_of_a_second() {
    for text in [
        "-009999-01-02T01:59:59.5",
        "-009999-01-02T12:00:00.5",
        "-009999-01-03T12:00:00.5",
        "-009999-01-04T12:00:00.5",
    ] {
        let there = timestamp(&format!("{text}Z"));
        for zone in ["[UTC]", "[+00:00]", "Z[UTC]", "+00:00[UTC]", "Z[+01:00]"] {
            let z = RusticTime::parse_utc(&format!("{text}{zone}")).unwrap();
            assert_eq!(z.timestamp, there, "{text}{zone}");
        }
    }
    let date = CivilDate { year: -9999, month: 1, day: 2 };
    let time = CivilTime { hour: 12, minute: 0, second: 0, nanosecond: 7 };
    let z = to_zoned(date, time, &Zone::Named("UTC".to_string())).unwrap();
    assert_eq!(z.timestamp, timestamp("-009999-01-02T12:00:00.000000007Z"));
    assert_eq!((z.offset, z.zone_name.as_deref()), (0, Some("UTC")));
    if let Ok(z) = to_zoned(date, time, &Zone::System) {
        assert_eq!(z.timestamp.nanosecond.rem_euclid(1_000_000_000), 7);
    }
    // Less than a second before the least point in time.
    let early = "-009999-01-02T01:59:58.5";
    assert!(matches!(RusticTime::parse_utc(&format!("{early}[UTC]")), Err(TimeError::Refused(_))));
    for zone in ["[+00:00]", "Z[+00:00]"] {
        assert!(matches!(
            RusticTime::parse_utc(&format!("{early}{zone}")),
            Err(TimeError::OutOfRange)
        ));
    }
    let z = RusticTime::parse_utc(&format!("{early}Z[-01:00]")).unwrap();
    assert_eq!((z.timestamp, z.offset), (timestamp(&format!("{early}-01:00")), -3600));
}

#[test]
fn offsets_in_brackets_are_read_whole_or_piece_by_piece() {
    let noon = CivilTime { hour: 12, minute: 0, second: 0, nanosecond: 0 };
    let read = |text: &str| {
        let z = RusticTime::parse(text, noon, Zone::Fixed(60)).unwrap();
        (z.timestamp, z.offset, z.zone_name)
    };
    // As a whole: without an offset, with the same one, and with `Z`.
    let whole = (timestamp("2026-05-24T01:02:03+01:30"), 5400, None);
    assert_eq!(read("2026-05-24T01:02:03[+01:30]"), whole);
    assert_eq!(read("2026-05-24T01:02:03+01:30[+01:30]"), whole);
    assert_eq!(
        read("2026-05-24T01:02:03Z[+01:30]"),
        (timestamp("2026-05-24T01:02:03Z"), 5400, None)
    );
    // A text read as a whole means midnight where it has no time of day.
    assert_eq!(
        read("2026-05-24[+01:30]"),
        (timestamp("2026-05-24T00:00:00+01:30"), 5400, None)
    );
    // Piece by piece: another offset gives way, an offset of zero too.
    assert_eq!(read("2026-05-24T01:02:03+05:00[+01:30]"), whole);
    assert_eq!(read("2026-05-24T01:02:03+00:00[+01:30]"), whole);
    // No offset goes by the name UTC.
    let utc = (timestamp("2026-05-24T01:02:03Z"), 0, Some("UTC".to_string()));
    assert_eq!(read("2026-05-24T01:02:03[+00:00]"), utc);
    assert_eq!(read("2026-05-24T01:02:03[utc]"), utc);
    assert!(matches!(
        RusticTime::parse_utc("9999-12-31T23:59:59[-01:00]"),
        Err(TimeError::Refused(_))
    ));
}

#[test]
fn pieces_are_used_where_the_whole_fails() {
    let noon = CivilTime { hour: 12, minute: 0, second: 0, nanosecond: 0 };
    let pieces = |time, offset, annotation| DateTimePieces {
        date: CivilDate { year: 1970, month: 1, day: 1 },
        time,
        offset,
        zulu: false,
        annotation,
    };
    let full = ZonedTime {
        timestamp: Timestamp { nanosecond: 5 },
        offset: 7,
        zone_name: Some("Europe/Berlin".to_string()),
    };
    let p = pieces(None, Some(60), Some(Annotation::Offset(120)));
    let z = settled(Some(full), &p, noon, Zone::Fixed(0)).unwrap();
    assert_eq!((z.timestamp.nanosecond, z.offset), (5, 7));
    assert_eq!(z.zone_name.as_deref(), Some("Europe/Berlin"));

    let at = |p: &DateTimePieces| {
        let z = settled(None, p, noon, Zone::Fixed(-60)).unwrap();
        (z.timestamp.nanosecond / 1_000_000_000, z.offset)
    };
    assert_eq!(at(&p), (12 * 3600 - 120, 120));
    assert_eq!(at(&pieces(Some(CivilTime::min()), Some(60), None)), (-60, 60));
    assert_eq!(at(&pieces(None, None, None)), (12 * 3600 + 60, -60));
    let named = Some(Annotation::Named("UTC".to_string()));
    assert_eq!(at(&pieces(Some(CivilTime::min()), Some(60), named)), (0, 0));
    let unknown = Some(Annotation::Named("No/Such_Zone".to_string()));
    assert!(matches!(
        settled(None, &pieces(None, None, unknown), noon, Zone::Fixed(0)),
        Err(TimeError::Refused(_))
    ));
}

#[test]
fn the_calendar_counts_days_from_1970() {
    let midnight = CivilTime::min();
    let day = |year, month, day| civil_second(CivilDate { year, month, day }, midnight, 0) / 86400;
    assert_eq!(day(1970, 1, 1), 0);
    assert_eq!(day(1969, 12, 31), -1);
    assert_eq!(day(2000, 2, 29), 11016);
    assert_eq!(day(2000, 3, 1), 11017);
    assert_eq!(day(1900, 3, 1) - day(1900, 2, 28), 1);
    assert_eq!(day(-9999, 1, 1), -4371587);
    assert_eq!(day(9999, 12, 31), 2932896);
    let time = CivilTime { hour: 1, minute: 2, second: 3, nanosecond: 4 };
    let date = CivilDate { year: 1970, month: 1, day: 2 };
    assert_eq!(civil_second(date, time, -60), 86400 + 3723 + 60);
    let z = to_zoned(date, time, &Zone::Fixed(-60)).unwrap();
    assert_eq!(z.timestamp.nanosecond, (86400 + 3723 + 60) * 1_000_000_000 + 4);
    let z = to_zoned(date, time, &Zone::Named("UTC".to_string())).unwrap();
    assert_eq!((z.timestamp.nanosecond, z.offset), ((86400 + 3723) * 1_000_000_000 + 4, 0));
}

#[test]
fn the_zone_of_the_machine_refuses_nothing_in_range() {
    for text in ["2026-05-24", "2026-05-24T01:02:03", "0001-01-01", "-009998-01-01", "9999-12-28"] {
        let z = RusticTime::parse_system(text).unwrap();
        let utc = RusticTime::parse_utc(text).unwrap();
        let apart = utc.timestamp.nanosecond - z.timestamp.nanosecond;
        assert!(apart.abs() <= 93_599_000_000_000, "{text}");
    }
}

#[test]
fn what_a_zone_gave_is_handed_on() {
    let given = ZonedTime {
        timestamp: Timestamp { nanosecond: 3_000_000_000 },
        offset: 7200,
        zone_name: Some("Europe/Berlin".to_string()),
    };
    let z = handed_on(Ok(given), 5).unwrap();
    assert_eq!((z.timestamp.nanosecond, z.offset), (3_000_000_005, 7200));
    assert_eq!(z.zone_name.as_deref(), Some("Europe/Berlin"));
    let refusal = "no time".parse::<jiff::Timestamp>().unwrap_err();
    let message = refusal.to_string();
    match handed_on(Err(refusal), 0) {
        Err(TimeError::Refused(e)) => assert_eq!(e.to_string(), message),
        other => panic!("unexpected {other:?}"),
    }
}

#[test]
fn names_of_zones_are_read_as_a_whole() {
    let noon = CivilTime { hour: 12, minute: 0, second: 0, nanosecond: 0 };
    // Without a time of day the whole means midnight, not the default.
    let z = RusticTime::parse("2026-05-24[UTC]", noon, Zone::Fixed(60)).unwrap();
    assert_eq!((z.timestamp, z.offset), (timestamp("2026-05-24T00:00:00Z"), 0));
    // `Z` decides the point in time, and the zone the offset.
    let text = "2026-05-24T01:02:03Z";
    for zone in ["UTC", "Europe/Berlin", "America/New_York"] {
        let bracketed = format!("{text}[{zone}]");
        let date = CivilDate { year: 2026, month: 5, day: 24 };
        match RusticTime::parse(&bracketed, noon, Zone::Fixed(60)) {
            Ok(z) => {
                assert_eq!(z.timestamp, timestamp(text));
                assert_eq!(z.zone_name.as_deref(), Some(zone));
            }
            // A machine need not know the zone.
            Err(e) => {
                assert!(matches!(e, TimeError::Refused(_)));
                assert!(to_zoned(date, noon, &Zone::Named(zone.to_string())).is_err());
            }
        }
    }
    // Another offset in figures gives way to the zone.
    let z = RusticTime::parse_utc("2026-05-24T01:02:03+05:00[UTC]").unwrap();
    assert_eq!((z.timestamp, z.offset), (timestamp(text), 0));
    for text in ["2026-05-24[No/Such_Zone]", "2026-05-24T01:02:03Z[No/Such_Zone]"] {
        assert!(matches!(RusticTime::parse_utc(text), Err(TimeError::Refused(_))));
    }
}

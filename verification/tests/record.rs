use inferlab::calendar::{utc_moment, UtcMoment, LAST_UNIX_MS};
use inferlab::record::{
    new_record_id, record_id, render_moment, utc_timestamp, validate_record_id, RecordIdentity,
    CACHE_DIR, CONFIRMATION_CACHE_DIR, OBSERVATIONS_DIR, RUNTIME_DIR,
};

#[test]
fn second_level_state_dirs_stay_under_their_owned_parents() {
    assert!(
        CONFIRMATION_CACHE_DIR.starts_with(&format!("{CACHE_DIR}/")),
        "CONFIRMATION_CACHE_DIR left the CACHE_DIR subtree"
    );
    assert!(
        OBSERVATIONS_DIR.starts_with(&format!("{RUNTIME_DIR}/")),
        "OBSERVATIONS_DIR left the RUNTIME_DIR subtree"
    );
}

#[test]
fn timestamps_have_one_width_and_sort_by_moment() {
    let first = utc_timestamp(0).unwrap();
    assert_eq!(first, "1970-01-01T00-00-00.000Z");
    let later = utc_timestamp(1_700_000_000_123).unwrap();
    assert_eq!(later, "2023-11-14T22-13-20.123Z");
    assert!(first < later);
}

#[test]
fn a_moment_outside_the_calendar_is_refused() {
    for unix_ms in [LAST_UNIX_MS + 1, u64::MAX] {
        assert_eq!(
            utc_timestamp(unix_ms).unwrap_err().message(),
            "record timestamp is outside the supported range: timestamp was not in range"
        );
        assert!(utc_moment(unix_ms).is_err());
    }
}

#[test]
fn timestamps_follow_the_calendar() {
    for (unix_ms, text) in [
        (86_399_999, "1970-01-01T23-59-59.999Z"),
        (86_400_000, "1970-01-02T00-00-00.000Z"),
        (951_782_399_999, "2000-02-28T23-59-59.999Z"),
        (951_782_400_000, "2000-02-29T00-00-00.000Z"),
        (951_868_800_000, "2000-03-01T00-00-00.000Z"),
        (1_709_164_800_000, "2024-02-29T00-00-00.000Z"),
        (4_107_542_400_000, "2100-03-01T00-00-00.000Z"),
        (4_107_542_399_999, "2100-02-28T23-59-59.999Z"),
        (LAST_UNIX_MS, "9999-12-31T23-59-59.999Z"),
    ] {
        assert_eq!(utc_timestamp(unix_ms).unwrap(), text);
    }
    assert_eq!(
        utc_moment(1_700_000_000_123),
        Ok(UtcMoment {
            year: 2023,
            month: 11,
            day: 14,
            hour: 22,
            minute: 13,
            second: 20,
            millisecond: 123,
        })
    );
}

#[test]
fn later_records_have_greater_identities() {
    let mut last = String::new();
    for unix_ms in [
        0,
        999,
        1000,
        59_999,
        60_000,
        86_400_000,
        951_782_400_000,
        1_700_000_000_123,
        LAST_UNIX_MS,
    ] {
        let timestamp = utc_timestamp(unix_ms).unwrap();
        assert_eq!(timestamp.len(), 24);
        let id = record_id(RecordIdentity::Bench { bench: "b" }, unix_ms, 7).unwrap();
        let earlier = record_id(RecordIdentity::Serve { server: "z", case: None }, unix_ms, 9);
        assert!(last < id);
        last = earlier.unwrap();
    }
}

#[test]
fn identities_name_their_kind_and_case() {
    assert_eq!(
        record_id(
            RecordIdentity::Serve {
                server: "qwen",
                case: Some("fast")
            },
            0,
            7
        )
        .unwrap(),
        "1970-01-01T00-00-00.000Z-serve-qwen-fast-7"
    );
    assert_eq!(
        record_id(
            RecordIdentity::Recipe {
                recipe: "nightly",
                case: None
            },
            0,
            8
        )
        .unwrap(),
        "1970-01-01T00-00-00.000Z-recipe-nightly-8"
    );
    assert_eq!(
        new_record_id(RecordIdentity::Bench { bench: "long" }, Ok(0), 9).unwrap(),
        "1970-01-01T00-00-00.000Z-bench-long-9"
    );
    assert_eq!(
        record_id(RecordIdentity::Image { image: "base" }, 0, 1).unwrap(),
        "1970-01-01T00-00-00.000Z-image-base-1"
    );
    assert!(new_record_id(
        RecordIdentity::Bench { bench: "long" },
        Err("clock before epoch".to_owned()),
        9
    )
    .is_err());
}

#[test]
fn an_id_is_one_name_below_the_records() {
    assert!(validate_record_id("server", "2026-serve-a-1").is_ok());
    for id in ["", "a/b", "..", "."] {
        assert!(validate_record_id("server", id).is_err(), "{id}");
    }
}

#[test]
fn moments_are_padded() {
    let text = render_moment(&UtcMoment {
        year: 987,
        month: 3,
        day: 4,
        hour: 5,
        minute: 6,
        second: 7,
        millisecond: 8,
    });
    assert_eq!(text, "0987-03-04T05-06-07.008Z");
}

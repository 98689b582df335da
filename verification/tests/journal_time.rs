//! Instants of the journal, and its title slot.
use omp_headless::time::{civil_from_days, days_from_civil, iso_to_unix_ms, unix_ms_to_iso};
use omp_headless::title_slot::{parse_title_slot_line, serialize_title_slot, TitleSlot, SESSION_TITLE_SLOT_BYTES};

#[test]
fn roundtrip_known_instants() {
    // 2026-01-01T00:00:00.000Z.
    assert_eq!(iso_to_unix_ms("2026-01-01T00:00:00.000Z").unwrap(), 1_767_225_600_000);
    // 2024-01-01T00:00:00.000Z.
    assert_eq!(iso_to_unix_ms("2024-01-01T00:00:00.000Z").unwrap(), 1_704_067_200_000);
    // unix epoch.
    assert_eq!(iso_to_unix_ms("1970-01-01T00:00:00.000Z").unwrap(), 0);
}

#[test]
fn format_matches_iso() {
    assert_eq!(unix_ms_to_iso(1_767_225_600_000), "2026-01-01T00:00:00.000Z");
    assert_eq!(unix_ms_to_iso(0), "1970-01-01T00:00:00.000Z");
    assert_eq!(unix_ms_to_iso(1_704_067_200_123), "2024-01-01T00:00:00.123Z");
}

#[test]
fn format_parse_roundtrip() {
    for ms in [0_i64, 1_704_067_200_000, 1_767_225_600_999, 1_600_000_000_000] {
        assert_eq!(iso_to_unix_ms(&unix_ms_to_iso(ms)).unwrap(), ms);
    }
}

#[test]
fn rejects_bad_shape() {
    assert!(iso_to_unix_ms("2026-01-01").is_err());
    assert!(iso_to_unix_ms("2026-01-01T00:00:00Z").is_err());
}

#[test]
fn fields_are_digits_alone() {
    assert!(iso_to_unix_ms("2026-01-01T+1:00:00.000Z").is_err());
    assert!(iso_to_unix_ms("-026-01-01T00:00:00.000Z").is_err());
    assert!(iso_to_unix_ms("2026-01-01T00:-1:00.000Z").is_err());
    assert!(iso_to_unix_ms("2026-01-01T00:00:00.+00Z").is_err());
    assert_eq!(iso_to_unix_ms("2026-01-01T01:00:00.000Z").unwrap(), 1_767_229_200_000);
}

#[test]
fn texts_sort_as_their_instants() {
    let first = -62_167_219_200_000_i64;
    let last = 253_402_300_799_999_i64;
    assert_eq!(unix_ms_to_iso(first), "0000-01-01T00:00:00.000Z");
    assert_eq!(unix_ms_to_iso(last), "9999-12-31T23:59:59.999Z");
    let instants = [first, first + 1, -1, 0, 999, 1000, 59_999, 60_000, 86_399_999, 86_400_000, 1_709_164_800_000, last];
    for pair in instants.windows(2) {
        let (a, b) = (unix_ms_to_iso(pair[0]), unix_ms_to_iso(pair[1]));
        assert_eq!((a.len(), b.len()), (24, 24));
        assert!(a.as_bytes() < b.as_bytes(), "{a} {b}");
    }
}

#[test]
fn days_and_dates_agree() {
    for days in (-800_000..800_000).step_by(997) {
        let (y, m, d) = civil_from_days(days);
        assert_eq!(days_from_civil(y, m, d), days);
    }
    assert_eq!(civil_from_days(0), (1970, 1, 1));
    assert_eq!(civil_from_days(19_782), (2024, 2, 29));
    assert_eq!(days_from_civil(2000, 3, 1), 11_017);
}

#[test]
fn instants_before_the_epoch_are_written_too() {
    assert_eq!(unix_ms_to_iso(-1), "1969-12-31T23:59:59.999Z");
    assert_eq!(iso_to_unix_ms("1969-12-31T23:59:59.999Z").unwrap(), -1);
}

// title slot

#[test]
fn empty_title_slot_is_fixed_width() {
    let line = serialize_title_slot("", None, "2026-01-01T00:00:00.000Z");
    assert_eq!(line.len(), SESSION_TITLE_SLOT_BYTES);
    assert!(line.ends_with('\n'));
    let parsed = parse_title_slot_line(line.trim_end()).unwrap();
    assert_eq!(parsed.title, "");
    assert_eq!(parsed.source, None);
}

#[test]
fn title_and_source_roundtrip() {
    let line = serialize_title_slot("My Session Title", Some("user"), "2026-01-01T00:00:00.000Z");
    assert_eq!(line.len(), SESSION_TITLE_SLOT_BYTES);
    let parsed = parse_title_slot_line(line.trim_end()).unwrap();
    assert_eq!(parsed.title, "My Session Title");
    assert_eq!(parsed.source.as_deref(), Some("user"));
}

#[test]
fn non_slot_first_line_is_none() {
    assert!(parse_title_slot_line(r#"{"type":"session","id":"x"}"#).is_none());
    assert!(parse_title_slot_line("not json").is_none());
}

#[test]
fn long_title_is_cut_to_the_longest_prefix_that_fits() {
    let title = "\u{e9}".repeat(300);
    let line = serialize_title_slot(&title, Some("auto"), "2026-01-01T00:00:00.000Z");
    assert_eq!(line.len(), SESSION_TITLE_SLOT_BYTES);
    let parsed = parse_title_slot_line(line.trim_end()).unwrap();
    assert!(title.starts_with(&parsed.title));
    assert!(!parsed.title.is_empty());
    let longer = serialize_title_slot(
        &format!("{}\u{e9}", parsed.title),
        Some("auto"),
        "2026-01-01T00:00:00.000Z",
    );
    assert_eq!(longer, line);
}

#[test]
fn title_is_escaped_in_the_slot() {
    let line = serialize_title_slot("a \"quoted\" \\ title", None, "2026-01-01T00:00:00.000Z");
    assert_eq!(
        parse_title_slot_line(line.trim_end()),
        Some(TitleSlot {
            title: "a \"quoted\" \\ title".to_string(),
            source: None,
            updated_at: "2026-01-01T00:00:00.000Z".to_string(),
        })
    );
}

#[test]
fn slot_with_an_unknown_source_is_no_slot() {
    let line = serialize_title_slot("t", Some("user"), "2026-01-01T00:00:00.000Z");
    assert!(parse_title_slot_line(&line.replace("user", "nobody")).is_none());
}

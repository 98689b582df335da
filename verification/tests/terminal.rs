//! Keys, strings for a terminal, and search settings.
use omp_headless::ast::{resolve_strictness, AstMatchStrictness};
use omp_headless::keys::{optional_kitty_event_type, parse_kitty_sequence, KeyEventType, KittySequence};
use omp_headless::terminal::{
    build_utf16_string, clamp_u32, extract_segments, resolve_truncation, slice_with_width, wrap_text_with_ansi,
    Ellipsis, Truncation,
};

#[test]
fn event_numbers_have_meanings() {
    assert_eq!(optional_kitty_event_type(Some(1)), Some(KeyEventType::Press));
    assert_eq!(optional_kitty_event_type(Some(2)), Some(KeyEventType::Repeat));
    assert_eq!(optional_kitty_event_type(Some(3)), Some(KeyEventType::Release));
    assert_eq!(optional_kitty_event_type(Some(4)), None);
    assert_eq!(optional_kitty_event_type(None), None);
}

#[test]
fn zeros_at_the_end_are_dropped() {
    assert_eq!(build_utf16_string(vec![0, 65, 0, 66, 0, 0]), vec![0, 65, 0, 66]);
    assert_eq!(build_utf16_string(vec![0, 0]), Vec::<u16>::new());
}

#[test]
fn search_is_smart_unless_asked() {
    assert_eq!(resolve_strictness(None), AstMatchStrictness::Smart);
    assert_eq!(resolve_strictness(Some(AstMatchStrictness::Cst)), AstMatchStrictness::Cst);
}

#[test]
fn text_is_cut_with_an_ellipsis_unless_asked() {
    assert_eq!(resolve_truncation(None, None), Truncation { ellipsis: Ellipsis::Unicode, pad: false });
    assert_eq!(
        resolve_truncation(Some(Ellipsis::Omit), Some(true)),
        Truncation { ellipsis: Ellipsis::Omit, pad: true }
    );
}

#[test]
fn slices_and_segments_are_handed_over_whole() {
    let nothing = slice_with_width(0, vec![65], 1);
    assert_eq!((nothing.text.len(), nothing.width), (0, 0));
    let slice = slice_with_width(3, vec![65, 66, 0], 2);
    assert_eq!((slice.text, slice.width), (vec![65, 66], 2));
    let segments = extract_segments(vec![65, 0], 1, vec![0], u64::MAX);
    assert_eq!((segments.before, segments.before_width), (vec![65], 1));
    assert_eq!((segments.after, segments.after_width), (vec![], u32::MAX));
    assert_eq!(clamp_u32(7), 7);
    assert_eq!(wrap_text_with_ansi(vec![vec![65, 0], vec![]]), vec![vec![65], vec![]]);
}

#[test]
fn sequences_keep_their_key() {
    let sequence = KittySequence {
        codepoint: 65,
        shifted_key: None,
        base_layout_key: Some(97),
        modifier: 5,
        event_type: Some(3),
    };
    let parsed = parse_kitty_sequence(Some(sequence)).unwrap();
    assert_eq!((parsed.codepoint, parsed.base_layout_key, parsed.modifier), (65, Some(97), 5));
    assert_eq!(parsed.event_type, Some(KeyEventType::Release));
    assert_eq!(parse_kitty_sequence(None), None);
}

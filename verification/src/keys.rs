//! Key events of the Kitty keyboard protocol.
use vstd::prelude::*;

verus! {

/// What happened to a key.
#[derive(Debug, Clone, Copy, PartialEq, Eq, Structural)]
pub enum KeyEventType {
    Press,
    Repeat,
    Release,
}

/// A parsed sequence of the protocol.
#[derive(Debug, Clone, Copy, PartialEq, Eq, Structural)]
pub struct ParsedKittyResult {
    pub codepoint: i32,
    pub shifted_key: Option<i32>,
    pub base_layout_key: Option<i32>,
    pub modifier: u32,
    pub event_type: Option<KeyEventType>,
}

pub open spec fn event_type_of(event: Option<u32>) -> Option<KeyEventType> {
    match event {
        Some(1) => Some(KeyEventType::Press),
        Some(2) => Some(KeyEventType::Repeat),
        Some(3) => Some(KeyEventType::Release),
        _ => None,
    }
}

/// What the event number of a sequence says; none for a number of no meaning.
pub fn optional_kitty_event_type(event: Option<u32>) -> (r: Option<KeyEventType>)
    ensures
        r == event_type_of(event),
{
    match event {
        Some(1) => Some(KeyEventType::Press),
        Some(2) => Some(KeyEventType::Repeat),
        Some(3) => Some(KeyEventType::Release),
        _ => None,
    }
}

/// A sequence as it was written: its event is a number.
#[derive(Debug, Clone, Copy, PartialEq, Eq, Structural)]
pub struct KittySequence {
    pub codepoint: i32,
    pub shifted_key: Option<i32>,
    pub base_layout_key: Option<i32>,
    pub modifier: u32,
    pub event_type: Option<u32>,
}

/// What a sequence says, where the input was one.
pub fn parse_kitty_sequence(sequence: Option<KittySequence>) -> (r: Option<ParsedKittyResult>)
    ensures
        r == (match sequence {
            Some(s) => Some(
                ParsedKittyResult {
                    codepoint: s.codepoint,
                    shifted_key: s.shifted_key,
                    base_layout_key: s.base_layout_key,
                    modifier: s.modifier,
                    event_type: event_type_of(s.event_type),
                },
            ),
            None => None,
        }),
{
    match sequence {
        Some(s) => Some(
            ParsedKittyResult {
                codepoint: s.codepoint,
                shifted_key: s.shifted_key,
                base_layout_key: s.base_layout_key,
                modifier: s.modifier,
                event_type: optional_kitty_event_type(s.event_type),
            },
        ),
        None => None,
    }
}

/// The kinds of key events are numbered; any other number names none.
pub proof fn law_key_events_are_numbered(n: u32)
    ensures
        event_type_of(Some(1)) == Some(KeyEventType::Press),
        event_type_of(Some(2)) == Some(KeyEventType::Repeat),
        event_type_of(Some(3)) == Some(KeyEventType::Release),
        n == 0 || n > 3 ==> event_type_of(Some(n)) is None,
        event_type_of(None) is None,
{
}

} // verus!

//! The title slot: an optional first line of a session file, of fixed width, that
//! carries the session's title and can be overwritten in place.
use vstd::prelude::*;
use crate::auth::opt_text;
use crate::json::{
    compact_json, emptied, field_of, json_view, lemma_member_pos_is, lemma_object_view, member, members_view,
    parse_strict, put_before_end, reads_back, strict_json, text_in, write_compact, Json, JsonNumber, JsonView,
    Members, NumberView, RAW_VALUE_NAME,
};
use crate::message::Text;
use crate::text::{
    byte_len, byte_size, chars_of, lemma_byte_len_add, owned, same_text, text_of, trimmed, trimmed_end,
    trimmed_start,
};

verus! {

/// The width of the slot in bytes, with its line feed.
pub const SESSION_TITLE_SLOT_BYTES: usize = 256;

/// What a title slot says.
#[derive(Debug, PartialEq, Eq)]
pub struct TitleSlot {
    pub title: String,
    pub source: Option<String>,
    pub updated_at: String,
}

#[verifier::ext_equal]
pub struct SlotView {
    pub title: Text,
    pub source: Option<Text>,
    pub updated_at: Text,
}

impl DeepView for TitleSlot {
    type V = SlotView;

    open spec fn deep_view(&self) -> SlotView {
        SlotView { title: self.title@, source: self.source.deep_view(), updated_at: self.updated_at@ }
    }
}

pub open spec fn slot_members(slot: SlotView, pad: Text) -> Members {
    let head: Members = seq![
        ("type"@, JsonView::String("title"@)),
        ("v"@, JsonView::Number(NumberView::PosInt(1))),
        ("title"@, JsonView::String(slot.title)),
    ];
    let named = match slot.source {
        Some(s) => head.push(("source"@, JsonView::String(s))),
        None => head,
    };
    named.push(("updatedAt"@, JsonView::String(slot.updated_at))).push(("pad"@, JsonView::String(pad)))
}

/// The line of a slot.
pub open spec fn slot_text(slot: SlotView, pad: Text) -> Text {
    compact_json(JsonView::Object(slot_members(slot, pad))).push('\n')
}

/// Whether a slot without padding has room.
pub open spec fn slot_fits(slot: SlotView) -> bool {
    byte_len(slot_text(slot, Seq::empty())) <= 256
}

pub open spec fn with_title(slot: SlotView, title: Text) -> SlotView {
    SlotView { title, ..slot }
}

/// Whether `n` characters of the title are the most that have room.
pub open spec fn longest_fit(slot: SlotView, n: int) -> bool {
    &&& 0 <= n <= slot.title.len()
    &&& slot_fits(with_title(slot, slot.title.take(n)))
    &&& forall|k: int|
        n < k <= slot.title.len() ==> !slot_fits(#[trigger] with_title(slot, slot.title.take(k)))
}

/// As many spaces.
pub open spec fn spaces(n: nat) -> Text {
    Seq::new(n, |i: int| ' ')
}

/// Whether `r` is the line of a slot with the first `n` characters of its title,
/// the most that have room, and `pad` spaces: it is as wide as a slot is, and it
/// reads as that slot.
pub open spec fn is_slot_line(slot: SlotView, r: Text, n: int, pad: nat) -> bool {
    let cut = with_title(slot, slot.title.take(n));
    &&& longest_fit(slot, n)
    &&& r == slot_text(cut, spaces(pad))
    &&& byte_len(r) == 256
    &&& slot.source is None || known_source(slot.source->0) ==> slot_in(trimmed(r)) == Some(cut)
}

pub open spec fn known_source(s: Text) -> bool {
    s == "auto"@ || s == "user"@
}

/// The slot that a line holds; none where the line is something else.
pub open spec fn slot_in(line: Text) -> Option<SlotView> {
    match strict_json(line) {
        Some(v) => slot_of(v),
        None => None,
    }
}

pub open spec fn slot_of(v: JsonView) -> Option<SlotView> {
    match v {
        JsonView::Object(o) => if text_in(member(o, "type"@)) != Some("title"@) || member(o, "v"@) != Some(
            JsonView::Number(NumberView::PosInt(1)),
        ) {
            None
        } else {
            match (
                text_in(member(o, "title"@)),
                text_in(member(o, "updatedAt"@)),
                text_in(member(o, "pad"@)),
                member(o, "source"@),
            ) {
                (Some(title), Some(updated_at), Some(_), None) => Some(
                    SlotView { title, source: None, updated_at },
                ),
                (Some(title), Some(updated_at), Some(_), Some(JsonView::Null)) => Some(
                    SlotView { title, source: None, updated_at },
                ),
                (Some(title), Some(updated_at), Some(_), Some(JsonView::String(s))) => if known_source(s) {
                    Some(SlotView { title, source: Some(s), updated_at })
                } else {
                    None
                },
                _ => None,
            }
        },
        _ => None,
    }
}

pub fn is_title_source(value: &str) -> (r: bool)
    ensures
        r == known_source(value@),
{
    same_text(value, "auto") || same_text(value, "user")
}

fn text_member<'a>(v: &'a Json, key: &str) -> (r: Option<&'a String>)
    ensures
        match r {
            Some(s) => text_in(field_of(json_view(*v), key@)) == Some(s@),
            None => text_in(field_of(json_view(*v), key@)) is None,
        },
{
    match v.get(key) {
        Some(Json::String(s)) => Some(s),
        _ => None,
    }
}

/// The slot that a value is.
pub fn slot_from_value(v: &Json) -> (r: Option<TitleSlot>)
    ensures
        r.deep_view() == slot_of(json_view(*v)),
{
    match v {
        Json::Object(o) => {
            proof {
                lemma_object_view(*o);
            }
        },
        _ => {
            return None;
        },
    }
    let is_title = match text_member(v, "type") {
        Some(t) => same_text(t.as_str(), "title"),
        None => false,
    };
    if !is_title {
        return None;
    }
    let is_v1 = match v.get("v") {
        Some(Json::Number(JsonNumber::PosInt(n))) => *n == 1,
        _ => false,
    };
    if !is_v1 {
        return None;
    }
    match (text_member(v, "title"), text_member(v, "updatedAt"), text_member(v, "pad")) {
        (Some(title), Some(updated_at), Some(_)) => {
            let source = match v.get("source") {
                None => None,
                Some(Json::Null) => None,
                Some(Json::String(s)) => {
                    if !is_title_source(s.as_str()) {
                        return None;
                    }
                    Some(s.clone())
                },
                Some(_) => {
                    return None;
                },
            };
            Some(TitleSlot { title: title.clone(), source, updated_at: updated_at.clone() })
        },
        _ => None,
    }
}

/// The slot that a line holds; none where the line is an entry.
pub fn parse_title_slot_line(line: &str) -> (r: Option<TitleSlot>)
    ensures
        r.deep_view() == slot_in(line@),
{
    match parse_strict(line) {
        Some(v) => slot_from_value(&v),
        None => None,
    }
}

pub open spec fn given_slot(title: Text, source: Option<Text>, updated_at: Text) -> SlotView {
    SlotView { title, source, updated_at }
}

/// The names of a slot's members differ, and its values are plain.
proof fn lemma_slot_reads_back(slot: SlotView, pad: Text)
    ensures
        reads_back(JsonView::Object(slot_members(slot, pad))),
        slot_of(JsonView::Object(slot_members(slot, pad))) == (if slot.source is None || known_source(slot.source->0) {
            Some(slot)
        } else {
            None
        }),
{
    reveal_strlit("type");
    reveal_strlit("v");
    reveal_strlit("title");
    reveal_strlit("source");
    reveal_strlit("updatedAt");
    reveal_strlit("pad");
    reveal_strlit("$serde_json::private::RawValue");
    assert(RAW_VALUE_NAME@.len() == 30);
    assert("type"@.len() == 4 && "v"@.len() == 1 && "title"@.len() == 5 && "source"@.len() == 6 && "updatedAt"@.len()
        == 9 && "pad"@.len() == 3);
    let o = slot_members(slot, pad);
    assert forall|i: int| 0 <= i < o.len() implies crate::json::is_plain((#[trigger] o[i]).1, 126) by {
        assert(o[i].1 is String || o[i].1 == JsonView::Number(NumberView::PosInt(1)));
    }
    lemma_member_pos_is(o, "type"@, 0);
    lemma_member_pos_is(o, "v"@, 1);
    lemma_member_pos_is(o, "title"@, 2);
    if slot.source is Some {
        lemma_member_pos_is(o, "source"@, 3);
        lemma_member_pos_is(o, "updatedAt"@, 4);
        lemma_member_pos_is(o, "pad"@, 5);
    } else {
        lemma_member_pos_is(o, "updatedAt"@, 3);
        lemma_member_pos_is(o, "pad"@, 4);
        lemma_member_pos_is(o, "source"@, 5);
    }
}

/// The line of a slot, without its line feed.
fn slot_body(title: &str, source: Option<&str>, updated_at: &str, pad: String) -> (r: String)
    ensures
        ({
            let slot = given_slot(title@, opt_text(source), updated_at@);
            let v = JsonView::Object(slot_members(slot, pad@));
            &&& r@ == compact_json(v)
            &&& r@.len() >= 2 && r@[0] == '{' && r@.last() == '}'
            &&& !r@.contains('\n')
            &&& strict_json(r@) == Some(v)
            &&& (forall|i: int| 0 <= i < pad@.len() ==> pad@[i] == ' ') ==> r@ == put_before_end(
                compact_json(JsonView::Object(slot_members(slot, Seq::empty()))),
                pad@,
            )
        }),
{
    let ghost slot = given_slot(title@, opt_text(source), updated_at@);
    let ghost pad_view = pad@;
    let mut o: Vec<(String, Json)> = Vec::new();
    o.push((owned("type"), Json::String(owned("title"))));
    o.push((owned("v"), Json::Number(JsonNumber::PosInt(1))));
    o.push((owned("title"), Json::String(owned(title))));
    if let Some(s) = source {
        o.push((owned("source"), Json::String(owned(s))));
    }
    o.push((owned("updatedAt"), Json::String(owned(updated_at))));
    o.push((owned("pad"), Json::String(pad)));
    assert(members_view(o@) =~= slot_members(slot, pad_view));
    proof {
        lemma_object_view(o);
        lemma_slot_reads_back(slot, pad_view);
        let v = JsonView::Object(slot_members(slot, pad_view));
        assert(emptied(v)->Object_0 =~= slot_members(slot, Seq::empty()));
    }
    let value = Json::Object(o);
    write_compact(&value)
}

/// The line of a slot.
fn slot_line(title: &str, source: Option<&str>, updated_at: &str, pad: String) -> (r: String)
    ensures
        r@ == slot_text(given_slot(title@, opt_text(source), updated_at@), pad@),
        is_one_line(r@),
        r@.len() >= 3 && r@[0] == '{' && r@[r@.len() - 2] == '}',
        source is None || known_source(source->0@) ==> slot_in(trimmed(r@)) == Some(
            given_slot(title@, opt_text(source), updated_at@),
        ),
{
    let ghost pad_view = pad@;
    let mut line = slot_body(title, source, updated_at, pad);
    proof {
        lemma_braced_line(line@);
        lemma_slot_reads_back(given_slot(title@, opt_text(source), updated_at@), pad_view);
        assert(line@.push('\n').drop_last() =~= line@);
    }
    line.push('\n');
    line
}

/// The longest prefix of the title for which the slot has room; none where there
/// is not even room without a title.
fn truncate_title_for_slot(title: &str, source: Option<&str>, updated_at: &str) -> (r: Option<String>)
    ensures
        match r {
            Some(t) => longest_fit(given_slot(title@, opt_text(source), updated_at@), t@.len() as int) && t@ == title@.take(
                t@.len() as int,
            ),
            None => forall|k: int|
                0 <= k <= title@.len() ==> !slot_fits(
                    #[trigger] with_title(given_slot(title@, opt_text(source), updated_at@), title@.take(k)),
                ),
        },
{
    let ghost slot = given_slot(title@, opt_text(source), updated_at@);
    let v = chars_of(title);
    let mut n: usize = v.len();
    loop
        invariant
            v@ == title@,
            slot == given_slot(title@, opt_text(source), updated_at@),
            n <= v.len(),
            forall|k: int| n < k <= title@.len() ==> !slot_fits(#[trigger] with_title(slot, title@.take(k))),
        decreases n,
    {
        let candidate = text_of(&v, 0, n);
        assert(candidate@ =~= title@.take(n as int));
        let line = slot_line(candidate.as_str(), source, updated_at, String::new());
        assert(given_slot(candidate@, opt_text(source), updated_at@) == with_title(slot, title@.take(n as int)));
        assert(line@ == slot_text(with_title(slot, title@.take(n as int)), Seq::empty()));
        if byte_size(line.as_str()) <= SESSION_TITLE_SLOT_BYTES {
            return Some(candidate);
        }
        if n == 0 {
            return None;
        }
        n = n - 1;
    }
}

fn make_spaces(n: usize) -> (r: String)
    ensures
        r@ == spaces(n as nat),
{
    let mut s = String::new();
    let mut i: usize = 0;
    assert(s@ =~= spaces(0));
    while i < n
        invariant
            i <= n,
            s@ == spaces(i as nat),
        decreases n - i,
    {
        s.push(' ');
        assert(s@ =~= spaces((i + 1) as nat));
        i = i + 1;
    }
    s
}

proof fn lemma_spaces_bytes(n: nat)
    ensures
        byte_len(spaces(n)) == n,
    decreases n,
{
    if n > 0 {
        lemma_spaces_bytes((n - 1) as nat);
        assert(spaces(n).drop_last() =~= spaces((n - 1) as nat));
    }
}

proof fn lemma_braced_line(body: Text)
    requires
        body.len() >= 2,
        body[0] == '{',
        body.last() == '}',
    ensures
        trimmed(body.push('\n')) == body,
{
    let s = body.push('\n');
    assert(trimmed_start(s) == s);
    assert(s.drop_last() =~= body);
    assert(trimmed_end(body) == body);
    assert(trimmed_end(s) == trimmed_end(s.drop_last()));
}

/// Whether a text is a line with its line feed.
pub open spec fn is_one_line(t: Text) -> bool {
    t.len() > 0 && t.last() == '\n' && !t.drop_last().contains('\n')
}

/// The slot of a title, as wide as a slot is: the longest prefix of the title
/// that has room, and padding. Where there is no room even without a title, the
/// line is as long as it comes out.
#[verifier::rlimit(40)]
pub fn serialize_title_slot(title: &str, source: Option<&str>, updated_at: &str) -> (r: String)
    ensures
        (exists|n: int| longest_fit(given_slot(title@, opt_text(source), updated_at@), n)) ==> (exists|n: int, pad: nat|
            is_slot_line(given_slot(title@, opt_text(source), updated_at@), r@, n, pad)),
        !(exists|n: int| longest_fit(given_slot(title@, opt_text(source), updated_at@), n)) ==> r@ == slot_text(
            given_slot(Seq::empty(), opt_text(source), updated_at@),
            Seq::empty(),
        ),
        is_one_line(r@),
        r@.len() >= 3 && r@[0] == '{' && r@[r@.len() - 2] == '}',
        source is None || known_source(source->0@) ==> exists|n: int|
            0 <= n <= title@.len() && slot_in(trimmed(r@)) == Some(
                given_slot(#[trigger] title@.take(n), opt_text(source), updated_at@),
            ),
{
    let ghost slot = given_slot(title@, opt_text(source), updated_at@);
    match truncate_title_for_slot(title, source, updated_at) {
        None => {
            proof {
                assert forall|n: int| !longest_fit(slot, n) by {
                    if 0 <= n <= title@.len() {
                        assert(!slot_fits(with_title(slot, title@.take(n))));
                    }
                }
            }
            let empty = String::new();
            assert(empty@ =~= title@.take(0));
            slot_line(empty.as_str(), source, updated_at, String::new())
        },
        Some(kept) => {
            let ghost n = kept@.len() as int;
            let ghost cut = with_title(slot, title@.take(n));
            assert(given_slot(kept@, opt_text(source), updated_at@) == cut);
            let unpadded = slot_body(kept.as_str(), source, updated_at, String::new());
            let ghost bare = unpadded@;
            assert(bare == compact_json(JsonView::Object(slot_members(cut, Seq::empty()))));
            let size = byte_size(unpadded.as_str());
            proof {
                assert(bare.push('\n').drop_last() =~= bare);
                assert(byte_len(slot_text(cut, Seq::empty())) == byte_len(bare) + 1);
            }
            let pad: usize = SESSION_TITLE_SLOT_BYTES - 1 - size;
            let padding = make_spaces(pad);
            let mut line = slot_body(kept.as_str(), source, updated_at, padding);
            let ghost body = line@;
            line.push('\n');
            proof {
                let p = spaces(pad as nat);
                let head = bare.subrange(0, bare.len() - 2);
                let tail = bare.subrange(bare.len() - 2, bare.len() as int);
                assert(body == head + p + tail);
                assert(head + tail =~= bare);
                lemma_byte_len_add(head, tail);
                lemma_byte_len_add(head + p, tail);
                lemma_byte_len_add(head, p);
                lemma_spaces_bytes(pad as nat);
                assert(body.push('\n').drop_last() =~= body);
                assert(byte_len(line@) == 256);
                lemma_braced_line(body);
                lemma_slot_reads_back(cut, p);
                assert(is_slot_line(slot, line@, n, pad as nat));
            }
            line
        },
    }
}

/// A slot holds its title, its source and when it was changed.
pub proof fn law_slot_holds_its_title(slot: SlotView, pad: Text)
    requires
        slot.source is None || slot.source == Some("auto"@) || slot.source == Some("user"@),
    ensures
        slot_of(JsonView::Object(slot_members(slot, pad))) == Some(slot),
        given_slot(slot.title, slot.source, slot.updated_at) == slot,
{
    lemma_slot_reads_back(slot, pad);
}

/// A value is a slot only where it says so, in the version that there is, and has a
/// title, an instant and padding.
pub proof fn law_only_slots_are_slots(o: Members)
    ensures
        text_in(member(o, "type"@)) != Some("title"@) ==> slot_of(JsonView::Object(o)) is None,
        member(o, "v"@) != Some(JsonView::Number(NumberView::PosInt(1))) ==> slot_of(JsonView::Object(o)) is None,
        text_in(member(o, "title"@)) is None ==> slot_of(JsonView::Object(o)) is None,
        text_in(member(o, "updatedAt"@)) is None ==> slot_of(JsonView::Object(o)) is None,
        text_in(member(o, "pad"@)) is None ==> slot_of(JsonView::Object(o)) is None,
        slot_of(JsonView::Object(o)) is Some ==> Some(slot_of(JsonView::Object(o))->0.title) == text_in(
            member(o, "title"@),
        ) && Some(slot_of(JsonView::Object(o))->0.updated_at) == text_in(member(o, "updatedAt"@)),
{
}

/// The line of a slot is as wide as a slot is and holds the title, as much of it as fits:
/// all of it where all of it fits, and no less than any part that does.
pub proof fn law_slot_line_holds_what_fits(slot: SlotView, r: Text, n: int, pad: nat, k: int)
    requires
        is_slot_line(slot, r, n, pad),
        slot.source is None || slot.source == Some("auto"@) || slot.source == Some("user"@),
        0 <= k <= slot.title.len(),
    ensures
        byte_len(r) == 256,
        slot_in(trimmed(r)) == Some(
            (SlotView { title: slot.title.take(n), source: slot.source, updated_at: slot.updated_at }),
        ),
        byte_len(
            slot_text(
                (SlotView { title: slot.title.take(k), source: slot.source, updated_at: slot.updated_at }),
                Seq::empty(),
            ),
        ) <= 256 ==> k <= n,
{
    if k > n {
        assert(!slot_fits(with_title(slot, slot.title.take(k))));
    }
}

} // verus!

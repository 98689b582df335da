//! The reader of a session journal: its lines, its header, journals of earlier
//! versions, values kept outside the journal, and compactions that later ones
//! supersede.
use vstd::prelude::*;
use crate::entries::{branch, id_of, positions, type_of, walk_branch, CompactionEntry, KnownEntry, SessionEntry};
use crate::json::{
    array_view, copy_json, distinct_names, field_of, json_view, law_member_after_set, law_set_keeps_names_apart,
    law_set_keeps_others, law_take_keeps_others, lemma_array_view, lemma_object_view, member, members_view,
    parse_strict, set_member, strict_json, take_member, text_in, with_member, without_member, Json, JsonNumber,
    JsonView, Members, NumberView,
};
use crate::message::Text;
use crate::number::{hex_padded, hex_text};
use crate::text::{
    chars_of, holds_text, owned, parts, same_text, split_text, starts_with_text, text_of, text_starts_with, trim_text, trimmed,
};
use crate::title_slot::{parse_title_slot_line, slot_in, SlotView, TitleSlot};

verus! {

/// The size from which a journal is read line by line, in bytes.
pub const STREAM_LOAD_THRESHOLD_BYTES: u64 = 8_388_608;

// ---- lines ------------------------------------------------------------------------------

/// What the lines of a journal hold: the slot, where the first line is one, and
/// the values of the other lines. Blank lines and lines that are no JSON do not
/// count.
#[verifier::ext_equal]
pub struct LinesView {
    pub slot: Option<SlotView>,
    pub values: Seq<JsonView>,
    pub begun: bool,
}

pub open spec fn no_lines() -> LinesView {
    LinesView { slot: None, values: Seq::empty(), begun: false }
}

pub open spec fn line_value(line: Text) -> Option<JsonView> {
    let t = trimmed(line);
    if t.len() == 0 {
        None
    } else {
        strict_json(t)
    }
}

pub open spec fn line_read(r: LinesView, line: Text) -> LinesView {
    if !r.begun && slot_in(trimmed(line)) is Some {
        LinesView { slot: slot_in(trimmed(line)), begun: true, ..r }
    } else {
        match line_value(line) {
            Some(v) => LinesView { values: r.values.push(v), begun: true, ..r },
            None => LinesView { begun: true, ..r },
        }
    }
}

/// What some lines hold.
pub open spec fn lines_read(lines: Seq<Text>) -> LinesView
    decreases lines.len(),
{
    if lines.len() == 0 {
        no_lines()
    } else {
        line_read(lines_read(lines.drop_last()), lines.last())
    }
}

/// A reader that takes the lines of a journal one by one.
#[derive(Debug, PartialEq, Eq)]
pub struct SessionReader {
    pub title_slot: Option<TitleSlot>,
    pub values: Vec<Json>,
    pub begun: bool,
}

impl DeepView for SessionReader {
    type V = LinesView;

    open spec fn deep_view(&self) -> LinesView {
        LinesView {
            slot: self.title_slot.deep_view(),
            values: array_view(self.values@),
            begun: self.begun,
        }
    }
}

impl SessionReader {
    pub fn new() -> (r: Self)
        ensures
            r.deep_view() == no_lines(),
    {
        let r = SessionReader { title_slot: None, values: Vec::new(), begun: false };
        assert(array_view(r.values@) =~= Seq::empty());
        r
    }

    /// Takes in a line.
    pub fn push_line(&mut self, line: &str)
        ensures
            final(self).deep_view() == line_read(old(self).deep_view(), line@),
    {
        let ghost before = self.deep_view();
        let t = trim_text(line);
        if !self.begun {
            self.begun = true;
            if let Some(slot) = parse_title_slot_line(t.as_str()) {
                self.title_slot = Some(slot);
                return;
            }
        }
        if t.as_str().is_empty() {
            return;
        }
        if let Some(v) = parse_strict(t.as_str()) {
            let ghost view = json_view(v);
            self.values.push(v);
            assert(array_view(self.values@) =~= before.values.push(view));
        }
    }
}

/// What a journal holds.
pub fn read_session(content: &str) -> (r: SessionReader)
    ensures
        r.deep_view() == lines_read(parts(content@, '\n')),
{
    let lines = split_text(content, '\n');
    let ghost all = lines.deep_view();
    let mut reader = SessionReader::new();
    let mut i: usize = 0;
    assert(all.take(0) =~= Seq::empty());
    while i < lines.len()
        invariant
            all == lines.deep_view(),
            i <= lines.len(),
            reader.deep_view() == lines_read(all.take(i as int)),
        decreases lines.len() - i,
    {
        assert(all.take(i + 1).drop_last() =~= all.take(i as int));
        assert(all.take(i + 1).last() == lines@[i as int]@);
        reader.push_line(lines[i].as_str());
        i = i + 1;
    }
    assert(all.take(lines.len() as int) =~= all);
    reader
}

/// Reading a journal line by line comes to the same as reading it whole.
pub proof fn law_line_by_line_reads_the_same(lines: Seq<Text>, line: Text)
    ensures
        lines_read(lines.push(line)) == line_read(lines_read(lines), line),
{
    assert(lines.push(line).drop_last() =~= lines);
}

/// A line that is no JSON changes nothing in what a journal that has begun holds.
pub proof fn law_garbage_lines_are_skipped(r: LinesView, line: Text)
    requires
        r.begun,
        line_value(line) is None,
    ensures
        line_read(r, line) == r,
{
}

// ---- the header and earlier versions --------------------------------------------------------

#[derive(Debug, PartialEq, Eq)]
pub enum LoadError {
    /// The journal holds no value.
    NoEntries,
    /// The first value does not have the shape of a header.
    BadHeader,
    /// The first value is of this type, not a session header.
    NotAHeader(String),
}

/// A journal with its header apart, in the current version.
#[derive(Debug, PartialEq, Eq)]
pub struct LoadedSession {
    pub title_slot: Option<TitleSlot>,
    pub header: Json,
    pub entries: Vec<Json>,
}

/// The version that a header names, a 32-bit number; the first where it names
/// none.
pub open spec fn header_version(header: JsonView) -> Option<u64> {
    match field_of(header, "version"@) {
        None => Some(1),
        Some(JsonView::Null) => Some(1),
        Some(JsonView::Number(NumberView::PosInt(n))) => if n <= u32::MAX {
            Some(n)
        } else {
            None
        },
        Some(_) => None,
    }
}

/// Whether a value is an object with a text under the name.
pub open spec fn has_text(v: JsonView, key: Text) -> bool {
    text_in(field_of(v, key)) is Some
}

/// Whether what a value has under the name, if anything, is a text or null.
pub open spec fn may_have_text(v: JsonView, key: Text) -> bool {
    match field_of(v, key) {
        None => true,
        Some(JsonView::Null) => true,
        Some(JsonView::String(_)) => true,
        Some(_) => false,
    }
}

/// Whether a value has the shape of a header, of whatever type.
pub open spec fn header_shaped(v: JsonView) -> bool {
    &&& has_text(v, "type"@)
    &&& has_text(v, "id"@)
    &&& has_text(v, "timestamp"@)
    &&& has_text(v, "cwd"@)
    &&& header_version(v) is Some
    &&& may_have_text(v, "title"@)
    &&& may_have_text(v, "titleSource"@)
    &&& may_have_text(v, "parentSession"@)
    &&& may_have_text(v, "providerPromptCacheKey"@)
}

fn holds_string(v: &Json, key: &str) -> (r: bool)
    ensures
        r == has_text(json_view(*v), key@),
{
    match v.get(key) {
        Some(Json::String(_)) => true,
        _ => false,
    }
}

fn may_hold_string(v: &Json, key: &str) -> (r: bool)
    ensures
        r == may_have_text(json_view(*v), key@),
{
    match v.get(key) {
        None => true,
        Some(Json::Null) => true,
        Some(Json::String(_)) => true,
        Some(_) => false,
    }
}

fn version_of(v: &Json) -> (r: Option<u64>)
    ensures
        r == header_version(json_view(*v)),
{
    match v.get("version") {
        None => Some(1),
        Some(Json::Null) => Some(1),
        Some(Json::Number(JsonNumber::PosInt(n))) => if *n <= u32::MAX as u64 {
            Some(*n)
        } else {
            None
        },
        Some(_) => None,
    }
}

fn is_header_shaped(v: &Json) -> (r: bool)
    ensures
        r == header_shaped(json_view(*v)),
{
    holds_string(v, "type") && holds_string(v, "id") && holds_string(v, "timestamp") && holds_string(v, "cwd")
        && version_of(v).is_some() && may_hold_string(v, "title") && may_hold_string(v, "titleSource")
        && may_hold_string(v, "parentSession") && may_hold_string(v, "providerPromptCacheKey")
}

/// The identifier that the entry at a position of an old journal gets.
pub open spec fn given_id(i: int) -> Text {
    hex_padded(i as nat, 8)
}

/// The entry of an old journal that a compaction's index means: the header counts
/// as the first.
pub open spec fn kept_entry(index: Option<JsonView>, n: int) -> Option<Text> {
    match index {
        Some(JsonView::Number(NumberView::PosInt(k))) => if 1 <= k <= n {
            Some(given_id(k - 1))
        } else {
            None
        },
        _ => None,
    }
}

/// The entry at position `i` of `n` entries of a journal of the first version, as
/// it is in the current one: in a chain with the others, and with the entry that
/// a compaction keeps named by its identifier.
pub open spec fn upgraded(v: JsonView, i: int, n: int) -> JsonView {
    match v {
        JsonView::Object(o) => {
            let named = with_member(o, "id"@, JsonView::String(given_id(i)));
            let chained = with_member(
                named,
                "parentId"@,
                if i == 0 {
                    JsonView::Null
                } else {
                    JsonView::String(given_id(i - 1))
                },
            );
            if text_in(member(o, "type"@)) == Some("compaction"@) && member(
                chained,
                "firstKeptEntryIndex"@,
            ) is Some {
                let bare = without_member(chained, "firstKeptEntryIndex"@);
                match kept_entry(member(chained, "firstKeptEntryIndex"@), n) {
                    Some(id) => JsonView::Object(
                        with_member(bare, "firstKeptEntryId"@, JsonView::String(id)),
                    ),
                    None => JsonView::Object(bare),
                }
            } else {
                JsonView::Object(chained)
            }
        },
        _ => v,
    }
}

fn upgrade_entry(v: Json, i: usize, n: usize) -> (r: Json)
    requires
        i < n,
    ensures
        json_view(r) == upgraded(json_view(v), i as int, n as int),
{
    match v {
        Json::Object(o) => {
            proof {
                lemma_object_view(o);
            }
            let compaction = match crate::json::get_member(&o, "type") {
                Some(Json::String(t)) => same_text(t.as_str(), "compaction"),
                _ => false,
            };
            let mut o = o;
            let id = hex_text(i as u64, 8);
            set_member(&mut o, "id", Json::String(id));
            let parent = if i == 0 {
                Json::Null
            } else {
                Json::String(hex_text((i - 1) as u64, 8))
            };
            set_member(&mut o, "parentId", parent);
            if compaction {
                if let Some(index) = take_member(&mut o, "firstKeptEntryIndex") {
                    if let Json::Number(JsonNumber::PosInt(k)) = index {
                        if 1 <= k && k <= n as u64 {
                            let kept = hex_text(k - 1, 8);
                            set_member(&mut o, "firstKeptEntryId", Json::String(kept));
                        }
                    }
                }
            }
            proof {
                lemma_object_view(o);
            }
            Json::Object(o)
        },
        other => other,
    }
}

/// The entries of a journal of a version, as they are in the current one.
pub open spec fn migrated(values: Seq<JsonView>, version: u64) -> Seq<JsonView> {
    if version < 2 {
        Seq::new(values.len(), |i: int| upgraded(values[i], i, values.len() as int))
    } else {
        values
    }
}

pub open spec fn current_header(header: JsonView, version: u64) -> JsonView {
    if version < 3 && header is Object {
        JsonView::Object(
            with_member(
                header->Object_0,
                "version"@,
                JsonView::Number(NumberView::PosInt(3)),
            ),
        )
    } else {
        header
    }
}

fn upgrade_all(values: Vec<Json>) -> (r: Vec<Json>)
    ensures
        array_view(r@) == migrated(array_view(values@), 1),
{
    let ghost all = array_view(values@);
    let n = values.len();
    let mut source = values;
    let mut back: Vec<Json> = Vec::new();
    let ghost want = migrated(all, 1);
    while source.len() > 0
        invariant
            all.len() == n,
            want == migrated(all, 1),
            source.len() + back.len() == n,
            array_view(source@) == all.take(source.len() as int),
            array_view(back@) == want.subrange(source.len() as int, n as int).reverse(),
        decreases source.len(),
    {
        let ghost k = source.len() - 1;
        let ghost taken = array_view(back@);
        assert(array_view(source@)[k] == json_view(source@[k]));
        if let Some(v) = source.pop() {
            let e = upgrade_entry(v, source.len(), n);
            let ghost view = json_view(e);
            back.push(e);
            proof {
                assert(array_view(source@) =~= all.take(k));
                assert(view == want[k]);
                assert(array_view(back@) =~= taken.push(view));
                assert(want.subrange(k, n as int).reverse() =~= taken.push(view));
            }
        }
    }
    assert(want.subrange(0, n as int) =~= want);
    let mut out: Vec<Json> = Vec::new();
    assert(array_view(out@) =~= want.take(0));
    let ghost mut done: int = 0;
    while back.len() > 0
        invariant
            want.len() == n,
            done + back.len() == n,
            0 <= done,
            array_view(back@) == want.subrange(done, n as int).reverse(),
            array_view(out@) == want.take(done),
        decreases back.len(),
    {
        let ghost left = array_view(back@);
        proof {
            assert(left.last() == want[done]);
            assert(left.last() == json_view(back@[back@.len() - 1]));
            assert(left.drop_last() =~= want.subrange(done + 1, n as int).reverse());
        }
        if let Some(e) = back.pop() {
            assert(array_view(back@) =~= left.drop_last());
            let ghost before = array_view(out@);
            let ghost view = json_view(e);
            out.push(e);
            assert(array_view(out@) =~= before.push(view));
            assert(before.push(view) =~= want.take(done + 1));
        }
        proof {
            done = done + 1;
        }
    }
    assert(want.take(n as int) =~= want);
    out
}

/// Whether a result is what loading comes to, given what the lines hold.
pub open spec fn loads_as(read: LinesView, r: Result<LoadedSession, LoadError>) -> bool {
    let values = read.values;
    if values.len() == 0 {
        r is Err && r->Err_0 is NoEntries
    } else if !header_shaped(values[0]) {
        r is Err && r->Err_0 is BadHeader
    } else if field_of(values[0], "type"@) != Some(JsonView::String("session"@)) {
        r is Err && r->Err_0 is NotAHeader && text_in(field_of(values[0], "type"@)) == Some(r->Err_0->NotAHeader_0@)
    } else {
        let version = header_version(values[0])->0;
        &&& r is Ok
        &&& r->Ok_0.title_slot.deep_view() == read.slot
        &&& json_view(r->Ok_0.header) == current_header(values[0], version)
        &&& array_view(r->Ok_0.entries@) == migrated(values.subrange(1, values.len() as int), version)
    }
}

/// Takes the header off a journal, and brings the journal to the current version.
pub fn open_session(read: SessionReader) -> (r: Result<LoadedSession, LoadError>)
    ensures
        loads_as(read.deep_view(), r),
{
    let SessionReader { title_slot, values, begun: _ } = read;
    let mut values = values;
    let ghost all = array_view(values@);
    if values.len() == 0 {
        return Err(LoadError::NoEntries);
    }
    let header = values.remove(0);
    proof {
        assert(json_view(header) == all[0]);
        assert(array_view(values@) =~= all.subrange(1, all.len() as int));
    }
    if !is_header_shaped(&header) {
        return Err(LoadError::BadHeader);
    }
    if let Some(Json::String(kind)) = header.get("type") {
        if !same_text(kind.as_str(), "session") {
            return Err(LoadError::NotAHeader(owned(kind.as_str())));
        }
    }
    let version: u64 = match version_of(&header) {
        Some(n) => n,
        None => {
            return Err(LoadError::BadHeader);
        },
    };
    let entries = if version < 2 {
        upgrade_all(values)
    } else {
        values
    };
    let header = match header {
        Json::Object(o) => {
            proof {
                lemma_object_view(o);
            }
            let mut o = o;
            if version < 3 {
                set_member(&mut o, "version", Json::Number(JsonNumber::PosInt(3)));
            }
            proof {
                lemma_object_view(o);
            }
            Json::Object(o)
        },
        other => other,
    };
    Ok(LoadedSession { title_slot, header, entries })
}

/// Loads a journal: its title slot, its header, and its entries in the current
/// version.
pub fn parse_session_content(content: &str) -> (r: Result<LoadedSession, LoadError>)
    ensures
        loads_as(lines_read(parts(content@, '\n')), r),
{
    open_session(read_session(content))
}

/// In a journal of the first version every entry becomes the child of the one
/// before it, and the first one a root.
pub proof fn law_migration_chains_entries(values: Seq<JsonView>, i: int)
    requires
        0 <= i < values.len(),
        values[i] is Object,
        distinct_names(values[i]->Object_0),
    ensures
        field_of(migrated(values, 1)[i], "id"@) == Some(JsonView::String(given_id(i))),
        field_of(migrated(values, 1)[i], "parentId"@) == Some(
            if i == 0 {
                JsonView::Null
            } else {
                JsonView::String(given_id(i - 1))
            },
        ),
{
    let o = values[i]->Object_0;
    let id = JsonView::String(given_id(i));
    let parent = if i == 0 {
        JsonView::Null
    } else {
        JsonView::String(given_id(i - 1))
    };
    let named = with_member(o, "id"@, id);
    let chained = with_member(named, "parentId"@, parent);
    reveal_strlit("id");
    reveal_strlit("parentId");
    reveal_strlit("firstKeptEntryIndex");
    reveal_strlit("firstKeptEntryId");
    assert("id"@.len() == 2 && "parentId"@.len() == 8 && "firstKeptEntryIndex"@.len() == 19
        && "firstKeptEntryId"@.len() == 16);
    law_member_after_set(o, "id"@, id);
    law_set_keeps_others(named, "parentId"@, parent, "id"@);
    law_member_after_set(named, "parentId"@, parent);
    law_set_keeps_names_apart(o, "id"@, id);
    law_set_keeps_names_apart(named, "parentId"@, parent);
    let index = "firstKeptEntryIndex"@;
    law_take_keeps_others(chained, index, "id"@);
    law_take_keeps_others(chained, index, "parentId"@);
    let bare = without_member(chained, index);
    match kept_entry(member(chained, index), values.len() as int) {
        Some(kept) => {
            law_set_keeps_others(bare, "firstKeptEntryId"@, JsonView::String(kept), "id"@);
            law_set_keeps_others(bare, "firstKeptEntryId"@, JsonView::String(kept), "parentId"@);
        },
        None => {},
    }
    assert(migrated(values, 1)[i] == upgraded(values[i], i, values.len() as int));
}

/// A compaction of the first version that keeps the entry of an index names that
/// entry afterwards.
pub proof fn law_migration_names_kept_entry(o: Members, i: int, n: int, k: u64)
    requires
        text_in(member(o, "type"@)) == Some("compaction"@),
        member(o, "firstKeptEntryIndex"@) == Some(JsonView::Number(NumberView::PosInt(k))),
        1 <= k <= n,
    ensures
        field_of(upgraded(JsonView::Object(o), i, n), "firstKeptEntryId"@) == Some(
            JsonView::String(given_id(k - 1)),
        ),
{
    let named = with_member(o, "id"@, JsonView::String(given_id(i)));
    let parent = if i == 0 {
        JsonView::Null
    } else {
        JsonView::String(given_id(i - 1))
    };
    let chained = with_member(named, "parentId"@, parent);
    let index = "firstKeptEntryIndex"@;
    reveal_strlit("id");
    reveal_strlit("parentId");
    reveal_strlit("firstKeptEntryIndex");
    assert("id"@.len() == 2 && "parentId"@.len() == 8 && index.len() == 19);
    law_set_keeps_others(o, "id"@, JsonView::String(given_id(i)), index);
    law_set_keeps_others(named, "parentId"@, parent, index);
    assert(member(chained, index) == Some(JsonView::Number(NumberView::PosInt(k))));
    let bare = without_member(chained, index);
    law_member_after_set(bare, "firstKeptEntryId"@, JsonView::String(given_id(k - 1)));
}

// ---- values kept outside the journal ---------------------------------------------------------

/// The base64 text of bytes.
pub uninterp spec fn base64_text(bytes: Seq<u8>) -> Seq<char>;

/// `base64::Engine::encode` of the standard engine: the base64 text of the bytes.
/// The contract gives the result a name.
#[verifier::external_body]
fn encode_base64(bytes: &Vec<u8>) -> (r: String)
    ensures
        r@ == base64_text(bytes@),
{
    base64::Engine::encode(&base64::engine::general_purpose::STANDARD, bytes)
}

/// A value kept outside the journal, under its hash.
#[derive(Debug, PartialEq, Eq)]
pub struct Blob {
    pub hash: String,
    pub bytes: Vec<u8>,
}

/// The bytes kept under a hash.
pub open spec fn blob_of(blobs: Seq<Blob>, hash: Text) -> Option<Seq<u8>>
    decreases blobs.len(),
{
    if blobs.len() == 0 {
        None
    } else if blobs[0].hash@ == hash {
        Some(blobs[0].bytes@)
    } else {
        blob_of(blobs.subrange(1, blobs.len() as int), hash)
    }
}

/// The hash that a text refers to, where it is a reference.
pub open spec fn blob_ref(t: Text) -> Option<Text> {
    if starts_with_text(t, "blob:sha256:"@) {
        Some(t.subrange(12, t.len() as int))
    } else {
        None
    }
}

/// The data of an image: what a reference refers to, in base64, where it is kept;
/// anything else as it is.
pub open spec fn image_data(v: JsonView, blobs: Seq<Blob>) -> JsonView {
    match v {
        JsonView::String(t) => match blob_ref(t) {
            Some(hash) => match blob_of(blobs, hash) {
                Some(bytes) => JsonView::String(base64_text(bytes)),
                None => v,
            },
            None => v,
        },
        _ => v,
    }
}

pub open spec fn is_image(o: Members) -> bool {
    text_in(member(o, "type"@)) == Some("image"@)
}

/// A value with the data of its images filled in.
pub open spec fn filled(v: JsonView, blobs: Seq<Blob>) -> JsonView
    decreases v,
{
    match v {
        JsonView::Array(a) => JsonView::Array(
            Seq::new(
                a.len(),
                |i: int|
                    if 0 <= i < a.len() {
                        filled(a[i], blobs)
                    } else {
                        JsonView::Null
                    },
            ),
        ),
        JsonView::Object(o) => JsonView::Object(
            Seq::new(
                o.len(),
                |i: int|
                    if 0 <= i < o.len() {
                        (o[i].0, if is_image(o) && o[i].0 == "data"@ {
                            image_data(o[i].1, blobs)
                        } else {
                            filled(o[i].1, blobs)
                        })
                    } else {
                        (Seq::empty(), JsonView::Null)
                    },
            ),
        ),
        _ => v,
    }
}

fn find_blob<'a>(blobs: &'a Vec<Blob>, hash: &str) -> (r: Option<&'a Vec<u8>>)
    ensures
        match r {
            Some(b) => blob_of(blobs@, hash@) == Some(b@),
            None => blob_of(blobs@, hash@) is None,
        },
{
    let ghost all = blobs@;
    let mut i: usize = 0;
    assert(all.subrange(0, all.len() as int) =~= all);
    while i < blobs.len()
        invariant
            all == blobs@,
            i <= blobs.len(),
            blob_of(all, hash@) == blob_of(all.subrange(i as int, all.len() as int), hash@),
        decreases blobs.len() - i,
    {
        let ghost rest = all.subrange(i as int, all.len() as int);
        assert(rest[0] == all[i as int]);
        assert(rest.subrange(1, rest.len() as int) =~= all.subrange(i + 1, all.len() as int));
        if same_text(blobs[i].hash.as_str(), hash) {
            return Some(&blobs[i].bytes);
        }
        i = i + 1;
    }
    None
}

/// The hash that a text refers to, where it is a reference.
pub fn blob_hash(t: &str) -> (r: Option<String>)
    ensures
        r.deep_view() == blob_ref(t@),
{
    proof {
        reveal_strlit("blob:sha256:");
    }
    if text_starts_with(t, "blob:sha256:") {
        let v = chars_of(t);
        Some(text_of(&v, 12, v.len()))
    } else {
        None
    }
}

fn fill_data(v: &Json, blobs: &Vec<Blob>) -> (r: Json)
    ensures
        json_view(r) == image_data(json_view(*v), blobs@),
{
    if let Json::String(t) = v {
        if let Some(hash) = blob_hash(t.as_str()) {
            if let Some(bytes) = find_blob(blobs, hash.as_str()) {
                return Json::String(encode_base64(bytes));
            }
        }
    }
    copy_json(v)
}

/// A value with the data of its images filled in.
pub fn fill_blobs(v: &Json, blobs: &Vec<Blob>) -> (r: Json)
    ensures
        json_view(r) == filled(json_view(*v), blobs@),
    decreases *v,
{
    match v {
        Json::Array(a) => {
            proof {
                lemma_array_view(*a);
            }
            let ghost av = array_view(a@);
            let mut out: Vec<Json> = Vec::new();
            let mut i: usize = 0;
            while i < a.len()
                invariant
                    v is Array,
                    v->Array_0 == *a,
                    av == array_view(a@),
                    i <= a.len(),
                    out.len() == i,
                    forall|k: int| 0 <= k < i ==> json_view(#[trigger] out@[k]) == filled(av[k], blobs@),
                decreases a.len() - i,
            {
                assert(decreases_to!(*a => a[i as int]));
                let e = fill_blobs(&a[i], blobs);
                out.push(e);
                i = i + 1;
            }
            proof {
                lemma_array_view(out);
                assert(filled(json_view(*v), blobs@)->Array_0 =~= array_view(out@));
            }
            Json::Array(out)
        },
        Json::Object(o) => {
            proof {
                lemma_object_view(*o);
            }
            let ghost ov = members_view(o@);
            let image = match crate::json::get_member(o, "type") {
                Some(Json::String(t)) => same_text(t.as_str(), "image"),
                _ => false,
            };
            let mut out: Vec<(String, Json)> = Vec::new();
            let mut i: usize = 0;
            while i < o.len()
                invariant
                    v is Object,
                    v->Object_0 == *o,
                    ov == members_view(o@),
                    image == is_image(ov),
                    i <= o.len(),
                    out.len() == i,
                    forall|k: int|
                        0 <= k < i ==> (#[trigger] out@[k]).0@ == ov[k].0 && json_view(out@[k].1) == (if is_image(ov) && ov[k].0
                            == "data"@ {
                            image_data(ov[k].1, blobs@)
                        } else {
                            filled(ov[k].1, blobs@)
                        }),
                decreases o.len() - i,
            {
                assert(decreases_to!(*o => o[i as int]));
                let name = o[i].0.clone();
                let e = if image && same_text(o[i].0.as_str(), "data") {
                    fill_data(&o[i].1, blobs)
                } else {
                    fill_blobs(&o[i].1, blobs)
                };
                out.push((name, e));
                i = i + 1;
            }
            proof {
                lemma_object_view(out);
                assert(filled(json_view(*v), blobs@)->Object_0 =~= members_view(out@));
            }
            Json::Object(out)
        },
        _ => copy_json(v),
    }
}

/// Data whose reference nothing is kept under stays as it is.
pub proof fn law_missing_blob_keeps_reference(t: Text, blobs: Seq<Blob>)
    requires
        blob_ref(t) is Some ==> blob_of(blobs, blob_ref(t)->0) is None,
    ensures
        image_data(JsonView::String(t), blobs) == JsonView::String(t),
{
}

// ---- compactions that others supersede ----------------------------------------------------------

pub open spec fn elided_summary() -> Text {
    "[Superseded compaction summary elided during session load]"@
}

pub open spec fn elided_short_summary() -> Text {
    "Superseded compaction elided"@
}

pub open spec fn last_entry(entries: Seq<SessionEntry>) -> Option<int> {
    if entries.len() > 0 {
        Some(entries.len() - 1)
    } else {
        None
    }
}

/// The identifiers on the branch that ends in the last entry.
pub open spec fn active_ids(entries: Seq<SessionEntry>) -> Seq<Text> {
    let b = branch(entries, last_entry(entries));
    Seq::new(b.len(), |i: int| id_of(entries[b[i]])->0)
}

/// Whether the entry at a position is a compaction on the active branch.
pub open spec fn active_compaction(entries: Seq<SessionEntry>, i: int) -> bool {
    type_of(entries[i]) == "compaction"@ && id_of(entries[i]) is Some && active_ids(entries).contains(
        id_of(entries[i])->0,
    )
}

/// Whether a later compaction on the active branch supersedes the entry.
pub open spec fn superseded(entries: Seq<SessionEntry>, i: int) -> bool {
    active_compaction(entries, i) && exists|j: int|
        i < j < entries.len() && #[trigger] active_compaction(entries, j)
}

/// `new` is `old` with the summary of its compaction elided.
pub open spec fn elided(old: SessionEntry, new: SessionEntry) -> bool {
    match (old, new) {
        (SessionEntry::Known(KnownEntry::Compaction(a)), SessionEntry::Known(KnownEntry::Compaction(b))) => b.summary@
            == elided_summary() && b.short_summary is Some && b.short_summary->0@ == elided_short_summary()
            && b.preserve_data is None && b == (CompactionEntry {
            summary: b.summary,
            short_summary: b.short_summary,
            preserve_data: b.preserve_data,
            ..a
        }),
        _ => new == old,
    }
}

fn collect_active_branch_ids(entries: &Vec<SessionEntry>) -> (r: Vec<String>)
    ensures
        r.deep_view() == active_ids(entries@),
{
    let leaf = if entries.len() > 0 {
        Some(entries.len() - 1)
    } else {
        None
    };
    let walk = walk_branch(entries, leaf);
    let ghost b = branch(entries@, last_entry(entries@));
    proof {
        assert(positions(walk@) == b);
        lemma_branch_has_ids(entries@);
    }
    let mut out: Vec<String> = Vec::new();
    let mut i: usize = 0;
    while i < walk.len()
        invariant
            b == branch(entries@, last_entry(entries@)),
            positions(walk@) == b,
            forall|k: int| 0 <= k < walk@.len() ==> #[trigger] walk@[k] < entries.len(),
            forall|k: int| 0 <= k < b.len() ==> id_of(entries@[#[trigger] b[k]]) is Some,
            i <= walk.len(),
            out.len() == i,
            forall|k: int| 0 <= k < i ==> (#[trigger] out@[k])@ == id_of(entries@[b[k]])->0,
        decreases walk.len() - i,
    {
        let at = walk[i];
        assert(b[i as int] == walk@[i as int] as int);
        if let Some(id) = entries[at].id() {
            out.push(owned(id));
        }
        i = i + 1;
    }
    assert(out.deep_view() =~= active_ids(entries@));
    out
}

proof fn lemma_branch_has_ids(entries: Seq<SessionEntry>)
    ensures
        forall|k: int|
            0 <= k < branch(entries, last_entry(entries)).len() ==> id_of(
                entries[#[trigger] branch(entries, last_entry(entries))[k]],
            ) is Some,
{
    lemma_walk_has_ids(entries, last_entry(entries), Seq::empty(), entries.len());
}

proof fn lemma_walk_has_ids(entries: Seq<SessionEntry>, at: Option<int>, seen: Seq<Text>, fuel: nat)
    ensures
        forall|k: int|
            0 <= k < crate::entries::walk(entries, at, seen, fuel).len() ==> id_of(
                entries[#[trigger] crate::entries::walk(entries, at, seen, fuel)[k]],
            ) is Some,
    decreases fuel,
{
    let w = crate::entries::walk(entries, at, seen, fuel);
    if w.len() > 0 {
        let i = at->0;
        let id = id_of(entries[i])->0;
        let up = match crate::entries::parent_of(entries[i]) {
            Some(p) => crate::entries::last_with_id(entries, p),
            None => None,
        };
        lemma_walk_has_ids(entries, up, seen.push(id), (fuel - 1) as nat);
        let rest = crate::entries::walk(entries, up, seen.push(id), (fuel - 1) as nat);
        assert forall|k: int| 0 <= k < w.len() implies id_of(entries[#[trigger] w[k]]) is Some by {
            if k > 0 {
                assert(w[k] == rest[k - 1]);
            }
        }
    }
}

fn elide_compaction_summary(entry: &mut SessionEntry)
    ensures
        elided(*old(entry), *final(entry)),
{
    match entry {
        SessionEntry::Known(KnownEntry::Compaction(c)) => {
            c.summary = owned("[Superseded compaction summary elided during session load]");
            c.short_summary = Some(owned("Superseded compaction elided"));
            c.preserve_data = None;
        },
        _ => {},
    }
}

/// Elides the summary of every compaction on the active branch but the last.
pub fn elide_superseded_compaction_entries(entries: &mut Vec<SessionEntry>)
    ensures
        final(entries)@.len() == old(entries)@.len(),
        forall|i: int|
            0 <= i < old(entries)@.len() ==> if superseded(old(entries)@, i) {
                elided(old(entries)@[i], #[trigger] final(entries)@[i])
            } else {
                final(entries)@[i] == old(entries)@[i]
            },
{
    let ghost start = entries@;
    let ids = collect_active_branch_ids(entries);
    let mut later = false;
    let mut i: usize = entries.len();
    while i > 0
        invariant
            ids.deep_view() == active_ids(start),
            i <= entries.len(),
            entries@.len() == start.len(),
            later == (exists|j: int| i <= j < start.len() && #[trigger] active_compaction(start, j)),
            forall|k: int| 0 <= k < i ==> #[trigger] entries@[k] == start[k],
            forall|k: int|
                i <= k < start.len() ==> if superseded(start, k) {
                    elided(start[k], #[trigger] entries@[k])
                } else {
                    entries@[k] == start[k]
                },
        decreases i,
    {
        let ghost was_later = later;
        i = i - 1;
        assert(entries@[i as int] == start[i as int]);
        let kind = entries[i].entry_type();
        let mut active = false;
        if same_text(kind.as_str(), "compaction") {
            if let Some(id) = entries[i].id() {
                active = holds_text(&ids, id);
            }
        }
        assert(active == active_compaction(start, i as int));
        if active && later {
            assert(superseded(start, i as int));
            elide_compaction_summary(&mut entries[i]);
        } else {
            assert(!superseded(start, i as int)) by {
                if superseded(start, i as int) {
                    let j = choose|j: int| i < j < start.len() && #[trigger] active_compaction(start, j);
                    assert(i + 1 <= j);
                }
            }
        }
        if active {
            later = true;
        }
        proof {
            if was_later {
                let j = choose|j: int| i + 1 <= j < start.len() && #[trigger] active_compaction(start, j);
                assert(active_compaction(start, j));
            }
            if !later && (exists|j: int| i <= j < start.len() && #[trigger] active_compaction(start, j)) {
                let j = choose|j: int| i <= j < start.len() && #[trigger] active_compaction(start, j);
                assert(j == i || i + 1 <= j);
            }
        }
    }
}

/// The last compaction of the active branch keeps its summary.
pub proof fn law_newest_compaction_is_kept(entries: Seq<SessionEntry>, i: int)
    requires
        0 <= i < entries.len(),
        forall|j: int| i < j < entries.len() ==> !#[trigger] active_compaction(entries, j),
    ensures
        !superseded(entries, i),
{
}

/// An entry off the active branch, and one that is no compaction, is left as it is.
pub proof fn law_other_entries_are_untouched(entries: Seq<SessionEntry>, i: int)
    requires
        0 <= i < entries.len(),
        !active_compaction(entries, i),
    ensures
        !superseded(entries, i),
{
}

/// A first line that is no slot is an entry like any other: it is not lost.
pub proof fn law_first_entry_is_not_lost(line: Text)
    requires
        slot_in(trimmed(line)) is None,
        line_value(line) is Some,
    ensures
        line_read(no_lines(), line).values == seq![line_value(line)->0],
        line_read(no_lines(), line).slot is None,
{
    assert(Seq::<JsonView>::empty().push(line_value(line)->0) =~= seq![line_value(line)->0]);
}

// ---- what is read ------------------------------------------------------------------------------

/// Every line that holds a value adds that value, in order; a slot counts only as the
/// first line.
pub proof fn law_every_value_line_is_read(lines: Seq<Text>, line: Text, v: JsonView)
    requires
        lines.len() > 0,
        trimmed(line).len() > 0,
        strict_json(trimmed(line)) == Some(v),
    ensures
        lines_read(lines.push(line)).values == lines_read(lines).values.push(v),
        lines_read(lines.push(line)).slot == lines_read(lines).slot,
{
    assert(lines.push(line).drop_last() =~= lines);
    assert(lines_read(lines).begun) by {
        assert(lines_read(lines) == line_read(lines_read(lines.drop_last()), lines.last()));
    }
}

/// The first line is the slot where it reads as one, else its value counts.
pub proof fn law_first_line_is_slot_or_value(line: Text)
    ensures
        slot_in(trimmed(line)) is Some ==> lines_read(seq![line]).slot == slot_in(trimmed(line)) && lines_read(
            seq![line],
        ).values.len() == 0,
        slot_in(trimmed(line)) is None && trimmed(line).len() > 0 && strict_json(trimmed(line)) is Some ==> lines_read(
            seq![line],
        ).slot is None && lines_read(seq![line]).values == seq![strict_json(trimmed(line))->0],
{
    let one = seq![line];
    assert(one.drop_last() =~= Seq::empty());
    assert(lines_read(one.drop_last()) == no_lines());
    if slot_in(trimmed(line)) is None && trimmed(line).len() > 0 && strict_json(trimmed(line)) is Some {
        assert(lines_read(one).values =~= seq![strict_json(trimmed(line))->0]);
    }
}

/// A journal of the current version is loaded as it stands: its header and all its
/// entries, in order. One of an earlier version keeps every entry; its header says the
/// current version and nothing else of it changes.
pub proof fn law_journal_is_loaded_whole(read: LinesView, r: Result<LoadedSession, LoadError>)
    requires
        loads_as(read, r),
        r is Ok,
    ensures
        ({
            let header = json_view(r->Ok_0.header);
            let entries = array_view(r->Ok_0.entries@);
            &&& read.values.len() > 0
            &&& text_in(field_of(read.values[0], "type"@)) == Some("session"@)
            &&& entries.len() == read.values.len() - 1
            &&& r->Ok_0.title_slot.deep_view() == read.slot
            &&& field_of(read.values[0], "version"@) is Some && field_of(read.values[0], "version"@)->0 is Number
                && field_of(read.values[0], "version"@)->0->Number_0 is PosInt
                && field_of(read.values[0], "version"@)->0->Number_0->PosInt_0 >= 3 ==> header == read.values[0]
                && entries == read.values.subrange(1, read.values.len() as int)
            &&& text_in(field_of(header, "id"@)) == text_in(field_of(read.values[0], "id"@))
            &&& text_in(field_of(header, "cwd"@)) == text_in(field_of(read.values[0], "cwd"@))
            &&& text_in(field_of(header, "title"@)) == text_in(field_of(read.values[0], "title"@))
            &&& field_of(header, "version"@) is Some
        }),
{
    let v = read.values[0];
    let version = header_version(v)->0;
    reveal_strlit("version");
    reveal_strlit("id");
    reveal_strlit("cwd");
    reveal_strlit("title");
    assert("version"@.len() == 7 && "id"@.len() == 2 && "cwd"@.len() == 3 && "title"@.len() == 5);
    if version < 3 {
        let o = v->Object_0;
        let three = JsonView::Number(NumberView::PosInt(3));
        law_member_after_set(o, "version"@, three);
        law_set_keeps_others(o, "version"@, three, "id"@);
        law_set_keeps_others(o, "version"@, three, "cwd"@);
        law_set_keeps_others(o, "version"@, three, "title"@);
    }
}

/// What cannot be loaded is refused, for the first thing that is wrong with it.
pub proof fn law_refused_journals(read: LinesView, r: Result<LoadedSession, LoadError>)
    requires
        loads_as(read, r),
    ensures
        read.values.len() == 0 ==> r is Err && r->Err_0 is NoEntries,
        read.values.len() > 0 && text_in(field_of(read.values[0], "id"@)) is None ==> r is Err && r->Err_0 is BadHeader,
        read.values.len() > 0 && text_in(field_of(read.values[0], "timestamp"@)) is None ==> r is Err && r->Err_0
            is BadHeader,
        read.values.len() > 0 && text_in(field_of(read.values[0], "cwd"@)) is None ==> r is Err && r->Err_0 is BadHeader,
        read.values.len() > 0 && text_in(field_of(read.values[0], "type"@)) != Some("session"@) ==> r is Err,
        r is Err && r->Err_0 is NotAHeader ==> text_in(field_of(read.values[0], "type"@)) == Some(
            r->Err_0->NotAHeader_0@,
        ) && r->Err_0->NotAHeader_0@ != "session"@,
{
}

/// Bringing an entry of the first version to the current one changes its place in the
/// chain and, of a compaction, what it keeps; everything else of it stays.
pub proof fn law_migration_keeps_the_rest(values: Seq<JsonView>, i: int, k: Text)
    requires
        0 <= i < values.len(),
        values[i] is Object,
        distinct_names(values[i]->Object_0),
        k != "id"@ && k != "parentId"@ && k != "firstKeptEntryIndex"@ && k != "firstKeptEntryId"@,
    ensures
        migrated(values, 1).len() == values.len(),
        field_of(migrated(values, 1)[i], k) == field_of(values[i], k),
        migrated(values, 2) == values,
        migrated(values, 3) == values,
{
    let o = values[i]->Object_0;
    let id = JsonView::String(given_id(i));
    let named = with_member(o, "id"@, id);
    let parent = if i == 0 {
        JsonView::Null
    } else {
        JsonView::String(given_id(i - 1))
    };
    let chained = with_member(named, "parentId"@, parent);
    law_set_keeps_others(o, "id"@, id, k);
    law_set_keeps_others(named, "parentId"@, parent, k);
    law_set_keeps_names_apart(o, "id"@, id);
    law_set_keeps_names_apart(named, "parentId"@, parent);
    law_take_keeps_others(chained, "firstKeptEntryIndex"@, k);
    let bare = without_member(chained, "firstKeptEntryIndex"@);
    assert forall|v: JsonView| member(#[trigger] with_member(bare, "firstKeptEntryId"@, v), k) == member(bare, k) by {
        law_set_keeps_others(bare, "firstKeptEntryId"@, v, k);
    }
    assert(migrated(values, 1)[i] == upgraded(values[i], i, values.len() as int));
}

/// The data of an image that lie outside the journal are put in, where they are there:
/// the first blob with the name counts.
pub proof fn law_blobs_are_put_in(hash: Text, blobs: Seq<Blob>, k: int)
    requires
        0 <= k < blobs.len(),
        blobs[k].hash@ == hash,
        forall|j: int| 0 <= j < k ==> (#[trigger] blobs[j]).hash@ != hash,
    ensures
        blob_of(blobs, hash) == Some(blobs[k].bytes@),
        image_data(JsonView::String("blob:sha256:"@ + hash), blobs) == JsonView::String(base64_text(blobs[k].bytes@)),
    decreases blobs.len(),
{
    if k > 0 {
        assert(blobs[0].hash@ != hash);
        let t = blobs.subrange(1, blobs.len() as int);
        assert forall|j: int| 0 <= j < k - 1 implies (#[trigger] t[j]).hash@ != hash by {
            assert(t[j] == blobs[j + 1]);
        }
        law_blobs_are_put_in(hash, t, k - 1);
    }
    reveal_strlit("blob:sha256:");
    let r = "blob:sha256:"@ + hash;
    assert("blob:sha256:"@.len() == 12);
    assert(r.subrange(0, 12) =~= "blob:sha256:"@);
    assert(r.subrange(12, r.len() as int) =~= hash);
}

/// Putting in blobs changes nothing but the data of images: texts, numbers and flags
/// stay, lists and objects keep their elements and names in order.
pub proof fn law_filling_keeps_the_rest(v: JsonView, blobs: Seq<Blob>, i: int)
    ensures
        !(v is Array) && !(v is Object) ==> filled(v, blobs) == v,
        v is Array ==> filled(v, blobs) is Array && filled(v, blobs)->Array_0.len() == v->Array_0.len(),
        v is Array && 0 <= i < v->Array_0.len() ==> filled(v, blobs)->Array_0[i] == filled(v->Array_0[i], blobs),
        v is Object ==> filled(v, blobs) is Object && filled(v, blobs)->Object_0.len() == v->Object_0.len(),
        v is Object && 0 <= i < v->Object_0.len() ==> {
            let was = v->Object_0[i];
            let is = filled(v, blobs)->Object_0[i];
            let image = text_in(member(v->Object_0, "type"@)) == Some("image"@) && was.0 == "data"@;
            &&& is.0 == was.0
            &&& !image ==> is.1 == filled(was.1, blobs)
            &&& image && !(was.1 is String) ==> is.1 == was.1
        },
{
}

/// A compaction loses its text exactly where a later one on the same active branch
/// replaces it.
pub proof fn law_only_replaced_compactions_are_elided(entries: Seq<SessionEntry>, i: int)
    requires
        0 <= i < entries.len(),
    ensures
        ({
            let live = |j: int|
                type_of(entries[j]) == "compaction"@ && id_of(entries[j]) is Some && active_ids(entries).contains(
                    id_of(entries[j])->0,
                );
            &&& superseded(entries, i) ==> live(i) && exists|j: int| i < j < entries.len() && #[trigger] live(j)
            &&& live(i) && (exists|j: int| i < j < entries.len() && #[trigger] live(j)) ==> superseded(entries, i)
        }),
{
    let live = |j: int|
        type_of(entries[j]) == "compaction"@ && id_of(entries[j]) is Some && active_ids(entries).contains(
            id_of(entries[j])->0,
        );
    if superseded(entries, i) {
        let j = choose|j: int| i < j < entries.len() && #[trigger] active_compaction(entries, j);
        assert(live(j));
    }
    if exists|j: int| i < j < entries.len() && #[trigger] live(j) {
        let j = choose|j: int| i < j < entries.len() && #[trigger] live(j);
        assert(active_compaction(entries, j));
    }
}

/// A compaction that was replaced keeps its place, its identifier and what it keeps;
/// its text is a note.
pub proof fn law_elided_compaction_keeps_its_place(a: SessionEntry, b: SessionEntry)
    requires
        elided(a, b),
    ensures
        id_of(a) == id_of(b),
        crate::entries::parent_of(a) == crate::entries::parent_of(b),
        a is Known && a->Known_0 is Compaction ==> {
            &&& b is Known && b->Known_0 is Compaction
            &&& b->Known_0->Compaction_0.first_kept_entry_id == a->Known_0->Compaction_0.first_kept_entry_id
            &&& b->Known_0->Compaction_0.tokens_before == a->Known_0->Compaction_0.tokens_before
            &&& b->Known_0->Compaction_0.summary@ == "[Superseded compaction summary elided during session load]"@
        },
        !(a is Known && a->Known_0 is Compaction) ==> a == b,
{
}

/// The active branch is the one that ends in the last entry.
pub proof fn law_active_branch_ends_in_last_entry(entries: Seq<SessionEntry>, k: int)
    requires
        entries.len() > 0,
        0 <= k < branch(entries, Some(entries.len() - 1)).len(),
    ensures
        active_ids(entries).len() == branch(entries, Some(entries.len() - 1)).len(),
        active_ids(entries)[k] == id_of(entries[branch(entries, Some(entries.len() - 1))[k]])->0,
{
}

/// A header whose version is no number of 32 bits, or whose title is no text, is refused.
pub proof fn law_malformed_headers_are_refused(read: LinesView, r: Result<LoadedSession, LoadError>)
    requires
        loads_as(read, r),
        read.values.len() > 0,
    ensures
        ({
            let version = field_of(read.values[0], "version"@);
            let title = field_of(read.values[0], "title"@);
            &&& version is Some && (version->0 is String || version->0 is Bool || version->0 is Array || version->0
                is Object) ==> r is Err && r->Err_0 is BadHeader
            &&& version is Some && version->0 is Number && !(version->0->Number_0 is PosInt && version->0->Number_0->PosInt_0
                <= 0xFFFF_FFFF) ==> r is Err && r->Err_0 is BadHeader
            &&& title is Some && (title->0 is Number || title->0 is Bool || title->0 is Array || title->0 is Object) ==> r
                is Err && r->Err_0 is BadHeader
        }),
{
}

} // verus!

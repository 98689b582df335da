//! The writer of a session journal: what a new journal begins with, and the entry
//! that each addition becomes. Lines are only ever added.
use vstd::prelude::*;
use crate::auth::opt_text;
use crate::entries::{
    id_of, is_chain, known_id, known_parent, parent_of, CompactionEntry, KnownEntry, MessageEntry, ModelChangeEntry, SessionEntry,
};
use crate::json::{
    array_view, compact_json, field_of, is_plain, json_view, lemma_member_pos_is, lemma_object_view, members_view,
    reads_back, strict_json, text_in, write_compact, Json, JsonNumber, JsonView, Members, NumberView, RAW_VALUE_NAME,
};
use crate::loader::{
    header_shaped, line_read, line_value, lines_read, loads_as, no_lines, LinesView, LoadError, LoadedSession,
};
use crate::message::{copy_text, Message, Text};
use crate::number::{hex_padded, hex_text, lemma_hex_reads_back, pow16};
use crate::server::{head_of, HeadView};
use crate::text::{
    char_pos, chars_of, holds_text, joined, lemma_char_pos, lemma_parts_append, lemma_parts_line, owned, parts,
    parts_from, trimmed, trimmed_end, trimmed_start,
};
use crate::time::{iso_text, unix_ms_to_iso};
use crate::title_slot::{given_slot, is_one_line, is_slot_line, longest_fit, serialize_title_slot, slot_in, slot_text};

verus! {

/// A character that a file name can hold in place of one that it cannot.
pub open spec fn safe_char(c: char) -> char {
    if c == ':' || c == '.' {
        '-'
    } else {
        c
    }
}

/// A timestamp as it stands in a file name.
pub open spec fn file_safe(iso: Text) -> Text {
    Seq::new(iso.len(), |i: int| safe_char(iso[i]))
}

pub fn file_safe_timestamp(iso: &str) -> (r: String)
    ensures
        r@ == file_safe(iso@),
{
    let v = chars_of(iso);
    let mut out = String::new();
    let mut i: usize = 0;
    while i < v.len()
        invariant
            v@ == iso@,
            i <= v.len(),
            out@ == file_safe(iso@).take(i as int),
        decreases v.len() - i,
    {
        let c = if v[i] == ':' || v[i] == '.' {
            '-'
        } else {
            v[i]
        };
        out.push(c);
        assert(out@ =~= file_safe(iso@).take(i + 1));
        i = i + 1;
    }
    assert(file_safe(iso@).take(v.len() as int) =~= file_safe(iso@));
    out
}

/// The low 48 bits of a number.
pub open spec fn low48(ms: int) -> nat {
    (ms % 0x1_0000_0000_0000) as nat
}

/// The identifier of a session that begins at an instant.
pub open spec fn session_id_text(ms: int) -> Text {
    let n = low48(ms);
    hex_padded(n / 0x1_0000, 8) + "-"@ + hex_padded(n % 0x1_0000, 4) + "-7000-8000-"@ + hex_padded(n, 12)
}

pub fn mint_session_id(ms: i64) -> (r: String)
    ensures
        r@ == session_id_text(ms as int),
{
    let wide: i128 = ms as i128;
    let n: i128 = if wide >= 0 {
        wide % 0x1_0000_0000_0000
    } else {
        (wide + 0x1_0000_0000_0000_0000) % 0x1_0000_0000_0000
    };
    proof {
        assert(n == ms as int % 0x1_0000_0000_0000);
    }
    let n: u64 = n as u64;
    let a = hex_text(n / 0x1_0000, 8);
    let b = joined(a.as_str(), "-");
    let c = hex_text(n % 0x1_0000, 4);
    let d = joined(b.as_str(), c.as_str());
    let e = joined(d.as_str(), "-7000-8000-");
    let f = hex_text(n, 12);
    joined(e.as_str(), f.as_str())
}

/// The header of a new session.
pub open spec fn header_members(id: Text, timestamp: Text, cwd: Text) -> Members {
    seq![
        ("type"@, JsonView::String("session"@)),
        ("version"@, JsonView::Number(NumberView::PosInt(3))),
        ("id"@, JsonView::String(id)),
        ("timestamp"@, JsonView::String(timestamp)),
        ("cwd"@, JsonView::String(cwd)),
    ]
}

/// The line that a value becomes in a journal. The reader makes of an object's line
/// what the strict reader makes of the object's compact text.
pub fn entry_line(value: &Json) -> (r: String)
    ensures
        r@ == compact_json(json_view(*value)).push('\n'),
        is_one_line(r@),
        json_view(*value) is Object ==> line_value(r@.drop_last()) == strict_json(compact_json(json_view(*value))),
        reads_back(json_view(*value)) && json_view(*value) is Object ==> line_value(r@.drop_last()) == Some(
            json_view(*value),
        ),
{
    let mut line = write_compact(value);
    let ghost body = line@;
    line.push('\n');
    proof {
        assert(line@.drop_last() =~= body);
        if json_view(*value) is Object {
            lemma_braced(body);
        }
    }
    line
}

proof fn lemma_braced(t: Text)
    requires
        t.len() >= 2,
        t[0] == '{',
        t.last() == '}',
    ensures
        trimmed(t) == t,
{
    assert(trimmed_start(t) == t);
    assert(trimmed_end(t) == t);
}

fn header_line(id: &str, timestamp: &str, cwd: &str) -> (r: String)
    ensures
        ({
            let header = JsonView::Object(header_members(id@, timestamp@, cwd@));
            &&& r@ == compact_json(header).push('\n')
            &&& is_one_line(r@)
            &&& line_value(r@.drop_last()) == Some(header)
        }),
{
    let mut o: Vec<(String, Json)> = Vec::new();
    o.push((owned("type"), Json::String(owned("session"))));
    o.push((owned("version"), Json::Number(JsonNumber::PosInt(3))));
    o.push((owned("id"), Json::String(owned(id))));
    o.push((owned("timestamp"), Json::String(owned(timestamp))));
    o.push((owned("cwd"), Json::String(owned(cwd))));
    assert(members_view(o@) =~= header_members(id@, timestamp@, cwd@));
    proof {
        lemma_object_view(o);
        lemma_header_reads_back(id@, timestamp@, cwd@);
    }
    entry_line(&Json::Object(o))
}

proof fn lemma_header_reads_back(id: Text, timestamp: Text, cwd: Text)
    ensures
        reads_back(JsonView::Object(header_members(id, timestamp, cwd))),
        field_of(JsonView::Object(header_members(id, timestamp, cwd)), "type"@) == Some(JsonView::String("session"@)),
        field_of(JsonView::Object(header_members(id, timestamp, cwd)), "version"@) == Some(
            JsonView::Number(NumberView::PosInt(3)),
        ),
        field_of(JsonView::Object(header_members(id, timestamp, cwd)), "id"@) == Some(JsonView::String(id)),
        field_of(JsonView::Object(header_members(id, timestamp, cwd)), "cwd"@) == Some(JsonView::String(cwd)),
        field_of(JsonView::Object(header_members(id, timestamp, cwd)), "title"@) is None,
        header_shaped(JsonView::Object(header_members(id, timestamp, cwd))),
{
    reveal_strlit("type");
    reveal_strlit("version");
    reveal_strlit("id");
    reveal_strlit("timestamp");
    reveal_strlit("cwd");
    reveal_strlit("title");
    reveal_strlit("titleSource");
    reveal_strlit("parentSession");
    reveal_strlit("providerPromptCacheKey");
    reveal_strlit("$serde_json::private::RawValue");
    assert("titleSource"@.len() == 11 && "parentSession"@.len() == 13 && "providerPromptCacheKey"@.len() == 22);
    assert(RAW_VALUE_NAME@.len() == 30);
    let o = header_members(id, timestamp, cwd);
    assert("type"@.len() == 4 && "version"@.len() == 7 && "id"@.len() == 2 && "timestamp"@.len() == 9 && "cwd"@.len()
        == 3 && "title"@.len() == 5);
    assert forall|i: int| 0 <= i < o.len() implies is_plain((#[trigger] o[i]).1, 126) by {
        assert(o[i].1 is String || o[i].1 == JsonView::Number(NumberView::PosInt(3)));
    }
    lemma_member_pos_is(o, "type"@, 0);
    lemma_member_pos_is(o, "version"@, 1);
    lemma_member_pos_is(o, "id"@, 2);
    lemma_member_pos_is(o, "timestamp"@, 3);
    lemma_member_pos_is(o, "cwd"@, 4);
    lemma_member_pos_is(o, "title"@, 5);
    lemma_member_pos_is(o, "titleSource"@, 5);
    lemma_member_pos_is(o, "parentSession"@, 5);
    lemma_member_pos_is(o, "providerPromptCacheKey"@, 5);
}

/// A journal that entries are added to.
#[derive(Debug, PartialEq, Eq)]
pub struct SessionWriter {
    session_id: String,
    ids: Vec<String>,
    leaf: Option<String>,
    id_counter: u64,
}

/// The state of a journal that entries are added to.
#[verifier::ext_equal]
pub struct WriterView {
    pub session_id: Text,
    pub ids: Seq<Text>,
    pub leaf: Option<Text>,
    pub id_counter: nat,
}

impl View for SessionWriter {
    type V = WriterView;

    closed spec fn view(&self) -> WriterView {
        WriterView {
            session_id: self.session_id@,
            ids: self.ids.deep_view(),
            leaf: self.leaf.deep_view(),
            id_counter: self.id_counter as nat,
        }
    }
}

/// A new journal: its writer, the name of its file, and what the file begins with.
pub struct NewSession {
    pub writer: SessionWriter,
    pub file_name: String,
    pub body: String,
}

/// The identifier that the counter gives.
pub open spec fn candidate(n: int) -> Text {
    hex_padded((n % 0x1_0000_0000) as nat, 8)
}

/// Whether `n` is the first count, from `from` on, whose identifier is free.
pub open spec fn first_free(ids: Seq<Text>, from: int, n: int) -> bool {
    &&& from <= n
    &&& !ids.contains(candidate(n))
    &&& forall|k: int| from <= k < n ==> ids.contains(#[trigger] candidate(k))
}

/// There is room for another entry.
pub open spec fn has_room(w: WriterView) -> bool {
    w.ids.len() < 0xFFFF_FFFF && w.id_counter + w.ids.len() + 1 <= u64::MAX
}

/// The state after an entry was written.
pub open spec fn after_entry(w: WriterView, id: Text) -> WriterView {
    WriterView { ids: w.ids.push(id), leaf: Some(id), ..w }
}

proof fn lemma_candidates_differ(a: int, b: int)
    requires
        0 <= a < b,
        b - a < 0x1_0000_0000,
    ensures
        candidate(a) != candidate(b),
{
    let x = (a % 0x1_0000_0000) as nat;
    let y = (b % 0x1_0000_0000) as nat;
    assert(x != y);
    assert(pow16(8) == 0x1_0000_0000) by {
        reveal_with_fuel(pow16, 9);
    }
    lemma_hex_reads_back(x, 8);
    lemma_hex_reads_back(y, 8);
}

/// Identifiers that are all taken are no more than there are taken ones.
proof fn lemma_taken_bound(ids: Seq<Text>, from: int, n: int)
    requires
        0 <= from <= n,
        n - from < 0x1_0000_0000,
        forall|k: int| from <= k < n ==> ids.contains(#[trigger] candidate(k)),
    ensures
        n - from <= ids.len(),
{
    let taken = Seq::new((n - from) as nat, |i: int| candidate(from + i));
    assert(taken.no_duplicates()) by {
        assert forall|i: int, j: int| 0 <= i < j < taken.len() implies taken[i] != taken[j] by {
            lemma_candidates_differ(from + i, from + j);
        }
    }
    taken.unique_seq_to_set();
    assert(taken.to_set().subset_of(ids.to_set())) by {
        assert forall|t: Text| taken.to_set().contains(t) implies ids.to_set().contains(t) by {
            let i = choose|i: int| 0 <= i < taken.len() && taken[i] == t;
            assert(ids.contains(candidate(from + i)));
        }
    }
    vstd::seq_lib::seq_to_set_is_finite(ids);
    vstd::set_lib::lemma_len_subset(taken.to_set(), ids.to_set());
    ids.lemma_cardinality_of_set();
}

impl SessionWriter {
    /// A new session that begins at an instant in a directory.
    pub fn create(cwd: &str, ms: i64) -> (r: NewSession)
        ensures
            r.writer@ == (WriterView {
                session_id: session_id_text(ms as int),
                ids: Seq::empty(),
                leaf: None,
                id_counter: 0,
            }),
            r.file_name@ == file_safe(iso_text(ms as int)) + "_"@ + session_id_text(ms as int) + ".jsonl"@,
            exists|slot: Text|
                r.body@ == slot + #[trigger] compact_json(
                    JsonView::Object(
                        header_members(session_id_text(ms as int), iso_text(ms as int), cwd@),
                    ),
                ).push('\n') && is_empty_slot(slot, iso_text(ms as int)),
            r.body@.len() > 0 && r.body@.last() == '\n',
            lines_read(parts(r.body@, '\n')) == new_lines(
                session_id_text(ms as int),
                iso_text(ms as int),
                cwd@,
            ),
    {
        let timestamp = unix_ms_to_iso(ms);
        let session_id = mint_session_id(ms);
        let safe = file_safe_timestamp(timestamp.as_str());
        let a = joined(safe.as_str(), "_");
        let b = joined(a.as_str(), session_id.as_str());
        let file_name = joined(b.as_str(), ".jsonl");
        let empty = String::new();
        let slot = serialize_title_slot(empty.as_str(), None, timestamp.as_str());
        let line = header_line(session_id.as_str(), timestamp.as_str(), cwd);
        let body = joined(slot.as_str(), line.as_str());
        let writer = SessionWriter { session_id, ids: Vec::new(), leaf: None, id_counter: 0 };
        assert(writer.ids.deep_view() =~= Seq::empty());
        assert(is_empty_slot(slot@, iso_text(ms as int)));
        proof {
            let n = choose|n: int|
                0 <= n <= empty@.len() && slot_in(trimmed(slot@)) == Some(
                    given_slot(#[trigger] empty@.take(n), None, timestamp@),
                );
            assert(empty@.take(n) =~= Seq::empty());
            lemma_new_lines(slot@, line@, session_id_text(ms as int), timestamp@, cwd@);
        }
        NewSession { writer, file_name, body }
    }

    /// A journal that is taken up again behind its entries.
    pub fn resume(session_id: String, entries: &Vec<SessionEntry>) -> (r: Self)
        ensures
            r@.session_id == session_id@,
            r@.ids == known_ids(entries@),
            r@.leaf == (if entries@.len() > 0 {
                id_of(entries@.last())
            } else {
                None
            }),
            r@.id_counter == 0,
    {
        let mut ids: Vec<String> = Vec::new();
        let mut i: usize = 0;
        assert(entries@.take(0) =~= Seq::empty());
        assert(ids.deep_view() =~= Seq::empty());
        while i < entries.len()
            invariant
                i <= entries.len(),
                ids.deep_view() == known_ids(entries@.take(i as int)),
            decreases entries.len() - i,
        {
            let ghost before = ids.deep_view();
            assert(entries@.take(i + 1).drop_last() =~= entries@.take(i as int));
            assert(entries@.take(i + 1).last() == entries@[i as int]);
            if let Some(id) = entries[i].id() {
                ids.push(owned(id));
                assert(ids.deep_view() =~= before.push(id@));
            }
            i = i + 1;
        }
        assert(entries@.take(entries.len() as int) =~= entries@);
        let leaf = if entries.len() > 0 {
            match entries[entries.len() - 1].id() {
                Some(id) => Some(owned(id)),
                None => None,
            }
        } else {
            None
        };
        SessionWriter { session_id, ids, leaf, id_counter: 0 }
    }

    pub fn session_id(&self) -> (r: &str)
        ensures
            r@ == self@.session_id,
    {
        self.session_id.as_str()
    }

    /// The entry that the next one becomes a child of.
    pub fn leaf_id(&self) -> (r: Option<&str>)
        ensures
            opt_text(r) == self@.leaf,
    {
        match &self.leaf {
            Some(l) => Some(l.as_str()),
            None => None,
        }
    }

    /// Whether there is room for another entry.
    pub fn can_append(&self) -> (r: bool)
        ensures
            r == has_room(self@),
    {
        assert(self@.ids.len() == self.ids.len());
        self.ids.len() < 0xFFFF_FFFF && self.id_counter < u64::MAX - self.ids.len() as u64
    }

    /// A fresh identifier; the counter passes it.
    fn fresh_id(&mut self) -> (r: String)
        requires
            has_room(old(self)@),
        ensures
            first_free(old(self)@.ids, old(self)@.id_counter as int, final(self)@.id_counter - 1),
            r@ == candidate(final(self)@.id_counter - 1),
            final(self)@ == (WriterView { id_counter: final(self)@.id_counter, ..old(self)@ }),
    {
        let ghost start = self@;
        let ghost from = self.id_counter as int;
        assert(start.ids.len() == self.ids.len());
        loop
            invariant
                start == old(self)@,
                has_room(start),
                from == start.id_counter,
                self@ == (WriterView { id_counter: self.id_counter as nat, ..start }),
                from <= self.id_counter,
                self.id_counter - from <= start.ids.len(),
                forall|k: int| from <= k < self.id_counter ==> start.ids.contains(#[trigger] candidate(k)),
            decreases start.ids.len() + 1 - (self.id_counter - from),
        {
            let id = hex_text(self.id_counter % 0x1_0000_0000, 8);
            let taken = holds_text(&self.ids, id.as_str());
            assert(id@ == candidate(self.id_counter as int));
            let ghost n = self.id_counter as int;
            self.id_counter = self.id_counter + 1;
            if !taken {
                return id;
            }
            proof {
                assert(start.ids.contains(candidate(n)));
                lemma_taken_bound(start.ids, from, n + 1);
            }
        }
    }

    /// The entry was written: the next one becomes its child.
    pub fn record(&mut self, entry: &KnownEntry)
        ensures
            final(self)@ == after_entry(old(self)@, known_id(*entry)),
    {
        let ghost before = self@;
        let id = entry.base().id;
        self.ids.push(id.clone());
        self.leaf = Some(id.clone());
        assert(self.ids.deep_view() =~= before.ids.push(id@));
    }

    /// The entry that a message becomes: under a fresh identifier, a child of the
    /// last one. It counts once it is recorded.
    pub fn append_message(&mut self, message: Message, timestamp: String) -> (r: KnownEntry)
        requires
            has_room(old(self)@),
        ensures
            r is Message,
            r->Message_0.message == message,
            r->Message_0.timestamp == timestamp,
            prepared(old(self)@, final(self)@, r),
    {
        let parent_id = copy_text(&self.leaf);
        let id = self.fresh_id();
        KnownEntry::Message(MessageEntry { id, parent_id, timestamp, message })
    }

    /// The entry that a change of model becomes.
    pub fn append_model_change(&mut self, model: &str, role: Option<&str>, timestamp: String) -> (r: KnownEntry)
        requires
            has_room(old(self)@),
        ensures
            r is ModelChange,
            r->ModelChange_0.model@ == model@,
            r->ModelChange_0.role.deep_view() == opt_text(role),
            r->ModelChange_0.timestamp == timestamp,
            prepared(old(self)@, final(self)@, r),
    {
        let parent_id = copy_text(&self.leaf);
        let id = self.fresh_id();
        KnownEntry::ModelChange(
            ModelChangeEntry {
                id,
                parent_id,
                timestamp,
                model: owned(model),
                role: match role {
                    Some(r) => Some(owned(r)),
                    None => None,
                },
            },
        )
    }

    /// The entry that a compaction becomes.
    pub fn append_compaction(
        &mut self,
        summary: &str,
        short_summary: Option<&str>,
        first_kept_entry_id: &str,
        tokens_before: i64,
        timestamp: String,
    ) -> (r: KnownEntry)
        requires
            has_room(old(self)@),
        ensures
            r is Compaction,
            ({
                let c = r->Compaction_0;
                &&& c.summary@ == summary@
                &&& c.short_summary.deep_view() == opt_text(short_summary)
                &&& c.first_kept_entry_id@ == first_kept_entry_id@
                &&& c.tokens_before == tokens_before
                &&& c.timestamp == timestamp
                &&& c.details is None && c.preserve_data is None && c.from_extension is None && c.warning is None
            }),
            prepared(old(self)@, final(self)@, r),
    {
        let parent_id = copy_text(&self.leaf);
        let id = self.fresh_id();
        KnownEntry::Compaction(
            CompactionEntry {
                id,
                parent_id,
                timestamp,
                summary: owned(summary),
                short_summary: match short_summary {
                    Some(s) => Some(owned(s)),
                    None => None,
                },
                first_kept_entry_id: owned(first_kept_entry_id),
                tokens_before,
                details: None,
                preserve_data: None,
                from_extension: None,
                warning: None,
            },
        )
    }
}

/// The entry `e` is to be added: its identifier is the first free one, and its
/// parent the last entry. Only the counter moves.
pub open spec fn prepared(before: WriterView, after: WriterView, e: KnownEntry) -> bool {
    &&& known_parent(e) == before.leaf
    &&& first_free(before.ids, before.id_counter as int, after.id_counter - 1)
    &&& known_id(e) == candidate(after.id_counter - 1)
    &&& after == (WriterView { id_counter: after.id_counter, ..before })
}

/// What the lines of a new journal hold: a slot without a title, and the header.
pub open spec fn new_lines(id: Text, timestamp: Text, cwd: Text) -> LinesView {
    LinesView {
        slot: Some(given_slot(Seq::empty(), None, timestamp)),
        values: seq![JsonView::Object(header_members(id, timestamp, cwd))],
        begun: true,
    }
}

proof fn lemma_new_lines(slot: Text, line: Text, id: Text, timestamp: Text, cwd: Text)
    requires
        is_one_line(slot),
        is_one_line(line),
        slot_in(trimmed(slot)) == Some(given_slot(Seq::empty(), None, timestamp)),
        slot[0] == '{' && slot.len() >= 3 && slot[slot.len() - 2] == '}',
        line_value(line.drop_last()) == Some(JsonView::Object(header_members(id, timestamp, cwd))),
    ensures
        lines_read(parts(slot + line, '\n')) == new_lines(id, timestamp, cwd),
{
    let first = slot.drop_last();
    let second = line.drop_last();
    assert(first.push('\n') =~= slot);
    assert(second.push('\n') =~= line);
    lemma_parts_line(first, '\n');
    lemma_parts_line(second, '\n');
    lemma_parts_append(slot, line, '\n');
    let all = parts(slot + line, '\n');
    assert(all =~= seq![first, second, Seq::empty()]);
    lemma_braced(first);
    assert(trimmed_start(slot) == slot);
    assert(slot.drop_last() =~= first);
    assert(trimmed_end(slot) == trimmed_end(first));
    assert(trimmed(slot) == first);
    let e = Seq::<Text>::empty();
    let l1 = e.push(first);
    let l2 = l1.push(second);
    let l3 = l2.push(Seq::empty());
    assert(all =~= l3);
    assert(l1.drop_last() =~= e);
    assert(l2.drop_last() =~= l1);
    assert(l3.drop_last() =~= l2);
    assert(lines_read(e) == no_lines());
    let r1 = lines_read(l1);
    assert(l1.last() == first);
    assert(r1 == line_read(no_lines(), first));
    let r2 = lines_read(l2);
    assert(r2.values =~= seq![JsonView::Object(header_members(id, timestamp, cwd))]);
    assert(trimmed(Seq::<char>::empty()).len() == 0);
    assert(lines_read(l3) == r2);
}

/// A journal that was just begun is loaded as what it was begun with: its
/// identifier and directory, in the current version, without entries.
pub proof fn law_new_journal_is_loaded(id: Text, timestamp: Text, cwd: Text, r: Result<LoadedSession, LoadError>)
    requires
        loads_as(new_lines(id, timestamp, cwd), r),
    ensures
        r is Ok,
        json_view(r->Ok_0.header) == JsonView::Object(header_members(id, timestamp, cwd)),
        text_in(field_of(json_view(r->Ok_0.header), "id"@)) == Some(id),
        text_in(field_of(json_view(r->Ok_0.header), "cwd"@)) == Some(cwd),
        array_view(r->Ok_0.entries@) == Seq::<JsonView>::empty(),
{
    lemma_header_reads_back(id, timestamp, cwd);
    let values = new_lines(id, timestamp, cwd).values;
    assert(values.subrange(1, 1) =~= Seq::empty());
}

/// A journal that was just begun is listed under its identifier, with its
/// directory and without a title.
pub proof fn law_new_journal_is_listed(id: Text, timestamp: Text, cwd: Text)
    ensures
        head_of(JsonView::Object(header_members(id, timestamp, cwd)), Some(Seq::empty())) == Some(
            (HeadView { id, cwd, title: None }),
        ),
{
    lemma_header_reads_back(id, timestamp, cwd);
}

/// An entry that is written behind a journal is read back behind what the journal
/// held, and nothing else changes.
pub proof fn law_written_entry_is_read_back(content: Text, entry: JsonView, line: Text)
    requires
        content.len() > 0,
        content.last() == '\n',
        is_one_line(line),
        line_value(line.drop_last()) == Some(entry),
    ensures
        lines_read(parts(content + line, '\n')) == (LinesView {
            values: lines_read(parts(content, '\n')).values.push(entry),
            ..lines_read(parts(content, '\n'))
        }),
{
    let text = line.drop_last();
    assert(text.push('\n') =~= line);
    lemma_parts_line(text, '\n');
    lemma_parts_append(content, line, '\n');
    let old_parts = parts(content, '\n');
    let body = old_parts.drop_last();
    let empty = Seq::<char>::empty();
    assert(old_parts =~= body.push(empty));
    let l1 = body.push(text);
    let l2 = l1.push(empty);
    assert(parts(content + line, '\n') =~= l2);
    assert(l1.drop_last() =~= body);
    assert(l2.drop_last() =~= l1);
    assert(old_parts.drop_last() =~= body);
    assert(trimmed(empty).len() == 0);
    lemma_begun(content);
    assert(strict_json(trimmed(text)) == Some(entry));
    let r0 = lines_read(body);
    assert(r0.begun);
    assert(old_parts.last() == empty);
    assert(lines_read(old_parts) == line_read(r0, empty));
    assert(lines_read(l1) == line_read(r0, l1.last()));
    assert(lines_read(l2) == line_read(lines_read(l1), l2.last()));
    assert(line_value(empty) is None);
}

proof fn lemma_begun(content: Text)
    requires
        content.len() > 0,
        content.last() == '\n',
    ensures
        parts(content, '\n').len() >= 2,
        lines_read(parts(content, '\n').drop_last()).begun,
{
    lemma_two_parts(content);
    let body = parts(content, '\n').drop_last();
    assert(lines_read(body) == line_read(lines_read(body.drop_last()), body.last()));
}

proof fn lemma_two_parts(content: Text)
    requires
        content.len() > 0,
        content.last() == '\n',
    ensures
        parts(content, '\n').len() >= 2,
{
    lemma_char_pos(content, '\n', 0);
    assert(content[content.len() - 1] == '\n');
    lemma_parts_append(content, Seq::empty(), '\n');
    let p = char_pos(content, '\n', 0);
    assert(p < content.len());
    let rest = parts_from(content, '\n', p + 1);
    assert(rest.len() >= 1) by {
        lemma_char_pos(content, '\n', p + 1);
    }
}

/// Whether a text is the slot of a session without a title.
pub open spec fn is_empty_slot(slot: Text, updated_at: Text) -> bool {
    let s = given_slot(Seq::empty(), None, updated_at);
    &&& (exists|n: int| longest_fit(s, n)) ==> (exists|n: int, pad: nat|
        is_slot_line(s, slot, n, pad))
    &&& !(exists|n: int| longest_fit(s, n)) ==> slot == slot_text(
        s,
        Seq::empty(),
    )
}

/// The identifiers of entries that have one, in order.
pub open spec fn known_ids(entries: Seq<SessionEntry>) -> Seq<Text>
    decreases entries.len(),
{
    if entries.len() == 0 {
        Seq::empty()
    } else {
        match id_of(entries.last()) {
            Some(id) => known_ids(entries.drop_last()).push(id),
            None => known_ids(entries.drop_last()),
        }
    }
}

/// An entry never takes an identifier that another entry has.
pub proof fn law_identifiers_are_fresh(before: WriterView, after: WriterView, e: KnownEntry)
    requires
        prepared(before, after, e),
    ensures
        !before.ids.contains(known_id(e)),
        after_entry(after, known_id(e)).ids.contains(known_id(e)),
{
    assert(after_entry(after, known_id(e)).ids[before.ids.len() as int] == known_id(e));
}

/// Entries that are written one after the other form a chain.
pub proof fn law_additions_form_a_chain(a: WriterView, b: WriterView, c: WriterView, first: KnownEntry, second: KnownEntry)
    requires
        prepared(a, b, first),
        prepared(after_entry(b, known_id(first)), c, second),
    ensures
        known_parent(second) == Some(known_id(first)),
        known_id(second) != known_id(first),
        after_entry(c, known_id(second)).leaf == Some(known_id(second)),
{
    law_identifiers_are_fresh(a, b, first);
    law_identifiers_are_fresh(after_entry(b, known_id(first)), c, second);
}

/// An entry that was not written leaves the journal as it was: the next one gets
/// the same parent.
pub proof fn law_unwritten_entry_leaves_no_trace(a: WriterView, b: WriterView, e: KnownEntry)
    requires
        prepared(a, b, e),
    ensures
        b.leaf == a.leaf,
        b.ids == a.ids,
{
}

/// Whether the entries of a journal form one chain, and the state of the writer is
/// that behind them.
pub open spec fn stands_behind(w: WriterView, entries: Seq<SessionEntry>) -> bool {
    &&& is_chain(entries)
    &&& w.ids == known_ids(entries)
    &&& w.leaf == if entries.len() > 0 {
        id_of(entries.last())
    } else {
        None
    }
}

proof fn lemma_known_ids(entries: Seq<SessionEntry>, i: int)
    requires
        0 <= i < entries.len(),
        id_of(entries[i]) is Some,
    ensures
        known_ids(entries).contains(id_of(entries[i])->0),
    decreases entries.len(),
{
    let before = known_ids(entries.drop_last());
    let all = known_ids(entries);
    if i == entries.len() - 1 {
        assert(all.last() == id_of(entries[i])->0);
        assert(all[all.len() - 1] == id_of(entries[i])->0);
    } else {
        lemma_known_ids(entries.drop_last(), i);
        let k = choose|k: int| 0 <= k < before.len() && before[k] == id_of(entries[i])->0;
        assert(all[k] == before[k]);
    }
}

/// Every entry that is written keeps the journal one chain: the writer stands behind
/// its entries after the addition, as it did before.
pub proof fn law_journal_stays_one_chain(before: WriterView, after: WriterView, e: KnownEntry, entries: Seq<SessionEntry>)
    requires
        stands_behind(before, entries),
        prepared(before, after, e),
    ensures
        stands_behind(after_entry(after, known_id(e)), entries.push(SessionEntry::Known(e))),
{
    let all = entries.push(SessionEntry::Known(e));
    law_identifiers_are_fresh(before, after, e);
    assert(all.drop_last() =~= entries);
    assert(known_ids(all) == known_ids(entries).push(known_id(e)));
    assert forall|i: int| 0 <= i < all.len() implies id_of(#[trigger] all[i]) is Some by {
        if i < entries.len() {
            assert(all[i] == entries[i]);
        }
    }
    assert forall|i: int, j: int| 0 <= i < j < all.len() implies id_of(#[trigger] all[i]) != id_of(
        #[trigger] all[j],
    ) by {
        assert(all[i] == entries[i]);
        if j < entries.len() {
            assert(all[j] == entries[j]);
        } else {
            lemma_known_ids(entries, i);
        }
    }
    assert forall|i: int| 0 <= i < all.len() implies parent_of(#[trigger] all[i]) == (if i == 0 {
        None
    } else {
        id_of(all[i - 1])
    }) by {
        if i < entries.len() {
            assert(all[i] == entries[i]);
            if i > 0 {
                assert(all[i - 1] == entries[i - 1]);
            }
        } else if i > 0 {
            assert(all[i - 1] == entries[i - 1]);
        }
    }
}

/// A journal without entries is one chain, and the writer of a new journal stands
/// behind it.
pub proof fn law_new_journal_is_one_chain(w: WriterView)
    requires
        w.ids == Seq::<Text>::empty(),
        w.leaf is None,
    ensures
        stands_behind(w, Seq::empty()),
{
}

/// The name of a file keeps a timestamp, but for the characters that a name should not
/// hold.
pub proof fn law_file_name_keeps_timestamp(iso: Text, i: int)
    requires
        0 <= i < iso.len(),
    ensures
        file_safe(iso).len() == iso.len(),
        iso[i] == ':' || iso[i] == '.' ==> file_safe(iso)[i] == '-',
        iso[i] != ':' && iso[i] != '.' ==> file_safe(iso)[i] == iso[i],
{
}

/// The identifier of a session begins with the instant at which it began, in groups.
pub proof fn law_session_id_holds_the_instant(ms: int)
    requires
        0 <= ms < 0x1_0000_0000_0000,
    ensures
        session_id_text(ms) == hex_padded((ms / 0x1_0000) as nat, 8) + "-"@ + hex_padded((ms % 0x1_0000) as nat, 4)
            + "-7000-8000-"@ + hex_padded(ms as nat, 12),
{
}

/// A new entry is a child of the last one and gets the first identifier that is free;
/// recorded, it is the last one, and its identifier is taken.
pub proof fn law_entry_follows_the_last(before: WriterView, after: WriterView, e: KnownEntry)
    requires
        prepared(before, after, e),
    ensures
        known_parent(e) == before.leaf,
        !before.ids.contains(known_id(e)),
        after.session_id == before.session_id,
        after_entry(after, known_id(e)).leaf == Some(known_id(e)),
        after_entry(after, known_id(e)).ids == before.ids.push(known_id(e)),
        after_entry(after, known_id(e)).session_id == before.session_id,
{
}

/// The header of a session holds its identifier, its beginning, its directory and the
/// current version.
pub proof fn law_header_says_what_it_is(id: Text, timestamp: Text, cwd: Text)
    ensures
        ({
            let v = JsonView::Object(header_members(id, timestamp, cwd));
            &&& text_in(field_of(v, "type"@)) == Some("session"@)
            &&& text_in(field_of(v, "id"@)) == Some(id)
            &&& text_in(field_of(v, "timestamp"@)) == Some(timestamp)
            &&& text_in(field_of(v, "cwd"@)) == Some(cwd)
            &&& field_of(v, "version"@) == Some(JsonView::Number(NumberView::PosInt(3)))
        }),
{
    lemma_header_reads_back(id, timestamp, cwd);
    reveal_strlit("type");
    reveal_strlit("version");
    reveal_strlit("id");
    reveal_strlit("timestamp");
    assert("type"@.len() == 4 && "version"@.len() == 7 && "id"@.len() == 2 && "timestamp"@.len() == 9);
    lemma_member_pos_is(header_members(id, timestamp, cwd), "timestamp"@, 3);
}

/// The identifiers that a journal has are those of its entries, in order.
pub proof fn law_known_ids_are_the_entries(entries: Seq<SessionEntry>, e: SessionEntry)
    ensures
        id_of(e) is Some ==> known_ids(entries.push(e)) == known_ids(entries).push(id_of(e)->0),
        id_of(e) is None ==> known_ids(entries.push(e)) == known_ids(entries),
        known_ids(Seq::empty()).len() == 0,
{
    assert(entries.push(e).drop_last() =~= entries);
}

/// The identifiers of entries are eight hexadecimal digits, counted up; one that is taken
/// is passed over, and no other.
pub proof fn law_identifiers_are_counted(n: int, ids: Seq<Text>, from: int)
    requires
        0 <= n < 0x1_0000_0000,
    ensures
        candidate(n) == hex_padded(n as nat, 8),
        first_free(ids, from, n) ==> from <= n && !ids.contains(hex_padded(n as nat, 8)),
        from == n && !ids.contains(hex_padded(n as nat, 8)) ==> first_free(ids, from, n),
{
}

} // verus!

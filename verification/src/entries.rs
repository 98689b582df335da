//! The entries of a session journal.
//!
//! The entries that the context is rebuilt from have types of their own; every
//! other entry is kept as the value that it is.
use vstd::prelude::*;
use crate::json::{field_of, json_view, text_in, Json, JsonView};
use crate::message::{Message, MessageAttribution, Text, UserContent};
use crate::text::{holds_text, same_text};

verus! {

/// The version of the journal that is written.
pub const CURRENT_SESSION_VERSION: u32 = 3;

/// The header of a session.
#[derive(Debug, Clone, PartialEq, Eq)]
pub struct SessionHeader {
    pub kind: String,
    pub version: Option<u32>,
    pub id: String,
    pub title: Option<String>,
    pub title_source: Option<String>,
    pub timestamp: String,
    pub cwd: String,
    pub parent_session: Option<String>,
    pub provider_prompt_cache_key: Option<String>,
    /// Fields of no known name, in order.
    pub extra: Vec<(String, Json)>,
}

#[derive(Debug, Clone, PartialEq, Eq)]
pub struct MessageEntry {
    pub id: String,
    pub parent_id: Option<String>,
    pub timestamp: String,
    pub message: Message,
}

#[derive(Debug, Clone, PartialEq, Eq)]
pub struct ThinkingLevelChangeEntry {
    pub id: String,
    pub parent_id: Option<String>,
    pub timestamp: String,
    pub thinking_level: Option<String>,
    pub configured: Option<String>,
}

#[derive(Debug, Clone, PartialEq, Eq)]
pub struct ModelChangeEntry {
    pub id: String,
    pub parent_id: Option<String>,
    pub timestamp: String,
    pub model: String,
    pub role: Option<String>,
}

#[derive(Debug, Clone, PartialEq, Eq)]
pub struct ServiceTierChangeEntry {
    pub id: String,
    pub parent_id: Option<String>,
    pub timestamp: String,
    pub service_tier: Json,
}

#[derive(Debug, Clone, PartialEq, Eq)]
pub struct ModeChangeEntry {
    pub id: String,
    pub parent_id: Option<String>,
    pub timestamp: String,
    pub mode: String,
    pub data: Option<Json>,
}

#[derive(Debug, Clone, PartialEq, Eq)]
pub struct CustomMessageEntry {
    pub id: String,
    pub parent_id: Option<String>,
    pub timestamp: String,
    pub custom_type: String,
    pub content: UserContent,
    pub display: bool,
    pub details: Option<Json>,
    pub attribution: Option<MessageAttribution>,
}

/// A point up to which the conversation was summed up.
#[derive(Debug, Clone, PartialEq, Eq)]
pub struct CompactionEntry {
    pub id: String,
    pub parent_id: Option<String>,
    pub timestamp: String,
    pub summary: String,
    pub short_summary: Option<String>,
    pub first_kept_entry_id: String,
    pub tokens_before: i64,
    pub details: Option<Json>,
    pub preserve_data: Option<Json>,
    pub from_extension: Option<bool>,
    pub warning: Option<String>,
}

/// A point at which another branch of the conversation was summed up.
#[derive(Debug, Clone, PartialEq, Eq)]
pub struct BranchSummaryEntry {
    pub id: String,
    pub parent_id: Option<String>,
    pub timestamp: String,
    pub from_id: String,
    pub summary: String,
}

#[derive(Debug, Clone, PartialEq, Eq)]
pub enum KnownEntry {
    Message(MessageEntry),
    ThinkingLevelChange(ThinkingLevelChangeEntry),
    ModelChange(ModelChangeEntry),
    ServiceTierChange(ServiceTierChangeEntry),
    ModeChange(ModeChangeEntry),
    CustomMessage(CustomMessageEntry),
    Compaction(CompactionEntry),
    BranchSummary(BranchSummaryEntry),
}

/// An entry of a journal.
#[derive(Debug, Clone, PartialEq, Eq)]
pub enum SessionEntry {
    Known(KnownEntry),
    Unknown(Json),
}

/// What every entry of a known type has.
pub struct EntryBase<'a> {
    pub id: &'a String,
    pub parent_id: &'a Option<String>,
}

pub open spec fn known_id(e: KnownEntry) -> Text {
    match e {
        KnownEntry::Message(e) => e.id@,
        KnownEntry::ThinkingLevelChange(e) => e.id@,
        KnownEntry::ModelChange(e) => e.id@,
        KnownEntry::ServiceTierChange(e) => e.id@,
        KnownEntry::ModeChange(e) => e.id@,
        KnownEntry::CustomMessage(e) => e.id@,
        KnownEntry::Compaction(e) => e.id@,
        KnownEntry::BranchSummary(e) => e.id@,
    }
}

pub open spec fn known_parent(e: KnownEntry) -> Option<Text> {
    match e {
        KnownEntry::Message(e) => e.parent_id.deep_view(),
        KnownEntry::ThinkingLevelChange(e) => e.parent_id.deep_view(),
        KnownEntry::ModelChange(e) => e.parent_id.deep_view(),
        KnownEntry::ServiceTierChange(e) => e.parent_id.deep_view(),
        KnownEntry::ModeChange(e) => e.parent_id.deep_view(),
        KnownEntry::CustomMessage(e) => e.parent_id.deep_view(),
        KnownEntry::Compaction(e) => e.parent_id.deep_view(),
        KnownEntry::BranchSummary(e) => e.parent_id.deep_view(),
    }
}

pub open spec fn known_type(e: KnownEntry) -> Text {
    match e {
        KnownEntry::Message(_) => "message"@,
        KnownEntry::ThinkingLevelChange(_) => "thinking_level_change"@,
        KnownEntry::ModelChange(_) => "model_change"@,
        KnownEntry::ServiceTierChange(_) => "service_tier_change"@,
        KnownEntry::ModeChange(_) => "mode_change"@,
        KnownEntry::CustomMessage(_) => "custom_message"@,
        KnownEntry::Compaction(_) => "compaction"@,
        KnownEntry::BranchSummary(_) => "branch_summary"@,
    }
}

/// The identifier of an entry; an entry of an unknown type may have none.
pub open spec fn id_of(e: SessionEntry) -> Option<Text> {
    match e {
        SessionEntry::Known(k) => Some(known_id(k)),
        SessionEntry::Unknown(v) => text_in(field_of(json_view(v), "id"@)),
    }
}

pub open spec fn parent_of(e: SessionEntry) -> Option<Text> {
    match e {
        SessionEntry::Known(k) => known_parent(k),
        SessionEntry::Unknown(v) => text_in(field_of(json_view(v), "parentId"@)),
    }
}

pub open spec fn type_of(e: SessionEntry) -> Text {
    match e {
        SessionEntry::Known(k) => known_type(k),
        SessionEntry::Unknown(v) => match text_in(field_of(json_view(v), "type"@)) {
            Some(t) => t,
            None => Seq::empty(),
        },
    }
}

impl KnownEntry {
    pub fn base(&self) -> (r: EntryBase<'_>)
        ensures
            r.id@ == known_id(*self),
            r.parent_id.deep_view() == known_parent(*self),
    {
        match self {
            KnownEntry::Message(e) => EntryBase { id: &e.id, parent_id: &e.parent_id },
            KnownEntry::ThinkingLevelChange(e) => EntryBase { id: &e.id, parent_id: &e.parent_id },
            KnownEntry::ModelChange(e) => EntryBase { id: &e.id, parent_id: &e.parent_id },
            KnownEntry::ServiceTierChange(e) => EntryBase { id: &e.id, parent_id: &e.parent_id },
            KnownEntry::ModeChange(e) => EntryBase { id: &e.id, parent_id: &e.parent_id },
            KnownEntry::CustomMessage(e) => EntryBase { id: &e.id, parent_id: &e.parent_id },
            KnownEntry::Compaction(e) => EntryBase { id: &e.id, parent_id: &e.parent_id },
            KnownEntry::BranchSummary(e) => EntryBase { id: &e.id, parent_id: &e.parent_id },
        }
    }

    pub fn entry_type(&self) -> (r: &'static str)
        ensures
            r@ == known_type(*self),
    {
        match self {
            KnownEntry::Message(_) => "message",
            KnownEntry::ThinkingLevelChange(_) => "thinking_level_change",
            KnownEntry::ModelChange(_) => "model_change",
            KnownEntry::ServiceTierChange(_) => "service_tier_change",
            KnownEntry::ModeChange(_) => "mode_change",
            KnownEntry::CustomMessage(_) => "custom_message",
            KnownEntry::Compaction(_) => "compaction",
            KnownEntry::BranchSummary(_) => "branch_summary",
        }
    }
}

pub open spec fn ref_view(o: Option<&str>) -> Option<Text> {
    match o {
        Some(s) => Some(s@),
        None => None,
    }
}

impl SessionEntry {
    pub fn id(&self) -> (r: Option<&str>)
        ensures
            ref_view(r) == id_of(*self),
    {
        match self {
            SessionEntry::Known(k) => Some(k.base().id.as_str()),
            SessionEntry::Unknown(v) => match v.get("id") {
                Some(Json::String(s)) => Some(s.as_str()),
                _ => None,
            },
        }
    }

    pub fn parent_id(&self) -> (r: Option<&str>)
        ensures
            ref_view(r) == parent_of(*self),
    {
        match self {
            SessionEntry::Known(k) => match k.base().parent_id {
                Some(s) => Some(s.as_str()),
                None => None,
            },
            SessionEntry::Unknown(v) => match v.get("parentId") {
                Some(Json::String(s)) => Some(s.as_str()),
                _ => None,
            },
        }
    }

    pub fn entry_type(&self) -> (r: String)
        ensures
            r@ == type_of(*self),
    {
        match self {
            SessionEntry::Known(k) => crate::text::owned(k.entry_type()),
            SessionEntry::Unknown(v) => match v.get("type") {
                Some(Json::String(s)) => s.clone(),
                _ => String::new(),
            },
        }
    }
}

/// The position of the last entry with an identifier.
pub open spec fn last_with_id(entries: Seq<SessionEntry>, id: Text) -> Option<int>
    decreases entries.len(),
{
    if entries.len() == 0 {
        None
    } else if id_of(entries.last()) == Some(id) {
        Some(entries.len() - 1)
    } else {
        last_with_id(entries.drop_last(), id)
    }
}

pub proof fn lemma_last_with_id(entries: Seq<SessionEntry>, id: Text)
    ensures
        match last_with_id(entries, id) {
            Some(i) => 0 <= i < entries.len() && id_of(entries[i]) == Some(id) && forall|k: int|
                i < k < entries.len() ==> id_of(#[trigger] entries[k]) != Some(id),
            None => forall|k: int| 0 <= k < entries.len() ==> id_of(#[trigger] entries[k]) != Some(id),
        },
    decreases entries.len(),
{
    if entries.len() > 0 && id_of(entries.last()) != Some(id) {
        let d = entries.drop_last();
        lemma_last_with_id(d, id);
        let from = match last_with_id(d, id) {
            Some(i) => i + 1,
            None => 0,
        };
        assert forall|k: int| from <= k < entries.len() implies id_of(#[trigger] entries[k]) != Some(id) by {
            if k < d.len() {
                assert(d[k] == entries[k]);
            }
        }
    }
}

/// Whose message a message is.
#[derive(Debug, Clone, Copy, PartialEq, Eq, Structural)]
pub enum MessageRole {
    User,
    Developer,
    Assistant,
    ToolResult,
}

pub open spec fn role_in(message: JsonView) -> Option<MessageRole> {
    let role = text_in(field_of(message, "role"@));
    if role == Some("user"@) {
        Some(MessageRole::User)
    } else if role == Some("developer"@) {
        Some(MessageRole::Developer)
    } else if role == Some("assistant"@) {
        Some(MessageRole::Assistant)
    } else if role == Some("toolResult"@) {
        Some(MessageRole::ToolResult)
    } else {
        None
    }
}

/// The role that a message in a journal names; none where it names no role or one
/// that no message has.
pub fn message_role(message: &Json) -> (r: Option<MessageRole>)
    ensures
        r == role_in(json_view(*message)),
{
    match message.get("role") {
        Some(Json::String(role)) => {
            let t = role.as_str();
            if same_text(t, "user") {
                Some(MessageRole::User)
            } else if same_text(t, "developer") {
                Some(MessageRole::Developer)
            } else if same_text(t, "assistant") {
                Some(MessageRole::Assistant)
            } else if same_text(t, "toolResult") {
                Some(MessageRole::ToolResult)
            } else {
                None
            }
        },
        _ => None,
    }
}

/// The position of the last entry with an identifier.
pub fn find_entry(entries: &Vec<SessionEntry>, id: &str) -> (r: Option<usize>)
    ensures
        match r {
            Some(i) => last_with_id(entries@, id@) == Some(i as int) && i < entries.len(),
            None => last_with_id(entries@, id@) is None,
        },
{
    let mut n: usize = entries.len();
    assert(entries@.take(n as int) =~= entries@);
    while n > 0
        invariant
            n <= entries.len(),
            last_with_id(entries@, id@) == last_with_id(entries@.take(n as int), id@),
        decreases n,
    {
        let ghost t = entries@.take(n as int);
        assert(t.last() == entries@[n - 1]);
        assert(t.drop_last() =~= entries@.take(n - 1));
        if let Some(other) = entries[n - 1].id() {
            if same_text(other, id) {
                return Some(n - 1);
            }
        }
        n = n - 1;
    }
    None
}

/// The positions from an entry up through its parents: each entry once, until
/// one has no identifier, its identifier was passed, or its parent is not there.
pub open spec fn walk(entries: Seq<SessionEntry>, at: Option<int>, seen: Seq<Text>, fuel: nat) -> Seq<int>
    decreases fuel,
{
    match at {
        None => Seq::empty(),
        Some(i) => match id_of(entries[i]) {
            None => Seq::empty(),
            Some(id) => if fuel == 0 || seen.contains(id) {
                Seq::empty()
            } else {
                let up = match parent_of(entries[i]) {
                    Some(p) => last_with_id(entries, p),
                    None => None,
                };
                seq![i] + walk(entries, up, seen.push(id), (fuel - 1) as nat)
            },
        },
    }
}

/// The branch that ends in an entry, from it up to its root.
pub open spec fn branch(entries: Seq<SessionEntry>, leaf: Option<int>) -> Seq<int> {
    walk(entries, leaf, Seq::empty(), entries.len())
}

pub open spec fn positions(v: Seq<usize>) -> Seq<int> {
    Seq::new(v.len(), |i: int| v[i] as int)
}

/// The branch that ends in an entry, from it up to its root.
pub fn walk_branch(entries: &Vec<SessionEntry>, leaf: Option<usize>) -> (r: Vec<usize>)
    requires
        leaf is Some ==> leaf->0 < entries.len(),
    ensures
        positions(r@) == branch(
            entries@,
            match leaf {
                Some(i) => Some(i as int),
                None => None,
            },
        ),
        forall|k: int| 0 <= k < r@.len() ==> #[trigger] r@[k] < entries.len(),
{
    let ghost start = match leaf {
        Some(i) => Some(i as int),
        None => None,
    };
    let mut out: Vec<usize> = Vec::new();
    let mut seen: Vec<String> = Vec::new();
    let mut cursor: Option<usize> = leaf;
    let mut fuel: usize = entries.len();
    assert(positions(out@) + branch(entries@, start) =~= branch(entries@, start));
    assert(seen.deep_view() =~= Seq::empty());
    loop
        invariant
            cursor is Some ==> cursor->0 < entries.len(),
            forall|k: int| 0 <= k < out@.len() ==> #[trigger] out@[k] < entries.len(),
            positions(out@) + walk(
                entries@,
                match cursor {
                    Some(i) => Some(i as int),
                    None => None,
                },
                seen.deep_view(),
                fuel as nat,
            ) == branch(entries@, start),
        ensures
            positions(out@) == branch(entries@, start),
            forall|k: int| 0 <= k < out@.len() ==> #[trigger] out@[k] < entries.len(),
        decreases fuel,
    {
        assert(positions(out@) + Seq::<int>::empty() =~= positions(out@));
        match cursor {
            None => {
                break;
            },
            Some(i) => {
                match entries[i].id() {
                    None => {
                        break;
                    },
                    Some(id) => {
                        if fuel == 0 || holds_text(&seen, id) {
                            break;
                        }
                        let ghost before = positions(out@);
                        let ghost seen_before = seen.deep_view();
                        let ghost idv = id@;
                        seen.push(crate::text::owned(id));
                        out.push(i);
                        fuel = fuel - 1;
                        cursor = match entries[i].parent_id() {
                            Some(p) => find_entry(entries, p),
                            None => None,
                        };
                        proof {
                            assert(seen.deep_view() =~= seen_before.push(idv));
                            assert(positions(out@) =~= before + seq![i as int]);
                            let up = match parent_of(entries@[i as int]) {
                                Some(p) => last_with_id(entries@, p),
                                None => None,
                            };
                            let rest = walk(entries@, up, seen.deep_view(), fuel as nat);
                            assert(before + (seq![i as int] + rest) =~= (before + seq![i as int]) + rest);
                        }
                    },
                }
            },
        }
    }
    out
}

// ---- what holds of every branch -------------------------------------------------------

/// The identifiers that the entries have.
pub open spec fn all_ids(entries: Seq<SessionEntry>) -> Set<Text> {
    Set::new(|t: Text| exists|i: int| 0 <= i < entries.len() && id_of(#[trigger] entries[i]) == Some(t))
}

proof fn lemma_ids_finite(entries: Seq<SessionEntry>)
    ensures
        all_ids(entries).finite(),
        all_ids(entries).len() <= entries.len(),
    decreases entries.len(),
{
    if entries.len() == 0 {
        assert(all_ids(entries) =~= Set::empty());
    } else {
        let d = entries.drop_last();
        lemma_ids_finite(d);
        match id_of(entries.last()) {
            Some(t) => {
                assert(all_ids(entries) =~= all_ids(d).insert(t)) by {
                    assert forall|u: Text| all_ids(entries).contains(u) == all_ids(d).insert(t).contains(u) by {
                        if all_ids(entries).contains(u) {
                            let i = choose|i: int| 0 <= i < entries.len() && id_of(#[trigger] entries[i]) == Some(u);
                            if i < d.len() {
                                assert(d[i] == entries[i]);
                            }
                        }
                        if all_ids(d).contains(u) {
                            let i = choose|i: int| 0 <= i < d.len() && id_of(#[trigger] d[i]) == Some(u);
                            assert(entries[i] == d[i]);
                        }
                        if u == t {
                            assert(id_of(entries[entries.len() - 1]) == Some(u));
                        }
                    }
                }
            },
            None => {
                assert(all_ids(entries) =~= all_ids(d)) by {
                    assert forall|u: Text| all_ids(entries).contains(u) == all_ids(d).contains(u) by {
                        if all_ids(entries).contains(u) {
                            let i = choose|i: int| 0 <= i < entries.len() && id_of(#[trigger] entries[i]) == Some(u);
                            assert(d[i] == entries[i]);
                        }
                        if all_ids(d).contains(u) {
                            let i = choose|i: int| 0 <= i < d.len() && id_of(#[trigger] d[i]) == Some(u);
                            assert(entries[i] == d[i]);
                        }
                    }
                }
            },
        }
    }
}

/// The walk is never cut short: with more steps allowed it would be the same.
proof fn lemma_walk_fuel(entries: Seq<SessionEntry>, at: Option<int>, seen: Seq<Text>, fuel: nat)
    requires
        at is Some ==> 0 <= at->0 < entries.len(),
        seen.no_duplicates(),
        forall|k: int| 0 <= k < seen.len() ==> all_ids(entries).contains(#[trigger] seen[k]),
        fuel + seen.len() >= entries.len(),
    ensures
        walk(entries, at, seen, fuel) == walk(entries, at, seen, fuel + 1),
    decreases fuel,
{
    if at is Some && id_of(entries[at->0]) is Some {
        let i = at->0;
        let id = id_of(entries[i])->0;
        assert(all_ids(entries).contains(id));
        if !seen.contains(id) {
            let next = seen.push(id);
            assert(next.no_duplicates());
            assert forall|k: int| 0 <= k < next.len() implies all_ids(entries).contains(#[trigger] next[k]) by {
                if k < seen.len() {
                    assert(next[k] == seen[k]);
                }
            }
            let up = match parent_of(entries[i]) {
                Some(p) => last_with_id(entries, p),
                None => None,
            };
            if parent_of(entries[i]) is Some {
                lemma_last_with_id(entries, parent_of(entries[i])->0);
            }
            if fuel == 0 {
                lemma_ids_finite(entries);
                next.unique_seq_to_set();
                assert(next.to_set().subset_of(all_ids(entries)));
                vstd::set_lib::lemma_len_subset(next.to_set(), all_ids(entries));
                assert(false);
            } else {
                lemma_walk_fuel(entries, up, next, (fuel - 1) as nat);
            }
        }
    }
}

/// A branch is followed to its root: more steps than it is given lead no further.
pub proof fn law_branch_is_whole(entries: Seq<SessionEntry>, leaf: Option<int>, steps: nat)
    requires
        leaf is Some ==> 0 <= leaf->0 < entries.len(),
        steps >= entries.len(),
    ensures
        walk(entries, leaf, Seq::empty(), steps) == branch(entries, leaf),
    decreases steps,
{
    if steps > entries.len() {
        law_branch_is_whole(entries, leaf, (steps - 1) as nat);
        lemma_walk_fuel(entries, leaf, Seq::empty(), (steps - 1) as nat);
    }
}

/// Whether each entry is the child of the one before it, the first a root, under
/// identifiers that differ.
pub open spec fn is_chain(entries: Seq<SessionEntry>) -> bool {
    &&& forall|i: int| 0 <= i < entries.len() ==> id_of(#[trigger] entries[i]) is Some
    &&& forall|i: int, j: int|
        0 <= i < j < entries.len() ==> id_of(#[trigger] entries[i]) != id_of(#[trigger] entries[j])
    &&& forall|i: int|
        0 <= i < entries.len() ==> parent_of(#[trigger] entries[i]) == if i == 0 {
            None
        } else {
            id_of(entries[i - 1])
        }
}

proof fn lemma_chain_walk(entries: Seq<SessionEntry>, i: int, seen: Seq<Text>, fuel: nat)
    requires
        is_chain(entries),
        0 <= i < entries.len(),
        fuel > i,
        forall|k: int, j: int|
            0 <= k < seen.len() && 0 <= j <= i ==> Some(#[trigger] seen[k]) != id_of(#[trigger] entries[j]),
    ensures
        walk(entries, Some(i), seen, fuel) == Seq::new((i + 1) as nat, |k: int| i - k),
    decreases i,
{
    let id = id_of(entries[i])->0;
    assert(!seen.contains(id)) by {
        if seen.contains(id) {
            let k = choose|k: int| 0 <= k < seen.len() && seen[k] == id;
            assert(Some(seen[k]) != id_of(entries[i]));
        }
    }
    let next = seen.push(id);
    if i > 0 {
        let parent = id_of(entries[i - 1])->0;
        lemma_last_with_id(entries, parent);
        assert(id_of(entries[i - 1]) == Some(parent));
        let at = last_with_id(entries, parent);
        assert(at is Some);
        assert(at->0 == i - 1) by {
            if at->0 < i - 1 {
                assert(id_of(entries[at->0]) != id_of(entries[i - 1]));
            } else if at->0 > i - 1 {
                assert(id_of(entries[i - 1]) != id_of(entries[at->0]));
            }
        }
        assert forall|k: int, j: int| 0 <= k < next.len() && 0 <= j <= i - 1 implies Some(#[trigger] next[k]) != id_of(
            #[trigger] entries[j],
        ) by {
            if k < seen.len() {
                assert(next[k] == seen[k]);
            } else {
                assert(id_of(entries[j]) != id_of(entries[i]));
            }
        }
        lemma_chain_walk(entries, i - 1, next, (fuel - 1) as nat);
        let rest = walk(entries, Some(i - 1), next, (fuel - 1) as nat);
        assert(seq![i] + rest =~= Seq::new((i + 1) as nat, |k: int| i - k));
    } else {
        assert(walk(entries, None, next, (fuel - 1) as nat) =~= Seq::empty());
        assert(seq![0int] + Seq::<int>::empty() =~= Seq::new(1, |k: int| 0 - k));
    }
}

/// Entries that form a chain are one branch, from the last to the first.
pub proof fn law_chain_is_one_branch(entries: Seq<SessionEntry>)
    requires
        is_chain(entries),
        entries.len() > 0,
    ensures
        branch(entries, Some(entries.len() - 1)) == Seq::new(entries.len(), |k: int| entries.len() - 1 - k),
{
    lemma_chain_walk(entries, entries.len() - 1, Seq::empty(), entries.len());
    assert(branch(entries, Some(entries.len() - 1)) =~= Seq::new(entries.len(), |k: int| entries.len() - 1 - k));
}

proof fn lemma_walk_ids(entries: Seq<SessionEntry>, at: Option<int>, seen: Seq<Text>, fuel: nat)
    requires
        at is Some ==> 0 <= at->0 < entries.len(),
    ensures
        ({
            let w = walk(entries, at, seen, fuel);
            &&& forall|k: int|
                0 <= k < w.len() ==> 0 <= (#[trigger] w[k]) < entries.len() && id_of(entries[w[k]]) is Some
                    && !seen.contains(id_of(entries[w[k]])->0)
            &&& forall|k: int, l: int|
                0 <= k < l < w.len() ==> id_of(entries[#[trigger] w[k]]) != id_of(entries[#[trigger] w[l]])
        }),
    decreases fuel,
{
    let w = walk(entries, at, seen, fuel);
    if w.len() > 0 {
        let i = at->0;
        let id = id_of(entries[i])->0;
        let next = seen.push(id);
        let up = match parent_of(entries[i]) {
            Some(p) => last_with_id(entries, p),
            None => None,
        };
        if parent_of(entries[i]) is Some {
            lemma_last_with_id(entries, parent_of(entries[i])->0);
        }
        let rest = walk(entries, up, next, (fuel - 1) as nat);
        lemma_walk_ids(entries, up, next, (fuel - 1) as nat);
        assert(next.contains(id)) by {
            assert(next[seen.len() as int] == id);
        }
        assert forall|t: Text| seen.contains(t) implies next.contains(t) by {
            let k = choose|k: int| 0 <= k < seen.len() && seen[k] == t;
            assert(next[k] == t);
        }
        assert forall|k: int| 0 <= k < w.len() implies 0 <= (#[trigger] w[k]) < entries.len() && id_of(
            entries[w[k]],
        ) is Some && !seen.contains(id_of(entries[w[k]])->0) by {
            if k > 0 {
                assert(w[k] == rest[k - 1]);
            }
        }
        assert forall|k: int, l: int| 0 <= k < l < w.len() implies id_of(entries[#[trigger] w[k]]) != id_of(
            entries[#[trigger] w[l]],
        ) by {
            assert(w[l] == rest[l - 1]);
            if k > 0 {
                assert(w[k] == rest[k - 1]);
            }
        }
    }
}

/// A branch passes every identifier once.
pub proof fn law_branch_ids_differ(entries: Seq<SessionEntry>, leaf: Option<int>, k: int, l: int)
    requires
        leaf is Some ==> 0 <= leaf->0 < entries.len(),
        0 <= k < l < branch(entries, leaf).len(),
    ensures
        0 <= branch(entries, leaf)[k] < entries.len(),
        0 <= branch(entries, leaf)[l] < entries.len(),
        id_of(entries[branch(entries, leaf)[k]]) != id_of(entries[branch(entries, leaf)[l]]),
{
    lemma_walk_ids(entries, leaf, Seq::empty(), entries.len());
}

proof fn lemma_walk_follows(entries: Seq<SessionEntry>, at: Option<int>, seen: Seq<Text>, fuel: nat, k: int)
    requires
        0 <= k,
        k + 1 < walk(entries, at, seen, fuel).len(),
    ensures
        at == Some(walk(entries, at, seen, fuel)[0]),
        parent_of(entries[walk(entries, at, seen, fuel)[k]]) is Some,
        last_with_id(entries, parent_of(entries[walk(entries, at, seen, fuel)[k]])->0) == Some(
            walk(entries, at, seen, fuel)[k + 1],
        ),
    decreases fuel,
{
    let w = walk(entries, at, seen, fuel);
    let i = at->0;
    let id = id_of(entries[i])->0;
    let up = match parent_of(entries[i]) {
        Some(p) => last_with_id(entries, p),
        None => None,
    };
    let rest = walk(entries, up, seen.push(id), (fuel - 1) as nat);
    assert(w == seq![i] + rest);
    assert(w[0] == i);
    assert(w[k + 1] == rest[k]);
    if k > 0 {
        lemma_walk_follows(entries, up, seen.push(id), (fuel - 1) as nat, k - 1);
        assert(w[k] == rest[k - 1]);
    } else {
        assert(rest.len() > 0);
        assert(up is Some);
        assert(rest[0] == up->0);
    }
}

/// A branch begins with its leaf, where that has an identifier, and each entry of it
/// is followed by its parent: the last entry that carries the identifier that it names.
pub proof fn law_branch_follows_parents(entries: Seq<SessionEntry>, leaf: int, k: int)
    requires
        0 <= leaf < entries.len(),
        id_of(entries[leaf]) is Some,
        0 <= k,
        k + 1 < branch(entries, Some(leaf)).len(),
    ensures
        ({
            let b = branch(entries, Some(leaf));
            let child = entries[b[k]];
            let parent = entries[b[k + 1]];
            &&& b[0] == leaf
            &&& parent_of(child) is Some
            &&& id_of(parent) == parent_of(child)
            &&& forall|j: int| b[k + 1] < j < entries.len() ==> id_of(#[trigger] entries[j]) != parent_of(child)
        }),
{
    let b = branch(entries, Some(leaf));
    lemma_walk_follows(entries, Some(leaf), Seq::empty(), entries.len(), k);
    lemma_walk_ids(entries, Some(leaf), Seq::empty(), entries.len());
    let child = entries[b[k]];
    assert(last_with_id(entries, parent_of(child)->0) == Some(b[k + 1]));
    lemma_last_with_id(entries, parent_of(child)->0);
}

/// A leaf with an identifier is on its branch, and a branch goes on wherever an entry
/// names a parent that is there and was not passed.
pub proof fn law_branch_holds_its_leaf(entries: Seq<SessionEntry>, leaf: int)
    requires
        0 <= leaf < entries.len(),
        id_of(entries[leaf]) is Some,
    ensures
        branch(entries, Some(leaf)).len() > 0,
        branch(entries, Some(leaf))[0] == leaf,
        parent_of(entries[leaf]) is None ==> branch(entries, Some(leaf)).len() == 1,
        branch(entries, None).len() == 0,
{
    assert(Seq::<int>::empty() =~= walk(entries, None, seq![id_of(entries[leaf])->0], (entries.len() - 1) as nat));
}

/// Every entry is known by its own identifier and parent, and by the name of its type;
/// one of a kind that is not known by what its members say.
pub proof fn law_entries_are_known_by_their_members(e: SessionEntry)
    ensures
        match e {
            SessionEntry::Known(KnownEntry::Message(m)) => id_of(e) == Some(m.id@) && parent_of(e)
                == m.parent_id.deep_view() && type_of(e) == "message"@,
            SessionEntry::Known(KnownEntry::ThinkingLevelChange(m)) => id_of(e) == Some(m.id@) && parent_of(e)
                == m.parent_id.deep_view() && type_of(e) == "thinking_level_change"@,
            SessionEntry::Known(KnownEntry::ModelChange(m)) => id_of(e) == Some(m.id@) && parent_of(e)
                == m.parent_id.deep_view() && type_of(e) == "model_change"@,
            SessionEntry::Known(KnownEntry::ServiceTierChange(m)) => id_of(e) == Some(m.id@) && parent_of(e)
                == m.parent_id.deep_view() && type_of(e) == "service_tier_change"@,
            SessionEntry::Known(KnownEntry::ModeChange(m)) => id_of(e) == Some(m.id@) && parent_of(e)
                == m.parent_id.deep_view() && type_of(e) == "mode_change"@,
            SessionEntry::Known(KnownEntry::CustomMessage(m)) => id_of(e) == Some(m.id@) && parent_of(e)
                == m.parent_id.deep_view() && type_of(e) == "custom_message"@,
            SessionEntry::Known(KnownEntry::Compaction(m)) => id_of(e) == Some(m.id@) && parent_of(e)
                == m.parent_id.deep_view() && type_of(e) == "compaction"@,
            SessionEntry::Known(KnownEntry::BranchSummary(m)) => id_of(e) == Some(m.id@) && parent_of(e)
                == m.parent_id.deep_view() && type_of(e) == "branch_summary"@,
            SessionEntry::Unknown(v) => id_of(e) == text_in(field_of(json_view(v), "id"@)) && parent_of(e) == text_in(
                field_of(json_view(v), "parentId"@),
            ) && (text_in(field_of(json_view(v), "type"@)) is Some ==> Some(type_of(e)) == text_in(
                field_of(json_view(v), "type"@),
            )),
        },
{
}

/// A message is of whom its role names.
pub proof fn law_roles_are_named(m: JsonView)
    ensures
        text_in(field_of(m, "role"@)) == Some("user"@) ==> role_in(m) == Some(MessageRole::User),
        text_in(field_of(m, "role"@)) == Some("developer"@) ==> role_in(m) == Some(MessageRole::Developer),
        text_in(field_of(m, "role"@)) == Some("assistant"@) ==> role_in(m) == Some(MessageRole::Assistant),
        text_in(field_of(m, "role"@)) == Some("toolResult"@) ==> role_in(m) == Some(MessageRole::ToolResult),
        text_in(field_of(m, "role"@)) is None ==> role_in(m) is None,
{
    reveal_strlit("user");
    reveal_strlit("developer");
    reveal_strlit("assistant");
    reveal_strlit("toolResult");
    assert("user"@.len() == 4 && "developer"@.len() == 9 && "assistant"@.len() == 9 && "toolResult"@.len() == 10);
    assert("developer"@[0] == 'd' && "assistant"@[0] == 'a');
}

} // verus!

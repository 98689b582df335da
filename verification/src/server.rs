//! Sessions of the server: what is listed of them, which tools they have, and what
//! a prompt's turn goes through.
use vstd::prelude::*;
use crate::auth::opt_text;
use crate::context::{ContextMessage, ContextView};
use crate::json::{field_of, json_view, parse_strict, strict_json, text_in, Json, JsonView};
use crate::message::{
    Message, MessageAttribution, MessageView, Text, UserContent, UserContentView, UserMessage, UserView,
};
use crate::text::{holds_text, joined, owned, same_text, text_ends_with, trim_text, trimmed};
use crate::title_slot::{parse_title_slot_line, slot_in};

verus! {

/// What the head of a journal says of its session.
#[derive(Debug, PartialEq, Eq)]
pub struct SessionHead {
    pub id: String,
    pub cwd: String,
    pub title: Option<String>,
}

#[verifier::ext_equal]
pub struct HeadView {
    pub id: Text,
    pub cwd: Text,
    pub title: Option<Text>,
}

impl DeepView for SessionHead {
    type V = HeadView;

    open spec fn deep_view(&self) -> HeadView {
        HeadView { id: self.id@, cwd: self.cwd@, title: self.title.deep_view() }
    }
}

/// What a header says, given the title of the slot.
pub open spec fn head_of(header: JsonView, slot_title: Option<Text>) -> Option<HeadView> {
    if text_in(field_of(header, "type"@)) != Some("session"@) {
        None
    } else {
        match text_in(field_of(header, "id"@)) {
            None => None,
            Some(id) => Some(
                HeadView {
                    id,
                    cwd: match text_in(field_of(header, "cwd"@)) {
                        Some(c) => c,
                        None => Seq::empty(),
                    },
                    title: if slot_title is Some && slot_title->0.len() > 0 {
                        slot_title
                    } else {
                        text_in(field_of(header, "title"@))
                    },
                },
            ),
        }
    }
}

/// What the first two lines of a journal say: the header stands on the second
/// where the first is a title slot.
pub open spec fn head_in(first: Text, second: Text) -> Option<HeadView> {
    match slot_in(trimmed(first)) {
        Some(slot) => match strict_json(trimmed(second)) {
            Some(h) => head_of(h, Some(slot.title)),
            None => None,
        },
        None => match strict_json(trimmed(first)) {
            Some(h) => head_of(h, None),
            None => None,
        },
    }
}

/// What a header says.
pub fn head_from_header(header: &Json, slot_title: Option<String>) -> (r: Option<SessionHead>)
    ensures
        r.deep_view() == head_of(json_view(*header), slot_title.deep_view()),
{
    let is_session = match header.get("type") {
        Some(Json::String(t)) => same_text(t.as_str(), "session"),
        _ => false,
    };
    if !is_session {
        return None;
    }
    match header.get("id") {
        Some(Json::String(id)) => {
            let cwd = match header.get("cwd") {
                Some(Json::String(c)) => c.clone(),
                _ => String::new(),
            };
            assert(cwd@ =~= match text_in(field_of(json_view(*header), "cwd"@)) {
                Some(c) => c,
                None => Seq::empty(),
            });
            let own = match header.get("title") {
                Some(Json::String(t)) => Some(t.clone()),
                _ => None,
            };
            let title = match slot_title {
                Some(t) => if t.as_str().is_empty() {
                    own
                } else {
                    Some(t)
                },
                None => own,
            };
            Some(SessionHead { id: id.clone(), cwd, title })
        },
        _ => None,
    }
}

/// What the first two lines of a journal say; the second counts only where the
/// first is a title slot.
pub fn read_session_head(first: &str, second: &str) -> (r: Option<SessionHead>)
    ensures
        r.deep_view() == head_in(first@, second@),
{
    let a = trim_text(first);
    match parse_title_slot_line(a.as_str()) {
        Some(slot) => {
            let b = trim_text(second);
            match parse_strict(b.as_str()) {
                Some(h) => head_from_header(&h, Some(slot.title)),
                None => None,
            }
        },
        None => match parse_strict(a.as_str()) {
            Some(h) => head_from_header(&h, None),
            None => None,
        },
    }
}

/// A name under a directory, as a path.
pub open spec fn path_in(dir: Text, name: Text) -> Text {
    if dir.len() == 0 {
        name
    } else if dir.last() == '/' {
        dir + name
    } else {
        dir + "/"@ + name
    }
}

fn path_under(dir: &str, name: &str) -> (r: String)
    ensures
        r@ == path_in(dir@, name@),
{
    proof {
        reveal_strlit("/");
    }
    if dir.is_empty() {
        assert(dir@.len() == 0);
        owned(name)
    } else if text_ends_with(dir, "/") {
        assert(dir@.last() == dir@.subrange(dir@.len() - 1, dir@.len() as int)[0]);
        joined(dir, name)
    } else {
        assert(dir@.last() == '/' ==> dir@.subrange(dir@.len() - 1, dir@.len() as int) =~= "/"@);
        let d = joined(dir, "/");
        joined(d.as_str(), name)
    }
}

/// Where the journals of a directory's sessions lie, unless the environment names
/// a place.
pub open spec fn journal_dir(env: Option<Text>, cwd: Text) -> Text {
    match env {
        Some(dir) => dir,
        None => path_in(cwd, ".omp-headless/sessions"@),
    }
}

/// Where the journal of a new session goes, given the directory of the session and
/// the place that the environment names.
pub fn session_dir(env: Option<&str>, cwd: &str) -> (r: String)
    ensures
        r@ == journal_dir(opt_text(env), cwd@),
{
    match env {
        Some(dir) => owned(dir),
        None => path_under(cwd, ".omp-headless/sessions"),
    }
}

/// Where to look for journals; nowhere without a place and without a directory.
pub fn list_dir(env: Option<&str>, cwd: Option<&str>) -> (r: Option<String>)
    ensures
        r.deep_view() == (match cwd {
            Some(c) => Some(journal_dir(opt_text(env), c@)),
            None => opt_text(env),
        }),
{
    match cwd {
        Some(c) => Some(session_dir(env, c)),
        None => match env {
            Some(dir) => Some(owned(dir)),
            None => None,
        },
    }
}

/// A session that is listed.
#[derive(Debug, PartialEq, Eq)]
pub struct SessionMeta {
    pub id: String,
    pub cwd: String,
    pub title: Option<String>,
    pub path: String,
    pub updated_ms: i64,
}

/// The position of the first session with an identifier, or the number of
/// sessions.
pub open spec fn session_pos(metas: Seq<SessionMeta>, id: Text) -> int
    decreases metas.len(),
{
    if metas.len() == 0 {
        0
    } else if metas[0].id@ == id {
        0
    } else {
        1 + session_pos(metas.subrange(1, metas.len() as int), id)
    }
}

/// The file of the first session with an identifier.
pub fn find_session_file(metas: &Vec<SessionMeta>, session_id: &str) -> (r: Option<String>)
    ensures
        match r {
            Some(p) => session_pos(metas@, session_id@) < metas@.len() && p == metas@[session_pos(
                metas@,
                session_id@,
            )].path,
            None => session_pos(metas@, session_id@) >= metas@.len(),
        },
{
    let ghost all = metas@;
    let mut i: usize = 0;
    assert(all.subrange(0, all.len() as int) =~= all);
    while i < metas.len()
        invariant
            all == metas@,
            i <= metas.len(),
            session_pos(all, session_id@) == i + session_pos(
                all.subrange(i as int, all.len() as int),
                session_id@,
            ),
        decreases metas.len() - i,
    {
        let ghost rest = all.subrange(i as int, all.len() as int);
        assert(rest[0] == all[i as int]);
        assert(rest.subrange(1, rest.len() as int) =~= all.subrange(i + 1, all.len() as int));
        if same_text(metas[i].id.as_str(), session_id) {
            return Some(metas[i].path.clone());
        }
        i = i + 1;
    }
    None
}

/// Sessions from the latest to the earliest.
pub open spec fn latest_first(metas: Seq<SessionMeta>) -> bool {
    forall|i: int, j: int|
        0 <= i < j < metas.len() ==> (#[trigger] metas[i]).updated_ms >= (#[trigger] metas[j]).updated_ms
}

/// `metas` with `m` put behind those that are not earlier.
pub open spec fn put_in(metas: Seq<SessionMeta>, m: SessionMeta) -> Seq<SessionMeta>
    decreases metas.len(),
{
    if metas.len() == 0 {
        seq![m]
    } else if metas.last().updated_ms >= m.updated_ms {
        metas.push(m)
    } else {
        put_in(metas.drop_last(), m).push(metas.last())
    }
}

/// The sessions from the latest to the earliest; those of the same instant stay
/// in order.
pub open spec fn sorted(metas: Seq<SessionMeta>) -> Seq<SessionMeta>
    decreases metas.len(),
{
    if metas.len() == 0 {
        metas
    } else {
        put_in(sorted(metas.drop_last()), metas.last())
    }
}

proof fn lemma_put_in_at(s: Seq<SessionMeta>, m: SessionMeta, p: int)
    requires
        0 <= p <= s.len(),
        p > 0 ==> s[p - 1].updated_ms >= m.updated_ms,
        forall|k: int| p <= k < s.len() ==> (#[trigger] s[k]).updated_ms < m.updated_ms,
    ensures
        put_in(s, m) == s.insert(p, m),
    decreases s.len(),
{
    if s.len() == 0 {
        assert(s.insert(0, m) =~= seq![m]);
    } else if p == s.len() {
        assert(s.insert(p, m) =~= s.push(m));
    } else {
        let d = s.drop_last();
        assert(s[s.len() - 1].updated_ms < m.updated_ms);
        lemma_put_in_at(d, m, p);
        assert(s.insert(p, m) =~= d.insert(p, m).push(s.last()));
    }
}

/// The sessions from the latest to the earliest.
pub fn list_sessions(metas: Vec<SessionMeta>) -> (r: Vec<SessionMeta>)
    ensures
        r@ == sorted(metas@),
{
    let ghost all = metas@;
    let mut source = metas;
    let mut back: Vec<SessionMeta> = Vec::new();
    while source.len() > 0
        invariant
            source@.len() + back@.len() == all.len(),
            source@ == all.take(source@.len() as int),
            back@ == all.subrange(source@.len() as int, all.len() as int).reverse(),
        decreases source.len(),
    {
        let ghost k = source@.len() - 1;
        let ghost taken = back@;
        if let Some(m) = source.pop() {
            back.push(m);
            assert(source@ =~= all.take(k));
            assert(back@ =~= all.subrange(k, all.len() as int).reverse());
        }
    }
    let mut out: Vec<SessionMeta> = Vec::new();
    let ghost mut done: int = 0;
    assert(out@ =~= sorted(all.take(0)));
    while back.len() > 0
        invariant
            0 <= done,
            done + back@.len() == all.len(),
            back@ == all.subrange(done, all.len() as int).reverse(),
            out@ == sorted(all.take(done)),
        decreases back.len(),
    {
        let ghost left = back@;
        assert(left.last() == all[done]);
        assert(left.drop_last() =~= all.subrange(done + 1, all.len() as int).reverse());
        assert(all.take(done + 1).drop_last() =~= all.take(done));
        assert(all.take(done + 1).last() == all[done]);
        if let Some(m) = back.pop() {
            assert(back@ =~= left.drop_last());
            let mut p: usize = out.len();
            while p > 0 && out[p - 1].updated_ms < m.updated_ms
                invariant
                    p <= out.len(),
                    forall|k: int| p <= k < out@.len() ==> (#[trigger] out@[k]).updated_ms < m.updated_ms,
                decreases p,
            {
                p = p - 1;
            }
            proof {
                lemma_put_in_at(out@, m, p as int);
            }
            out.insert(p, m);
        }
        proof {
            done = done + 1;
        }
    }
    assert(all.take(all.len() as int) =~= all);
    out
}

proof fn lemma_put_in(s: Seq<SessionMeta>, m: SessionMeta)
    requires
        latest_first(s),
    ensures
        latest_first(put_in(s, m)),
        put_in(s, m).len() == s.len() + 1,
        put_in(s, m).to_multiset() =~= s.to_multiset().insert(m),
        forall|k: int|
            0 <= k < put_in(s, m).len() ==> (#[trigger] put_in(s, m)[k] == m || s.contains(put_in(s, m)[k])),
    decreases s.len(),
{
    broadcast use vstd::seq_lib::group_to_multiset_ensures;

    if s.len() == 0 {
        assert(seq![m] =~= Seq::<SessionMeta>::empty().push(m));
        assert(s =~= Seq::<SessionMeta>::empty());
    } else if s.last().updated_ms >= m.updated_ms {
        let n = s.push(m);
        assert forall|i: int, j: int| 0 <= i < j < n.len() implies (#[trigger] n[i]).updated_ms >= (#[trigger] n[j]).updated_ms by {
            assert(s[i].updated_ms >= s[s.len() - 1].updated_ms || i == s.len() - 1);
        }
        assert forall|k: int| 0 <= k < n.len() implies (#[trigger] n[k] == m || s.contains(n[k])) by {
            if k < s.len() {
                assert(s[k] == n[k]);
            }
        }
    } else {
        let d = s.drop_last();
        assert forall|i: int, j: int| 0 <= i < j < d.len() implies (#[trigger] d[i]).updated_ms >= (#[trigger] d[j]).updated_ms by {
            assert(s[i] == d[i] && s[j] == d[j]);
        }
        lemma_put_in(d, m);
        let b = put_in(d, m);
        let n = b.push(s.last());
        assert forall|k: int| 0 <= k < b.len() implies (#[trigger] b[k]).updated_ms >= s.last().updated_ms by {
            if b[k] != m {
                let l = choose|l: int| 0 <= l < d.len() && d[l] == b[k];
                assert(s[l] == d[l]);
                assert(s[l].updated_ms >= s[s.len() - 1].updated_ms);
            }
        }
        assert forall|i: int, j: int| 0 <= i < j < n.len() implies (#[trigger] n[i]).updated_ms >= (#[trigger] n[j]).updated_ms by {
            if j < b.len() {
                assert(n[i] == b[i] && n[j] == b[j]);
            } else {
                assert(n[i] == b[i]);
            }
        }
        assert(s =~= d.push(s.last()));
        assert forall|k: int| 0 <= k < n.len() implies (#[trigger] n[k] == m || s.contains(n[k])) by {
            if k < b.len() {
                assert(n[k] == b[k]);
                if b[k] != m {
                    let l = choose|l: int| 0 <= l < d.len() && d[l] == b[k];
                    assert(s[l] == n[k]);
                }
            } else {
                assert(s[s.len() - 1] == n[k]);
            }
        }
    }
}

/// The list of sessions goes from the latest to the earliest, and holds each
/// session that there is, as often as it is there.
pub proof fn law_list_is_latest_first(metas: Seq<SessionMeta>)
    ensures
        latest_first(sorted(metas)),
        sorted(metas).to_multiset() =~= metas.to_multiset(),
    decreases metas.len(),
{
    broadcast use vstd::seq_lib::group_to_multiset_ensures;

    if metas.len() > 0 {
        let d = metas.drop_last();
        law_list_is_latest_first(d);
        lemma_put_in(sorted(d), metas.last());
        assert(metas =~= d.push(metas.last()));
    }
}

// ---- tools ---------------------------------------------------------------------------------

/// The positions of the tools whose names are not taken, in order.
pub open spec fn free_names(taken: Seq<Text>, names: Seq<Text>) -> Seq<int>
    decreases names.len(),
{
    if names.len() == 0 {
        Seq::empty()
    } else if taken.contains(names.last()) {
        free_names(taken, names.drop_last())
    } else {
        free_names(taken, names.drop_last()).push(names.len() - 1)
    }
}

/// The positions of the added tools that a session has besides the built-in ones:
/// a built-in tool beats one of its name.
pub fn merge_tools(builtin: &Vec<String>, added: &Vec<String>) -> (r: Vec<usize>)
    ensures
        crate::entries::positions(r@) == free_names(builtin.deep_view(), added.deep_view()),
{
    let ghost names = added.deep_view();
    let ghost taken = builtin.deep_view();
    let mut out: Vec<usize> = Vec::new();
    let mut i: usize = 0;
    assert(names.take(0) =~= Seq::empty());
    assert(crate::entries::positions(out@) =~= Seq::empty());
    while i < added.len()
        invariant
            names == added.deep_view(),
            taken == builtin.deep_view(),
            i <= added.len(),
            crate::entries::positions(out@) == free_names(taken, names.take(i as int)),
        decreases added.len() - i,
    {
        let ghost before = crate::entries::positions(out@);
        assert(names.take(i + 1).drop_last() =~= names.take(i as int));
        assert(names.take(i + 1).last() == added@[i as int]@);
        if !holds_text(builtin, added[i].as_str()) {
            out.push(i);
            assert(crate::entries::positions(out@) =~= before.push(i as int));
        }
        i = i + 1;
    }
    assert(names.take(added.len() as int) =~= names);
    out
}

// ---- prompts -----------------------------------------------------------------------------------

/// The text of a prompt: its text blocks, one after the other.
pub open spec fn prompt_text(blocks: Seq<Option<Text>>) -> Text
    decreases blocks.len(),
{
    if blocks.len() == 0 {
        Seq::empty()
    } else {
        match blocks.last() {
            Some(t) => prompt_text(blocks.drop_last()) + t,
            None => prompt_text(blocks.drop_last()),
        }
    }
}

/// The text of a prompt, given the texts of those of its blocks that are text.
pub fn extract_prompt_text(blocks: &Vec<Option<String>>) -> (r: String)
    ensures
        r@ == prompt_text(blocks.deep_view()),
{
    let ghost all = blocks.deep_view();
    let mut text = String::new();
    let mut i: usize = 0;
    assert(all.take(0) =~= Seq::empty());
    while i < blocks.len()
        invariant
            all == blocks.deep_view(),
            i <= blocks.len(),
            text@ == prompt_text(all.take(i as int)),
        decreases blocks.len() - i,
    {
        assert(all.take(i + 1).drop_last() =~= all.take(i as int));
        assert(all.take(i + 1).last() == blocks@[i as int].deep_view());
        if let Some(t) = &blocks[i] {
            text = joined(text.as_str(), t.as_str());
        }
        i = i + 1;
    }
    assert(all.take(blocks.len() as int) =~= all);
    text
}

/// The message that a prompt becomes.
pub fn prompt_message(text: String, timestamp: i64) -> (r: Message)
    ensures
        r.deep_view() == MessageView::User(
            UserView {
                content: UserContentView::Text(text@),
                synthetic: None,
                steering: None,
                attribution: Some(MessageAttribution::User),
                provider_payload: None,
                timestamp,
            },
        ),
{
    Message::User(
        UserMessage {
            content: UserContent::Text(text),
            synthetic: None,
            steering: None,
            attribution: Some(MessageAttribution::User),
            provider_payload: None,
            timestamp,
        },
    )
}

/// The messages of a context that are no summaries and no extension's.
pub open spec fn standard_messages(messages: Seq<ContextView>) -> Seq<MessageView>
    decreases messages.len(),
{
    if messages.len() == 0 {
        Seq::empty()
    } else {
        match messages.last() {
            ContextView::Standard(m) => standard_messages(messages.drop_last()).push(m),
            _ => standard_messages(messages.drop_last()),
        }
    }
}

/// The messages that a session goes on behind: those of its context that are no
/// summaries and no extension's.
pub fn load_prior_messages(messages: &Vec<ContextMessage>) -> (r: Vec<Message>)
    ensures
        r.deep_view() == standard_messages(messages.deep_view()),
{
    let ghost all = messages.deep_view();
    let mut out: Vec<Message> = Vec::new();
    let mut i: usize = 0;
    assert(all.take(0) =~= Seq::empty());
    assert(out.deep_view() =~= Seq::empty());
    while i < messages.len()
        invariant
            all == messages.deep_view(),
            i <= messages.len(),
            out.deep_view() == standard_messages(all.take(i as int)),
        decreases messages.len() - i,
    {
        let ghost before = out.deep_view();
        assert(all.take(i + 1).drop_last() =~= all.take(i as int));
        assert(all.take(i + 1).last() == messages@[i as int].deep_view());
        if let ContextMessage::Standard(m) = &messages[i] {
            let copy = m.clone();
            let ghost view = copy.deep_view();
            out.push(copy);
            assert(out.deep_view() =~= before.push(view));
        }
        i = i + 1;
    }
    assert(all.take(messages.len() as int) =~= all);
    out
}

/// Whether a session's turn can be cancelled, and was.
#[derive(Debug, Clone, Copy, PartialEq, Eq, Structural)]
pub struct CancelState {
    pub armed: bool,
    pub requested: bool,
}

impl CancelState {
    pub fn new() -> (r: Self)
        ensures
            r == (CancelState { armed: false, requested: false }),
    {
        CancelState { armed: false, requested: false }
    }

    /// A turn begins: an earlier request does not count.
    pub fn arm_cancel(&mut self)
        ensures
            *final(self) == (CancelState { armed: true, requested: false }),
    {
        self.armed = true;
        self.requested = false;
    }

    /// A turn is over; whether it was cancelled stays known.
    pub fn disarm_cancel(&mut self)
        ensures
            *final(self) == (CancelState { armed: false, requested: old(self).requested }),
    {
        self.armed = false;
    }

    /// A cancellation is asked for; the result says whether a turn is to be
    /// aborted.
    pub fn request_cancel(&mut self) -> (r: bool)
        ensures
            *final(self) == (CancelState { armed: old(self).armed, requested: true }),
            r == old(self).armed,
    {
        self.requested = true;
        self.armed
    }

    pub fn was_cancel_requested(&self) -> (r: bool)
        ensures
            r == self.requested,
    {
        self.requested
    }
}

/// A session has an added tool exactly where no built-in one has its name.
pub proof fn law_builtin_tools_win(taken: Seq<Text>, names: Seq<Text>, i: int)
    ensures
        free_names(taken, names).contains(i) <==> 0 <= i < names.len() && !taken.contains(names[i]),
    decreases names.len(),
{
    if names.len() > 0 {
        let before = names.drop_last();
        let free = free_names(taken, before);
        let all = free_names(taken, names);
        law_builtin_tools_win(taken, before, i);
        if i < before.len() && 0 <= i {
            assert(before[i] == names[i]);
        }
        if free.contains(i) {
            let k = choose|k: int| 0 <= k < free.len() && free[k] == i;
            assert(all[k] == i);
        }
        if i == names.len() - 1 && !taken.contains(names.last()) {
            assert(all[free.len() as int] == i);
        }
        if all.contains(i) && !free.contains(i) {
            let k = choose|k: int| 0 <= k < all.len() && all[k] == i;
            assert(k == free.len());
        }
    }
}

// ---- what sessions are told by ----------------------------------------------------------------

/// A journal is told by its header: under its identifier, with its directory, and with
/// the title of its slot or, where that has none, of its header. What is no header of a
/// session tells of none.
pub proof fn law_head_tells_of_the_session(header: JsonView, slot_title: Option<Text>)
    ensures
        ({
            let h = head_of(header, slot_title);
            let id = text_in(field_of(header, "id"@));
            &&& h is Some == (text_in(field_of(header, "type"@)) == Some("session"@) && id is Some)
            &&& h is Some ==> h->0.id == id->0
            &&& h is Some && text_in(field_of(header, "cwd"@)) is Some ==> Some(h->0.cwd) == text_in(
                field_of(header, "cwd"@),
            )
            &&& h is Some && slot_title is Some && slot_title->0.len() > 0 ==> h->0.title == slot_title
            &&& h is Some && (slot_title is None || slot_title->0.len() == 0) ==> h->0.title == text_in(
                field_of(header, "title"@),
            )
        }),
{
}

/// The header is the second line behind a slot, else the first.
pub proof fn law_header_is_behind_the_slot(first: Text, second: Text)
    ensures
        slot_in(trimmed(first)) is Some && strict_json(trimmed(second)) is Some ==> head_in(first, second) == head_of(
            strict_json(trimmed(second))->0,
            Some(slot_in(trimmed(first))->0.title),
        ),
        slot_in(trimmed(first)) is None && strict_json(trimmed(first)) is Some ==> head_in(first, second) == head_of(
            strict_json(trimmed(first))->0,
            None,
        ),
        slot_in(trimmed(first)) is Some && strict_json(trimmed(second)) is None ==> head_in(first, second) is None,
{
}

/// A file lies in its directory, with one slash between them.
pub proof fn law_path_joins_with_one_slash(dir: Text, name: Text)
    ensures
        dir.len() == 0 ==> path_in(dir, name) == name,
        dir.len() > 0 && dir.last() == '/' ==> path_in(dir, name) == dir + name,
        dir.len() > 0 && dir.last() != '/' ==> path_in(dir, name) == dir + "/"@ + name,
        journal_dir(Some(dir), name) == dir,
        journal_dir(None, dir) == path_in(dir, ".omp-headless/sessions"@),
{
}

/// A session is found by its identifier: the first that carries it.
pub proof fn law_session_is_found(metas: Seq<SessionMeta>, id: Text)
    ensures
        0 <= session_pos(metas, id) <= metas.len(),
        session_pos(metas, id) < metas.len() ==> metas[session_pos(metas, id)].id@ == id,
        forall|i: int| 0 <= i < session_pos(metas, id) ==> (#[trigger] metas[i]).id@ != id,
    decreases metas.len(),
{
    if metas.len() > 0 && metas[0].id@ != id {
        let t = metas.subrange(1, metas.len() as int);
        law_session_is_found(t, id);
        assert forall|i: int| 0 <= i < session_pos(metas, id) implies (#[trigger] metas[i]).id@ != id by {
            if i > 0 {
                assert(t[i - 1] == metas[i]);
            }
        }
    }
}

/// The text of a prompt is that of its text blocks, one behind the other.
pub proof fn law_prompt_is_its_texts(blocks: Seq<Option<Text>>, t: Text)
    ensures
        prompt_text(Seq::empty()).len() == 0,
        prompt_text(blocks.push(Some(t))) == prompt_text(blocks) + t,
        prompt_text(blocks.push(None)) == prompt_text(blocks),
{
    assert(blocks.push(Some(t)).drop_last() =~= blocks);
    assert(blocks.push(None).drop_last() =~= blocks);
}

/// The messages that a session goes on behind are the messages of its conversation, in
/// order, without what is no message.
pub proof fn law_prior_messages_are_kept(messages: Seq<ContextView>, m: ContextView)
    ensures
        m is Standard ==> standard_messages(messages.push(m)) == standard_messages(messages).push(m->Standard_0),
        !(m is Standard) ==> standard_messages(messages.push(m)) == standard_messages(messages),
        standard_messages(Seq::empty()).len() == 0,
{
    assert(messages.push(m).drop_last() =~= messages);
}

/// Sessions that are listed latest first already stay in their order.
pub proof fn law_ordered_list_stays(metas: Seq<SessionMeta>)
    requires
        forall|i: int, j: int|
            0 <= i < j < metas.len() ==> (#[trigger] metas[i]).updated_ms >= (#[trigger] metas[j]).updated_ms,
    ensures
        sorted(metas) == metas,
    decreases metas.len(),
{
    if metas.len() > 0 {
        let d = metas.drop_last();
        assert forall|i: int, j: int| 0 <= i < j < d.len() implies (#[trigger] d[i]).updated_ms >= (
        #[trigger] d[j]).updated_ms by {
            assert(metas[i].updated_ms >= metas[j].updated_ms);
        }
        law_ordered_list_stays(d);
        if d.len() > 0 {
            assert(metas[metas.len() - 2].updated_ms >= metas[metas.len() - 1].updated_ms);
            assert(d.last() == metas[metas.len() - 2]);
        }
        assert(d.push(metas.last()) =~= metas);
        assert(seq![metas.last()] =~= d.push(metas.last()) || d.len() > 0);
    }
}

/// The tools that are added keep their order.
pub proof fn law_added_tools_keep_order(taken: Seq<Text>, names: Seq<Text>, name: Text)
    ensures
        taken.contains(name) ==> free_names(taken, names.push(name)) == free_names(taken, names),
        !taken.contains(name) ==> free_names(taken, names.push(name)) == free_names(taken, names).push(names.len() as int),
        free_names(taken, Seq::empty()).len() == 0,
{
    assert(names.push(name).drop_last() =~= names);
}

} // verus!

//! JSON values as the library holds them: insertion-ordered objects, integers
//! kept exact, other numbers kept by the text they are written with.
use vstd::prelude::*;
use crate::text::same_text;

verus! {

/// A JSON number. Numbers that are no 64-bit integer keep their text.
#[derive(Debug, PartialEq, Eq)]
pub enum JsonNumber {
    PosInt(u64),
    NegInt(i64),
    Float(String),
}

/// A JSON value.
#[derive(Debug, PartialEq, Eq)]
pub enum Json {
    Null,
    Bool(bool),
    Number(JsonNumber),
    String(String),
    Array(Vec<Json>),
    Object(Vec<(String, Json)>),
}

#[verifier::ext_equal]
pub enum NumberView {
    PosInt(u64),
    NegInt(i64),
    Float(Seq<char>),
}

/// What a JSON value is: the tree of it, with text as character sequences.
#[verifier::ext_equal]
pub enum JsonView {
    Null,
    Bool(bool),
    Number(NumberView),
    String(Seq<char>),
    Array(Seq<JsonView>),
    Object(Seq<(Seq<char>, JsonView)>),
}

impl DeepView for JsonNumber {
    type V = NumberView;

    open spec fn deep_view(&self) -> NumberView {
        match self {
            JsonNumber::PosInt(n) => NumberView::PosInt(*n),
            JsonNumber::NegInt(n) => NumberView::NegInt(*n),
            JsonNumber::Float(t) => NumberView::Float(t@),
        }
    }
}

pub open spec fn json_view(j: Json) -> JsonView
    decreases j,
{
    match j {
        Json::Null => JsonView::Null,
        Json::Bool(b) => JsonView::Bool(b),
        Json::Number(n) => JsonView::Number(n.deep_view()),
        Json::String(s) => JsonView::String(s@),
        Json::Array(v) => JsonView::Array(
            Seq::new(
                v@.len(),
                |i: int|
                    if 0 <= i < v@.len() {
                        json_view(v@[i])
                    } else {
                        JsonView::Null
                    },
            ),
        ),
        Json::Object(v) => JsonView::Object(
            Seq::new(
                v@.len(),
                |i: int|
                    if 0 <= i < v@.len() {
                        (v@[i].0@, json_view(v@[i].1))
                    } else {
                        (Seq::empty(), JsonView::Null)
                    },
            ),
        ),
    }
}

impl DeepView for Json {
    type V = JsonView;

    open spec fn deep_view(&self) -> JsonView {
        json_view(*self)
    }
}

/// The members of an object, in order.
pub type Members = Seq<(Seq<char>, JsonView)>;

/// The view of a vector of elements.
pub open spec fn array_view(v: Seq<Json>) -> Seq<JsonView> {
    Seq::new(v.len(), |i: int| json_view(v[i]))
}

/// The view of a vector of members.
pub open spec fn members_view(v: Seq<(String, Json)>) -> Members {
    Seq::new(v.len(), |i: int| (v[i].0@, json_view(v[i].1)))
}

pub broadcast proof fn lemma_array_view(v: Vec<Json>)
    ensures
        #[trigger] json_view(Json::Array(v)) == JsonView::Array(array_view(v@)),
{
    assert(json_view(Json::Array(v))->Array_0 =~= array_view(v@));
}

pub broadcast proof fn lemma_object_view(v: Vec<(String, Json)>)
    ensures
        #[trigger] json_view(Json::Object(v)) == JsonView::Object(members_view(v@)),
{
    assert(json_view(Json::Object(v))->Object_0 =~= members_view(v@));
}

pub broadcast group group_json_view {
    lemma_array_view,
    lemma_object_view,
}

/// The empty object.
pub open spec fn empty_object() -> JsonView {
    JsonView::Object(Seq::empty())
}

/// The position of the first member named `key`, or the number of members.
pub open spec fn member_pos(o: Members, key: Seq<char>) -> int
    decreases o.len(),
{
    if o.len() == 0 {
        0
    } else if o[0].0 == key {
        0
    } else {
        1 + member_pos(o.subrange(1, o.len() as int), key)
    }
}

/// The value of the first member named `key`.
pub open spec fn member(o: Members, key: Seq<char>) -> Option<JsonView> {
    let p = member_pos(o, key);
    if 0 <= p < o.len() {
        Some(o[p].1)
    } else {
        None
    }
}

/// `o` with `key` set to `value`: in place where the member is there, else at
/// the end.
pub open spec fn with_member(o: Members, key: Seq<char>, value: JsonView) -> Members {
    let p = member_pos(o, key);
    if 0 <= p < o.len() {
        o.update(p, (key, value))
    } else {
        o.push((key, value))
    }
}

/// `o` without the member `key`, whose place the last member takes.
pub open spec fn without_member(o: Members, key: Seq<char>) -> Members {
    let p = member_pos(o, key);
    if 0 <= p < o.len() {
        o.update(p, o.last()).drop_last()
    } else {
        o
    }
}

/// The member named `key` of a value, where the value is an object.
pub open spec fn field_of(v: JsonView, key: Seq<char>) -> Option<JsonView> {
    match v {
        JsonView::Object(o) => member(o, key),
        _ => None,
    }
}

/// The text of a value, where it is a string.
pub open spec fn text_in(v: Option<JsonView>) -> Option<Seq<char>> {
    match v {
        Some(JsonView::String(s)) => Some(s),
        _ => None,
    }
}

/// No two members of any object in `v` share a name.
pub open spec fn distinct_names(o: Members) -> bool {
    forall|i: int, j: int| 0 <= i < j < o.len() ==> (#[trigger] o[i]).0 != (#[trigger] o[j]).0
}

/// `member_pos` is the first position that carries the name.
pub proof fn lemma_member_pos(o: Members, key: Seq<char>)
    ensures
        0 <= member_pos(o, key) <= o.len(),
        member_pos(o, key) < o.len() ==> o[member_pos(o, key)].0 == key,
        forall|i: int| 0 <= i < member_pos(o, key) ==> (#[trigger] o[i]).0 != key,
    decreases o.len(),
{
    if o.len() > 0 && o[0].0 != key {
        let t = o.subrange(1, o.len() as int);
        lemma_member_pos(t, key);
        assert forall|i: int| 0 <= i < member_pos(o, key) implies (#[trigger] o[i]).0 != key by {
            if i > 0 {
                assert(t[i - 1] == o[i]);
            }
        }
    }
}

/// A position with the name and none before it is `member_pos`.
pub proof fn lemma_member_pos_is(o: Members, key: Seq<char>, p: int)
    requires
        0 <= p <= o.len(),
        p < o.len() ==> o[p].0 == key,
        forall|i: int| 0 <= i < p ==> (#[trigger] o[i]).0 != key,
    ensures
        member_pos(o, key) == p,
{
    lemma_member_pos(o, key);
    let q = member_pos(o, key);
    if q < p {
        assert(o[q].0 != key);
    } else if p < q {
        assert(o[p].0 != key);
    }
}

/// Reading a member that was set gives back what was set.
pub proof fn law_member_after_set(o: Members, key: Seq<char>, value: JsonView)
    ensures
        member(with_member(o, key, value), key) == Some(value),
{
    lemma_member_pos(o, key);
    let p = member_pos(o, key);
    let n = with_member(o, key, value);
    assert forall|i: int| 0 <= i < p implies (#[trigger] n[i]).0 != key by {
        assert(n[i] == o[i]);
    }
    lemma_member_pos_is(n, key, p);
}

/// Setting one member leaves the others as they were.
pub proof fn law_set_keeps_others(o: Members, key: Seq<char>, value: JsonView, other: Seq<char>)
    requires
        other != key,
    ensures
        member(with_member(o, key, value), other) == member(o, other),
{
    lemma_member_pos(o, key);
    lemma_member_pos(o, other);
    let p = member_pos(o, other);
    let n = with_member(o, key, value);
    let k = member_pos(o, key);
    if p < o.len() {
        assert(n[p] == o[p]);
        assert forall|i: int| 0 <= i < p implies (#[trigger] n[i]).0 != other by {
            assert(i == k || n[i] == o[i]);
            assert(o[i].0 != other);
        }
        lemma_member_pos_is(n, other, p);
    } else {
        assert forall|i: int| 0 <= i < n.len() implies (#[trigger] n[i]).0 != other by {
            if i < o.len() {
                assert(o[i].0 != other);
            }
        }
        lemma_member_pos_is(n, other, n.len() as int);
    }
}

/// Setting a member keeps the names of an object apart.
pub proof fn law_set_keeps_names_apart(o: Members, key: Seq<char>, value: JsonView)
    requires
        distinct_names(o),
    ensures
        distinct_names(with_member(o, key, value)),
{
    lemma_member_pos(o, key);
    let p = member_pos(o, key);
    let n = with_member(o, key, value);
    assert forall|i: int, j: int| 0 <= i < j < n.len() implies (#[trigger] n[i]).0 != (#[trigger] n[j]).0 by {
        if p < o.len() {
            assert(n[i].0 == o[i].0 && n[j].0 == o[j].0);
        } else if j < o.len() {
            assert(n[i] == o[i] && n[j] == o[j]);
        } else {
            assert(n[i] == o[i]);
        }
    }
}

/// Taking one member out leaves the others as they were, and takes it out.
pub proof fn law_take_keeps_others(o: Members, key: Seq<char>, other: Seq<char>)
    requires
        distinct_names(o),
    ensures
        other != key ==> member(without_member(o, key), other) == member(o, other),
        member(without_member(o, key), key) is None,
{
    lemma_member_pos(o, key);
    lemma_member_pos(o, other);
    let k = member_pos(o, key);
    let q = member_pos(o, other);
    let n = without_member(o, key);
    if k < o.len() {
        assert forall|i: int| 0 <= i < n.len() implies (#[trigger] n[i]).0 != key by {
            if i == k {
                assert(n[i] == o[o.len() - 1]);
                assert(o[k].0 != o[o.len() - 1].0);
            } else {
                assert(n[i] == o[i]);
                assert(o[i].0 != o[k].0) by {
                    if i < k {
                        assert(o[i].0 != o[k].0);
                    } else {
                        assert(o[k].0 != o[i].0);
                    }
                }
            }
        }
        lemma_member_pos_is(n, key, n.len() as int);
        if other != key {
            if q < o.len() {
                let at = if q == o.len() - 1 {
                    k
                } else {
                    q
                };
                assert(n[at] == o[q]);
                assert forall|i: int| 0 <= i < at implies (#[trigger] n[i]).0 != other by {
                    if i == k {
                        assert(n[i] == o[o.len() - 1]);
                        assert(o[q].0 != o[o.len() - 1].0);
                    } else {
                        assert(n[i] == o[i]);
                        if i < q {
                            assert(o[i].0 != o[q].0);
                        } else {
                            assert(o[q].0 != o[i].0);
                        }
                    }
                }
                lemma_member_pos_is(n, other, at);
            } else {
                assert forall|i: int| 0 <= i < n.len() implies (#[trigger] n[i]).0 != other by {
                    if i == k {
                        assert(n[i] == o[o.len() - 1]);
                        assert(o[o.len() - 1].0 != other);
                    } else {
                        assert(n[i] == o[i]);
                        assert(o[i].0 != other);
                    }
                }
                lemma_member_pos_is(n, other, n.len() as int);
            }
        }
    }
}

/// A copy of a number.
pub fn copy_number(n: &JsonNumber) -> (r: JsonNumber)
    ensures
        r.deep_view() == n.deep_view(),
{
    match n {
        JsonNumber::PosInt(u) => JsonNumber::PosInt(*u),
        JsonNumber::NegInt(i) => JsonNumber::NegInt(*i),
        JsonNumber::Float(t) => JsonNumber::Float(t.clone()),
    }
}

/// A deep copy of a value.
pub fn copy_json(j: &Json) -> (r: Json)
    ensures
        json_view(r) == json_view(*j),
    decreases *j,
{
    broadcast use group_json_view;

    match j {
        Json::Null => Json::Null,
        Json::Bool(b) => Json::Bool(*b),
        Json::Number(n) => Json::Number(copy_number(n)),
        Json::String(s) => Json::String(s.clone()),
        Json::Array(v) => {
            let mut out: Vec<Json> = Vec::new();
            let mut i: usize = 0;
            while i < v.len()
                invariant
                    j is Array,
                    j->Array_0 == *v,
                    i <= v.len(),
                    out.len() == i,
                    forall|k: int| 0 <= k < i ==> json_view(#[trigger] out@[k]) == json_view(v@[k]),
                decreases v.len() - i,
            {
                assert(decreases_to!(*v => v[i as int]));
                let e = copy_json(&v[i]);
                out.push(e);
                i = i + 1;
            }
            assert(array_view(out@) =~= array_view(v@));
            Json::Array(out)
        },
        Json::Object(v) => {
            let mut out: Vec<(String, Json)> = Vec::new();
            let mut i: usize = 0;
            while i < v.len()
                invariant
                    j is Object,
                    j->Object_0 == *v,
                    i <= v.len(),
                    out.len() == i,
                    forall|k: int|
                        0 <= k < i ==> (#[trigger] out@[k]).0@ == v@[k].0@ && json_view(out@[k].1)
                            == json_view(v@[k].1),
                decreases v.len() - i,
            {
                assert(decreases_to!(*v => v[i as int]));
                let name = v[i].0.clone();
                let value = copy_json(&v[i].1);
                out.push((name, value));
                i = i + 1;
            }
            assert(members_view(out@) =~= members_view(v@));
            Json::Object(out)
        },
    }
}

impl Clone for Json {
    fn clone(&self) -> (r: Json)
        ensures
            r.deep_view() == self.deep_view(),
    {
        copy_json(self)
    }
}

impl Clone for JsonNumber {
    fn clone(&self) -> (r: JsonNumber)
        ensures
            r.deep_view() == self.deep_view(),
    {
        copy_number(self)
    }
}

/// Where the first member named `key` stands; the length where there is none.
pub fn find_member(o: &Vec<(String, Json)>, key: &str) -> (p: usize)
    ensures
        p == member_pos(members_view(o@), key@),
        p <= o.len(),
{
    let mut i: usize = 0;
    while i < o.len()
        invariant
            i <= o.len(),
            forall|k: int| 0 <= k < i ==> (#[trigger] members_view(o@)[k]).0 != key@,
        decreases o.len() - i,
    {
        if same_text(o[i].0.as_str(), key) {
            proof {
                lemma_member_pos_is(members_view(o@), key@, i as int);
            }
            return i;
        }
        i = i + 1;
    }
    proof {
        lemma_member_pos_is(members_view(o@), key@, i as int);
    }
    i
}

/// The value of the first member named `key`.
pub fn get_member<'a>(o: &'a Vec<(String, Json)>, key: &str) -> (r: Option<&'a Json>)
    ensures
        match r {
            Some(j) => member(members_view(o@), key@) == Some(json_view(*j)),
            None => member(members_view(o@), key@) is None,
        },
{
    let p = find_member(o, key);
    if p < o.len() {
        Some(&o[p].1)
    } else {
        None
    }
}

/// Sets the member `key` to `value`.
pub fn set_member(o: &mut Vec<(String, Json)>, key: &str, value: Json)
    ensures
        members_view(final(o)@) == with_member(members_view(old(o)@), key@, json_view(value)),
{
    let ghost before = members_view(o@);
    let p = find_member(o, key);
    let name = crate::text::owned(key);
    if p < o.len() {
        o.set(p, (name, value));
    } else {
        o.push((name, value));
    }
    assert(members_view(o@) =~= with_member(before, key@, json_view(value)));
}

/// Takes the member `key` out; the last member takes its place.
pub fn take_member(o: &mut Vec<(String, Json)>, key: &str) -> (r: Option<Json>)
    ensures
        match r {
            Some(j) => member(members_view(old(o)@), key@) == Some(json_view(j)),
            None => member(members_view(old(o)@), key@) is None,
        },
        members_view(final(o)@) == without_member(members_view(old(o)@), key@),
{
    let ghost before = members_view(o@);
    let p = find_member(o, key);
    if p < o.len() {
        let (_, value) = o.swap_remove(p);
        assert(members_view(o@) =~= without_member(before, key@));
        Some(value)
    } else {
        None
    }
}

impl Json {
    /// The member named `key`, where this is an object.
    pub fn get(&self, key: &str) -> (r: Option<&Json>)
        ensures
            match r {
                Some(j) => field_of(json_view(*self), key@) == Some(json_view(*j)),
                None => field_of(json_view(*self), key@) is None,
            },
    {
        broadcast use group_json_view;

        match self {
            Json::Object(o) => get_member(o, key),
            _ => None,
        }
    }

    /// The text, where this is a string.
    pub fn as_str(&self) -> (r: Option<&str>)
        ensures
            match r {
                Some(s) => json_view(*self) == JsonView::String(s@),
                None => !(json_view(*self) is String),
            },
    {
        match self {
            Json::String(s) => Some(s.as_str()),
            _ => None,
        }
    }
}

/// `{}`.
pub fn new_object() -> (r: Json)
    ensures
        json_view(r) == empty_object(),
{
    broadcast use group_json_view;

    let v: Vec<(String, Json)> = Vec::new();
    assert(members_view(v@) =~= Seq::empty());
    Json::Object(v)
}

/// A value of `serde_json`.
#[verifier::external_type_specification]
#[verifier::external_body]
pub struct ExValue(serde_json::Value);

/// What `serde_json` reads a text as, strictly; `None` where the text is no
/// JSON document to it.
pub uninterp spec fn strict_json(text: Seq<char>) -> Option<JsonView>;

/// The text that `serde_json` writes for a value, without white space.
pub uninterp spec fn compact_json(value: JsonView) -> Seq<char>;

/// Converts a `serde_json::Value` into the library's value, member for member.
#[verifier::external_body]
fn from_value(value: serde_json::Value) -> (r: Json) {
    match value {
        serde_json::Value::Null => Json::Null,
        serde_json::Value::Bool(b) => Json::Bool(b),
        serde_json::Value::Number(n) => Json::Number(match (n.as_u64(), n.as_i64()) {
            (Some(u), _) => JsonNumber::PosInt(u),
            (None, Some(i)) => JsonNumber::NegInt(i),
            (None, None) => JsonNumber::Float(n.to_string()),
        }),
        serde_json::Value::String(s) => Json::String(s),
        serde_json::Value::Array(a) => Json::Array(a.into_iter().map(from_value).collect()),
        serde_json::Value::Object(o) => Json::Object(o.into_iter().map(|(k, v)| (k, from_value(v))).collect()),
    }
}

/// Converts a value of the library into a `serde_json::Value`.
#[verifier::external_body]
fn to_value(value: &Json) -> (r: serde_json::Value) {
    match value {
        Json::Null => serde_json::Value::Null,
        Json::Bool(b) => serde_json::Value::Bool(*b),
        Json::Number(JsonNumber::PosInt(u)) => serde_json::Value::from(*u),
        Json::Number(JsonNumber::NegInt(i)) => serde_json::Value::from(*i),
        Json::Number(JsonNumber::Float(t)) => serde_json::from_str(t).unwrap_or_default(),
        Json::String(s) => serde_json::Value::String(s.clone()),
        Json::Array(a) => serde_json::Value::Array(a.iter().map(to_value).collect()),
        Json::Object(o) => serde_json::Value::Object(o.iter().map(|(k, v)| (k.clone(), to_value(v))).collect()),
    }
}

/// `serde_json::from_str` on a `serde_json::Value`: the strict reading of a
/// document. The contract gives the result a name; a text that it refuses gives
/// `None`.
#[verifier::external_body]
pub(crate) fn parse_strict(text: &str) -> (r: Option<Json>)
    ensures
        match r {
            Some(j) => strict_json(text@) == Some(json_view(j)),
            None => strict_json(text@) is None,
        },
{
    serde_json::from_str::<serde_json::Value>(text).ok().map(from_value)
}

/// The name by which the strict reader tells a text to be read in place of the
/// object that begins with it.
pub const RAW_VALUE_NAME: &'static str = "$serde_json::private::RawValue";

/// Whether a value is made of strings, flags, integers, lists, and objects whose
/// names differ and do not begin with the reader's own, at most `depth` lists and
/// objects deep.
pub open spec fn is_plain(v: JsonView, depth: nat) -> bool
    decreases depth,
{
    match v {
        JsonView::Null => true,
        JsonView::Bool(_) => true,
        JsonView::Number(NumberView::PosInt(_)) => true,
        JsonView::Number(NumberView::NegInt(n)) => n < 0,
        JsonView::Number(NumberView::Float(_)) => false,
        JsonView::String(_) => true,
        JsonView::Array(a) => depth > 0 && forall|i: int|
            0 <= i < a.len() ==> is_plain(#[trigger] a[i], (depth - 1) as nat),
        JsonView::Object(o) => depth > 0 && distinct_names(o) && (o.len() > 0 ==> o[0].0 != RAW_VALUE_NAME@) && forall|
            i: int,
        |
            0 <= i < o.len() ==> is_plain((#[trigger] o[i]).1, (depth - 1) as nat),
    }
}

/// Whether the strict reader makes of a value's text that value again: it reads
/// no deeper than this, a fraction may come back rounded, and an object that
/// begins with the reader's own name is read as the text that it carries.
pub open spec fn reads_back(v: JsonView) -> bool {
    is_plain(v, 127)
}

/// Whether a value is an object, its names distinct, whose last member is a
/// string of spaces.
pub open spec fn ends_in_spaces(v: JsonView) -> bool {
    match v {
        JsonView::Object(o) => distinct_names(o) && o.len() > 0 && o.last().1 is String && forall|i: int|
            0 <= i < o.last().1->String_0.len() ==> #[trigger] o.last().1->String_0[i] == ' ',
        _ => false,
    }
}

/// `s` with `t` put before its last two characters.
pub open spec fn put_before_end(s: Seq<char>, t: Seq<char>) -> Seq<char> {
    s.subrange(0, s.len() - 2) + t + s.subrange(s.len() - 2, s.len() as int)
}

/// The object with its last member the empty string.
pub open spec fn emptied(v: JsonView) -> JsonView {
    let o = v->Object_0;
    JsonView::Object(o.drop_last().push((o.last().0, JsonView::String(Seq::empty()))))
}

/// `serde_json::Value::to_string`: the compact text of a value. The contract
/// gives the result a name, and says besides that the text of an object stands in
/// braces; that it is one line, a line feed in a string being escaped; that a value
/// without fractions, not nested too deep, in which no object begins with the name
/// that marks a raw value, is what the strict reader makes of its text; and that spaces in the string of an object's last member are written as
/// they are, before the closing quote and brace.
#[verifier::external_body]
pub(crate) fn write_compact(value: &Json) -> (r: String)
    ensures
        r@ == compact_json(json_view(*value)),
        json_view(*value) is Object ==> r@.len() >= 2 && r@[0] == '{' && r@.last() == '}',
        !r@.contains('\n'),
        reads_back(json_view(*value)) ==> strict_json(r@) == Some(json_view(*value)),
        ends_in_spaces(json_view(*value)) ==> r@ == put_before_end(
            compact_json(emptied(json_view(*value))),
            json_view(*value)->Object_0.last().1->String_0,
        ),
{
    to_value(value).to_string()
}

} // verus!

//! Normalization of a tool's input schema to the keywords that the Messages
//! API honours. A keyword that it does not honour is demoted into the node's
//! description, where the model still sees it.
use vstd::prelude::*;
use crate::json::{
    array_view, compact_json, copy_json, distinct_names, empty_object, get_member, json_view, law_member_after_set,
    law_set_keeps_others, law_take_keeps_others, lemma_array_view, lemma_member_pos, lemma_member_pos_is,
    lemma_object_view, member, member_pos, members_view, set_member, take_member, text_in, with_member,
    without_member, write_compact, Json, JsonNumber, JsonView, Members, NumberView,
};
use crate::text::{contains_text, joined, owned, same_text, stands_at};

verus! {

/// Keywords kept on every node.
pub open spec fn kept_everywhere(k: Seq<char>) -> bool {
    ||| k == "$ref"@
    ||| k == "$defs"@
    ||| k == "$schema"@
    ||| k == "definitions"@
    ||| k == "type"@
    ||| k == "anyOf"@
    ||| k == "allOf"@
    ||| k == "enum"@
    ||| k == "const"@
    ||| k == "description"@
    ||| k == "title"@
    ||| k == "default"@
    ||| k == "nullable"@
}

/// Keywords kept on nodes of the given type besides.
pub open spec fn kept_on_type(scalar: Option<Seq<char>>, k: Seq<char>) -> bool {
    ||| scalar == Some("object"@) && (k == "properties"@ || k == "required"@ || k
        == "additionalProperties"@)
    ||| scalar == Some("array"@) && (k == "items"@ || k == "prefixItems"@ || k == "minItems"@)
    ||| scalar == Some("string"@) && k == "format"@
}

/// The keywords that combine schemas. At the root none of them is honoured.
pub open spec fn is_combinator(k: Seq<char>) -> bool {
    k == "anyOf"@ || k == "allOf"@ || k == "oneOf"@
}

/// The `format` values that are honoured.
pub open spec fn known_format(f: Seq<char>) -> bool {
    ||| f == "date-time"@
    ||| f == "time"@
    ||| f == "date"@
    ||| f == "duration"@
    ||| f == "email"@
    ||| f == "hostname"@
    ||| f == "uri"@
    ||| f == "ipv4"@
    ||| f == "ipv6"@
    ||| f == "uuid"@
}

/// The first string of a list that is not `"null"`.
pub open spec fn first_type(a: Seq<JsonView>) -> Option<Seq<char>>
    decreases a.len(),
{
    if a.len() == 0 {
        None
    } else {
        match a[0] {
            JsonView::String(s) => if s != "null"@ {
                Some(s)
            } else {
                first_type(a.subrange(1, a.len() as int))
            },
            _ => first_type(a.subrange(1, a.len() as int)),
        }
    }
}

/// The type that a `type` keyword names; nullable variants count as their
/// underlying type.
pub open spec fn named_type(t: Option<JsonView>) -> Option<Seq<char>> {
    match t {
        Some(JsonView::String(s)) => Some(s),
        Some(JsonView::Array(a)) => first_type(a),
        _ => None,
    }
}

/// The type of a node: the named one, else the one its keywords imply.
pub open spec fn effective_type(o: Members) -> Option<Seq<char>> {
    if named_type(member(o, "type"@)) is Some {
        named_type(member(o, "type"@))
    } else if member(o, "properties"@) is Some && member(o, "properties"@)->0 is Object {
        Some("object"@)
    } else if member(o, "items"@) is Some || (member(o, "prefixItems"@) is Some && member(
        o,
        "prefixItems"@,
    )->0 is Array) {
        Some("array"@)
    } else {
        None
    }
}

pub open spec fn keeps(scalar: Option<Seq<char>>, root: bool, k: Seq<char>) -> bool {
    !(root && is_combinator(k)) && (kept_everywhere(k) || kept_on_type(scalar, k))
}

pub open spec fn keep_filter(scalar: Option<Seq<char>>, root: bool) -> spec_fn(
    (Seq<char>, JsonView),
) -> bool {
    |m: (Seq<char>, JsonView)| keeps(scalar, root, m.0)
}

pub open spec fn spill_filter(scalar: Option<Seq<char>>, root: bool) -> spec_fn(
    (Seq<char>, JsonView),
) -> bool {
    |m: (Seq<char>, JsonView)| !keeps(scalar, root, m.0)
}

/// Whether a value is the number zero or one.
pub open spec fn zero_or_one(v: JsonView) -> bool {
    match v {
        JsonView::Number(NumberView::PosInt(n)) => n <= 1,
        JsonView::Number(NumberView::Float(t)) => t == "0.0"@ || t == "-0.0"@ || t == "1.0"@,
        _ => false,
    }
}

/// One demoted keyword.
pub open spec fn spill_item(m: (Seq<char>, JsonView)) -> Seq<char> {
    m.0 + ": "@ + compact_json(m.1)
}

/// The demoted keywords, separated by commas.
pub open spec fn spill_body(sp: Members) -> Seq<char>
    decreases sp.len(),
{
    if sp.len() == 0 {
        Seq::empty()
    } else if sp.len() == 1 {
        spill_item(sp[0])
    } else {
        spill_body(sp.drop_last()) + ", "@ + spill_item(sp.last())
    }
}

/// `o` with the demoted keywords appended to its description.
pub open spec fn described(o: Members, sp: Members) -> Members {
    if sp.len() == 0 {
        o
    } else {
        let existing = match member(o, "description"@) {
            Some(JsonView::String(s)) => s,
            _ => Seq::empty(),
        };
        let formatted = "{"@ + spill_body(sp) + "}"@;
        let text = if existing.len() == 0 {
            formatted
        } else {
            existing + "\n\n"@ + formatted
        };
        with_member(o, "description"@, JsonView::String(text))
    }
}

/// Demotes a `format` that is not honoured.
pub open spec fn format_pruned(scalar: Option<Seq<char>>, o: Members, sp: Members) -> (Members, Members) {
    match member(o, "format"@) {
        Some(JsonView::String(f)) => if scalar == Some("string"@) && !known_format(f) {
            (without_member(o, "format"@), sp.push(("format"@, JsonView::String(f))))
        } else {
            (o, sp)
        },
        _ => (o, sp),
    }
}

/// Demotes a `minItems` other than zero or one.
pub open spec fn min_items_pruned(scalar: Option<Seq<char>>, o: Members, sp: Members) -> (
    Members,
    Members,
) {
    match member(o, "minItems"@) {
        Some(v) => if scalar == Some("array"@) && !zero_or_one(v) {
            (without_member(o, "minItems"@), sp.push(("minItems"@, v)))
        } else {
            (o, sp)
        },
        None => (o, sp),
    }
}

/// An object schema is closed unless it says otherwise.
pub open spec fn closed(scalar: Option<Seq<char>>, o: Members) -> Members {
    if scalar == Some("object"@) && member(o, "additionalProperties"@) is None {
        o.push(("additionalProperties"@, JsonView::Bool(false)))
    } else {
        o
    }
}

/// The normalized object with the kept members `kept` and the demoted ones
/// `spilled`.
pub open spec fn assembled(scalar: Option<Seq<char>>, kept: Members, spilled: Members) -> Members {
    let (o1, s1) = format_pruned(scalar, kept, spilled);
    let (o2, s2) = min_items_pruned(scalar, o1, s1);
    described(closed(scalar, o2), s2)
}

/// A normalized schema node.
pub open spec fn normal_node(v: JsonView, root: bool) -> JsonView
    decreases v, 0int,
{
    match v {
        JsonView::Array(a) => JsonView::Array(
            Seq::new(
                a.len(),
                |i: int|
                    if 0 <= i < a.len() {
                        normal_node(a[i], false)
                    } else {
                        JsonView::Null
                    },
            ),
        ),
        JsonView::Object(o) => {
            let scalar = effective_type(o);
            JsonView::Object(
                assembled(
                    scalar,
                    normal_members(o).filter(keep_filter(scalar, root)),
                    o.filter(spill_filter(scalar, root)),
                ),
            )
        },
        _ => v,
    }
}

/// The members of an object with each value normalized under its keyword.
pub open spec fn normal_members(o: Members) -> Members
    decreases o, 2int,
{
    Seq::new(
        o.len(),
        |i: int|
            if 0 <= i < o.len() {
                (o[i].0, normal_member(o[i].0, o[i].1))
            } else {
                (Seq::empty(), JsonView::Null)
            },
    )
}

/// What becomes of a kept member: the schemas under a structural keyword are
/// normalized in turn.
pub open spec fn normal_member(k: Seq<char>, v: JsonView) -> JsonView
    decreases v, 1int,
{
    match v {
        JsonView::Object(o) => if k == "properties"@ || k == "$defs"@ || k == "definitions"@ {
            JsonView::Object(
                Seq::new(
                    o.len(),
                    |i: int|
                        if 0 <= i < o.len() {
                            (o[i].0, normal_node(o[i].1, false))
                        } else {
                            (Seq::empty(), JsonView::Null)
                        },
                ),
            )
        } else if k == "items"@ {
            normal_node(v, false)
        } else if k == "additionalProperties"@ {
            if normal_node(v, false) == empty_object() {
                JsonView::Bool(true)
            } else {
                normal_node(v, false)
            }
        } else {
            v
        },
        JsonView::Array(_) => if k == "items"@ || k == "prefixItems"@ || is_combinator(k) {
            normal_node(v, false)
        } else {
            v
        },
        _ => v,
    }
}

fn keep_everywhere(k: &str) -> (r: bool)
    ensures
        r == kept_everywhere(k@),
{
    same_text(k, "$ref") || same_text(k, "$defs") || same_text(k, "$schema") || same_text(
        k,
        "definitions",
    ) || same_text(k, "type") || same_text(k, "anyOf") || same_text(k, "allOf") || same_text(
        k,
        "enum",
    ) || same_text(k, "const") || same_text(k, "description") || same_text(k, "title") || same_text(
        k,
        "default",
    ) || same_text(k, "nullable")
}

pub open spec fn text_view(t: Option<&str>) -> Option<Seq<char>> {
    match t {
        Some(s) => Some(s@),
        None => None,
    }
}

fn is_type(scalar: Option<&str>, t: &str) -> (r: bool)
    ensures
        r == (text_view(scalar) == Some(t@)),
{
    match scalar {
        Some(s) => same_text(s, t),
        None => false,
    }
}

/// Whether a node of the given type keeps the keyword besides those kept
/// everywhere.
fn per_type_keep(scalar: Option<&str>, k: &str) -> (r: bool)
    ensures
        r == kept_on_type(text_view(scalar), k@),
{
    (is_type(scalar, "object") && (same_text(k, "properties") || same_text(k, "required") || same_text(
        k,
        "additionalProperties",
    ))) || (is_type(scalar, "array") && (same_text(k, "items") || same_text(k, "prefixItems")
        || same_text(k, "minItems"))) || (is_type(scalar, "string") && same_text(k, "format"))
}

fn combinator(k: &str) -> (r: bool)
    ensures
        r == is_combinator(k@),
{
    same_text(k, "anyOf") || same_text(k, "allOf") || same_text(k, "oneOf")
}

fn format_known(f: &str) -> (r: bool)
    ensures
        r == known_format(f@),
{
    same_text(f, "date-time") || same_text(f, "time") || same_text(f, "date") || same_text(f, "duration")
        || same_text(f, "email") || same_text(f, "hostname") || same_text(f, "uri") || same_text(f, "ipv4")
        || same_text(f, "ipv6") || same_text(f, "uuid")
}

/// The type that a `type` keyword names.
fn pick_scalar_type<'a>(ty: Option<&'a Json>) -> (r: Option<&'a str>)
    ensures
        text_view(r) == named_type(
            match ty {
                Some(j) => Some(json_view(*j)),
                None => None,
            },
        ),
{
    match ty {
        Some(Json::String(s)) => Some(s.as_str()),
        Some(Json::Array(entries)) => {
            let ghost a = array_view(entries@);
            proof {
                lemma_array_view(*entries);
                assert(a.subrange(0, a.len() as int) =~= a);
            }
            let mut i: usize = 0;
            while i < entries.len()
                invariant
                    a == array_view(entries@),
                    ty is Some,
                    json_view(*ty->0) == JsonView::Array(a),
                    i <= entries.len(),
                    first_type(a) == first_type(a.subrange(i as int, a.len() as int)),
                decreases entries.len() - i,
            {
                let ghost rest = a.subrange(i as int, a.len() as int);
                assert(rest[0] == json_view(entries@[i as int]));
                assert(rest.subrange(1, rest.len() as int) =~= a.subrange(i + 1, a.len() as int));
                if let Json::String(s) = &entries[i] {
                    if !same_text(s.as_str(), "null") {
                        return Some(s.as_str());
                    }
                }
                i = i + 1;
            }
            None
        },
        _ => None,
    }
}

/// The type of a node.
fn pick_effective_scalar_type<'a>(schema: &'a Vec<(String, Json)>) -> (r: Option<&'a str>)
    ensures
        text_view(r) == effective_type(members_view(schema@)),
{
    let explicit = pick_scalar_type(get_member(schema, "type"));
    if explicit.is_some() {
        return explicit;
    }
    if let Some(Json::Object(p)) = get_member(schema, "properties") {
        proof {
            lemma_object_view(*p);
        }
        return Some("object");
    }
    if get_member(schema, "items").is_some() {
        return Some("array");
    }
    if let Some(Json::Array(p)) = get_member(schema, "prefixItems") {
        proof {
            lemma_array_view(*p);
        }
        return Some("array");
    }
    None
}

fn is_zero_or_one(value: &Json) -> (r: bool)
    ensures
        r == zero_or_one(json_view(*value)),
{
    match value {
        Json::Number(JsonNumber::PosInt(n)) => *n <= 1,
        Json::Number(JsonNumber::Float(t)) => same_text(t.as_str(), "0.0") || same_text(t.as_str(), "-0.0")
            || same_text(t.as_str(), "1.0"),
        _ => false,
    }
}

/// Appends the demoted keywords to the node's description.
fn spill_to_description(node: &mut Vec<(String, Json)>, spill: &Vec<(String, Json)>)
    ensures
        members_view(final(node)@) == described(members_view(old(node)@), members_view(spill@)),
{
    if spill.len() == 0 {
        return;
    }
    let ghost sp = members_view(spill@);
    let existing = match get_member(node, "description") {
        Some(Json::String(s)) => s.clone(),
        _ => String::new(),
    };
    let mut body = String::new();
    let mut i: usize = 0;
    assert(sp.subrange(0, 0) =~= Seq::empty());
    while i < spill.len()
        invariant
            sp == members_view(spill@),
            i <= spill.len(),
            body@ == spill_body(sp.subrange(0, i as int)),
        decreases spill.len() - i,
    {
        let ghost done = sp.subrange(0, i as int);
        let ghost next = sp.subrange(0, i + 1);
        assert(next.drop_last() =~= done);
        assert(next.last() == sp[i as int]);
        let json = write_compact(&spill[i].1);
        let label = joined(spill[i].0.as_str(), ": ");
        let item = joined(label.as_str(), json.as_str());
        if i > 0 {
            let sep = joined(body.as_str(), ", ");
            body = joined(sep.as_str(), item.as_str());
        } else {
            body = item;
        }
        i = i + 1;
    }
    assert(sp.subrange(0, spill.len() as int) =~= sp);
    let opened = joined("{", body.as_str());
    let formatted = joined(opened.as_str(), "}");
    let description = if existing.as_str().is_empty() {
        formatted
    } else {
        let head = joined(existing.as_str(), "\n\n");
        joined(head.as_str(), formatted.as_str())
    };
    set_member(node, "description", Json::String(description));
}

/// Normalizes every schema of an array.
fn normalize_entries(entries: &Vec<Json>) -> (r: Json)
    ensures
        json_view(r) == normal_node(JsonView::Array(array_view(entries@)), false),
    decreases *entries,
{
    let ghost a = array_view(entries@);
    let mut out: Vec<Json> = Vec::new();
    let mut i: usize = 0;
    while i < entries.len()
        invariant
            a == array_view(entries@),
            i <= entries.len(),
            out.len() == i,
            forall|k: int| 0 <= k < i ==> json_view(#[trigger] out@[k]) == normal_node(a[k], false),
        decreases entries.len() - i,
    {
        assert(decreases_to!(*entries => entries[i as int]));
        let e = normalize_node(&entries[i], false);
        out.push(e);
        i = i + 1;
    }
    proof {
        lemma_array_view(out);
        assert(normal_node(JsonView::Array(a), false)->Array_0 =~= array_view(out@));
    }
    Json::Array(out)
}

/// Normalizes every schema of a map from names to schemas.
fn normalize_map(o: &Vec<(String, Json)>) -> (r: Json)
    ensures
        json_view(r) == JsonView::Object(
            Seq::new(
                o@.len(),
                |i: int| (members_view(o@)[i].0, normal_node(members_view(o@)[i].1, false)),
            ),
        ),
    decreases *o,
{
    let ghost m = members_view(o@);
    let mut out: Vec<(String, Json)> = Vec::new();
    let mut i: usize = 0;
    while i < o.len()
        invariant
            m == members_view(o@),
            i <= o.len(),
            out.len() == i,
            forall|k: int|
                0 <= k < i ==> (#[trigger] out@[k]).0@ == m[k].0 && json_view(out@[k].1) == normal_node(
                    m[k].1,
                    false,
                ),
        decreases o.len() - i,
    {
        assert(decreases_to!(*o => o[i as int]));
        let name = o[i].0.clone();
        let e = normalize_node(&o[i].1, false);
        out.push((name, e));
        i = i + 1;
    }
    proof {
        lemma_object_view(out);
        assert(members_view(out@) =~= Seq::new(
            o@.len(),
            |i: int| (members_view(o@)[i].0, normal_node(members_view(o@)[i].1, false)),
        ));
    }
    Json::Object(out)
}

/// Normalizes the schemas under a structural keyword.
fn normalize_member(k: &str, v: &Json) -> (r: Json)
    ensures
        json_view(r) == normal_member(k@, json_view(*v)),
    decreases *v, 1int,
{
    match v {
        Json::Object(o) => {
            proof {
                lemma_object_view(*o);
            }
            if same_text(k, "properties") || same_text(k, "$defs") || same_text(k, "definitions") {
                let r = normalize_map(o);
                assert(normal_member(k@, json_view(*v))->Object_0 =~= json_view(r)->Object_0);
                r
            } else if same_text(k, "items") {
                normalize_node(v, false)
            } else if same_text(k, "additionalProperties") {
                let n = normalize_node(v, false);
                match &n {
                    Json::Object(m) => {
                        proof {
                            lemma_object_view(*m);
                            assert((m@.len() == 0) == (members_view(m@) =~= Seq::empty()));
                        }
                        if m.len() == 0 {
                            Json::Bool(true)
                        } else {
                            n
                        }
                    },
                    _ => n,
                }
            } else {
                copy_json(v)
            }
        },
        Json::Array(a) => {
            proof {
                lemma_array_view(*a);
            }
            if same_text(k, "items") || same_text(k, "prefixItems") || combinator(k) {
                normalize_node(v, false)
            } else {
                copy_json(v)
            }
        },
        _ => copy_json(v),
    }
}

/// A schema node, normalized.
fn normalize_node(schema: &Json, is_root: bool) -> (r: Json)
    ensures
        json_view(r) == normal_node(json_view(*schema), is_root),
    decreases *schema, 0int,
{
    match schema {
        Json::Array(entries) => {
            proof {
                lemma_array_view(*entries);
            }
            let r = normalize_entries(entries);
            assert(normal_node(json_view(*schema), is_root)->Array_0 =~= json_view(r)->Array_0);
            r
        },
        Json::Object(o) => {
            proof {
                lemma_object_view(*o);
            }
            let out = normalize_object(o, is_root);
            proof {
                lemma_object_view(out);
            }
            Json::Object(out)
        },
        _ => copy_json(schema),
    }
}

/// A schema object, normalized: the honoured keywords stay, in order, with the
/// schemas under them normalized; the others go into the description.
fn normalize_object(schema: &Vec<(String, Json)>, is_root: bool) -> (r: Vec<(String, Json)>)
    ensures
        JsonView::Object(members_view(r@)) == normal_node(
            JsonView::Object(members_view(schema@)),
            is_root,
        ),
    decreases *schema,
{
    let ghost o = members_view(schema@);
    let ghost all = normal_members(o);
    let scalar_type = pick_effective_scalar_type(schema);
    let ghost scalar = text_view(scalar_type);
    let ghost kf = keep_filter(scalar, is_root);
    let ghost sf = spill_filter(scalar, is_root);
    let mut result: Vec<(String, Json)> = Vec::new();
    let mut spill: Vec<(String, Json)> = Vec::new();
    let mut i: usize = 0;
    proof {
        reveal(Seq::filter);
        assert(all.take(0) =~= Seq::empty());
        assert(o.take(0) =~= Seq::empty());
        assert(members_view(result@) =~= all.take(0).filter(kf));
        assert(members_view(spill@) =~= o.take(0).filter(sf));
    }
    while i < schema.len()
        invariant
            o == members_view(schema@),
            all == normal_members(o),
            scalar == text_view(scalar_type),
            kf == keep_filter(scalar, is_root),
            sf == spill_filter(scalar, is_root),
            i <= schema.len(),
            members_view(result@) == all.take(i as int).filter(kf),
            members_view(spill@) == o.take(i as int).filter(sf),
        decreases schema.len() - i,
    {
        let key = schema[i].0.as_str();
        let ghost kept_before = members_view(result@);
        let ghost spilt_before = members_view(spill@);
        proof {
            reveal(Seq::filter);
            assert(all.take(i + 1).drop_last() =~= all.take(i as int));
            assert(o.take(i + 1).drop_last() =~= o.take(i as int));
            assert(all.take(i + 1).last() == all[i as int]);
            assert(o.take(i + 1).last() == o[i as int]);
            assert(decreases_to!(*schema => schema[i as int]));
        }
        let kept = !(is_root && combinator(key)) && (keep_everywhere(key) || per_type_keep(scalar_type, key));
        if kept {
            let value = normalize_member(key, &schema[i].1);
            let name = schema[i].0.clone();
            result.push((name, value));
            assert(members_view(result@) =~= kept_before.push(all[i as int]));
        } else {
            let value = copy_json(&schema[i].1);
            let name = schema[i].0.clone();
            spill.push((name, value));
            assert(members_view(spill@) =~= spilt_before.push(o[i as int]));
        }
        i = i + 1;
    }
    proof {
        assert(all.take(schema.len() as int) =~= all);
        assert(o.take(schema.len() as int) =~= o);
    }
    let ghost kept = members_view(result@);
    let ghost spilled = members_view(spill@);
    if is_type(scalar_type, "string") {
        let unknown = match get_member(&result, "format") {
            Some(Json::String(f)) => !format_known(f.as_str()),
            _ => false,
        };
        if unknown {
            let taken = take_member(&mut result, "format");
            if let Some(f) = taken {
                let ghost fv = json_view(f);
                spill.push((owned("format"), f));
                assert(members_view(spill@) =~= spilled.push(("format"@, fv)));
            }
        }
    }
    assert((members_view(result@), members_view(spill@)) == format_pruned(scalar, kept, spilled));
    let ghost kept1 = members_view(result@);
    let ghost spilled1 = members_view(spill@);
    if is_type(scalar_type, "array") {
        let other = match get_member(&result, "minItems") {
            Some(v) => !is_zero_or_one(v),
            None => false,
        };
        if other {
            let taken = take_member(&mut result, "minItems");
            if let Some(v) = taken {
                let ghost vv = json_view(v);
                spill.push((owned("minItems"), v));
                assert(members_view(spill@) =~= spilled1.push(("minItems"@, vv)));
            }
        }
    }
    assert((members_view(result@), members_view(spill@)) == min_items_pruned(scalar, kept1, spilled1));
    let ghost kept2 = members_view(result@);
    if is_type(scalar_type, "object") && get_member(&result, "additionalProperties").is_none() {
        result.push((owned("additionalProperties"), Json::Bool(false)));
        assert(members_view(result@) =~= kept2.push(("additionalProperties"@, JsonView::Bool(false))));
    }
    assert(members_view(result@) == closed(scalar, kept2));
    spill_to_description(&mut result, &spill);
    proof {
        assert(members_view(result@) == assembled(scalar, kept, spilled));
    }
    result
}

/// The schema of a tool's input, normalized.
pub fn normalize_anthropic_tool_schema(schema: &Json) -> (r: Json)
    ensures
        json_view(r) == normal_node(json_view(*schema), true),
{
    normalize_node(schema, true)
}

/// Every keyword of `o` is one that a node of the type keeps.
pub open spec fn only_kept(o: Members, scalar: Option<Seq<char>>, root: bool) -> bool {
    forall|i: int| 0 <= i < o.len() ==> keeps(scalar, root, (#[trigger] o[i]).0)
}

proof fn lemma_filtered_only_kept(o: Members, scalar: Option<Seq<char>>, root: bool)
    ensures
        only_kept(o.filter(keep_filter(scalar, root)), scalar, root),
    decreases o.len(),
{
    reveal(Seq::filter);
    if o.len() > 0 {
        lemma_filtered_only_kept(o.drop_last(), scalar, root);
    }
}

proof fn lemma_set_only_kept(o: Members, k: Seq<char>, v: JsonView, scalar: Option<Seq<char>>, root: bool)
    requires
        only_kept(o, scalar, root),
        keeps(scalar, root, k),
    ensures
        only_kept(with_member(o, k, v), scalar, root),
{
    let n = with_member(o, k, v);
    assert forall|i: int| 0 <= i < n.len() implies keeps(scalar, root, (#[trigger] n[i]).0) by {
        if i < o.len() {
            assert(keeps(scalar, root, o[i].0));
        }
    }
}

proof fn lemma_unset_only_kept(o: Members, k: Seq<char>, scalar: Option<Seq<char>>, root: bool)
    requires
        only_kept(o, scalar, root),
    ensures
        only_kept(without_member(o, k), scalar, root),
{
    let n = without_member(o, k);
    assert forall|i: int| 0 <= i < n.len() implies keeps(scalar, root, (#[trigger] n[i]).0) by {
        assert(keeps(scalar, root, o[i].0));
        assert(keeps(scalar, root, o.last().0));
    }
}

proof fn lemma_words()
    ensures
        !is_combinator("description"@),
        !is_combinator("additionalProperties"@),
        !kept_everywhere("oneOf"@),
        "oneOf"@ != "properties"@ && "oneOf"@ != "required"@ && "oneOf"@ != "additionalProperties"@ && "oneOf"@
            != "items"@ && "oneOf"@ != "prefixItems"@ && "oneOf"@ != "minItems"@ && "oneOf"@ != "format"@,
        "additionalProperties"@ != "description"@,
        "additionalProperties"@ != "format"@,
        "additionalProperties"@ != "minItems"@,
{
    reveal_strlit("oneOf");
    reveal_strlit("anyOf");
    reveal_strlit("allOf");
    reveal_strlit("description");
    reveal_strlit("additionalProperties");
    reveal_strlit("$ref");
    reveal_strlit("$defs");
    reveal_strlit("$schema");
    reveal_strlit("definitions");
    reveal_strlit("type");
    reveal_strlit("enum");
    reveal_strlit("const");
    reveal_strlit("title");
    reveal_strlit("default");
    reveal_strlit("nullable");
    reveal_strlit("properties");
    reveal_strlit("required");
    reveal_strlit("items");
    reveal_strlit("prefixItems");
    reveal_strlit("minItems");
    reveal_strlit("format");
    assert("additionalProperties"@.len() == 20);
    assert("description"@.len() == 11);
    assert("anyOf"@.len() == 5);
    assert("allOf"@.len() == 5);
    assert("oneOf"@.len() == 5);
    assert("oneOf"@[0] == 'o');
    assert("$defs"@[0] == '$');
    assert("anyOf"@[0] == 'a');
    assert("allOf"@[0] == 'a');
    assert("const"@[0] == 'c');
    assert("items"@[0] == 'i');
}

/// A normalized object holds only keywords that the API honours on a node of its
/// type; at the root no combinator is among them.
pub proof fn law_only_honoured_keywords(o: Members, root: bool)
    ensures
        normal_node(JsonView::Object(o), root) is Object,
        only_kept(normal_node(JsonView::Object(o), root)->Object_0, effective_type(o), root),
{
    lemma_words();
    let scalar = effective_type(o);
    let kept = normal_members(o).filter(keep_filter(scalar, root));
    let spilled = o.filter(spill_filter(scalar, root));
    lemma_filtered_only_kept(normal_members(o), scalar, root);
    let (o1, s1) = format_pruned(scalar, kept, spilled);
    lemma_unset_only_kept(kept, "format"@, scalar, root);
    let (o2, s2) = min_items_pruned(scalar, o1, s1);
    lemma_unset_only_kept(o1, "minItems"@, scalar, root);
    let o3 = closed(scalar, o2);
    assert(only_kept(o3, scalar, root));
    assert forall|t: JsonView| only_kept(#[trigger] with_member(o3, "description"@, t), scalar, root) by {
        lemma_set_only_kept(o3, "description"@, t, scalar, root);
    }
}

/// `oneOf` never survives normalization, at the root or below it.
pub proof fn law_one_of_never_kept(o: Members, root: bool, i: int)
    requires
        0 <= i < normal_node(JsonView::Object(o), root)->Object_0.len(),
    ensures
        normal_node(JsonView::Object(o), root)->Object_0[i].0 != "oneOf"@,
{
    law_only_honoured_keywords(o, root);
    lemma_words();
}

/// An object schema always says whether other properties are allowed.
pub proof fn law_objects_are_closed_or_explicit(o: Members, root: bool)
    requires
        effective_type(o) == Some("object"@),
    ensures
        member(normal_node(JsonView::Object(o), root)->Object_0, "additionalProperties"@) is Some,
{
    lemma_words();
    let scalar = effective_type(o);
    let kept = normal_members(o).filter(keep_filter(scalar, root));
    let spilled = o.filter(spill_filter(scalar, root));
    let (o1, s1) = format_pruned(scalar, kept, spilled);
    let (o2, s2) = min_items_pruned(scalar, o1, s1);
    let o3 = closed(scalar, o2);
    let ap = "additionalProperties"@;
    lemma_member_pos(o2, ap);
    if member(o2, ap) is None {
        assert forall|i: int| 0 <= i < o2.len() implies (#[trigger] o3[i]).0 != ap by {
            assert(o3[i] == o2[i]);
        }
        lemma_member_pos_is(o3, ap, o2.len() as int);
    }
    assert(member(o3, ap) is Some);
    assert forall|t: JsonView| member(#[trigger] with_member(o3, "description"@, t), ap) is Some by {
        law_set_keeps_others(o3, "description"@, t, ap);
    }
}

/// A value that is neither an object nor an array stays as it is.
pub proof fn law_scalars_unchanged(v: JsonView, root: bool)
    requires
        !(v is Object),
        !(v is Array),
    ensures
        normal_node(v, root) == v,
{
}

proof fn lemma_in_joined(a: Seq<char>, b: Seq<char>, t: Seq<char>)
    ensures
        contains_text(a, t) ==> contains_text(a + b, t),
        contains_text(b, t) ==> contains_text(a + b, t),
{
    if contains_text(a, t) {
        let p = choose|p: int| stands_at(a, p, t);
        assert((a + b).subrange(p, p + t.len()) =~= a.subrange(p, p + t.len()));
        assert(stands_at(a + b, p, t));
    }
    if contains_text(b, t) {
        let p = choose|p: int| stands_at(b, p, t);
        assert((a + b).subrange(a.len() + p, a.len() + p + t.len()) =~= b.subrange(p, p + t.len()));
        assert(stands_at(a + b, a.len() + p, t));
    }
}

proof fn lemma_spill_body_names(sp: Members, q: int)
    requires
        0 <= q < sp.len(),
    ensures
        contains_text(spill_body(sp), spill_item(sp[q])),
    decreases sp.len(),
{
    let t = spill_item(sp[q]);
    if sp.len() == 1 {
        assert(t.subrange(0, t.len() as int) =~= t);
        assert(stands_at(spill_body(sp), 0, t));
    } else {
        let before = spill_body(sp.drop_last());
        let last = spill_item(sp.last());
        if q < sp.len() - 1 {
            lemma_spill_body_names(sp.drop_last(), q);
            lemma_in_joined(before, ", "@, t);
            lemma_in_joined(before + ", "@, last, t);
        } else {
            assert(last.subrange(0, last.len() as int) =~= last);
            assert(stands_at(last, 0, t));
            lemma_in_joined(before + ", "@, last, t);
        }
    }
}

/// A keyword that is not kept is not lost: the description of the node names it
/// with its value.
pub proof fn law_demoted_keyword_is_described(o: Members, root: bool, i: int)
    requires
        0 <= i < o.len(),
        !keeps(effective_type(o), root, o[i].0),
    ensures
        text_in(member(normal_node(JsonView::Object(o), root)->Object_0, "description"@)) is Some,
        contains_text(
            text_in(member(normal_node(JsonView::Object(o), root)->Object_0, "description"@))->0,
            spill_item(o[i]),
        ),
{
    let scalar = effective_type(o);
    let spilled = o.filter(spill_filter(scalar, root));
    o.lemma_filter_contains(spill_filter(scalar, root), i);
    let q = choose|q: int| 0 <= q < spilled.len() && spilled[q] == o[i];
    let kept = normal_members(o).filter(keep_filter(scalar, root));
    let (o1, s1) = format_pruned(scalar, kept, spilled);
    let (o2, s2) = min_items_pruned(scalar, o1, s1);
    assert(s1[q] == o[i] && s1.len() >= spilled.len());
    assert(s2[q] == o[i] && s2.len() >= s1.len());
    lemma_spill_body_names(s2, q);
    let all = closed(scalar, o2);
    let existing = match member(all, "description"@) {
        Some(JsonView::String(s)) => s,
        _ => Seq::empty(),
    };
    let t = spill_item(o[i]);
    let body = spill_body(s2);
    lemma_in_joined("{"@, body, t);
    lemma_in_joined("{"@ + body, "}"@, t);
    lemma_in_joined(existing + "\n\n"@, "{"@ + body + "}"@, t);
    let text = if existing.len() == 0 {
        "{"@ + body + "}"@
    } else {
        existing + "\n\n"@ + ("{"@ + body + "}"@)
    };
    law_member_after_set(all, "description"@, JsonView::String(text));
}

// ---- normalizing twice -----------------------------------------------------------------------

/// Whether the names of every object in a value differ.
pub open spec fn names_apart(v: JsonView) -> bool
    decreases v,
{
    match v {
        JsonView::Array(a) => forall|i: int| 0 <= i < a.len() ==> names_apart(#[trigger] a[i]),
        JsonView::Object(o) => distinct_names(o) && forall|i: int|
            0 <= i < o.len() ==> names_apart((#[trigger] o[i]).1),
        _ => true,
    }
}

/// Whether normalizing the members of an object changes none of them.
spec fn settled(o: Members) -> bool {
    forall|i: int| 0 <= i < o.len() ==> normal_member((#[trigger] o[i]).0, o[i].1) == o[i].1
}

proof fn lemma_push_member(o: Members, m: (Seq<char>, JsonView), k: Seq<char>)
    ensures
        member(o.push(m), k) == (if member(o, k) is Some {
            member(o, k)
        } else if m.0 == k {
            Some(m.1)
        } else {
            None
        }),
{
    lemma_member_pos(o, k);
    let p = member_pos(o, k);
    let n = o.push(m);
    assert forall|i: int| 0 <= i < p implies (#[trigger] n[i]).0 != k by {
        assert(n[i] == o[i]);
    }
    if p < o.len() || m.0 == k {
        lemma_member_pos_is(n, k, p);
    } else {
        lemma_member_pos_is(n, k, n.len() as int);
    }
}

proof fn lemma_filter_member(o: Members, scalar: Option<Seq<char>>, root: bool, k: Seq<char>)
    ensures
        member(o.filter(keep_filter(scalar, root)), k) == (if keeps(scalar, root, k) {
            member(o, k)
        } else {
            None
        }),
    decreases o.len(),
{
    reveal(Seq::filter);
    let f = keep_filter(scalar, root);
    if o.len() > 0 {
        let init = o.drop_last();
        lemma_filter_member(init, scalar, root, k);
        lemma_push_member(init, o.last(), k);
        lemma_push_member(init.filter(f), o.last(), k);
        assert(init.push(o.last()) =~= o);
    }
}

proof fn lemma_normal_members(o: Members, k: Seq<char>)
    ensures
        member(normal_members(o), k) == (match member(o, k) {
            Some(v) => Some(normal_member(k, v)),
            None => None,
        }),
        distinct_names(o) ==> distinct_names(normal_members(o)),
{
    lemma_member_pos(o, k);
    let n = normal_members(o);
    assert forall|i: int| 0 <= i < o.len() implies (#[trigger] n[i]).0 == o[i].0 by {}
    let p = member_pos(o, k);
    assert forall|i: int| 0 <= i < p implies (#[trigger] n[i]).0 != k by {
        assert(o[i].0 != k);
    }
    lemma_member_pos_is(n, k, p);
    if distinct_names(o) {
        assert forall|i: int, j: int| 0 <= i < j < n.len() implies (#[trigger] n[i]).0 != (#[trigger] n[j]).0 by {
            assert(o[i].0 != o[j].0);
        }
    }
}

proof fn lemma_filter_keeps(o: Members, scalar: Option<Seq<char>>, root: bool)
    requires
        distinct_names(o),
        settled(o),
    ensures
        distinct_names(o.filter(keep_filter(scalar, root))),
        settled(o.filter(keep_filter(scalar, root))),
    decreases o.len(),
{
    reveal(Seq::filter);
    let f = keep_filter(scalar, root);
    if o.len() > 0 {
        let init = o.drop_last();
        let last = o.last();
        assert(distinct_names(init)) by {
            assert forall|i: int, j: int| 0 <= i < j < init.len() implies (#[trigger] init[i]).0 != (
            #[trigger] init[j]).0 by {
                assert(o[i].0 != o[j].0);
            }
        }
        assert(settled(init)) by {
            assert forall|i: int| 0 <= i < init.len() implies normal_member((#[trigger] init[i]).0, init[i].1)
                == init[i].1 by {
                assert(normal_member(o[i].0, o[i].1) == o[i].1);
            }
        }
        lemma_filter_keeps(init, scalar, root);
        let t = init.filter(f);
        lemma_filter_member(init, scalar, root, last.0);
        lemma_member_pos(init, last.0);
        lemma_member_pos(t, last.0);
        assert(member(init, last.0) is None) by {
            let p = member_pos(init, last.0);
            if p < init.len() {
                assert(o[p].0 != o[o.len() - 1].0);
            }
        }
        assert(member(t, last.0) is None);
        if f(last) {
            let n = t.push(last);
            assert forall|i: int, j: int| 0 <= i < j < n.len() implies (#[trigger] n[i]).0 != (#[trigger] n[j]).0 by {
                assert(n[i] == t[i]);
                if j < t.len() {
                    assert(n[j] == t[j]);
                }
            }
            assert forall|i: int| 0 <= i < n.len() implies normal_member((#[trigger] n[i]).0, n[i].1) == n[i].1 by {
                if i < t.len() {
                    assert(n[i] == t[i]);
                } else {
                    assert(normal_member(o[o.len() - 1].0, o[o.len() - 1].1) == o[o.len() - 1].1);
                }
            }
        }
    }
}

proof fn lemma_set_settled(o: Members, k: Seq<char>, v: JsonView)
    requires
        settled(o),
        normal_member(k, v) == v,
    ensures
        settled(with_member(o, k, v)),
{
    let n = with_member(o, k, v);
    let p = member_pos(o, k);
    assert forall|i: int| 0 <= i < n.len() implies normal_member((#[trigger] n[i]).0, n[i].1) == n[i].1 by {
        if i < o.len() && i != p {
            assert(n[i] == o[i]);
        } else {
            assert(n[i] == (k, v));
        }
    }
}

proof fn lemma_unset_settled(o: Members, k: Seq<char>)
    requires
        settled(o),
        distinct_names(o),
    ensures
        settled(without_member(o, k)),
        distinct_names(without_member(o, k)),
{
    let n = without_member(o, k);
    let p = member_pos(o, k);
    let last = o.len() - 1;
    assert forall|i: int| 0 <= i < n.len() implies normal_member((#[trigger] n[i]).0, n[i].1) == n[i].1 by {
        if i == p {
            assert(n[i] == o[last]);
        } else {
            assert(n[i] == o[i]);
        }
    }
    assert forall|i: int, j: int| 0 <= i < j < n.len() implies (#[trigger] n[i]).0 != (#[trigger] n[j]).0 by {
        if i == p && p < o.len() {
            assert(n[i] == o[last] && n[j] == o[j]);
        } else if j == p && p < o.len() {
            assert(n[j] == o[last] && n[i] == o[i]);
        } else {
            assert(n[i] == o[i] && n[j] == o[j]);
        }
    }
}

proof fn lemma_all_kept(o: Members, scalar: Option<Seq<char>>, root: bool)
    requires
        only_kept(o, scalar, root),
    ensures
        o.filter(keep_filter(scalar, root)) == o,
        o.filter(spill_filter(scalar, root)) == Members::empty(),
    decreases o.len(),
{
    reveal(Seq::filter);
    if o.len() > 0 {
        let init = o.drop_last();
        assert forall|i: int| 0 <= i < init.len() implies keeps(scalar, root, (#[trigger] init[i]).0) by {
            assert(keeps(scalar, root, o[i].0));
        }
        assert(keeps(scalar, root, o[o.len() - 1].0));
        lemma_all_kept(init, scalar, root);
        assert(init.push(o.last()) =~= o);
    } else {
        assert(o =~= Members::empty());
    }
}

/// Whether assembling `o` again would prune nothing and add nothing.
spec fn pruned(scalar: Option<Seq<char>>, o: Members) -> bool {
    &&& format_pruned(scalar, o, Members::empty()) == (o, Members::empty())
    &&& min_items_pruned(scalar, o, Members::empty()) == (o, Members::empty())
    &&& closed(scalar, o) == o
}

proof fn lemma_assembled(scalar: Option<Seq<char>>, kept: Members, spilled: Members, k: Seq<char>)
    requires
        distinct_names(kept),
        settled(kept),
    ensures
        settled(assembled(scalar, kept, spilled)),
        pruned(scalar, assembled(scalar, kept, spilled)),
        k != "format"@ && k != "minItems"@ && k != "additionalProperties"@ && k != "description"@ ==> member(
            assembled(scalar, kept, spilled),
            k,
        ) == member(kept, k),
{
    lemma_words();
    let format = "format"@;
    let least = "minItems"@;
    let ap = "additionalProperties"@;
    let told = "description"@;
    lemma_short_words();
    let (o1, s1) = format_pruned(scalar, kept, spilled);
    law_take_keeps_others(kept, format, k);
    law_take_keeps_others(kept, format, least);
    law_take_keeps_others(kept, format, format);
    lemma_unset_settled(kept, format);
    let (o2, s2) = min_items_pruned(scalar, o1, s1);
    law_take_keeps_others(o1, least, k);
    law_take_keeps_others(o1, least, least);
    law_take_keeps_others(o1, least, format);
    lemma_unset_settled(o1, least);
    let o3 = closed(scalar, o2);
    let shut = JsonView::Bool(false);
    lemma_push_member(o2, (ap, shut), k);
    lemma_push_member(o2, (ap, shut), format);
    lemma_push_member(o2, (ap, shut), least);
    lemma_push_member(o2, (ap, shut), ap);
    assert(settled(o3)) by {
        assert forall|i: int| 0 <= i < o3.len() implies normal_member((#[trigger] o3[i]).0, o3[i].1) == o3[i].1 by {
            if i < o2.len() {
                assert(o3[i] == o2[i]);
            }
        }
    }
    assert forall|t: Seq<char>|
        settled(with_member(o3, told, JsonView::String(t))) && member(
            #[trigger] with_member(o3, told, JsonView::String(t)),
            format,
        ) == member(o3, format) && member(with_member(o3, told, JsonView::String(t)), least) == member(o3, least)
            && member(with_member(o3, told, JsonView::String(t)), ap) == member(o3, ap) && (k != told ==> member(
            with_member(o3, told, JsonView::String(t)),
            k,
        ) == member(o3, k)) by {
        let v = JsonView::String(t);
        lemma_set_settled(o3, told, v);
        law_set_keeps_others(o3, told, v, format);
        law_set_keeps_others(o3, told, v, least);
        law_set_keeps_others(o3, told, v, ap);
        if k != told {
            law_set_keeps_others(o3, told, v, k);
        }
    }
    let n = described(o3, s2);
    assert(n == assembled(scalar, kept, spilled));
    assert(member(n, format) == member(o3, format));
    assert(member(n, least) == member(o3, least));
    assert(member(n, ap) == member(o3, ap));
}

proof fn lemma_short_words()
    ensures
        "format"@ != "minItems"@ && "format"@ != "description"@ && "minItems"@ != "description"@,
        "type"@ != "format"@ && "type"@ != "minItems"@ && "type"@ != "additionalProperties"@ && "type"@ != "description"@,
        "properties"@ != "format"@ && "properties"@ != "minItems"@ && "properties"@ != "additionalProperties"@
            && "properties"@ != "description"@,
        "items"@ != "format"@ && "items"@ != "minItems"@ && "items"@ != "additionalProperties"@ && "items"@
            != "description"@,
        "prefixItems"@ != "format"@ && "prefixItems"@ != "minItems"@ && "prefixItems"@ != "additionalProperties"@
            && "prefixItems"@ != "description"@,
        !is_combinator("type"@) && !is_combinator("properties"@) && !is_combinator("items"@) && !is_combinator(
            "prefixItems"@,
        ),
        !kept_everywhere("properties"@) && !kept_everywhere("items"@) && !kept_everywhere("prefixItems"@),
        "object"@ != "array"@ && "object"@ != "string"@ && "array"@ != "string"@,
        "type"@ != "properties"@ && "type"@ != "items"@ && "type"@ != "prefixItems"@ && "type"@ != "$defs"@ && "type"@
            != "definitions"@,
        "properties"@ != "items"@ && "properties"@ != "prefixItems"@ && "items"@ != "prefixItems"@,
        "properties"@ != "required"@ && "items"@ != "required"@ && "prefixItems"@ != "required"@,
{
    reveal_strlit("anyOf");
    reveal_strlit("allOf");
    reveal_strlit("oneOf");
    reveal_strlit("$ref");
    reveal_strlit("$defs");
    reveal_strlit("$schema");
    reveal_strlit("definitions");
    reveal_strlit("type");
    reveal_strlit("enum");
    reveal_strlit("const");
    reveal_strlit("title");
    reveal_strlit("default");
    reveal_strlit("nullable");
    reveal_strlit("description");
    reveal_strlit("additionalProperties");
    reveal_strlit("properties");
    reveal_strlit("required");
    reveal_strlit("items");
    reveal_strlit("prefixItems");
    reveal_strlit("minItems");
    reveal_strlit("format");
    reveal_strlit("object");
    reveal_strlit("array");
    reveal_strlit("string");
    assert("object"@[0] == 'o' && "string"@[0] == 's' && "array"@.len() == 5 && "object"@.len() == 6 && "string"@.len()
        == 6);
    assert("type"@.len() == 4 && "properties"@.len() == 10 && "items"@.len() == 5 && "prefixItems"@.len() == 11
        && "format"@.len() == 6 && "minItems"@.len() == 8 && "description"@.len() == 11 && "additionalProperties"@.len()
        == 20 && "required"@.len() == 8);
    assert("prefixItems"@[0] == 'p' && "description"@[0] == 'd' && "definitions"@[0] == 'd');
    assert("items"@[0] == 'i' && "anyOf"@[0] == 'a' && "allOf"@[0] == 'a' && "oneOf"@[0] == 'o' && "$defs"@[0] == '$'
        && "const"@[0] == 'c' && "title"@[0] == 't');
    assert("$ref"@[0] == '$' && "type"@[0] == 't' && "enum"@[0] == 'e');
    assert("$schema"@.len() == 7 && "default"@.len() == 7 && "nullable"@.len() == 8 && "definitions"@.len() == 11);
}

/// The type of a node is the type of what it is normalized to.
proof fn lemma_type_stays(o: Members, root: bool)
    requires
        distinct_names(o),
        settled(normal_members(o)),
    ensures
        ({
            let scalar = effective_type(o);
            let kept = normal_members(o).filter(keep_filter(scalar, root));
            let spilled = o.filter(spill_filter(scalar, root));
            effective_type(assembled(scalar, kept, spilled)) == scalar
        }),
{
    let scalar = effective_type(o);
    let n = normal_members(o);
    let kept = n.filter(keep_filter(scalar, root));
    let spilled = o.filter(spill_filter(scalar, root));
    let done = assembled(scalar, kept, spilled);
    lemma_short_words();
    lemma_normal_members(o, "type"@);
    lemma_normal_members(o, "properties"@);
    lemma_normal_members(o, "items"@);
    lemma_normal_members(o, "prefixItems"@);
    lemma_filter_keeps(n, scalar, root);
    lemma_filter_member(n, scalar, root, "type"@);
    lemma_filter_member(n, scalar, root, "properties"@);
    lemma_filter_member(n, scalar, root, "items"@);
    lemma_filter_member(n, scalar, root, "prefixItems"@);
    lemma_assembled(scalar, kept, spilled, "type"@);
    lemma_assembled(scalar, kept, spilled, "properties"@);
    lemma_assembled(scalar, kept, spilled, "items"@);
    lemma_assembled(scalar, kept, spilled, "prefixItems"@);
    assert(member(done, "type"@) == member(o, "type"@));
}

/// A node whose members are settled under their keywords is settled itself.
proof fn lemma_object_settles(o: Members, root: bool)
    requires
        distinct_names(o),
        settled(normal_members(o)),
    ensures
        normal_node(normal_node(JsonView::Object(o), root), root) == normal_node(JsonView::Object(o), root),
{
    let scalar = effective_type(o);
    let n = normal_members(o);
    let kept = n.filter(keep_filter(scalar, root));
    let spilled = o.filter(spill_filter(scalar, root));
    let done = assembled(scalar, kept, spilled);
    lemma_normal_members(o, Seq::empty());
    lemma_filter_keeps(n, scalar, root);
    lemma_assembled(scalar, kept, spilled, Seq::empty());
    lemma_type_stays(o, root);
    law_only_honoured_keywords(o, root);
    assert(normal_node(JsonView::Object(o), root) == JsonView::Object(done));
    assert(only_kept(done, scalar, root));
    let again = normal_members(done);
    assert(again =~= done);
    lemma_all_kept(done, scalar, root);
    assert(assembled(scalar, done, Members::empty()) == done);
}

/// What becomes of a member under its keyword stays as it is.
proof fn lemma_member_settles(k: Seq<char>, v: JsonView)
    requires
        names_apart(v),
    ensures
        normal_member(k, normal_member(k, v)) == normal_member(k, v),
    decreases v, 1int,
{
    let w = normal_member(k, v);
    law_normalizing_twice(v, false);
    match v {
        JsonView::Object(o) => {
            if k == "properties"@ || k == "$defs"@ || k == "definitions"@ {
                let first = w->Object_0;
                assert forall|i: int| 0 <= i < o.len() implies normal_node((#[trigger] first[i]).1, false)
                    == first[i].1 by {
                    assert(names_apart(o[i].1));
                    law_normalizing_twice(o[i].1, false);
                }
                assert(normal_member(k, w)->Object_0 =~= first);
            } else {
                law_only_honoured_keywords(o, false);
            }
        },
        _ => {},
    }
}

/// Normalizing a schema that was normalized changes nothing, where the names of
/// each of its objects differ.
pub proof fn law_normalizing_twice(v: JsonView, root: bool)
    requires
        names_apart(v),
    ensures
        normal_node(normal_node(v, root), root) == normal_node(v, root),
    decreases v, 0int,
{
    match v {
        JsonView::Array(a) => {
            let first = normal_node(v, root)->Array_0;
            assert forall|i: int| 0 <= i < a.len() implies normal_node(#[trigger] first[i], false) == first[i] by {
                assert(names_apart(a[i]));
                law_normalizing_twice(a[i], false);
            }
            assert(normal_node(normal_node(v, root), root)->Array_0 =~= first);
        },
        JsonView::Object(o) => {
            let n = normal_members(o);
            assert forall|i: int| 0 <= i < n.len() implies normal_member((#[trigger] n[i]).0, n[i].1) == n[i].1 by {
                assert(names_apart(o[i].1));
                lemma_member_settles(o[i].0, o[i].1);
            }
            lemma_object_settles(o, root);
        },
        _ => {},
    }
}

// ---- what is kept ----------------------------------------------------------------------------

proof fn lemma_kept_value(o: Members, root: bool, k: Seq<char>)
    requires
        names_apart(JsonView::Object(o)),
        keeps(effective_type(o), root, k),
        k != "format"@ && k != "minItems"@ && k != "additionalProperties"@ && k != "description"@,
    ensures
        member(normal_node(JsonView::Object(o), root)->Object_0, k) == (match member(o, k) {
            Some(v) => Some(normal_member(k, v)),
            None => None,
        }),
{
    let scalar = effective_type(o);
    let n = normal_members(o);
    assert forall|i: int| 0 <= i < n.len() implies normal_member((#[trigger] n[i]).0, n[i].1) == n[i].1 by {
        assert(names_apart(o[i].1));
        lemma_member_settles(o[i].0, o[i].1);
    }
    lemma_normal_members(o, k);
    lemma_filter_keeps(n, scalar, root);
    lemma_filter_member(n, scalar, root, k);
    lemma_assembled(scalar, n.filter(keep_filter(scalar, root)), o.filter(spill_filter(scalar, root)), k);
}

/// What says which values a node admits is kept as it is, on every node: the type, the
/// values to choose from, the one value, references, the title, the default. What an
/// object requires is kept on objects.
pub proof fn law_honoured_keywords_keep_their_values(o: Members, root: bool, k: Seq<char>)
    requires
        names_apart(JsonView::Object(o)),
        k == "type"@ || k == "enum"@ || k == "const"@ || k == "$ref"@ || k == "$schema"@ || k == "title"@ || k == "default"@
            || k == "nullable"@ || (k == "required"@ && effective_type(o) == Some("object"@)),
    ensures
        member(normal_node(JsonView::Object(o), root)->Object_0, k) == member(o, k),
{
    lemma_keyword_letters(k);
    lemma_kept_value(o, root, k);
}

proof fn lemma_keyword_letters(k: Seq<char>)
    requires
        k == "type"@ || k == "enum"@ || k == "const"@ || k == "$ref"@ || k == "$schema"@ || k == "title"@ || k == "default"@
            || k == "nullable"@ || k == "required"@,
    ensures
        !is_combinator(k),
        k != "format"@ && k != "minItems"@ && k != "additionalProperties"@ && k != "description"@,
        k != "properties"@ && k != "$defs"@ && k != "definitions"@ && k != "items"@ && k != "prefixItems"@,
{
    reveal_strlit("type");
    reveal_strlit("enum");
    reveal_strlit("const");
    reveal_strlit("$ref");
    reveal_strlit("$schema");
    reveal_strlit("title");
    reveal_strlit("default");
    reveal_strlit("nullable");
    reveal_strlit("required");
    reveal_strlit("anyOf");
    reveal_strlit("allOf");
    reveal_strlit("oneOf");
    reveal_strlit("format");
    reveal_strlit("minItems");
    reveal_strlit("additionalProperties");
    reveal_strlit("description");
    reveal_strlit("properties");
    reveal_strlit("$defs");
    reveal_strlit("definitions");
    reveal_strlit("items");
    reveal_strlit("prefixItems");
    assert("type"@.len() == 4 && "enum"@.len() == 4 && "const"@.len() == 5 && "$ref"@.len() == 4 && "$schema"@.len() == 7
        && "title"@.len() == 5 && "default"@.len() == 7 && "nullable"@.len() == 8 && "required"@.len() == 8);
    assert("anyOf"@.len() == 5 && "allOf"@.len() == 5 && "oneOf"@.len() == 5 && "format"@.len() == 6 && "minItems"@.len()
        == 8 && "additionalProperties"@.len() == 20 && "description"@.len() == 11 && "properties"@.len() == 10
        && "$defs"@.len() == 5 && "definitions"@.len() == 11 && "items"@.len() == 5 && "prefixItems"@.len() == 11);
    assert("const"@[0] == 'c' && "title"@[0] == 't' && "anyOf"@[0] == 'a' && "allOf"@[0] == 'a' && "oneOf"@[0] == 'o'
        && "$defs"@[0] == '$' && "items"@[0] == 'i' && "nullable"@[0] == 'n' && "required"@[0] == 'r' && "minItems"@[0]
        == 'm');
}

/// Every property that an object has stays, under its name and in its place, with its
/// schema normalized; and so do definitions.
pub proof fn law_properties_are_kept(o: Members, root: bool, k: Seq<char>, inner: Members, i: int)
    requires
        names_apart(JsonView::Object(o)),
        k == "$defs"@ || k == "definitions"@ || (k == "properties"@ && effective_type(o) == Some("object"@)),
        member(o, k) == Some(JsonView::Object(inner)),
        0 <= i < inner.len(),
    ensures
        ({
            let v = member(normal_node(JsonView::Object(o), root)->Object_0, k);
            let kept = v->0->Object_0;
            &&& v is Some && v->0 is Object && kept.len() == inner.len()
            &&& kept[i].0 == inner[i].0
            &&& kept[i].1 == normal_node(inner[i].1, false)
        }),
{
    lemma_structure_letters();
    lemma_kept_value(o, root, k);
}

/// The schema of the elements of a list is kept, normalized; so are the schemas of its
/// first elements, and below the root those that combinators put together.
pub proof fn law_element_schemas_are_kept(o: Members, root: bool, k: Seq<char>)
    requires
        names_apart(JsonView::Object(o)),
        ((k == "items"@ || k == "prefixItems"@) && effective_type(o) == Some("array"@)) || ((k == "anyOf"@ || k
            == "allOf"@) && !root),
        member(o, k) is Some,
        member(o, k)->0 is Array || (k == "items"@ && member(o, k)->0 is Object),
    ensures
        member(normal_node(JsonView::Object(o), root)->Object_0, k) == Some(normal_node(member(o, k)->0, false)),
{
    lemma_structure_letters();
    lemma_kept_value(o, root, k);
}

proof fn lemma_structure_letters()
    ensures
        forall|k: Seq<char>|
            #![trigger is_combinator(k)]
            (k == "properties"@ || k == "$defs"@ || k == "definitions"@ || k == "items"@ || k == "prefixItems"@ || k
                == "anyOf"@ || k == "allOf"@) ==> k != "format"@ && k != "minItems"@ && k != "additionalProperties"@ && k
                != "description"@,
        !is_combinator("properties"@) && !is_combinator("$defs"@) && !is_combinator("definitions"@) && !is_combinator(
            "items"@,
        ) && !is_combinator("prefixItems"@),
        "items"@ != "properties"@ && "items"@ != "$defs"@ && "items"@ != "definitions"@,
{
    reveal_strlit("anyOf");
    reveal_strlit("allOf");
    reveal_strlit("oneOf");
    reveal_strlit("format");
    reveal_strlit("minItems");
    reveal_strlit("additionalProperties");
    reveal_strlit("description");
    reveal_strlit("properties");
    reveal_strlit("$defs");
    reveal_strlit("definitions");
    reveal_strlit("items");
    reveal_strlit("prefixItems");
    assert("anyOf"@.len() == 5 && "allOf"@.len() == 5 && "oneOf"@.len() == 5 && "format"@.len() == 6 && "minItems"@.len()
        == 8 && "additionalProperties"@.len() == 20 && "description"@.len() == 11 && "properties"@.len() == 10
        && "$defs"@.len() == 5 && "definitions"@.len() == 11 && "items"@.len() == 5 && "prefixItems"@.len() == 11);
    assert("anyOf"@[0] == 'a' && "allOf"@[0] == 'a' && "oneOf"@[0] == 'o' && "$defs"@[0] == '$' && "items"@[0] == 'i');
    assert("description"@[2] == 's' && "definitions"@[2] == 'f' && "prefixItems"@[0] == 'p' && "description"@[0] == 'd');
}

/// A list of schemas is normalized one by one, in order.
pub proof fn law_schema_lists_are_normalized_in_order(a: Seq<JsonView>, root: bool, i: int)
    requires
        0 <= i < a.len(),
    ensures
        normal_node(JsonView::Array(a), root) is Array,
        normal_node(JsonView::Array(a), root)->Array_0.len() == a.len(),
        normal_node(JsonView::Array(a), root)->Array_0[i] == normal_node(a[i], false),
{
}

/// The type of a node is the one that it names, the first other than null of several;
/// without a name, what has properties is an object, and what has items a list.
pub proof fn law_type_of_a_node(o: Members, t: Seq<char>)
    ensures
        member(o, "type"@) == Some(JsonView::String(t)) ==> effective_type(o) == Some(t),
        member(o, "type"@) is None && member(o, "properties"@) is Some && member(o, "properties"@)->0 is Object
            ==> effective_type(o) == Some("object"@),
        member(o, "type"@) is None && !(member(o, "properties"@) is Some && member(o, "properties"@)->0 is Object)
            && member(o, "items"@) is Some ==> effective_type(o) == Some("array"@),
        t != "null"@ && member(o, "type"@) == Some(
            JsonView::Array(seq![JsonView::String(t), JsonView::String("null"@)]),
        ) ==> effective_type(o) == Some(t),
        t != "null"@ && member(o, "type"@) == Some(
            JsonView::Array(seq![JsonView::String("null"@), JsonView::String(t)]),
        ) ==> effective_type(o) == Some(t),
{
    let a = seq![JsonView::String("null"@), JsonView::String(t)];
    assert(a.subrange(1, 2) =~= seq![JsonView::String(t)]);
    reveal_with_fuel(first_type, 3);
}

/// A keyword that is demoted is told by its name and its value as JSON, behind what the
/// description said before.
pub proof fn law_description_is_kept_before_demoted(o: Members, sp: Members, k: Seq<char>, v: JsonView)
    requires
        sp.len() > 0,
    ensures
        spill_item((k, v)) == k + ": "@ + compact_json(v),
        sp.len() == 1 ==> spill_body(sp) == spill_item(sp[0]),
        spill_body(sp.push((k, v))) == spill_body(sp) + ", "@ + spill_item((k, v)),
        text_in(member(o, "description"@)) is Some && text_in(member(o, "description"@))->0.len() > 0 ==> member(
            described(o, sp),
            "description"@,
        ) == Some(
            JsonView::String(text_in(member(o, "description"@))->0 + "\n\n"@ + ("{"@ + spill_body(sp) + "}"@)),
        ),
        text_in(member(o, "description"@)) is None ==> member(described(o, sp), "description"@) == Some(
            JsonView::String("{"@ + spill_body(sp) + "}"@),
        ),
{
    assert(sp.push((k, v)).drop_last() =~= sp);
    let existing = match member(o, "description"@) {
        Some(JsonView::String(s)) => s,
        _ => Seq::empty(),
    };
    let formatted = "{"@ + spill_body(sp) + "}"@;
    let text = if existing.len() == 0 {
        formatted
    } else {
        existing + "\n\n"@ + formatted
    };
    law_member_after_set(o, "description"@, JsonView::String(text));
}

/// Where nothing is demoted, the description stays as it is, and so does its absence.
pub proof fn law_nothing_demoted_nothing_described(o: Members)
    ensures
        described(o, Seq::empty()) == o,
{
}

/// A format that is honoured stays; another is demoted. A list may be required to hold
/// one element, or none; any other least number is demoted.
pub proof fn law_formats_and_least_numbers(o: Members, sp: Members, f: Seq<char>, n: u64)
    ensures
        member(o, "format"@) == Some(JsonView::String(f)) && (f == "date-time"@ || f == "time"@ || f == "date"@ || f
            == "duration"@ || f == "email"@ || f == "hostname"@ || f == "uri"@ || f == "ipv4"@ || f == "ipv6"@ || f
            == "uuid"@) ==> format_pruned(Some("string"@), o, sp) == (o, sp),
        member(o, "format"@) == Some(JsonView::String(f)) && !(f == "date-time"@ || f == "time"@ || f == "date"@ || f
            == "duration"@ || f == "email"@ || f == "hostname"@ || f == "uri"@ || f == "ipv4"@ || f == "ipv6"@ || f
            == "uuid"@) ==> format_pruned(Some("string"@), o, sp) == (
            without_member(o, "format"@),
            sp.push(("format"@, JsonView::String(f))),
        ),
        member(o, "minItems"@) == Some(JsonView::Number(NumberView::PosInt(n))) && n <= 1 ==> min_items_pruned(
            Some("array"@),
            o,
            sp,
        ) == (o, sp),
        member(o, "minItems"@) == Some(JsonView::Number(NumberView::PosInt(n))) && n > 1 ==> min_items_pruned(
            Some("array"@),
            o,
            sp,
        ) == (
            without_member(o, "minItems"@),
            sp.push(("minItems"@, JsonView::Number(NumberView::PosInt(n)))),
        ),
{
}

/// Whether other properties are allowed stays as it was said: yes or no as it is, a
/// schema normalized, and a schema that says nothing as yes.
pub proof fn law_other_properties_as_said(v: JsonView)
    ensures
        v is Bool ==> normal_member("additionalProperties"@, v) == v,
        v is Object && normal_node(v, false) == JsonView::Object(Seq::empty()) ==> normal_member(
            "additionalProperties"@,
            v,
        ) == JsonView::Bool(true),
        v is Object && normal_node(v, false) != JsonView::Object(Seq::empty()) ==> normal_member(
            "additionalProperties"@,
            v,
        ) == normal_node(v, false),
{
    lemma_words();
    reveal_strlit("properties");
    reveal_strlit("$defs");
    reveal_strlit("definitions");
    reveal_strlit("items");
    reveal_strlit("additionalProperties");
    assert("additionalProperties"@.len() == 20 && "properties"@.len() == 10 && "$defs"@.len() == 5 && "definitions"@.len()
        == 11 && "items"@.len() == 5);
}

/// The keywords that a normalized node can have, by its type; no other is left.
pub proof fn law_no_other_keyword_is_left(o: Members, root: bool, i: int)
    requires
        0 <= i < normal_node(JsonView::Object(o), root)->Object_0.len(),
    ensures
        ({
            let k = normal_node(JsonView::Object(o), root)->Object_0[i].0;
            let t = effective_type(o);
            let anywhere = k == "$ref"@ || k == "$defs"@ || k == "$schema"@ || k == "definitions"@ || k == "type"@ || k
                == "enum"@ || k == "const"@ || k == "description"@ || k == "title"@ || k == "default"@ || k
                == "nullable"@;
            let combines = k == "anyOf"@ || k == "allOf"@;
            let of_object = k == "properties"@ || k == "required"@ || k == "additionalProperties"@;
            let of_list = k == "items"@ || k == "prefixItems"@ || k == "minItems"@;
            &&& anywhere || (combines && !root) || (of_object && t == Some("object"@)) || (of_list && t == Some(
                "array"@,
            )) || (k == "format"@ && t == Some("string"@))
        }),
{
    law_only_honoured_keywords(o, root);
    let n = normal_node(JsonView::Object(o), root)->Object_0;
    assert(keeps(effective_type(o), root, n[i].0));
}

/// A description stays: what is demoted comes behind it.
pub proof fn law_description_stays_in_front(o: Members, root: bool, d: Seq<char>)
    requires
        names_apart(JsonView::Object(o)),
        member(o, "description"@) == Some(JsonView::String(d)),
        d.len() > 0,
    ensures
        ({
            let now = text_in(member(normal_node(JsonView::Object(o), root)->Object_0, "description"@));
            now is Some && now->0.len() >= d.len() && now->0.subrange(0, d.len() as int) == d
        }),
{
    let scalar = effective_type(o);
    let told = "description"@;
    lemma_words();
    lemma_short_words();
    lemma_plain_description();
    let n = normal_members(o);
    lemma_normal_members(o, told);
    assert forall|i: int| 0 <= i < n.len() implies normal_member((#[trigger] n[i]).0, n[i].1) == n[i].1 by {
        assert(names_apart(o[i].1));
        lemma_member_settles(o[i].0, o[i].1);
    }
    lemma_filter_keeps(n, scalar, root);
    lemma_filter_member(n, scalar, root, told);
    let kept = n.filter(keep_filter(scalar, root));
    let spilled = o.filter(spill_filter(scalar, root));
    let (o1, s1) = format_pruned(scalar, kept, spilled);
    law_take_keeps_others(kept, "format"@, told);
    lemma_unset_settled(kept, "format"@);
    let (o2, s2) = min_items_pruned(scalar, o1, s1);
    law_take_keeps_others(o1, "minItems"@, told);
    let o3 = closed(scalar, o2);
    lemma_push_member(o2, ("additionalProperties"@, JsonView::Bool(false)), told);
    assert(member(o3, told) == Some(JsonView::String(d)));
    let formatted = "{"@ + spill_body(s2) + "}"@;
    let text = d + "\n\n"@ + formatted;
    law_member_after_set(o3, told, JsonView::String(text));
    assert(d.subrange(0, d.len() as int) =~= d);
    assert(text.subrange(0, d.len() as int) =~= d);
}

proof fn lemma_plain_description()
    ensures
        "description"@ != "properties"@ && "description"@ != "$defs"@ && "description"@ != "definitions"@ && "description"@
            != "items"@ && "description"@ != "prefixItems"@,
        keeps(None, true, "description"@),
{
    lemma_words();
    reveal_strlit("description");
    reveal_strlit("properties");
    reveal_strlit("$defs");
    reveal_strlit("definitions");
    reveal_strlit("items");
    reveal_strlit("prefixItems");
    assert("description"@.len() == 11 && "properties"@.len() == 10 && "$defs"@.len() == 5 && "definitions"@.len() == 11
        && "items"@.len() == 5 && "prefixItems"@.len() == 11);
    assert("description"@[2] == 's' && "definitions"@[2] == 'f' && "prefixItems"@[0] == 'p' && "description"@[0] == 'd');
}

} // verus!

//! Forgiving JSON recovery for tool-call arguments.
//!
//! A strict parse comes first. Where it fails, a relaxed reading accepts the
//! malformations that model output holds in practice: single-quoted strings and
//! unquoted keys, stray commas, comments, Python literals, raw control
//! characters and invalid escapes in strings, apostrophes inside single quotes,
//! and unquoted values. A truncated text is never completed: it is refused.
//!
//! The grammar is given below as functions from a text and a position to what
//! is read there and how many characters it takes.
use vstd::prelude::*;
use crate::json::{
    array_view, json_view, lemma_array_view, lemma_member_pos, lemma_object_view, members_view, parse_strict,
    set_member, strict_json, with_member, Json, JsonNumber, JsonView, Members, NumberView,
};
use crate::number::{
    digit_of, digit_value, digits_value, hex_padded, lemma_digit_char, lemma_hex_reads_back, pow16, read_digits,
    read_unsigned, unsigned_value,
};
use crate::text::{
    chars_of, decimal, decimal_text, digit_char, joined, matches_at, owned, rest_len, stands_at, text_of,
};

verus! {

/// Reading a code point that is no surrogate and no larger than the last one
/// gives its character; any other number gives none.
pub assume_specification[ char::from_u32 ](i: u32) -> (r: Option<char>)
    ensures
        match r {
            Some(c) => c as u32 == i,
            None => 0xD800 <= i <= 0xDFFF || i > 0x10FFFF,
        },
        (0xD800 <= i <= 0xDFFF || i > 0x10FFFF) ==> r is None,
;

/// What a part of the text reads as, with the number of characters it takes, or
/// what is wrong with it.
pub type Reading<T> = Result<(T, nat), Seq<char>>;

/// White space between tokens.
pub open spec fn is_gap(c: char) -> bool {
    c == ' ' || c == '\t' || c == '\n' || c == '\r'
}

pub open spec fn is_digit(c: char) -> bool {
    '0' <= c <= '9'
}

pub open spec fn is_ident(c: char) -> bool {
    is_digit(c) || 'a' <= c <= 'z' || 'A' <= c <= 'Z' || c == '_' || c == '$'
}

/// The integer that `s` writes in decimal, with an optional sign, where a 64-bit
/// integer holds it.
pub open spec fn integer_value(s: Seq<char>) -> Option<NumberView> {
    if s.len() > 0 && s[0] == '-' {
        let body = s.subrange(1, s.len() as int);
        match digits_value(body, 10) {
            Some(v) => if body.len() > 0 && v == 0 {
                Some(NumberView::PosInt(0))
            } else if body.len() > 0 && v <= 0x8000_0000_0000_0000 {
                Some(NumberView::NegInt((-v) as i64))
            } else {
                None
            },
            None => None,
        }
    } else {
        match unsigned_value(s, 10) {
            Some(v) => Some(NumberView::PosInt(v)),
            None => None,
        }
    }
}

/// The text of the finite number that a token writes, where it writes one.
pub uninterp spec fn float_literal(token: Seq<char>) -> Option<Seq<char>>;

/// A number token as it is in JavaScript: a hexadecimal integer, an integer, or
/// a finite fraction.
pub open spec fn number_value(token: Seq<char>) -> Option<NumberView> {
    if stands_at(token, 0, "0x"@) || stands_at(token, 0, "0X"@) {
        match unsigned_value(token.subrange(2, token.len() as int), 16) {
            Some(v) => Some(NumberView::PosInt(v)),
            None => None,
        }
    } else if integer_value(token) is Some {
        integer_value(token)
    } else {
        match float_literal(token) {
            Some(t) => Some(NumberView::Float(t)),
            None => None,
        }
    }
}

/// How many characters from `i` on satisfy `f` without a break.
pub open spec fn run_len(s: Seq<char>, i: int, f: spec_fn(char) -> bool) -> nat
    decreases s.len() - i,
{
    if 0 <= i < s.len() && f(s[i]) {
        1 + run_len(s, i + 1, f)
    } else {
        0
    }
}

/// How many characters of a block comment's body stand from `i` on.
pub open spec fn block_len(s: Seq<char>, i: int) -> nat
    decreases s.len() - i,
{
    if 0 <= i && i + 1 < s.len() && !(s[i] == '*' && s[i + 1] == '/') {
        1 + block_len(s, i + 1)
    } else {
        0
    }
}

/// How many characters of white space and comments stand at `i`.
pub open spec fn gap_len(s: Seq<char>, i: int) -> nat
    decreases rest_len(s, i),
{
    let w = run_len(s, i, |c: char| is_gap(c));
    let j = i + w;
    if 0 <= i && j + 1 < s.len() && s[j] == '/' && s[j + 1] == '/' {
        let l = w + 2 + run_len(s, j + 2, |c: char| c != '\n');
        l + gap_len(s, i + l)
    } else if 0 <= i && j + 1 < s.len() && s[j] == '/' && s[j + 1] == '*' {
        let e = j + 2 + block_len(s, j + 2) + 2;
        let l = if e <= s.len() {
            (e - i) as nat
        } else {
            (s.len() - i) as nat
        };
        l + gap_len(s, i + l)
    } else {
        w
    }
}

/// The position after white space and comments.
pub open spec fn past_gap(s: Seq<char>, i: int) -> int {
    i + gap_len(s, i)
}

/// A quote closes a single-quoted string only where a value could end behind it.
pub open spec fn closes_at(s: Seq<char>, i: int) -> bool {
    let k = i + run_len(s, i, |c: char| is_gap(c));
    k >= s.len() || s[k] == ',' || s[k] == '}' || s[k] == ']' || s[k] == ':'
}

/// The character of the four hexadecimal digits at `i`, where they name one.
pub open spec fn hex4_at(s: Seq<char>, i: int) -> Option<char> {
    if i + 4 > s.len() {
        None
    } else {
        match digits_value(s.subrange(i, i + 4), 16) {
            Some(v) => if 0xD800 <= v <= 0xDFFF || v > 0x10FFFF {
                None
            } else {
                Some((v as u32) as char)
            },
            None => None,
        }
    }
}

/// What a backslash and `e` stand for; an unknown escape is kept as written.
pub open spec fn escape_text(e: char) -> Seq<char> {
    if e == '"' || e == '\'' || e == '\\' || e == '/' {
        seq![e]
    } else if e == 'b' {
        seq!['\u{8}']
    } else if e == 'f' {
        seq!['\u{c}']
    } else if e == 'n' {
        seq!['\n']
    } else if e == 'r' {
        seq!['\r']
    } else if e == 't' {
        seq!['\t']
    } else {
        seq!['\\', e]
    }
}

pub open spec fn prepended(out: Seq<char>, taken: nat, r: Reading<Seq<char>>) -> Reading<Seq<char>> {
    match r {
        Ok((t, l)) => Ok((out + t, taken + l)),
        Err(e) => Err(e),
    }
}

/// The rest of a string from `i` up to its closing quote.
pub open spec fn string_from(s: Seq<char>, i: int, quote: char) -> Reading<Seq<char>>
    decreases s.len() - i,
{
    if i < 0 || i >= s.len() {
        Err("Unterminated string"@)
    } else if s[i] == quote && (quote != '\'' || closes_at(s, i + 1)) {
        Ok((Seq::empty(), 1))
    } else if s[i] != '\\' {
        prepended(seq![s[i]], 1, string_from(s, i + 1, quote))
    } else if i + 1 >= s.len() {
        Err("Unterminated string"@)
    } else if s[i + 1] == 'u' {
        match hex4_at(s, i + 2) {
            Some(c) => prepended(seq![c], 6, string_from(s, i + 6, quote)),
            None => prepended(seq!['\\', 'u'], 2, string_from(s, i + 2, quote)),
        }
    } else {
        prepended(escape_text(s[i + 1]), 2, string_from(s, i + 2, quote))
    }
}

/// The string whose opening quote stands at `i`.
pub open spec fn string_at(s: Seq<char>, i: int) -> Reading<Seq<char>> {
    prepended(Seq::empty(), 1, string_from(s, i + 1, s[i]))
}

pub open spec fn is_number_char(c: char) -> bool {
    digit_value(c, 16) is Some || c == '-' || c == '+' || c == '.' || c == 'x' || c == 'X'
}

pub open spec fn number_at(s: Seq<char>, i: int) -> Reading<JsonView> {
    let l = run_len(s, i, |c: char| is_number_char(c));
    let token = s.subrange(i, i + l);
    match number_value(token) {
        Some(n) => Ok((JsonView::Number(n), l)),
        None => Err("Invalid number: "@ + token),
    }
}

/// Whether the word stands at `i` and no identifier goes on behind it.
pub open spec fn word_at(s: Seq<char>, i: int, word: Seq<char>) -> bool {
    stands_at(s, i, word) && !(i + word.len() < s.len() && is_ident(s[i + word.len()]))
}

pub open spec fn keyword_at(s: Seq<char>, i: int) -> Option<(JsonView, nat)> {
    if word_at(s, i, "true"@) || word_at(s, i, "True"@) {
        Some((JsonView::Bool(true), 4))
    } else if word_at(s, i, "false"@) || word_at(s, i, "False"@) {
        Some((JsonView::Bool(false), 5))
    } else if word_at(s, i, "null"@) || word_at(s, i, "None"@) {
        Some((JsonView::Null, 4))
    } else {
        None
    }
}

pub open spec fn ends_bareword(c: char) -> bool {
    c == ',' || c == '}' || c == ']' || c == '\n' || c == '\r'
}

/// Whether the character at `i` cannot stand in an unquoted value.
pub open spec fn breaks_bareword(s: Seq<char>, i: int) -> bool {
    let c = s[i];
    let field_colon = c == ':' && !(i + 1 < s.len() && (s[i + 1] == '/' || s[i + 1] == '\\'));
    c == '"' || c == '{' || c == '[' || field_colon
}

/// How many characters an unquoted value takes; none where it is cut short or
/// holds what it may not.
pub open spec fn bareword_len(s: Seq<char>, i: int) -> Option<nat>
    decreases s.len() - i,
{
    if i < 0 || i >= s.len() {
        None
    } else if ends_bareword(s[i]) {
        Some(0)
    } else if breaks_bareword(s, i) {
        None
    } else {
        match bareword_len(s, i + 1) {
            Some(l) => Some(1 + l),
            None => None,
        }
    }
}

/// `s` without the gap characters at its end.
pub open spec fn without_end_gap(s: Seq<char>) -> Seq<char>
    decreases s.len(),
{
    if s.len() > 0 && is_gap(s.last()) {
        without_end_gap(s.drop_last())
    } else {
        s
    }
}

/// The names of values that JSON cannot hold: no string is read from them.
pub open spec fn is_non_value(word: Seq<char>) -> bool {
    word == "NaN"@ || word == "Infinity"@ || word == "-Infinity"@ || word == "+Infinity"@ || word
        == "undefined"@
}

pub open spec fn unexpected_at(i: int) -> Seq<char> {
    "Unexpected token at position "@ + decimal(i as nat)
}

pub open spec fn bareword_at(s: Seq<char>, i: int) -> Reading<JsonView> {
    match bareword_len(s, i) {
        Some(l) => {
            let word = without_end_gap(s.subrange(i, i + l));
            if is_non_value(word) {
                Err(unexpected_at(i))
            } else {
                Ok((JsonView::String(word), l))
            }
        },
        None => Err(unexpected_at(i)),
    }
}

/// A key: a string, or what stands before a delimiter.
pub open spec fn key_at(s: Seq<char>, i: int) -> Reading<Seq<char>> {
    if s[i] == '"' || s[i] == '\'' {
        string_at(s, i)
    } else {
        let l = run_len(s, i, |c: char| !(c == ':' || c == ',' || c == '}' || is_gap(c)));
        if l == 0 {
            Err("Expected object key"@)
        } else {
            Ok((s.subrange(i, i + l), l))
        }
    }
}

pub open spec fn lengthened<T>(l: int, r: Reading<T>) -> Reading<T> {
    match r {
        Ok((v, m)) => Ok((v, (l + m) as nat)),
        Err(e) => Err(e),
    }
}

/// The value at `i`. Only a member or an element may be unquoted.
pub open spec fn value_at(s: Seq<char>, i: int, bare: bool) -> Reading<JsonView>
    decreases s.len() - i, 0int,
{
    if i < 0 || i >= s.len() {
        Err(Seq::empty())
    } else {
        let c = s[i];
        if c == '{' {
            match members_from(s, i + 1, Seq::empty()) {
                Ok((o, l)) => Ok((JsonView::Object(o), 1 + l)),
                Err(e) => Err(e),
            }
        } else if c == '[' {
            match elements_from(s, i + 1, Seq::empty()) {
                Ok((a, l)) => Ok((JsonView::Array(a), 1 + l)),
                Err(e) => Err(e),
            }
        } else if c == '"' || c == '\'' {
            match string_at(s, i) {
                Ok((t, l)) => Ok((JsonView::String(t), l)),
                Err(e) => Err(e),
            }
        } else if c == '-' || c == '+' || c == '.' || is_digit(c) {
            number_at(s, i)
        } else {
            match keyword_at(s, i) {
                Some(r) => Ok(r),
                None => if bare {
                    bareword_at(s, i)
                } else {
                    Err(unexpected_at(i))
                },
            }
        }
    }
}

/// The member at `i`: a key, a colon and a value.
pub open spec fn member_at(s: Seq<char>, i: int) -> Reading<(Seq<char>, JsonView)>
    decreases s.len() - i, 0int,
{
    if i < 0 || i >= s.len() {
        Err(Seq::empty())
    } else {
        match key_at(s, i) {
            Err(e) => Err(e),
            Ok((key, kl)) => {
                let c = past_gap(s, i + kl);
                if !(c < s.len() && s[c] == ':') {
                    Err("Expected ':' in object"@)
                } else {
                    let v = past_gap(s, c + 1);
                    if v >= s.len() {
                        Err("Expected value after ':'"@)
                    } else {
                        match value_at(s, v, true) {
                            Err(e) => Err(e),
                            Ok((value, vl)) => Ok(((key, value), (v + vl - i) as nat)),
                        }
                    }
                }
            },
        }
    }
}

/// The members from `i` up to the closing brace, after those in `acc`. Stray
/// commas are passed over; a repeated key keeps its place and takes the later
/// value.
pub open spec fn members_from(s: Seq<char>, i: int, acc: Members) -> Reading<Members>
    decreases s.len() - i, 1int,
{
    let j = past_gap(s, i);
    if i < 0 || j >= s.len() {
        Err("Unterminated object"@)
    } else if s[j] == '}' {
        Ok((acc, (j + 1 - i) as nat))
    } else if s[j] == ',' {
        lengthened(j + 1 - i, members_from(s, j + 1, acc))
    } else {
        match member_at(s, j) {
            Err(e) => Err(e),
            Ok(((key, value), ml)) => {
                let d = past_gap(s, j + ml);
                let now = with_member(acc, key, value);
                if d < s.len() && s[d] == ',' {
                    lengthened(d + 1 - i, members_from(s, d + 1, now))
                } else if d < s.len() && s[d] == '}' {
                    Ok((now, (d + 1 - i) as nat))
                } else {
                    Err("Expected ',' or '}' in object"@)
                }
            },
        }
    }
}

/// The elements from `i` up to the closing bracket, after those in `acc`.
pub open spec fn elements_from(s: Seq<char>, i: int, acc: Seq<JsonView>) -> Reading<Seq<JsonView>>
    decreases s.len() - i, 1int,
{
    let j = past_gap(s, i);
    if i < 0 || j >= s.len() {
        Err("Unterminated array"@)
    } else if s[j] == ']' {
        Ok((acc, (j + 1 - i) as nat))
    } else if s[j] == ',' {
        lengthened(j + 1 - i, elements_from(s, j + 1, acc))
    } else {
        match value_at(s, j, true) {
            Err(e) => Err(e),
            Ok((value, vl)) => {
                let d = past_gap(s, j + vl);
                let now = acc.push(value);
                if d < s.len() && s[d] == ',' {
                    lengthened(d + 1 - i, elements_from(s, d + 1, now))
                } else if d < s.len() && s[d] == ']' {
                    Ok((now, (d + 1 - i) as nat))
                } else {
                    Err("Expected ',' or ']' in array"@)
                }
            },
        }
    }
}

/// The relaxed reading of a whole text.
pub open spec fn relaxed_json(s: Seq<char>) -> Result<JsonView, Seq<char>> {
    let i = past_gap(s, 0);
    if i >= s.len() {
        Err("Unexpected end of JSON input"@)
    } else {
        match value_at(s, i, false) {
            Err(e) => Err(e),
            Ok((v, l)) => {
                let j = past_gap(s, i + l);
                if j < s.len() {
                    Err("Unexpected trailing characters at position "@ + decimal(j as nat))
                } else {
                    Ok(v)
                }
            },
        }
    }
}

/// The strict reading where there is one, else the relaxed one.
pub open spec fn repaired_json(s: Seq<char>) -> Result<JsonView, Seq<char>> {
    match strict_json(s) {
        Some(v) => Ok(v),
        None => relaxed_json(s),
    }
}

/// `r` is the reading `want` of what stands at `at`.
pub open spec fn reads_json(r: Result<(Json, usize), String>, at: int, n: int, want: Reading<JsonView>) -> bool {
    match (r, want) {
        (Ok((v, p)), Ok((w, l))) => json_view(v) == w && p == at + l && p <= n,
        (Err(e), Err(w)) => e@ == w,
        _ => false,
    }
}

pub open spec fn reads_text(r: Result<(String, usize), String>, at: int, n: int, want: Reading<Seq<char>>) -> bool {
    match (r, want) {
        (Ok((v, p)), Ok((w, l))) => v@ == w && p == at + l && p <= n,
        (Err(e), Err(w)) => e@ == w,
        _ => false,
    }
}

proof fn lemma_run_bound(s: Seq<char>, i: int, f: spec_fn(char) -> bool)
    requires
        0 <= i <= s.len(),
    ensures
        i + run_len(s, i, f) <= s.len(),
    decreases s.len() - i,
{
    if i < s.len() && f(s[i]) {
        lemma_run_bound(s, i + 1, f);
    }
}

proof fn lemma_block_bound(s: Seq<char>, i: int)
    requires
        0 <= i <= s.len(),
    ensures
        i + block_len(s, i) <= s.len(),
    decreases s.len() - i,
{
    if i + 1 < s.len() && !(s[i] == '*' && s[i + 1] == '/') {
        lemma_block_bound(s, i + 1);
    }
}

proof fn lemma_prepended(out: Seq<char>, taken: nat, more: Seq<char>, l: nat, r: Reading<Seq<char>>)
    ensures
        prepended(out, taken, prepended(more, l, r)) == prepended(out + more, taken + l, r),
{
    if let Ok((t, m)) = r {
        assert(out + (more + t) =~= (out + more) + t);
    }
}

fn is_whitespace(ch: char) -> (r: bool)
    ensures
        r == is_gap(ch),
{
    ch == ' ' || ch == '\t' || ch == '\n' || ch == '\r'
}

fn is_ident_char(ch: char) -> (r: bool)
    ensures
        r == is_ident(ch),
{
    ('0' <= ch && ch <= '9') || ('a' <= ch && ch <= 'z') || ('A' <= ch && ch <= 'Z') || ch == '_' || ch == '$'
}

fn read_integer(v: &Vec<char>) -> (r: Option<JsonNumber>)
    ensures
        match r {
            Some(n) => integer_value(v@) == Some(n.deep_view()),
            None => integer_value(v@) is None,
        },
{
    assert(v@.subrange(0, v.len() as int) =~= v@);
    if v.len() > 0 && v[0] == '-' {
        if v.len() == 1 {
            return None;
        }
        match read_digits(v, 1, v.len(), 10) {
            Some(n) => {
                if n == 0 {
                    Some(JsonNumber::PosInt(0))
                } else if n < 0x8000_0000_0000_0000 {
                    Some(JsonNumber::NegInt(-(n as i64)))
                } else if n == 0x8000_0000_0000_0000 {
                    Some(JsonNumber::NegInt(i64::MIN))
                } else {
                    None
                }
            },
            None => None,
        }
    } else {
        match read_unsigned(v, 0, 10) {
            Some(n) => Some(JsonNumber::PosInt(n)),
            None => None,
        }
    }
}

/// `str::parse` into a double, then `serde_json::Number::from_f64`, which holds
/// the finite ones: the text that the number is written with. The contract gives
/// the result a name.
#[verifier::external_body]
fn read_float(token: &str) -> (r: Option<String>)
    ensures
        match r {
            Some(t) => float_literal(token@) == Some(t@),
            None => float_literal(token@) is None,
        },
{
    token.parse().ok().and_then(serde_json::Number::from_f64).map(|n| n.to_string())
}

/// A number token with the meaning it has in JavaScript.
pub fn js_number(token: &str) -> (r: Option<JsonNumber>)
    ensures
        match r {
            Some(n) => number_value(token@) == Some(n.deep_view()),
            None => number_value(token@) is None,
        },
{
    let v = chars_of(token);
    proof {
        reveal_strlit("0x");
        reveal_strlit("0X");
    }
    assert("0x"@ =~= seq!['0', 'x']);
    assert("0X"@ =~= seq!['0', 'X']);
    if v.len() >= 2 && v[0] == '0' && (v[1] == 'x' || v[1] == 'X') {
        proof {
            assert(v@.subrange(0, 2) =~= seq!['0', v@[1]]);
        }
        return match read_unsigned(&v, 2, 16) {
            Some(n) => Some(JsonNumber::PosInt(n)),
            None => None,
        };
    }
    proof {
        if v.len() >= 2 {
            assert(v@.subrange(0, 2)[0] == v@[0]);
            assert(v@.subrange(0, 2)[1] == v@[1]);
        }
    }
    match read_integer(&v) {
        Some(n) => Some(n),
        None => match read_float(token) {
            Some(t) => Some(JsonNumber::Float(t)),
            None => None,
        },
    }
}

/// A relaxed reader over the characters of a text.
struct RelaxedJson {
    chars: Vec<char>,
}

impl RelaxedJson {
    fn new(source: &str) -> (r: Self)
        ensures
            r.chars@ == source@,
    {
        RelaxedJson { chars: chars_of(source) }
    }

    fn parse(&self) -> (r: Result<Json, String>)
        ensures
            match (r, relaxed_json(self.chars@)) {
                (Ok(v), Ok(w)) => json_view(v) == w,
                (Err(e), Err(w)) => e@ == w,
                _ => false,
            },
    {
        let i = self.skip_ws(0);
        if i >= self.chars.len() {
            return Err(owned("Unexpected end of JSON input"));
        }
        match self.value(i, false) {
            Err(e) => Err(e),
            Ok((v, p)) => {
                let j = self.skip_ws(p);
                if j < self.chars.len() {
                    let at = decimal_text(j as u64);
                    Err(joined("Unexpected trailing characters at position ", at.as_str()))
                } else {
                    Ok(v)
                }
            },
        }
    }

    /// The position after white space and comments.
    fn skip_ws(&self, at: usize) -> (r: usize)
        requires
            at <= self.chars.len(),
        ensures
            r == past_gap(self.chars@, at as int),
            at <= r <= self.chars.len(),
    {
        let n = self.chars.len();
        let mut i: usize = at;
        loop
            invariant
                n == self.chars.len(),
                at <= i <= n,
                past_gap(self.chars@, at as int) == past_gap(self.chars@, i as int),
            ensures
                at <= i <= n,
                i == past_gap(self.chars@, at as int),
            decreases n - i,
        {
            let ghost s = self.chars@;
            let ghost start = i as int;
            let ghost f = |c: char| is_gap(c);
            let ghost g = |c: char| c != '\n';
            while i < n && is_whitespace(self.chars[i])
                invariant
                    n == self.chars.len(),
                    s == self.chars@,
                    f == (|c: char| is_gap(c)),
                    start <= i <= n,
                    run_len(s, start, f) == i - start + run_len(s, i as int, f),
                decreases n - i,
            {
                i = i + 1;
            }
            assert(run_len(s, start, f) == i - start);
            if i < n && n - i > 1 && self.chars[i] == '/' {
                let next = self.chars[i + 1];
                if next == '/' {
                    i = i + 2;
                    let ghost body = i as int;
                    while i < n && self.chars[i] != '\n'
                        invariant
                            n == self.chars.len(),
                            s == self.chars@,
                            g == (|c: char| c != '\n'),
                            body <= i <= n,
                            run_len(s, body, g) == i - body + run_len(s, i as int, g),
                        decreases n - i,
                    {
                        i = i + 1;
                    }
                    assert(run_len(s, body, g) == i - body);
                    continue;
                }
                if next == '*' {
                    i = i + 2;
                    let ghost body = i as int;
                    while i < n && n - i > 1 && !(self.chars[i] == '*' && self.chars[i + 1] == '/')
                        invariant
                            n == self.chars.len(),
                            s == self.chars@,
                            body <= i <= n,
                            block_len(s, body) == i - body + block_len(s, i as int),
                        decreases n - i,
                    {
                        i = i + 1;
                    }
                    assert(block_len(s, body) == i - body);
                    i = if n - i >= 2 {
                        i + 2
                    } else {
                        n
                    };
                    continue;
                }
            }
            break;
        }
        i
    }

    fn value(&self, at: usize, allow_bareword: bool) -> (r: Result<(Json, usize), String>)
        requires
            at < self.chars.len(),
        ensures
            reads_json(r, at as int, self.chars.len() as int, value_at(self.chars@, at as int, allow_bareword)),
        decreases self.chars.len() - at, 1int,
    {
        let c = self.chars[at];
        if c == '{' {
            self.object(at)
        } else if c == '[' {
            self.array(at)
        } else if c == '"' || c == '\'' {
            match self.string(at) {
                Ok((t, p)) => Ok((Json::String(t), p)),
                Err(e) => Err(e),
            }
        } else if c == '-' || c == '+' || c == '.' || ('0' <= c && c <= '9') {
            self.number(at)
        } else {
            self.keyword(at, allow_bareword)
        }
    }

    fn object(&self, at: usize) -> (r: Result<(Json, usize), String>)
        requires
            at < self.chars.len(),
            self.chars@[at as int] == '{',
        ensures
            reads_json(r, at as int, self.chars.len() as int, value_at(self.chars@, at as int, true)),
            reads_json(r, at as int, self.chars.len() as int, value_at(self.chars@, at as int, false)),
        decreases self.chars.len() - at, 0int,
    {
        let mut i: usize = at + 1;
        let mut out: Vec<(String, Json)> = Vec::new();
        let ghost s = self.chars@;
        assert(members_view(out@) =~= Seq::empty());
        loop
            invariant
                s == self.chars@,
                at < i <= self.chars.len(),
                members_from(s, at + 1, Seq::empty()) == lengthened(
                    i - (at + 1),
                    members_from(s, i as int, members_view(out@)),
                ),
                s[at as int] == '{',
            decreases self.chars.len() - i,
        {
            let j = self.skip_ws(i);
            if j >= self.chars.len() {
                return Err(owned("Unterminated object"));
            }
            let c = self.chars[j];
            if c == '}' {
                proof {
                    lemma_object_view(out);
                }
                return Ok((Json::Object(out), j + 1));
            }
            if c == ',' {
                i = j + 1;
                continue;
            }
            match self.member(j) {
                Err(e) => {
                    return Err(e);
                },
                Ok((key, value, p)) => {
                    set_member(&mut out, key.as_str(), value);
                    let d = self.skip_ws(p);
                    if d < self.chars.len() && self.chars[d] == ',' {
                        i = d + 1;
                        continue;
                    }
                    if d < self.chars.len() && self.chars[d] == '}' {
                        proof {
                            lemma_object_view(out);
                        }
                        return Ok((Json::Object(out), d + 1));
                    }
                    return Err(owned("Expected ',' or '}' in object"));
                },
            }
        }
    }

    fn member(&self, at: usize) -> (r: Result<(String, Json, usize), String>)
        requires
            at < self.chars.len(),
        ensures
            match (r, member_at(self.chars@, at as int)) {
                (Ok((k, v, p)), Ok(((wk, wv), l))) => k@ == wk && json_view(v) == wv && p == at + l && p
                    <= self.chars.len(),
                (Err(e), Err(w)) => e@ == w,
                _ => false,
            },
        decreases self.chars.len() - at, 0int,
    {
        match self.key(at) {
            Err(e) => Err(e),
            Ok((key, kp)) => {
                let colon = self.skip_ws(kp);
                if !(colon < self.chars.len() && self.chars[colon] == ':') {
                    return Err(owned("Expected ':' in object"));
                }
                let vp = self.skip_ws(colon + 1);
                if vp >= self.chars.len() {
                    return Err(owned("Expected value after ':'"));
                }
                match self.value(vp, true) {
                    Err(e) => Err(e),
                    Ok((value, p)) => Ok((key, value, p)),
                }
            },
        }
    }

    fn array(&self, at: usize) -> (r: Result<(Json, usize), String>)
        requires
            at < self.chars.len(),
            self.chars@[at as int] == '[',
        ensures
            reads_json(r, at as int, self.chars.len() as int, value_at(self.chars@, at as int, true)),
            reads_json(r, at as int, self.chars.len() as int, value_at(self.chars@, at as int, false)),
        decreases self.chars.len() - at, 0int,
    {
        let mut i: usize = at + 1;
        let mut out: Vec<Json> = Vec::new();
        let ghost s = self.chars@;
        assert(array_view(out@) =~= Seq::empty());
        loop
            invariant
                s == self.chars@,
                at < i <= self.chars.len(),
                elements_from(s, at + 1, Seq::empty()) == lengthened(
                    i - (at + 1),
                    elements_from(s, i as int, array_view(out@)),
                ),
                s[at as int] == '[',
            decreases self.chars.len() - i,
        {
            let j = self.skip_ws(i);
            if j >= self.chars.len() {
                return Err(owned("Unterminated array"));
            }
            let c = self.chars[j];
            if c == ']' {
                proof {
                    lemma_array_view(out);
                }
                return Ok((Json::Array(out), j + 1));
            }
            if c == ',' {
                i = j + 1;
                continue;
            }
            match self.value(j, true) {
                Err(e) => {
                    return Err(e);
                },
                Ok((value, p)) => {
                    let ghost before = array_view(out@);
                    let ghost v = json_view(value);
                    out.push(value);
                    assert(array_view(out@) =~= before.push(v));
                    let d = self.skip_ws(p);
                    if d < self.chars.len() && self.chars[d] == ',' {
                        i = d + 1;
                        continue;
                    }
                    if d < self.chars.len() && self.chars[d] == ']' {
                        proof {
                            lemma_array_view(out);
                        }
                        return Ok((Json::Array(out), d + 1));
                    }
                    return Err(owned("Expected ',' or ']' in array"));
                },
            }
        }
    }

    fn key(&self, at: usize) -> (r: Result<(String, usize), String>)
        requires
            at < self.chars.len(),
        ensures
            reads_text(r, at as int, self.chars.len() as int, key_at(self.chars@, at as int)),
    {
        let c = self.chars[at];
        if c == '"' || c == '\'' {
            return self.string(at);
        }
        let ghost s = self.chars@;
        let ghost f = |c: char| !(c == ':' || c == ',' || c == '}' || is_gap(c));
        let mut i: usize = at;
        while i < self.chars.len() && !(self.chars[i] == ':' || self.chars[i] == ',' || self.chars[i] == '}'
            || is_whitespace(self.chars[i]))
            invariant
                s == self.chars@,
                f == (|c: char| !(c == ':' || c == ',' || c == '}' || is_gap(c))),
                at <= i <= self.chars.len(),
                run_len(s, at as int, f) == i - at + run_len(s, i as int, f),
            decreases self.chars.len() - i,
        {
            i = i + 1;
        }
        assert(run_len(s, at as int, f) == i - at);
        if i == at {
            return Err(owned("Expected object key"));
        }
        Ok((text_of(&self.chars, at, i), i))
    }

    #[verifier::rlimit(60)]
    fn string(&self, at: usize) -> (r: Result<(String, usize), String>)
        requires
            at < self.chars.len(),
            self.chars@[at as int] == '"' || self.chars@[at as int] == '\'',
        ensures
            reads_text(r, at as int, self.chars.len() as int, string_at(self.chars@, at as int)),
    {
        let quote = self.chars[at];
        let n = self.chars.len();
        let mut i: usize = at + 1;
        let mut out = String::new();
        let ghost s = self.chars@;
        proof {
            let r = string_from(s, i as int, quote);
            if let Ok((t, l)) = r {
                assert(Seq::<char>::empty() + t =~= t);
            }
        }
        while i < n
            invariant
                n == self.chars.len(),
                s == self.chars@,
                at < i <= n,
                quote == s[at as int],
                quote == '"' || quote == '\'',
                string_at(s, at as int) == prepended(out@, (i - at) as nat, string_from(s, i as int, quote)),
            decreases n - i,
        {
            let cc = self.chars[i];
            let ghost before = out@;
            let ghost from = i as int;
            if cc != '\\' && cc != quote {
                out.push(cc);
                i = i + 1;
                proof {
                    lemma_prepended(before, (from - at) as nat, seq![cc], 1, string_from(s, i as int, quote));
                    assert(before + seq![cc] =~= out@);
                }
                continue;
            }
            if cc == quote {
                let lenient = quote == '\'';
                if !lenient || self.closes_string(i + 1) {
                    assert(out@ + Seq::<char>::empty() =~= out@);
                    return Ok((out, i + 1));
                }
                out.push(cc);
                i = i + 1;
                proof {
                    lemma_prepended(before, (from - at) as nat, seq![cc], 1, string_from(s, i as int, quote));
                    assert(before + seq![cc] =~= out@);
                }
                continue;
            }
            i = i + 1;
            if i >= n {
                return Err(owned("Unterminated string"));
            }
            let esc = self.chars[i];
            if esc == 'u' {
                match self.read_hex4(i + 1) {
                    Some(ch) => {
                        out.push(ch);
                        i = i + 5;
                        proof {
                            lemma_prepended(before, (from - at) as nat, seq![ch], 6, string_from(s, i as int, quote));
                            assert(before + seq![ch] =~= out@);
                        }
                    },
                    None => {
                        out.push('\\');
                        out.push('u');
                        i = i + 1;
                        proof {
                            lemma_prepended(before, (from - at) as nat, seq!['\\', 'u'], 2, string_from(s, i as int, quote));
                            assert(before + seq!['\\', 'u'] =~= out@);
                        }
                    },
                }
            } else {
                if esc == '"' || esc == '\'' || esc == '\\' || esc == '/' {
                    out.push(esc);
                } else if esc == 'b' {
                    out.push('\u{8}');
                } else if esc == 'f' {
                    out.push('\u{c}');
                } else if esc == 'n' {
                    out.push('\n');
                } else if esc == 'r' {
                    out.push('\r');
                } else if esc == 't' {
                    out.push('\t');
                } else {
                    out.push('\\');
                    out.push(esc);
                }
                i = i + 1;
                proof {
                    lemma_prepended(before, (from - at) as nat, escape_text(esc), 2, string_from(s, i as int, quote));
                    assert(before + escape_text(esc) =~= out@);
                }
            }
        }
        Err(owned("Unterminated string"))
    }

    /// The character of the four hexadecimal digits at `start`.
    fn read_hex4(&self, start: usize) -> (r: Option<char>)
        requires
            start <= self.chars.len(),
        ensures
            r == hex4_at(self.chars@, start as int),
            r is Some ==> start + 4 <= self.chars.len(),
    {
        if self.chars.len() - start < 4 {
            return None;
        }
        let ghost s = self.chars@.subrange(start as int, start + 4);
        match read_digits(&self.chars, start, start + 4, 16) {
            Some(v) => {
                proof {
                    lemma_hex4_bound(s);
                }
                let c = char::from_u32(v as u32);
                proof {
                    if c is Some {
                        vstd::utf8::char_u32_cast(c->0, v as u32);
                    }
                }
                c
            },
            None => {
                proof {
                    if digits_value(s, 16) is Some {
                        lemma_hex4_bound(s);
                    }
                }
                None
            },
        }
    }

    /// Whether a quote before `from` closes a single-quoted string.
    fn closes_string(&self, from: usize) -> (r: bool)
        requires
            from <= self.chars.len(),
        ensures
            r == closes_at(self.chars@, from as int),
    {
        let ghost s = self.chars@;
        let ghost f = |c: char| is_gap(c);
        let mut k: usize = from;
        while k < self.chars.len() && is_whitespace(self.chars[k])
            invariant
                s == self.chars@,
                f == (|c: char| is_gap(c)),
                from <= k <= self.chars.len(),
                run_len(s, from as int, f) == k - from + run_len(s, k as int, f),
            decreases self.chars.len() - k,
        {
            k = k + 1;
        }
        assert(run_len(s, from as int, f) == k - from);
        if k >= self.chars.len() {
            return true;
        }
        let c = self.chars[k];
        c == ',' || c == '}' || c == ']' || c == ':'
    }

    fn number(&self, at: usize) -> (r: Result<(Json, usize), String>)
        requires
            at < self.chars.len(),
        ensures
            reads_json(r, at as int, self.chars.len() as int, number_at(self.chars@, at as int)),
    {
        let ghost s = self.chars@;
        let ghost f = |c: char| is_number_char(c);
        let mut i: usize = at;
        while i < self.chars.len() && (digit_of(self.chars[i], 16).is_some() || self.chars[i] == '-' || self.chars[i]
            == '+' || self.chars[i] == '.' || self.chars[i] == 'x' || self.chars[i] == 'X')
            invariant
                s == self.chars@,
                f == (|c: char| is_number_char(c)),
                at <= i <= self.chars.len(),
                run_len(s, at as int, f) == i - at + run_len(s, i as int, f),
            decreases self.chars.len() - i,
        {
            i = i + 1;
        }
        assert(run_len(s, at as int, f) == i - at);
        let token = text_of(&self.chars, at, i);
        match js_number(token.as_str()) {
            Some(n) => Ok((Json::Number(n), i)),
            None => Err(joined("Invalid number: ", token.as_str())),
        }
    }

    /// Whether the word stands at `at` with no identifier going on behind it.
    fn word(&self, at: usize, word: &str) -> (r: bool)
        requires
            at < self.chars.len(),
        ensures
            r == word_at(self.chars@, at as int, word@),
    {
        let w = chars_of(word);
        matches_at(&self.chars, at, &w) && !self.is_ident_char_at(at + w.len())
    }

    fn is_ident_char_at(&self, at: usize) -> (r: bool)
        ensures
            r == (at < self.chars.len() && is_ident(self.chars@[at as int])),
    {
        at < self.chars.len() && is_ident_char(self.chars[at])
    }

    fn keyword(&self, at: usize, allow_bareword: bool) -> (r: Result<(Json, usize), String>)
        requires
            at < self.chars.len(),
        ensures
            reads_json(
                r,
                at as int,
                self.chars.len() as int,
                match keyword_at(self.chars@, at as int) {
                    Some(k) => Ok(k),
                    None => if allow_bareword {
                        bareword_at(self.chars@, at as int)
                    } else {
                        Err(unexpected_at(at as int))
                    },
                },
            ),
    {
        proof {
            reveal_strlit("true");
            reveal_strlit("True");
            reveal_strlit("false");
            reveal_strlit("False");
            reveal_strlit("null");
            reveal_strlit("None");
        }
        if self.word(at, "true") || self.word(at, "True") {
            return Ok((Json::Bool(true), at + 4));
        }
        if self.word(at, "false") || self.word(at, "False") {
            return Ok((Json::Bool(false), at + 5));
        }
        if self.word(at, "null") || self.word(at, "None") {
            return Ok((Json::Null, at + 4));
        }
        if allow_bareword {
            return self.bareword(at);
        }
        let p = decimal_text(at as u64);
        Err(joined("Unexpected token at position ", p.as_str()))
    }

    /// An unquoted value: what stands before `,`, a closing bracket or the end
    /// of the line.
    fn bareword(&self, at: usize) -> (r: Result<(Json, usize), String>)
        requires
            at < self.chars.len(),
        ensures
            reads_json(r, at as int, self.chars.len() as int, bareword_at(self.chars@, at as int)),
    {
        let n = self.chars.len();
        let ghost s = self.chars@;
        let mut i: usize = at;
        let mut broken = false;
        while i < n && !broken && !(self.chars[i] == ',' || self.chars[i] == '}' || self.chars[i] == ']'
            || self.chars[i] == '\n' || self.chars[i] == '\r')
            invariant
                n == self.chars.len(),
                s == self.chars@,
                at <= i <= n,
                broken ==> bareword_len(s, at as int) is None,
                !broken ==> bareword_len(s, at as int) == match bareword_len(s, i as int) {
                    Some(l) => Some((i - at + l) as nat),
                    None => None,
                },
            decreases n - i, if broken { 0int } else { 1int },
        {
            let cc = self.chars[i];
            let url = i + 1 < n && (self.chars[i + 1] == '/' || self.chars[i + 1] == '\\');
            if cc == '"' || cc == '{' || cc == '[' || (cc == ':' && !url) {
                broken = true;
            } else {
                i = i + 1;
            }
        }
        let position = decimal_text(at as u64);
        if broken || i >= n {
            return Err(joined("Unexpected token at position ", position.as_str()));
        }
        assert(bareword_len(s, at as int) == Some((i - at) as nat));
        let ghost full = s.subrange(at as int, i as int);
        let mut end: usize = i;
        assert(full.subrange(0, i - at) =~= full);
        while end > at && is_whitespace(self.chars[end - 1])
            invariant
                s == self.chars@,
                at <= end <= i < self.chars.len(),
                full == s.subrange(at as int, i as int),
                without_end_gap(full) == without_end_gap(full.subrange(0, end - at)),
            decreases end,
        {
            assert(full.subrange(0, end - at).drop_last() =~= full.subrange(0, end - 1 - at));
            assert(full.subrange(0, end - at).last() == s[end - 1]);
            end = end - 1;
        }
        let word = text_of(&self.chars, at, end);
        proof {
            assert(full.subrange(0, end - at) =~= s.subrange(at as int, end as int));
            if end > at {
                assert(full.subrange(0, end - at).last() == s[end - 1]);
            }
        }
        if non_value(word.as_str()) {
            return Err(joined("Unexpected token at position ", position.as_str()));
        }
        Ok((Json::String(word), i))
    }
}

/// Whether a word names a value that JSON cannot hold.
fn non_value(word: &str) -> (r: bool)
    ensures
        r == is_non_value(word@),
{
    crate::text::same_text(word, "NaN") || crate::text::same_text(word, "Infinity")
        || crate::text::same_text(word, "-Infinity") || crate::text::same_text(word, "+Infinity")
        || crate::text::same_text(word, "undefined")
}

proof fn lemma_hex4_bound(s: Seq<char>)
    requires
        s.len() == 4,
        digits_value(s, 16) is Some,
    ensures
        digits_value(s, 16)->0 < 0x10000,
{
    reveal_with_fuel(digits_value, 6);
    let a = s.drop_last();
    let b = a.drop_last();
    let c = b.drop_last();
    let d = c.drop_last();
    assert(d.len() == 0);
    assert(digits_value(d, 16) == Some(0nat));
}

/// Reads a JSON text, strictly where that succeeds and relaxed where not; the
/// error says where the relaxed reading failed.
pub fn parse_json_with_repair(json: &str) -> (r: Result<Json, String>)
    ensures
        match (r, repaired_json(json@)) {
            (Ok(v), Ok(w)) => json_view(v) == w,
            (Err(e), Err(w)) => e@ == w,
            _ => false,
        },
{
    match parse_strict(json) {
        Some(v) => Ok(v),
        None => relax_json(json),
    }
}

/// The relaxed reading of a text that is no JSON document.
pub fn relax_json(json: &str) -> (r: Result<Json, String>)
    ensures
        match (r, relaxed_json(json@)) {
            (Ok(v), Ok(w)) => json_view(v) == w,
            (Err(e), Err(w)) => e@ == w,
            _ => false,
        },
{
    RelaxedJson::new(json).parse()
}

/// What is JSON is read as JSON: nothing is repaired in it.
pub proof fn law_strict_reading_is_kept(s: Seq<char>)
    requires
        strict_json(s) is Some,
    ensures
        repaired_json(s) == Ok::<JsonView, Seq<char>>(strict_json(s)->0),
{
}

// ---- what a text reads as ----------------------------------------------------------------------

/// Whether nothing stands behind a value, or what ends it.
pub open spec fn is_delimited(post: Seq<char>) -> bool {
    post.len() == 0 || post[0] == ',' || post[0] == ']' || post[0] == '}'
}

/// Whether a text reads as a value wherever it stands, with something behind it that
/// ends a value.
#[verifier::opaque]
pub open spec fn reads_as(t: Seq<char>, v: JsonView) -> bool {
    &&& t.len() > 0
    &&& !is_gap(t[0]) && t[0] != '/' && t[0] != ',' && t[0] != ']' && t[0] != '}'
    &&& forall|pre: Seq<char>, post: Seq<char>, bare: bool|
        is_delimited(post) ==> #[trigger] value_at(pre + t + post, pre.len() as int, bare) == Ok::<_, Seq<char>>(
            (v, t.len()),
        )
}

/// The words `true`, `false` and `null`, and the names that another language has for
/// them, mean what they mean wherever no identifier goes on behind them.
pub proof fn law_words_mean_what_they_mean(s: Seq<char>, i: int, bare: bool)
    requires
        0 <= i < s.len(),
    ensures
        i + 4 <= s.len() && (s.subrange(i, i + 4) == "true"@ || s.subrange(i, i + 4) == "True"@) && (i + 4 == s.len()
            || !is_ident(s[i + 4])) ==> value_at(s, i, bare) == Ok::<_, Seq<char>>((JsonView::Bool(true), 4nat)),
        i + 5 <= s.len() && (s.subrange(i, i + 5) == "false"@ || s.subrange(i, i + 5) == "False"@) && (i + 5 == s.len()
            || !is_ident(s[i + 5])) ==> value_at(s, i, bare) == Ok::<_, Seq<char>>((JsonView::Bool(false), 5nat)),
        i + 4 <= s.len() && (s.subrange(i, i + 4) == "null"@ || s.subrange(i, i + 4) == "None"@) && (i + 4 == s.len()
            || !is_ident(s[i + 4])) ==> value_at(s, i, bare) == Ok::<_, Seq<char>>((JsonView::Null, 4nat)),
{
    reveal_strlit("true");
    reveal_strlit("True");
    reveal_strlit("false");
    reveal_strlit("False");
    reveal_strlit("null");
    reveal_strlit("None");
    assert("true"@.len() == 4 && "True"@.len() == 4 && "false"@.len() == 5 && "False"@.len() == 5 && "null"@.len() == 4
        && "None"@.len() == 4);
    assert("true"@[0] == 't' && "True"@[0] == 'T' && "false"@[0] == 'f' && "False"@[0] == 'F' && "null"@[0] == 'n'
        && "None"@[0] == 'N');
    if i + 4 <= s.len() {
        assert(s.subrange(i, i + 4)[0] == s[i]);
    }
    if i + 5 <= s.len() {
        assert(s.subrange(i, i + 5)[0] == s[i]);
    }
}

proof fn lemma_delimited_word(pre: Seq<char>, t: Seq<char>, post: Seq<char>)
    requires
        is_delimited(post),
    ensures
        ({
            let s = pre + t + post;
            let i = pre.len() as int;
            &&& s.len() == i + t.len() + post.len()
            &&& s.subrange(i, i + t.len()) == t
            &&& i + t.len() == s.len() || !is_ident(s[i + t.len()])
            &&& post.len() > 0 ==> s[i + t.len()] == post[0]
            &&& t.len() > 0 ==> s[i] == t[0]
        }),
{
    let s = pre + t + post;
    let i = pre.len() as int;
    assert(s.subrange(i, i + t.len()) =~= t);
}

/// The words are values wherever they stand.
pub proof fn law_words_read_back()
    ensures
        reads_as("true"@, JsonView::Bool(true)),
        reads_as("false"@, JsonView::Bool(false)),
        reads_as("null"@, JsonView::Null),
        reads_as("True"@, JsonView::Bool(true)),
        reads_as("False"@, JsonView::Bool(false)),
        reads_as("None"@, JsonView::Null),
{
    reveal(reads_as);
    reveal_strlit("true");
    reveal_strlit("True");
    reveal_strlit("false");
    reveal_strlit("False");
    reveal_strlit("null");
    reveal_strlit("None");
    assert("true"@.len() == 4 && "True"@.len() == 4 && "false"@.len() == 5 && "False"@.len() == 5 && "null"@.len() == 4
        && "None"@.len() == 4);
    assert("true"@[0] == 't' && "True"@[0] == 'T' && "false"@[0] == 'f' && "False"@[0] == 'F' && "null"@[0] == 'n'
        && "None"@[0] == 'N');
    assert forall|pre: Seq<char>, post: Seq<char>, bare: bool, t: Seq<char>|
        is_delimited(post) && (t == "true"@ || t == "True"@) implies #[trigger] value_at(
        pre + t + post,
        pre.len() as int,
        bare,
    ) == Ok::<_, Seq<char>>((JsonView::Bool(true), t.len())) by {
        lemma_delimited_word(pre, t, post);
        law_words_mean_what_they_mean(pre + t + post, pre.len() as int, bare);
    }
    assert forall|pre: Seq<char>, post: Seq<char>, bare: bool, t: Seq<char>|
        is_delimited(post) && (t == "false"@ || t == "False"@) implies #[trigger] value_at(
        pre + t + post,
        pre.len() as int,
        bare,
    ) == Ok::<_, Seq<char>>((JsonView::Bool(false), t.len())) by {
        lemma_delimited_word(pre, t, post);
        law_words_mean_what_they_mean(pre + t + post, pre.len() as int, bare);
    }
    assert forall|pre: Seq<char>, post: Seq<char>, bare: bool, t: Seq<char>|
        is_delimited(post) && (t == "null"@ || t == "None"@) implies #[trigger] value_at(
        pre + t + post,
        pre.len() as int,
        bare,
    ) == Ok::<_, Seq<char>>((JsonView::Null, t.len())) by {
        lemma_delimited_word(pre, t, post);
        law_words_mean_what_they_mean(pre + t + post, pre.len() as int, bare);
    }
}

/// How a character is written between quotes.
pub open spec fn written_char(c: char) -> Seq<char> {
    if c == '"' {
        seq!['\\', '"']
    } else if c == '\\' {
        seq!['\\', '\\']
    } else if c == '\n' {
        seq!['\\', 'n']
    } else if c == '\r' {
        seq!['\\', 'r']
    } else if c == '\t' {
        seq!['\\', 't']
    } else if c == '\u{8}' {
        seq!['\\', 'b']
    } else if c == '\u{c}' {
        seq!['\\', 'f']
    } else {
        seq![c]
    }
}

/// How a text is written between quotes.
pub open spec fn written_text(t: Seq<char>) -> Seq<char>
    decreases t.len(),
{
    if t.len() == 0 {
        Seq::empty()
    } else {
        written_char(t[0]) + written_text(t.drop_first())
    }
}

/// A text in double quotes.
pub open spec fn quoted(t: Seq<char>) -> Seq<char> {
    seq!['"'] + written_text(t) + seq!['"']
}

proof fn lemma_written_text_read(pre: Seq<char>, t: Seq<char>, post: Seq<char>)
    ensures
        string_from(pre + written_text(t) + (seq!['"'] + post), pre.len() as int, '"') == Ok::<_, Seq<char>>(
            (t, written_text(t).len() + 1),
        ),
    decreases t.len(),
{
    let tail = seq!['"'] + post;
    let s = pre + written_text(t) + tail;
    let i = pre.len() as int;
    if t.len() == 0 {
        assert(s[i] == '"');
        assert(t =~= Seq::empty());
    } else {
        let w = written_char(t[0]);
        let rest = t.drop_first();
        lemma_written_text_read(pre + w, rest, post);
        assert(s =~= (pre + w) + written_text(rest) + tail);
        assert(seq![t[0]] + rest =~= t);
        assert(s[i] == w[0]);
        if w.len() == 2 {
            assert(s[i + 1] == w[1]);
        }
    }
}

/// A text in double quotes reads as that text, whatever it holds.
pub proof fn law_quoted_text_reads_back(t: Seq<char>)
    ensures
        reads_as(quoted(t), JsonView::String(t)),
{
    reveal(reads_as);
    let q = quoted(t);
    assert(q[0] == '"');
    assert forall|pre: Seq<char>, post: Seq<char>, bare: bool| is_delimited(post) implies #[trigger] value_at(
        pre + q + post,
        pre.len() as int,
        bare,
    ) == Ok::<_, Seq<char>>((JsonView::String(t), q.len())) by {
        lemma_quoted_string(pre, t, post);
    }
}

proof fn lemma_quoted_string(pre: Seq<char>, t: Seq<char>, post: Seq<char>)
    ensures
        string_at(pre + quoted(t) + post, pre.len() as int) == Ok::<_, Seq<char>>((t, quoted(t).len())),
        (pre + quoted(t) + post)[pre.len() as int] == '"',
        (pre + quoted(t) + post).len() > pre.len(),
{
    let s = pre + quoted(t) + post;
    let opened = pre + seq!['"'];
    lemma_written_text_read(opened, t, post);
    assert(s =~= opened + written_text(t) + (seq!['"'] + post));
    assert(s[pre.len() as int] == '"');
    assert(Seq::<char>::empty() + t =~= t);
}

/// Inside a string, an escape stands for its character, four hexadecimal digits for
/// the character that they name, and a backslash before anything else for itself.
pub proof fn law_escapes_mean_what_they_mean(s: Seq<char>, i: int, quote: char)
    requires
        0 <= i,
        i + 1 < s.len(),
        s[i] == '\\',
        quote == '"' || quote == '\'',
    ensures
        ({
            let e = s[i + 1];
            let r = string_from(s, i, quote);
            let next = string_from(s, i + 2, quote);
            let put = |t: Seq<char>, taken: nat, rest: Reading<Seq<char>>|
                match rest {
                    Ok((more, l)) => Ok::<(Seq<char>, nat), Seq<char>>((t + more, taken + l)),
                    Err(m) => Err(m),
                };
            &&& e == '"' || e == '\'' || e == '\\' || e == '/' ==> r == put(seq![e], 2, next)
            &&& e == 'n' ==> r == put(seq!['\n'], 2, next)
            &&& e == 'r' ==> r == put(seq!['\r'], 2, next)
            &&& e == 't' ==> r == put(seq!['\t'], 2, next)
            &&& e == 'b' ==> r == put(seq!['\u{8}'], 2, next)
            &&& e == 'f' ==> r == put(seq!['\u{c}'], 2, next)
            &&& e == 'u' && hex4_at(s, i + 2) is Some ==> r == put(
                seq![hex4_at(s, i + 2)->0],
                6,
                string_from(s, i + 6, quote),
            )
            &&& e == 'u' && hex4_at(s, i + 2) is None ==> r == put(seq!['\\', 'u'], 2, next)
            &&& !(e == '"' || e == '\'' || e == '\\' || e == '/' || e == 'n' || e == 'r' || e == 't' || e == 'b' || e == 'f'
                || e == 'u') ==> r == put(seq!['\\', e], 2, next)
        }),
{
}

/// Four hexadecimal digits name the character with that number.
pub proof fn law_hex_digits_name_a_character(pre: Seq<char>, n: nat, post: Seq<char>)
    requires
        n < 0x10000,
        !(0xD800 <= n <= 0xDFFF),
    ensures
        hex4_at(pre + hex_padded(n, 4) + post, pre.len() as int) == Some((n as u32) as char),
{
    reveal_with_fuel(pow16, 5);
    lemma_hex_reads_back(n, 4);
    let s = pre + hex_padded(n, 4) + post;
    assert(s.subrange(pre.len() as int, (pre.len() + 4) as int) =~= hex_padded(n, 4));
}

proof fn lemma_decimal_reads(n: nat)
    ensures
        decimal(n).len() > 0,
        digits_value(decimal(n), 10) == Some(n),
        forall|i: int| 0 <= i < decimal(n).len() ==> '0' <= (#[trigger] decimal(n)[i]) <= '9',
    decreases n,
{
    lemma_digit_char(n % 10);
    let d = decimal(n);
    if n < 10 {
        assert(d.drop_last() =~= Seq::empty());
        assert(digits_value(d.drop_last(), 10) == Some(0nat));
        assert(d.last() == digit_char(n));
    } else {
        lemma_decimal_reads(n / 10);
        assert(d.drop_last() =~= decimal(n / 10));
        assert((n / 10) * 10 + n % 10 == n);
        assert forall|i: int| 0 <= i < d.len() implies '0' <= (#[trigger] d[i]) <= '9' by {
            if i < d.len() - 1 {
                assert(d[i] == decimal(n / 10)[i]);
            }
        }
    }
}

proof fn lemma_number_run(pre: Seq<char>, t: Seq<char>, post: Seq<char>, k: int)
    requires
        0 <= k <= t.len(),
        is_delimited(post),
        forall|i: int| 0 <= i < t.len() ==> is_number_char(#[trigger] t[i]),
    ensures
        run_len(pre + t + post, pre.len() + k, |c: char| is_number_char(c)) == t.len() - k,
    decreases t.len() - k,
{
    let s = pre + t + post;
    let f = |c: char| is_number_char(c);
    if k < t.len() {
        assert(s[pre.len() + k] == t[k]);
        assert(f(s[pre.len() + k]));
        lemma_number_run(pre, t, post, k + 1);
    } else if post.len() > 0 {
        assert(s[pre.len() + k] == post[0]);
        assert(!f(s[pre.len() + k]));
    }
}

proof fn lemma_number_text_read(t: Seq<char>, n: NumberView)
    requires
        t.len() > 0,
        t[0] == '-' || '0' <= t[0] <= '9',
        forall|i: int| 0 <= i < t.len() ==> is_number_char(#[trigger] t[i]),
        number_value(t) == Some(n),
    ensures
        reads_as(t, JsonView::Number(n)),
{
    reveal(reads_as);
    assert forall|pre: Seq<char>, post: Seq<char>, bare: bool| is_delimited(post) implies #[trigger] value_at(
        pre + t + post,
        pre.len() as int,
        bare,
    ) == Ok::<_, Seq<char>>((JsonView::Number(n), t.len())) by {
        let s = pre + t + post;
        let i = pre.len() as int;
        lemma_number_run(pre, t, post, 0);
        assert(s[i] == t[0]);
        assert(s.subrange(i, i + t.len()) =~= t);
    }
}

/// An integer in decimal reads as that integer.
pub proof fn law_integers_read_back(n: u64)
    ensures
        reads_as(decimal(n as nat), JsonView::Number(NumberView::PosInt(n))),
        0 < n <= 0x7FFF_FFFF_FFFF_FFFF ==> reads_as(
            seq!['-'] + decimal(n as nat),
            JsonView::Number(NumberView::NegInt((-(n as int)) as i64)),
        ),
{
    let d = decimal(n as nat);
    lemma_decimal_reads(n as nat);
    reveal_strlit("0x");
    reveal_strlit("0X");
    assert("0x"@.len() == 2 && "0x"@[1] == 'x' && "0X"@.len() == 2 && "0X"@[1] == 'X');
    assert(!stands_at(d, 0, "0x"@) && !stands_at(d, 0, "0X"@)) by {
        if d.len() >= 2 {
            assert(d.subrange(0, 2)[1] == d[1]);
        }
    }
    assert(integer_value(d) == Some(NumberView::PosInt(n))) by {
        assert('0' <= d[0] <= '9');
    }
    assert forall|i: int| 0 <= i < d.len() implies is_number_char(#[trigger] d[i]) by {
        assert('0' <= d[i] <= '9');
    }
    lemma_number_text_read(d, NumberView::PosInt(n));
    if 0 < n <= 0x7FFF_FFFF_FFFF_FFFF {
        let m = seq!['-'] + d;
        assert(m.subrange(1, m.len() as int) =~= d);
        assert(!stands_at(m, 0, "0x"@) && !stands_at(m, 0, "0X"@)) by {
            if m.len() >= 2 {
                assert(m.subrange(0, 2)[0] == '-');
                assert("0x"@[0] == '0' && "0X"@[0] == '0');
            }
        }
        assert forall|i: int| 0 <= i < m.len() implies is_number_char(#[trigger] m[i]) by {
            if i > 0 {
                assert(m[i] == d[i - 1]);
                assert('0' <= d[i - 1] <= '9');
            }
        }
        lemma_number_text_read(m, NumberView::NegInt((-(n as int)) as i64));
    }
}

/// The values of a list with commas between them and the closing character behind
/// them; a comma may stand behind the last one too.
pub open spec fn list_text(items: Seq<Seq<char>>, close: char, trailing: bool) -> Seq<char>
    decreases items.len(),
{
    if items.len() == 0 {
        seq![close]
    } else if items.len() == 1 && !trailing {
        items[0] + seq![close]
    } else {
        items[0] + seq![','] + list_text(items.drop_first(), close, trailing)
    }
}

proof fn lemma_no_gap(s: Seq<char>, i: int)
    requires
        0 <= i < s.len(),
        !is_gap(s[i]),
        s[i] != '/',
    ensures
        past_gap(s, i) == i,
{
    let f = |c: char| is_gap(c);
    assert(!f(s[i]));
    assert(run_len(s, i, f) == 0);
}

proof fn lemma_reads_at(t: Seq<char>, v: JsonView, pre: Seq<char>, post: Seq<char>, bare: bool)
    requires
        reads_as(t, v),
        is_delimited(post),
    ensures
        value_at(pre + t + post, pre.len() as int, bare) == Ok::<_, Seq<char>>((v, t.len())),
        t.len() > 0,
        !is_gap(t[0]) && t[0] != '/' && t[0] != ',' && t[0] != ']' && t[0] != '}',
        (pre + t + post)[pre.len() as int] == t[0],
{
    reveal(reads_as);
    assert(value_at(pre + t + post, pre.len() as int, bare) == Ok::<_, Seq<char>>((v, t.len())));
}

proof fn lemma_element_step(s: Seq<char>, i: int, l: nat, v: JsonView, acc: Seq<JsonView>)
    requires
        0 <= i,
        l > 0,
        i + l < s.len(),
        !is_gap(s[i]) && s[i] != '/' && s[i] != ',' && s[i] != ']',
        value_at(s, i, true) == Ok::<_, Seq<char>>((v, l)),
    ensures
        s[i + l] == ']' ==> elements_from(s, i, acc) == Ok::<_, Seq<char>>((acc.push(v), l + 1)),
        s[i + l] == ',' ==> elements_from(s, i, acc) == lengthened((l + 1) as int, elements_from(s, i + l + 1, acc.push(v))),
{
    lemma_no_gap(s, i);
    if s[i + l] == ']' || s[i + l] == ',' {
        lemma_no_gap(s, i + l);
    }
}

proof fn lemma_first_taken(acc: Seq<JsonView>, values: Seq<JsonView>)
    requires
        values.len() > 0,
    ensures
        acc.push(values[0]) + values.drop_first() == acc + values,
{
    assert(acc.push(values[0]) + values.drop_first() =~= acc + values);
}

#[verifier::spinoff_prover]
#[verifier::rlimit(100)]
proof fn lemma_list_read(
    pre: Seq<char>,
    items: Seq<Seq<char>>,
    values: Seq<JsonView>,
    trailing: bool,
    post: Seq<char>,
    acc: Seq<JsonView>,
)
    requires
        items.len() == values.len(),
        forall|k: int| 0 <= k < items.len() ==> #[trigger] reads_as(items[k], values[k]),
    ensures
        elements_from(pre + list_text(items, ']', trailing) + post, pre.len() as int, acc) == Ok::<_, Seq<char>>(
            (acc + values, list_text(items, ']', trailing).len()),
        ),
    decreases items.len(),
{
    let text = list_text(items, ']', trailing);
    let s = pre + text + post;
    let i = pre.len() as int;
    if items.len() == 0 {
        assert(s[i] == ']');
        lemma_no_gap(s, i);
        assert(acc + values =~= acc);
    } else {
        let t = items[0];
        let v = values[0];
        assert(reads_as(items[0], values[0]));
        let d = i + t.len();
        if items.len() == 1 && !trailing {
            let behind = seq![']'] + post;
            assert(s =~= pre + t + behind);
            lemma_reads_at(t, v, pre, behind, true);
            assert(s[d] == behind[0]);
            lemma_element_step(s, i, t.len(), v, acc);
            lemma_first_taken(acc, values);
            assert(values.drop_first() =~= Seq::empty());
            assert(acc.push(v) + values.drop_first() =~= acc.push(v));
        } else {
            let rest = items.drop_first();
            let others = values.drop_first();
            let more = list_text(rest, ']', trailing);
            let behind = seq![','] + (more + post);
            assert(text == t + seq![','] + more);
            assert(s =~= pre + t + behind);
            lemma_reads_at(t, v, pre, behind, true);
            assert(s[d] == behind[0]);
            lemma_element_step(s, i, t.len(), v, acc);
            let next = pre + t + seq![','];
            assert(s =~= next + more + post);
            assert forall|k: int| 0 <= k < rest.len() implies #[trigger] reads_as(rest[k], others[k]) by {
                assert(reads_as(items[k + 1], values[k + 1]));
            }
            lemma_first_taken(acc, values);
            lemma_list_read(next, rest, others, trailing, post, acc.push(v));
        }
    }
}

/// A list of texts that read as values reads as the list of those values, in order,
/// with or without a comma behind the last.
pub proof fn law_lists_read_back(items: Seq<Seq<char>>, values: Seq<JsonView>, trailing: bool)
    requires
        items.len() == values.len(),
        forall|k: int| 0 <= k < items.len() ==> #[trigger] reads_as(items[k], values[k]),
    ensures
        reads_as(seq!['['] + list_text(items, ']', trailing), JsonView::Array(values)),
{
    let text = list_text(items, ']', trailing);
    reveal(reads_as);
    let t = seq!['['] + text;
    assert(t[0] == '[');
    assert forall|pre: Seq<char>, post: Seq<char>, bare: bool| is_delimited(post) implies #[trigger] value_at(
        pre + t + post,
        pre.len() as int,
        bare,
    ) == Ok::<_, Seq<char>>((JsonView::Array(values), t.len())) by {
        let s = pre + t + post;
        let next = pre + seq!['['];
        lemma_list_read(next, items, values, trailing, post, Seq::empty());
        assert(s =~= next + text + post);
        assert(s[pre.len() as int] == '[');
        assert(Seq::<JsonView>::empty() + values =~= values);
    }
}

/// A name in quotes, a colon, and the text of a value.
pub open spec fn member_text(key: Seq<char>, value: Seq<char>) -> Seq<char> {
    quoted(key) + seq![':'] + value
}

/// The texts of members.
pub open spec fn member_texts(keys: Seq<Seq<char>>, items: Seq<Seq<char>>) -> Seq<Seq<char>> {
    Seq::new(keys.len(), |k: int| member_text(keys[k], items[k]))
}

/// Members set one after the other.
pub open spec fn put_all(acc: Members, keys: Seq<Seq<char>>, values: Seq<JsonView>) -> Members
    decreases keys.len(),
{
    if keys.len() == 0 {
        acc
    } else {
        put_all(with_member(acc, keys[0], values[0]), keys.drop_first(), values.drop_first())
    }
}

proof fn lemma_member_steps(s: Seq<char>, i: int, kl: nat, key: Seq<char>, vl: nat, value: JsonView)
    requires
        0 <= i,
        kl > 0,
        i + kl + 1 < s.len(),
        s[i] == '"',
        string_at(s, i) == Ok::<_, Seq<char>>((key, kl)),
        s[i + kl] == ':',
        !is_gap(s[i + kl + 1]) && s[i + kl + 1] != '/',
        value_at(s, i + kl + 1, true) == Ok::<_, Seq<char>>((value, vl)),
    ensures
        member_at(s, i) == Ok::<_, Seq<char>>(((key, value), kl + 1 + vl)),
{
    lemma_no_gap(s, i + kl);
    lemma_no_gap(s, i + kl + 1);
}

#[verifier::spinoff_prover]
#[verifier::rlimit(60)]
proof fn lemma_member_read(pre: Seq<char>, key: Seq<char>, item: Seq<char>, value: JsonView, post: Seq<char>)
    requires
        reads_as(item, value),
        is_delimited(post),
    ensures
        member_at(pre + member_text(key, item) + post, pre.len() as int) == Ok::<_, Seq<char>>(
            ((key, value), member_text(key, item).len()),
        ),
        (pre + member_text(key, item) + post)[pre.len() as int] == '"',
        member_text(key, item).len() > 0,
{
    let q = quoted(key);
    let s = pre + member_text(key, item) + post;
    let i = pre.len() as int;
    let behind = seq![':'] + (item + post);
    assert(s =~= pre + q + behind);
    lemma_quoted_string(pre, key, behind);
    let next = pre + q + seq![':'];
    assert(s =~= next + item + post);
    lemma_reads_at(item, value, next, post, true);
    assert(s[i + q.len()] == behind[0]);
    lemma_member_steps(s, i, q.len(), key, item.len(), value);
}

proof fn lemma_members_step(s: Seq<char>, i: int, l: nat, key: Seq<char>, v: JsonView, acc: Members)
    requires
        0 <= i,
        l > 0,
        i + l < s.len(),
        s[i] == '"',
        member_at(s, i) == Ok::<_, Seq<char>>(((key, v), l)),
    ensures
        s[i + l] == '}' ==> members_from(s, i, acc) == Ok::<_, Seq<char>>((with_member(acc, key, v), l + 1)),
        s[i + l] == ',' ==> members_from(s, i, acc) == lengthened(
            (l + 1) as int,
            members_from(s, i + l + 1, with_member(acc, key, v)),
        ),
{
    lemma_no_gap(s, i);
    if s[i + l] == '}' || s[i + l] == ',' {
        lemma_no_gap(s, i + l);
    }
}

#[verifier::spinoff_prover]
#[verifier::rlimit(60)]
proof fn lemma_members_read(
    pre: Seq<char>,
    keys: Seq<Seq<char>>,
    items: Seq<Seq<char>>,
    values: Seq<JsonView>,
    trailing: bool,
    post: Seq<char>,
    acc: Members,
)
    requires
        keys.len() == items.len(),
        items.len() == values.len(),
        forall|k: int| 0 <= k < items.len() ==> #[trigger] reads_as(items[k], values[k]),
    ensures
        members_from(
            pre + list_text(member_texts(keys, items), '}', trailing) + post,
            pre.len() as int,
            acc,
        ) == Ok::<_, Seq<char>>((put_all(acc, keys, values), list_text(member_texts(keys, items), '}', trailing).len())),
    decreases keys.len(),
{
    let texts = member_texts(keys, items);
    let text = list_text(texts, '}', trailing);
    let s = pre + text + post;
    let i = pre.len() as int;
    if keys.len() == 0 {
        assert(s[i] == '}');
        lemma_no_gap(s, i);
    } else {
        let t = texts[0];
        assert(t == member_text(keys[0], items[0]));
        assert(reads_as(items[0], values[0]));
        let d = i + t.len();
        let now = with_member(acc, keys[0], values[0]);
        if keys.len() == 1 && !trailing {
            let behind = seq!['}'] + post;
            assert(s =~= pre + t + behind);
            lemma_member_read(pre, keys[0], items[0], values[0], behind);
            assert(s[d] == behind[0]);
            lemma_members_step(s, i, t.len(), keys[0], values[0], acc);
            assert(put_all(now, keys.drop_first(), values.drop_first()) == now);
        } else {
            let rest = member_texts(keys.drop_first(), items.drop_first());
            assert(texts.drop_first() =~= rest);
            let more = list_text(rest, '}', trailing);
            let behind = seq![','] + (more + post);
            assert(text == t + seq![','] + more);
            assert(s =~= pre + t + behind);
            lemma_member_read(pre, keys[0], items[0], values[0], behind);
            assert(s[d] == behind[0]);
            lemma_members_step(s, i, t.len(), keys[0], values[0], acc);
            let next = pre + t + seq![','];
            assert(s =~= next + more + post);
            let others = values.drop_first();
            assert forall|k: int| 0 <= k < items.drop_first().len() implies #[trigger] reads_as(
                items.drop_first()[k],
                others[k],
            ) by {
                assert(reads_as(items[k + 1], values[k + 1]));
            }
            lemma_members_read(next, keys.drop_first(), items.drop_first(), others, trailing, post, now);
        }
    }
}

/// Names in quotes with texts that read as values read as the object of those members,
/// with or without a comma behind the last; of a name that comes twice, the later
/// value counts.
pub proof fn law_objects_read_back(
    keys: Seq<Seq<char>>,
    items: Seq<Seq<char>>,
    values: Seq<JsonView>,
    trailing: bool,
)
    requires
        keys.len() == items.len(),
        items.len() == values.len(),
        forall|k: int| 0 <= k < items.len() ==> #[trigger] reads_as(items[k], values[k]),
    ensures
        reads_as(
            seq!['{'] + list_text(member_texts(keys, items), '}', trailing),
            JsonView::Object(put_all(Seq::empty(), keys, values)),
        ),
{
    let text = list_text(member_texts(keys, items), '}', trailing);
    let t = seq!['{'] + text;
    let v = JsonView::Object(put_all(Seq::empty(), keys, values));
    reveal(reads_as);
    assert(t[0] == '{');
    assert forall|pre: Seq<char>, post: Seq<char>, bare: bool| is_delimited(post) implies #[trigger] value_at(
        pre + t + post,
        pre.len() as int,
        bare,
    ) == Ok::<_, Seq<char>>((v, t.len())) by {
        let s = pre + t + post;
        let next = pre + seq!['{'];
        lemma_members_read(next, keys, items, values, trailing, post, Seq::empty());
        assert(s =~= next + text + post);
        assert(s[pre.len() as int] == '{');
    }
}

/// Members with distinct names are set in their order.
pub proof fn law_distinct_members_stay_in_order(acc: Members, keys: Seq<Seq<char>>, values: Seq<JsonView>)
    requires
        keys.len() == values.len(),
        forall|i: int, j: int| 0 <= i < j < keys.len() ==> (#[trigger] keys[i]) != (#[trigger] keys[j]),
        forall|i: int, j: int| 0 <= i < acc.len() && 0 <= j < keys.len() ==> (#[trigger] acc[i]).0 != (#[trigger] keys[j]),
    ensures
        put_all(acc, keys, values) == acc + Seq::new(keys.len(), |k: int| (keys[k], values[k])),
    decreases keys.len(),
{
    let all = Seq::new(keys.len(), |k: int| (keys[k], values[k]));
    if keys.len() == 0 {
        assert(acc + all =~= acc);
    } else {
        lemma_member_pos(acc, keys[0]);
        let now = acc.push((keys[0], values[0]));
        assert(with_member(acc, keys[0], values[0]) == now);
        let rest = keys.drop_first();
        let others = values.drop_first();
        assert forall|i: int, j: int| 0 <= i < j < rest.len() implies (#[trigger] rest[i]) != (#[trigger] rest[j]) by {
            assert(keys[i + 1] != keys[j + 1]);
        }
        assert forall|i: int, j: int| 0 <= i < now.len() && 0 <= j < rest.len() implies (#[trigger] now[i]).0 != (
        #[trigger] rest[j]) by {
            if i < acc.len() {
                assert(acc[i].0 != keys[j + 1]);
            } else {
                assert(keys[0] != keys[j + 1]);
            }
        }
        law_distinct_members_stay_in_order(now, rest, others);
        assert(now + Seq::new(rest.len(), |k: int| (rest[k], others[k])) =~= acc + all);
    }
}

/// A text that reads as a value is that value as a whole, and gaps around it change
/// nothing.
pub proof fn law_value_alone_is_read(t: Seq<char>, v: JsonView)
    requires
        reads_as(t, v),
    ensures
        relaxed_json(t) == Ok::<_, Seq<char>>(v),
        strict_json(t) is None ==> repaired_json(t) == Ok::<_, Seq<char>>(v),
{
    let none = Seq::<char>::empty();
    assert(none + t + none =~= t);
    lemma_reads_at(t, v, none, none, false);
    lemma_no_gap(t, 0);
    let f = |c: char| is_gap(c);
    assert(run_len(t, t.len() as int, f) == 0);
    assert(past_gap(t, t.len() as int) == t.len());
}

/// White space is passed over, character by character, and so are comments, whole;
/// nothing else is.
pub proof fn law_gaps_are_passed_over(s: Seq<char>, i: int)
    requires
        0 <= i < s.len(),
    ensures
        s[i] == ' ' || s[i] == '\t' || s[i] == '\n' || s[i] == '\r' ==> past_gap(s, i) == past_gap(s, i + 1),
        !(s[i] == ' ' || s[i] == '\t' || s[i] == '\n' || s[i] == '\r' || s[i] == '/') ==> past_gap(s, i) == i,
{
    let f = |c: char| is_gap(c);
    if is_gap(s[i]) {
        assert(f(s[i]));
        assert(run_len(s, i, f) == 1 + run_len(s, i + 1, f));
        let w = run_len(s, i + 1, f);
        let j = i + 1 + w;
        assert(past_gap(s, i) == past_gap(s, i + 1));
    } else {
        assert(!f(s[i]));
    }
}

proof fn lemma_comment_run(s: Seq<char>, i: int, n: int)
    requires
        0 <= i,
        0 <= n,
        i + n < s.len(),
        s[i + n] == '\n',
        forall|k: int| i <= k < i + n ==> (#[trigger] s[k]) != '\n',
    ensures
        run_len(s, i, |c: char| c != '\n') == n,
    decreases n,
{
    let f = |c: char| c != '\n';
    if n > 0 {
        assert(s[i] != '\n');
        assert(f(s[i]));
        lemma_comment_run(s, i + 1, n - 1);
    } else {
        assert(!f(s[i]));
    }
}

/// A comment up to the end of its line is passed over.
pub proof fn law_line_comments_are_passed_over(s: Seq<char>, i: int, n: int)
    requires
        0 <= i,
        0 <= n,
        i + 2 + n < s.len(),
        s[i] == '/',
        s[i + 1] == '/',
        s[i + 2 + n] == '\n',
        forall|k: int| i + 2 <= k < i + 2 + n ==> (#[trigger] s[k]) != '\n',
    ensures
        past_gap(s, i) == past_gap(s, i + 2 + n),
{
    let f = |c: char| is_gap(c);
    assert(!f(s[i]));
    assert(run_len(s, i, f) == 0);
    lemma_comment_run(s, i + 2, n);
}

proof fn lemma_block_run(s: Seq<char>, i: int, n: int)
    requires
        0 <= i,
        0 <= n,
        i + n + 1 < s.len(),
        s[i + n] == '*' && s[i + n + 1] == '/',
        forall|k: int, l: int| i <= k < i + n && l == k + 1 ==> !((#[trigger] s[k]) == '*' && (#[trigger] s[l]) == '/'),
    ensures
        block_len(s, i) == n,
    decreases n,
{
    if n > 0 {
        assert(!(s[i] == '*' && s[i + 1] == '/'));
        lemma_block_run(s, i + 1, n - 1);
    }
}

/// A comment between its marks is passed over.
pub proof fn law_block_comments_are_passed_over(s: Seq<char>, i: int, n: int)
    requires
        0 <= i,
        0 <= n,
        i + 2 + n + 1 < s.len(),
        s[i] == '/',
        s[i + 1] == '*',
        s[i + 2 + n] == '*',
        s[i + 2 + n + 1] == '/',
        forall|k: int, l: int|
            i + 2 <= k < i + 2 + n && l == k + 1 ==> !((#[trigger] s[k]) == '*' && (#[trigger] s[l]) == '/'),
    ensures
        past_gap(s, i) == past_gap(s, i + 2 + n + 2),
{
    let f = |c: char| is_gap(c);
    assert(!f(s[i]));
    assert(run_len(s, i, f) == 0);
    lemma_block_run(s, i + 2, n);
}

proof fn lemma_single_read(pre: Seq<char>, t: Seq<char>, post: Seq<char>)
    requires
        is_delimited(post),
        forall|i: int| 0 <= i < t.len() ==> (#[trigger] t[i]) != '\'' && t[i] != '\\',
    ensures
        string_from(pre + t + (seq!['\''] + post), pre.len() as int, '\'') == Ok::<_, Seq<char>>((t, t.len() + 1)),
    decreases t.len(),
{
    let tail = seq!['\''] + post;
    let s = pre + t + tail;
    let i = pre.len() as int;
    if t.len() == 0 {
        assert(s[i] == '\'');
        let f = |c: char| is_gap(c);
        if post.len() > 0 {
            assert(s[i + 1] == post[0]);
            assert(!f(s[i + 1]));
        }
        assert(run_len(s, i + 1, f) == 0);
        assert(closes_at(s, i + 1));
        assert(t =~= Seq::empty());
    } else {
        let rest = t.drop_first();
        assert(t[0] != '\'' && t[0] != '\\');
        assert forall|k: int| 0 <= k < rest.len() implies (#[trigger] rest[k]) != '\'' && rest[k] != '\\' by {
            assert(rest[k] == t[k + 1]);
        }
        lemma_single_read(pre.push(t[0]), rest, post);
        assert(s =~= pre.push(t[0]) + rest + tail);
        assert(s[i] == t[0]);
        assert(seq![t[0]] + rest =~= t);
    }
}

/// A text in single quotes reads as that text, where it holds no quote and no escape.
pub proof fn law_single_quotes_read_back(t: Seq<char>)
    requires
        forall|i: int| 0 <= i < t.len() ==> (#[trigger] t[i]) != '\'' && t[i] != '\\',
    ensures
        reads_as(seq!['\''] + t + seq!['\''], JsonView::String(t)),
{
    reveal(reads_as);
    let q = seq!['\''] + t + seq!['\''];
    assert(q[0] == '\'');
    assert forall|pre: Seq<char>, post: Seq<char>, bare: bool| is_delimited(post) implies #[trigger] value_at(
        pre + q + post,
        pre.len() as int,
        bare,
    ) == Ok::<_, Seq<char>>((JsonView::String(t), q.len())) by {
        let s = pre + q + post;
        let opened = pre.push('\'');
        lemma_single_read(opened, t, post);
        assert(s =~= opened + t + (seq!['\''] + post));
        assert(s[pre.len() as int] == '\'');
        assert(Seq::<char>::empty() + t =~= t);
    }
}

proof fn lemma_bare_run(pre: Seq<char>, t: Seq<char>, post: Seq<char>, k: int)
    requires
        0 <= k <= t.len(),
        post.len() > 0 && is_delimited(post),
        forall|i: int| 0 <= i < t.len() ==> is_ident(#[trigger] t[i]),
    ensures
        bareword_len(pre + t + post, pre.len() + k) == Some((t.len() - k) as nat),
    decreases t.len() - k,
{
    let s = pre + t + post;
    if k < t.len() {
        assert(s[pre.len() + k] == t[k]);
        assert(is_ident(t[k]));
        lemma_bare_run(pre, t, post, k + 1);
    } else {
        assert(s[pre.len() + k] == post[0]);
    }
}

/// A word without quotes, in the place of a member's value or an element, reads as the
/// text of the word, unless it is a word with a meaning of its own.
pub proof fn law_bare_words_are_texts(pre: Seq<char>, t: Seq<char>, post: Seq<char>)
    requires
        t.len() > 0,
        post.len() > 0 && is_delimited(post),
        !('0' <= t[0] <= '9'),
        forall|i: int| 0 <= i < t.len() ==> is_ident(#[trigger] t[i]),
        t != "true"@ && t != "True"@ && t != "false"@ && t != "False"@ && t != "null"@ && t != "None"@,
        t != "NaN"@ && t != "Infinity"@ && t != "undefined"@,
    ensures
        value_at(pre + t + post, pre.len() as int, true) == Ok::<_, Seq<char>>((JsonView::String(t), t.len())),
        value_at(pre + t + post, pre.len() as int, false) is Err,
{
    let s = pre + t + post;
    let i = pre.len() as int;
    lemma_delimited_word(pre, t, post);
    lemma_bare_run(pre, t, post, 0);
    assert(is_ident(t[0]));
    assert(s[i] == t[0]);
    lemma_other_word(pre, t, post, "true"@);
    lemma_other_word(pre, t, post, "True"@);
    lemma_other_word(pre, t, post, "false"@);
    lemma_other_word(pre, t, post, "False"@);
    lemma_other_word(pre, t, post, "null"@);
    lemma_other_word(pre, t, post, "None"@);
    assert(is_ident(t[t.len() - 1]));
    assert(without_end_gap(t) == t);
    reveal_strlit("-Infinity");
    reveal_strlit("+Infinity");
    assert("-Infinity"@[0] == '-' && "+Infinity"@[0] == '+');
    assert("-Infinity"@.len() > 0 && "+Infinity"@.len() > 0);
    assert(!is_non_value(t)) by {
        if t == "-Infinity"@ {
            assert(t[0] == '-');
        }
        if t == "+Infinity"@ {
            assert(t[0] == '+');
        }
    }
}

proof fn lemma_other_word(pre: Seq<char>, t: Seq<char>, post: Seq<char>, word: Seq<char>)
    requires
        t != word,
        post.len() > 0 && is_delimited(post),
        forall|i: int| 0 <= i < t.len() ==> is_ident(#[trigger] t[i]),
        word == "true"@ || word == "True"@ || word == "false"@ || word == "False"@ || word == "null"@ || word == "None"@,
    ensures
        !word_at(pre + t + post, pre.len() as int, word),
{
    reveal_strlit("true");
    reveal_strlit("True");
    reveal_strlit("false");
    reveal_strlit("False");
    reveal_strlit("null");
    reveal_strlit("None");
    let s = pre + t + post;
    let i = pre.len() as int;
    assert forall|k: int| 0 <= k < word.len() implies is_ident(#[trigger] word[k]) by {}
    if stands_at(s, i, word) {
        let w = s.subrange(i, i + word.len());
        if word.len() > t.len() {
            assert(w[t.len() as int] == s[i + t.len()]);
            assert(s[i + t.len()] == post[0]);
            assert(is_ident(word[t.len() as int]));
        } else if word.len() < t.len() {
            assert(s[i + word.len()] == t[word.len() as int]);
            assert(is_ident(t[word.len() as int]));
        } else {
            assert(w =~= t);
        }
    }
}

proof fn lemma_key_run(pre: Seq<char>, t: Seq<char>, post: Seq<char>, k: int)
    requires
        0 <= k <= t.len(),
        post.len() > 0 && post[0] == ':',
        forall|i: int| 0 <= i < t.len() ==> is_ident(#[trigger] t[i]),
    ensures
        run_len(pre + t + post, pre.len() + k, |c: char| !(c == ':' || c == ',' || c == '}' || is_gap(c))) == t.len() - k,
    decreases t.len() - k,
{
    let s = pre + t + post;
    let f = |c: char| !(c == ':' || c == ',' || c == '}' || is_gap(c));
    if k < t.len() {
        assert(s[pre.len() + k] == t[k]);
        assert(is_ident(t[k]));
        assert(f(s[pre.len() + k]));
        lemma_key_run(pre, t, post, k + 1);
    } else {
        assert(s[pre.len() + k] == post[0]);
        assert(!f(s[pre.len() + k]));
    }
}

/// A word without quotes before a colon is the name of the member.
pub proof fn law_bare_keys_are_names(pre: Seq<char>, t: Seq<char>, post: Seq<char>)
    requires
        t.len() > 0,
        post.len() > 0 && post[0] == ':',
        forall|i: int| 0 <= i < t.len() ==> is_ident(#[trigger] t[i]),
    ensures
        key_at(pre + t + post, pre.len() as int) == Ok::<_, Seq<char>>((t, t.len())),
{
    let s = pre + t + post;
    let i = pre.len() as int;
    assert(is_ident(t[0]));
    assert(s[i] == t[0]);
    lemma_key_run(pre, t, post, 0);
    assert(s.subrange(i, i + t.len()) =~= t);
}

/// What is cut short is no value: a text, a list or an object without its end is
/// refused, and so is anything behind a value.
pub proof fn law_cut_short_is_refused(s: Seq<char>, quote: char, acc: Seq<JsonView>, members: Members)
    ensures
        string_from(s, s.len() as int, quote) == Err::<(Seq<char>, nat), _>("Unterminated string"@),
        elements_from(s, s.len() as int, acc) == Err::<(Seq<JsonView>, nat), _>("Unterminated array"@),
        members_from(s, s.len() as int, members) == Err::<(Members, nat), _>("Unterminated object"@),
        strict_json(s) is Some ==> repaired_json(s) == Ok::<_, Seq<char>>(strict_json(s)->0),
        strict_json(s) is None ==> repaired_json(s) == relaxed_json(s),
{
    let f = |c: char| is_gap(c);
    assert(run_len(s, s.len() as int, f) == 0);
    assert(past_gap(s, s.len() as int) == s.len());
}

/// The characters that go on a word.
pub proof fn law_characters_of_words(c: char)
    ensures
        is_ident(c) == ('a' <= c <= 'z' || 'A' <= c <= 'Z' || '0' <= c <= '9' || c == '_' || c == '$'),
{
}

/// A fraction is read as the number that its text writes.
pub proof fn law_fractions_read_back(t: Seq<char>, f: Seq<char>)
    requires
        t.len() > 1,
        t[0] == '-' || '0' <= t[0] <= '9',
        '0' <= t[1] <= '9' || t[1] == '.' || t[1] == 'e' || t[1] == 'E',
        forall|i: int|
            0 <= i < t.len() ==> ('0' <= (#[trigger] t[i]) <= '9' || t[i] == '.' || t[i] == 'e' || t[i] == 'E' || t[i] == '-'
                || t[i] == '+'),
        integer_value(t) is None,
        float_literal(t) == Some(f),
    ensures
        reads_as(t, JsonView::Number(NumberView::Float(f))),
{
    reveal_strlit("0x");
    reveal_strlit("0X");
    assert("0x"@.len() == 2 && "0x"@[1] == 'x' && "0X"@.len() == 2 && "0X"@[1] == 'X');
    assert(t.subrange(0, 2)[1] == t[1]);
    assert forall|i: int| 0 <= i < t.len() implies is_number_char(#[trigger] t[i]) by {
        assert('0' <= t[i] <= '9' || t[i] == '.' || t[i] == 'e' || t[i] == 'E' || t[i] == '-' || t[i] == '+');
    }
    lemma_number_text_read(t, NumberView::Float(f));
}

/// Nothing may stand behind a value but white space and comments.
pub proof fn law_nothing_stands_behind_a_value(s: Seq<char>, v: JsonView, l: nat)
    requires
        past_gap(s, 0) < s.len(),
        value_at(s, past_gap(s, 0), false) == Ok::<_, Seq<char>>((v, l)),
    ensures
        past_gap(s, past_gap(s, 0) + l) >= s.len() ==> relaxed_json(s) == Ok::<_, Seq<char>>(v),
        past_gap(s, past_gap(s, 0) + l) < s.len() ==> relaxed_json(s) is Err,
{
}

/// A hexadecimal integer reads as that integer.
pub proof fn law_hex_integers_read_back(n: u64, width: nat)
    requires
        width > 0,
        n < pow16(width),
    ensures
        reads_as("0x"@ + hex_padded(n as nat, width), JsonView::Number(NumberView::PosInt(n))),
{
    reveal_strlit("0x");
    reveal_strlit("0X");
    let h = hex_padded(n as nat, width);
    let t = "0x"@ + h;
    lemma_hex_reads_back(n as nat, width);
    lemma_hex_digits(n as nat, width);
    assert("0x"@.len() == 2 && "0x"@[0] == '0' && "0x"@[1] == 'x');
    assert(t.subrange(0, 2) =~= "0x"@);
    assert(t.subrange(2, t.len() as int) =~= h);
    assert(digit_value(h[0], 16) is Some);
    assert(unsigned_value(h, 16) == Some(n));
    assert forall|i: int| 0 <= i < t.len() implies is_number_char(#[trigger] t[i]) by {
        if i >= 2 {
            assert(t[i] == h[i - 2]);
            assert(digit_value(h[i - 2], 16) is Some);
        }
    }
    lemma_number_text_read(t, NumberView::PosInt(n));
}

proof fn lemma_hex_digits(n: nat, width: nat)
    requires
        n < pow16(width),
    ensures
        hex_padded(n, width).len() == width,
        forall|i: int| 0 <= i < width ==> digit_value(#[trigger] hex_padded(n, width)[i], 16) is Some,
    decreases width,
{
    if width > 0 {
        assert(n / 16 < pow16((width - 1) as nat)) by (nonlinear_arith)
            requires
                n < 16 * pow16((width - 1) as nat),
        ;
        lemma_hex_digits(n / 16, (width - 1) as nat);
        let h = hex_padded(n, width);
        let g = hex_padded(n / 16, (width - 1) as nat);
        assert forall|i: int| 0 <= i < width implies digit_value(#[trigger] h[i], 16) is Some by {
            if i < width - 1 {
                assert(h[i] == g[i]);
            }
        }
    }
}

/// In a text in single quotes, a quote with something other than the end of a value
/// behind it is part of the text.
pub proof fn law_inner_quotes_are_kept(s: Seq<char>, i: int)
    requires
        0 <= i,
        i + 1 < s.len(),
        s[i] == '\'',
        'a' <= s[i + 1] <= 'z' || 'A' <= s[i + 1] <= 'Z' || '0' <= s[i + 1] <= '9',
    ensures
        string_from(s, i, '\'') is Ok == string_from(s, i + 1, '\'') is Ok,
        string_from(s, i, '\'') is Ok ==> string_from(s, i, '\'')->Ok_0.0 == seq!['\''] + string_from(
            s,
            i + 1,
            '\'',
        )->Ok_0.0,
{
    let f = |c: char| is_gap(c);
    assert(!f(s[i + 1]));
    assert(run_len(s, i + 1, f) == 0);
}

/// The names of values that JSON cannot hold are refused.
pub proof fn law_non_values_are_refused(pre: Seq<char>, t: Seq<char>, post: Seq<char>)
    requires
        t == "NaN"@ || t == "Infinity"@ || t == "undefined"@,
        post.len() > 0 && is_delimited(post),
    ensures
        value_at(pre + t + post, pre.len() as int, true) is Err,
        value_at(pre + t + post, pre.len() as int, false) is Err,
{
    reveal_strlit("NaN");
    reveal_strlit("Infinity");
    reveal_strlit("undefined");
    reveal_strlit("true");
    reveal_strlit("True");
    reveal_strlit("false");
    reveal_strlit("False");
    reveal_strlit("null");
    reveal_strlit("None");
    assert("NaN"@.len() == 3 && "Infinity"@.len() == 8 && "undefined"@.len() == 9);
    assert("true"@.len() == 4 && "True"@.len() == 4 && "false"@.len() == 5 && "False"@.len() == 5 && "null"@.len() == 4
        && "None"@.len() == 4);
    assert forall|i: int| 0 <= i < t.len() implies is_ident(#[trigger] t[i]) by {}
    let s = pre + t + post;
    let i = pre.len() as int;
    lemma_delimited_word(pre, t, post);
    lemma_bare_run(pre, t, post, 0);
    assert(s[i] == t[0]);
    lemma_other_word(pre, t, post, "true"@);
    lemma_other_word(pre, t, post, "True"@);
    lemma_other_word(pre, t, post, "false"@);
    lemma_other_word(pre, t, post, "False"@);
    lemma_other_word(pre, t, post, "null"@);
    lemma_other_word(pre, t, post, "None"@);
    assert(is_ident(t[t.len() - 1]));
    assert(without_end_gap(t) == t);
}

} // verus!

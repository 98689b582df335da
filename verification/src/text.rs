//! Text helpers: the operations on character sequences that the rest of the
//! library is stated over.
use vstd::prelude::*;
use vstd::string::*;

verus! {

/// Appending one character to a string appends it to the view.
pub assume_specification[ std::string::String::push ](s: &mut std::string::String, c: char)
    ensures
        final(s)@ == old(s)@.push(c),
;

/// The text that `Debug` gives a string: in quotes, with what cannot be shown
/// escaped.
pub uninterp spec fn debug_text(s: Seq<char>) -> Seq<char>;

/// `Debug` of a string, through `format!`. The contract gives the result a name.
#[verifier::external_body]
pub(crate) fn shown(s: &str) -> (r: String)
    ensures
        r@ == debug_text(s@),
{
    format!("{s:?}")
}

/// The characters of Unicode's `White_Space` property.
pub open spec fn is_space(c: char) -> bool {
    ||| '\u{9}' <= c <= '\u{d}'
    ||| c == ' '
    ||| c == '\u{85}'
    ||| c == '\u{a0}'
    ||| c == '\u{1680}'
    ||| '\u{2000}' <= c <= '\u{200a}'
    ||| c == '\u{2028}'
    ||| c == '\u{2029}'
    ||| c == '\u{202f}'
    ||| c == '\u{205f}'
    ||| c == '\u{3000}'
}

/// `s` without its leading white space.
pub open spec fn trimmed_start(s: Seq<char>) -> Seq<char>
    decreases s.len(),
{
    if s.len() > 0 && is_space(s[0]) {
        trimmed_start(s.subrange(1, s.len() as int))
    } else {
        s
    }
}

/// `s` without its trailing white space.
pub open spec fn trimmed_end(s: Seq<char>) -> Seq<char>
    decreases s.len(),
{
    if s.len() > 0 && is_space(s.last()) {
        trimmed_end(s.drop_last())
    } else {
        s
    }
}

/// `s` without white space at either end.
pub open spec fn trimmed(s: Seq<char>) -> Seq<char> {
    trimmed_end(trimmed_start(s))
}

/// Whether `needle` stands in `s` at position `at`.
pub open spec fn stands_at(s: Seq<char>, at: int, needle: Seq<char>) -> bool {
    0 <= at && at + needle.len() <= s.len() && s.subrange(at, at + needle.len()) == needle
}

/// Whether `needle` stands somewhere in `s`.
pub open spec fn contains_text(s: Seq<char>, needle: Seq<char>) -> bool {
    exists|at: int| stands_at(s, at, needle)
}

pub open spec fn starts_with_text(s: Seq<char>, prefix: Seq<char>) -> bool {
    stands_at(s, 0, prefix)
}

pub open spec fn ends_with_text(s: Seq<char>, suffix: Seq<char>) -> bool {
    stands_at(s, s.len() - suffix.len(), suffix)
}

/// The decimal digits of `n`, without leading zeros.
pub open spec fn decimal(n: nat) -> Seq<char>
    decreases n,
{
    if n < 10 {
        seq![digit_char(n)]
    } else {
        decimal(n / 10).push(digit_char(n % 10))
    }
}

pub open spec fn digit_char(d: nat) -> char {
    if d == 0 {
        '0'
    } else if d == 1 {
        '1'
    } else if d == 2 {
        '2'
    } else if d == 3 {
        '3'
    } else if d == 4 {
        '4'
    } else if d == 5 {
        '5'
    } else if d == 6 {
        '6'
    } else if d == 7 {
        '7'
    } else if d == 8 {
        '8'
    } else {
        '9'
    }
}

pub fn digit(d: u64) -> (c: char)
    requires
        d < 10,
    ensures
        c == digit_char(d as nat),
{
    match d {
        0 => '0',
        1 => '1',
        2 => '2',
        3 => '3',
        4 => '4',
        5 => '5',
        6 => '6',
        7 => '7',
        8 => '8',
        _ => '9',
    }
}

/// `n` in decimal.
pub fn decimal_text(n: u64) -> (r: String)
    ensures
        r@ == decimal(n as nat),
    decreases n,
{
    if n < 10 {
        let mut s = String::new();
        s.push(digit(n));
        assert(s@ =~= seq![digit_char(n as nat)]);
        s
    } else {
        let mut s = decimal_text(n / 10);
        s.push(digit(n % 10));
        s
    }
}

pub fn is_white_space(c: char) -> (b: bool)
    ensures
        b == is_space(c),
{
    ('\u{9}' <= c && c <= '\u{d}') || c == ' ' || c == '\u{85}' || c == '\u{a0}' || c == '\u{1680}'
        || ('\u{2000}' <= c && c <= '\u{200a}') || c == '\u{2028}' || c == '\u{2029}' || c
        == '\u{202f}' || c == '\u{205f}' || c == '\u{3000}'
}

/// The characters of `s`, as a vector.
pub fn chars_of(s: &str) -> (r: Vec<char>)
    ensures
        r@ == s@,
{
    let mut out: Vec<char> = Vec::new();
    for c in it: s.chars()
        invariant
            it.seq() == s@,
            out@ == s@.take(it.index()),
    {
        out.push(c);
        assert(s@.take(it.index() + 1) =~= s@.take(it.index()).push(c));
    }
    assert(s@.take(s@.len() as int) =~= s@);
    out
}

/// The string of the characters `from..to` of `v`.
pub fn text_of(v: &Vec<char>, from: usize, to: usize) -> (r: String)
    requires
        from <= to <= v.len(),
    ensures
        r@ == v@.subrange(from as int, to as int),
{
    let mut out = String::new();
    let mut i: usize = from;
    while i < to
        invariant
            from <= i <= to <= v.len(),
            out@ == v@.subrange(from as int, i as int),
        decreases to - i,
    {
        out.push(v[i]);
        assert(v@.subrange(from as int, i + 1) =~= v@.subrange(from as int, i as int).push(v@[i as int]));
        i = i + 1;
    }
    out
}

/// An owned copy of `s`.
pub fn owned(s: &str) -> (r: String)
    ensures
        r@ == s@,
{
    String::from_str(s)
}

/// `a` followed by `b`.
pub fn joined(a: &str, b: &str) -> (r: String)
    ensures
        r@ == a@ + b@,
{
    let mut s = String::from_str(a);
    s.append(b);
    s
}

/// Whether two strings hold the same characters.
pub fn same_text(a: &str, b: &str) -> (r: bool)
    ensures
        r == (a@ == b@),
{
    let x = chars_of(a);
    let y = chars_of(b);
    if x.len() != y.len() {
        return false;
    }
    let mut i: usize = 0;
    while i < x.len()
        invariant
            i <= x.len(),
            x.len() == y.len(),
            x@ == a@,
            y@ == b@,
            forall|k: int| 0 <= k < i ==> x@[k] == y@[k],
        decreases x.len() - i,
    {
        if x[i] != y[i] {
            return false;
        }
        i = i + 1;
    }
    assert(x@ =~= y@);
    true
}

/// Whether `needle` stands in `s` at `at`.
pub fn matches_at(s: &Vec<char>, at: usize, needle: &Vec<char>) -> (r: bool)
    ensures
        r == stands_at(s@, at as int, needle@),
{
    if needle.len() > s.len() || at > s.len() - needle.len() {
        return false;
    }
    let mut i: usize = 0;
    while i < needle.len()
        invariant
            i <= needle.len(),
            at + needle.len() <= s.len(),
            forall|k: int| 0 <= k < i ==> s@[at + k] == needle@[k],
        decreases needle.len() - i,
    {
        if s[at + i] != needle[i] {
            assert(s@.subrange(at as int, at + needle@.len())[i as int] != needle@[i as int]);
            return false;
        }
        i = i + 1;
    }
    assert(s@.subrange(at as int, at + needle@.len()) =~= needle@);
    true
}

/// Whether `needle` stands somewhere in `s`.
pub fn text_contains(s: &str, needle: &str) -> (r: bool)
    ensures
        r == contains_text(s@, needle@),
{
    let x = chars_of(s);
    let y = chars_of(needle);
    if y.len() > x.len() {
        return false;
    }
    let last: usize = x.len() - y.len();
    let mut at: usize = 0;
    while at <= last
        invariant
            at <= last + 1,
            last == x.len() - y.len(),
            x@ == s@,
            y@ == needle@,
            forall|k: int| 0 <= k < at ==> !stands_at(s@, k, needle@),
        decreases last + 1 - at,
    {
        if matches_at(&x, at, &y) {
            return true;
        }
        if at == last {
            return false;
        }
        at = at + 1;
    }
    false
}

pub fn text_starts_with(s: &str, prefix: &str) -> (r: bool)
    ensures
        r == starts_with_text(s@, prefix@),
{
    let x = chars_of(s);
    let y = chars_of(prefix);
    matches_at(&x, 0, &y)
}

pub fn text_ends_with(s: &str, suffix: &str) -> (r: bool)
    ensures
        r == ends_with_text(s@, suffix@),
{
    let x = chars_of(s);
    let y = chars_of(suffix);
    if y.len() > x.len() {
        return false;
    }
    matches_at(&x, x.len() - y.len(), &y)
}

/// Trimming the whole text is trimming the part from any position that only
/// white space precedes.
proof fn lemma_trimmed_start_skips(s: Seq<char>, k: int)
    requires
        0 <= k <= s.len(),
        forall|j: int| 0 <= j < k ==> is_space(s[j]),
    ensures
        trimmed_start(s) == trimmed_start(s.subrange(k, s.len() as int)),
    decreases k,
{
    if k == 0 {
        assert(s.subrange(0, s.len() as int) =~= s);
    } else {
        let t = s.subrange(1, s.len() as int);
        lemma_trimmed_start_skips(t, k - 1);
        assert(t.subrange(k - 1, t.len() as int) =~= s.subrange(k, s.len() as int));
    }
}

proof fn lemma_trimmed_end_skips(s: Seq<char>, k: int)
    requires
        0 <= k <= s.len(),
        forall|j: int| k <= j < s.len() ==> is_space(s[j]),
    ensures
        trimmed_end(s) == trimmed_end(s.subrange(0, k)),
    decreases s.len() - k,
{
    if k == s.len() {
        assert(s.subrange(0, k) =~= s);
    } else {
        let t = s.drop_last();
        lemma_trimmed_end_skips(t, k);
        assert(t.subrange(0, k) =~= s.subrange(0, k));
    }
}

/// The first and one past the last position of the part of `v` that trimming
/// keeps.
pub fn trim_bounds(v: &Vec<char>) -> (r: (usize, usize))
    ensures
        r.0 <= r.1 <= v.len(),
        v@.subrange(r.0 as int, r.1 as int) == trimmed(v@),
{
    let mut from: usize = 0;
    while from < v.len() && is_white_space(v[from])
        invariant
            from <= v.len(),
            forall|j: int| 0 <= j < from ==> is_space(v@[j]),
        decreases v.len() - from,
    {
        from = from + 1;
    }
    let mut to: usize = v.len();
    while to > from && is_white_space(v[to - 1])
        invariant
            from <= to <= v.len(),
            forall|j: int| to <= j < v.len() ==> is_space(v@[j]),
        decreases to,
    {
        to = to - 1;
    }
    proof {
        lemma_trimmed_start_skips(v@, from as int);
        let rest = v@.subrange(from as int, v.len() as int);
        assert(trimmed_start(v@) == rest);
        lemma_trimmed_end_skips(rest, to - from);
        assert(rest.subrange(0, to - from) =~= v@.subrange(from as int, to as int));
        let kept = rest.subrange(0, to - from);
        assert(kept.len() > 0 ==> kept.last() == v@[to - 1]);
    }
    (from, to)
}

/// `s` without white space at either end.
pub fn trim_text(s: &str) -> (r: String)
    ensures
        r@ == trimmed(s@),
{
    let v = chars_of(s);
    let (from, to) = trim_bounds(&v);
    text_of(&v, from, to)
}

/// Trimming leaves nothing to trim.
pub proof fn lemma_trim_idempotent(s: Seq<char>)
    ensures
        trimmed(trimmed(s)) == trimmed(s),
{
    lemma_trimmed_end_shape(trimmed_start(s));
    lemma_trimmed_start_shape(s);
    let a = trimmed_start(s);
    let b = trimmed_end(a);
    if b.len() > 0 {
        assert(b[0] == a[0]);
    }
}

proof fn lemma_trimmed_start_shape(s: Seq<char>)
    ensures
        trimmed_start(s).len() > 0 ==> !is_space(trimmed_start(s)[0]),
    decreases s.len(),
{
    if s.len() > 0 && is_space(s[0]) {
        lemma_trimmed_start_shape(s.subrange(1, s.len() as int));
    }
}

proof fn lemma_trimmed_end_shape(s: Seq<char>)
    ensures
        trimmed_end(s).len() <= s.len(),
        trimmed_end(s) == s.subrange(0, trimmed_end(s).len() as int),
        trimmed_end(s).len() > 0 ==> !is_space(trimmed_end(s).last()),
    decreases s.len(),
{
    if s.len() > 0 && is_space(s.last()) {
        lemma_trimmed_end_shape(s.drop_last());
        assert(s.subrange(0, trimmed_end(s).len() as int) =~= s.drop_last().subrange(0, trimmed_end(s).len() as int));
    } else {
        assert(s.subrange(0, s.len() as int) =~= s);
    }
}

/// How many bytes UTF-8 takes for a character.
pub open spec fn utf8_width(c: char) -> nat {
    if (c as u32) < 0x80 {
        1
    } else if (c as u32) < 0x800 {
        2
    } else if (c as u32) < 0x10000 {
        3
    } else {
        4
    }
}

/// How many bytes UTF-8 takes for a text.
pub open spec fn byte_len(s: Seq<char>) -> nat
    decreases s.len(),
{
    if s.len() == 0 {
        0
    } else {
        byte_len(s.drop_last()) + utf8_width(s.last())
    }
}

/// `byte_len` is the length of the encoding.
pub proof fn lemma_byte_len(s: Seq<char>)
    ensures
        vstd::utf8::encode_utf8(s).len() == byte_len(s),
    decreases s.len(),
{
    if s.len() > 0 {
        let t = s.drop_first();
        lemma_byte_len(t);
        vstd::utf8::char_is_scalar(s[0]);
        lemma_byte_len_front(s);
    }
}

proof fn lemma_byte_len_front(s: Seq<char>)
    requires
        s.len() > 0,
    ensures
        byte_len(s) == utf8_width(s[0]) + byte_len(s.drop_first()),
    decreases s.len(),
{
    if s.len() == 1 {
        assert(s.drop_last() =~= Seq::empty());
        assert(s.drop_first() =~= Seq::empty());
        assert(byte_len(s.drop_last()) == 0);
        assert(byte_len(s.drop_first()) == 0);
    } else {
        let d = s.drop_last();
        lemma_byte_len_front(d);
        assert(s.drop_first().drop_last() =~= d.drop_first());
        assert(s.drop_first().last() == s.last());
    }
}

/// The length of a joined text is the sum of the lengths.
pub proof fn lemma_byte_len_add(a: Seq<char>, b: Seq<char>)
    ensures
        byte_len(a + b) == byte_len(a) + byte_len(b),
    decreases b.len(),
{
    if b.len() == 0 {
        assert(a + b =~= a);
    } else {
        lemma_byte_len_add(a, b.drop_last());
        assert((a + b).drop_last() =~= a + b.drop_last());
        assert((a + b).last() == b.last());
    }
}

/// How many bytes UTF-8 takes for a text.
pub fn byte_size(s: &str) -> (r: usize)
    ensures
        r == byte_len(s@),
{
    proof {
        lemma_byte_len(s@);
    }
    s.as_bytes().len()
}

pub fn char_width(c: char) -> (r: usize)
    ensures
        r == utf8_width(c),
        1 <= r <= 4,
{
    let n = c as u32;
    if n < 0x80 {
        1
    } else if n < 0x800 {
        2
    } else if n < 0x10000 {
        3
    } else {
        4
    }
}

/// The longest prefix of `s` that takes at most `max` bytes.
pub open spec fn byte_prefix(s: Seq<char>, max: nat) -> Seq<char>
    decreases s.len(),
{
    if byte_len(s) <= max || s.len() == 0 {
        s
    } else {
        byte_prefix(s.drop_last(), max)
    }
}

/// A prefix that fits, and is the whole text or is followed by a character that
/// does not, is the longest one.
proof fn lemma_byte_prefix_is(s: Seq<char>, max: nat, k: int)
    requires
        0 <= k <= s.len(),
        byte_len(s.take(k)) <= max,
        k < s.len() ==> byte_len(s.take(k + 1)) > max,
    ensures
        byte_prefix(s, max) == s.take(k),
    decreases s.len() - k,
{
    if k == s.len() {
        assert(s.take(k) =~= s);
    } else {
        lemma_byte_len_prefix(s, k + 1);
        let d = s.drop_last();
        assert(d.take(k) =~= s.take(k));
        if k < d.len() {
            assert(d.take(k + 1) =~= s.take(k + 1));
        }
        lemma_byte_prefix_is(d, max, k);
    }
}

pub proof fn lemma_byte_len_prefix(s: Seq<char>, k: int)
    requires
        0 <= k <= s.len(),
    ensures
        byte_len(s.take(k)) <= byte_len(s),
        k <= byte_len(s.take(k)),
    decreases s.len(),
{
    if k == s.len() {
        assert(s.take(k) =~= s);
        if s.len() > 0 {
            lemma_byte_len_prefix(s.drop_last(), s.len() - 1);
            assert(s.drop_last().take(s.len() - 1) =~= s.drop_last());
        }
    } else {
        lemma_byte_len_prefix(s.drop_last(), k);
        assert(s.drop_last().take(k) =~= s.take(k));
    }
}

/// The longest prefix of `s` that takes at most `max` bytes, and how many it
/// takes.
pub fn prefix_within(s: &str, max: usize) -> (r: (String, usize))
    requires
        max <= usize::MAX - 4,
    ensures
        r.0@ == byte_prefix(s@, max as nat),
        r.1 == byte_len(r.0@),
        r.1 <= max,
{
    let v = chars_of(s);
    let mut out = String::new();
    let mut used: usize = 0;
    let mut i: usize = 0;
    assert(s@.take(0) =~= Seq::empty());
    while i < v.len()
        invariant
            v@ == s@,
            i <= v.len(),
            max <= usize::MAX - 4,
            used <= max,
            out@ == s@.take(i as int),
            used == byte_len(s@.take(i as int)),
        decreases v.len() - i,
    {
        let w = char_width(v[i]);
        assert(s@.take(i + 1).drop_last() =~= s@.take(i as int));
        assert(s@.take(i + 1).last() == s@[i as int]);
        if used + w > max {
            proof {
                lemma_byte_prefix_is(s@, max as nat, i as int);
            }
            return (out, used);
        }
        out.push(v[i]);
        assert(out@ =~= s@.take(i + 1));
        used = used + w;
        i = i + 1;
    }
    proof {
        lemma_byte_prefix_is(s@, max as nat, i as int);
    }
    (out, used)
}

/// The position of the first `c` from `i` on, or the length.
pub open spec fn char_pos(s: Seq<char>, c: char, i: int) -> int
    decreases s.len() - i,
{
    if i < 0 || i >= s.len() {
        s.len() as int
    } else if s[i] == c {
        i
    } else {
        char_pos(s, c, i + 1)
    }
}

pub proof fn lemma_char_pos(s: Seq<char>, c: char, i: int)
    requires
        0 <= i <= s.len(),
    ensures
        i <= char_pos(s, c, i) <= s.len(),
        char_pos(s, c, i) < s.len() ==> s[char_pos(s, c, i)] == c,
        forall|k: int| i <= k < char_pos(s, c, i) ==> s[k] != c,
    decreases s.len() - i,
{
    if i < s.len() && s[i] != c {
        lemma_char_pos(s, c, i + 1);
    }
}

/// The parts of `s` from `i` on that the separator `c` divides it into.
pub open spec fn parts_from(s: Seq<char>, c: char, i: int) -> Seq<Seq<char>>
    decreases s.len() - i,
    via parts_from_decreases
{
    let p = char_pos(s, c, i);
    if i < 0 || i > s.len() || p >= s.len() {
        seq![s.subrange(i, s.len() as int)]
    } else {
        seq![s.subrange(i, p)] + parts_from(s, c, p + 1)
    }
}

#[via_fn]
proof fn parts_from_decreases(s: Seq<char>, c: char, i: int) {
    if 0 <= i <= s.len() {
        lemma_char_pos(s, c, i);
    }
}

/// The parts that the separator `c` divides `s` into.
pub open spec fn parts(s: Seq<char>, c: char) -> Seq<Seq<char>> {
    parts_from(s, c, 0)
}

proof fn lemma_parts_shift(s: Seq<char>, x: Seq<char>, c: char, j: int)
    requires
        0 <= j <= x.len(),
    ensures
        char_pos(s + x, c, s.len() + j) == s.len() + char_pos(x, c, j),
        parts_from(s + x, c, s.len() + j) == parts_from(x, c, j),
    decreases x.len() - j,
{
    let t = s + x;
    lemma_char_shift(s, x, c, j);
    lemma_char_pos(x, c, j);
    let p = char_pos(x, c, j);
    assert(t.subrange(s.len() + j, s.len() + p) =~= x.subrange(j, p));
    if p < x.len() {
        lemma_parts_shift(s, x, c, p + 1);
    }
}

proof fn lemma_char_shift(s: Seq<char>, x: Seq<char>, c: char, j: int)
    requires
        0 <= j <= x.len(),
    ensures
        char_pos(s + x, c, s.len() + j) == s.len() + char_pos(x, c, j),
    decreases x.len() - j,
{
    if j < x.len() {
        assert((s + x)[s.len() + j] == x[j]);
        if x[j] != c {
            lemma_char_shift(s, x, c, j + 1);
        }
    }
}

proof fn lemma_char_pos_is(s: Seq<char>, c: char, i: int, p: int)
    requires
        0 <= i <= p < s.len(),
        s[p] == c,
        forall|k: int| i <= k < p ==> s[k] != c,
    ensures
        char_pos(s, c, i) == p,
    decreases p - i,
{
    if i < p {
        lemma_char_pos_is(s, c, i + 1, p);
    }
}

proof fn lemma_parts_joined(s: Seq<char>, x: Seq<char>, c: char, i: int)
    requires
        0 <= i <= s.len(),
        s.len() > 0,
        s.last() == c,
    ensures
        parts_from(s, c, i).len() > 0,
        parts_from(s, c, i).last() == Seq::<char>::empty(),
        parts_from(s + x, c, i) == parts_from(s, c, i).drop_last() + parts(x, c),
    decreases s.len() - i,
{
    if i == s.len() {
        lemma_parts_shift(s, x, c, 0);
        assert(char_pos(s, c, i) == s.len());
        assert(s.subrange(i, i) =~= Seq::empty());
        assert(parts_from(s, c, i).drop_last() + parts(x, c) =~= parts(x, c));
    } else {
        lemma_char_pos(s, c, i);
        let p = char_pos(s, c, i);
        assert(s[s.len() - 1] == c);
        assert(p < s.len());
        let t = s + x;
        assert(forall|k: int| 0 <= k < s.len() ==> t[k] == s[k]);
        lemma_char_pos_is(t, c, i, p);
        lemma_parts_joined(s, x, c, p + 1);
        assert(t.subrange(i, p) =~= s.subrange(i, p));
        let rest = parts_from(s, c, p + 1);
        assert(parts_from(s, c, i) =~= seq![s.subrange(i, p)] + rest);
        assert(parts_from(s, c, i).drop_last() =~= seq![s.subrange(i, p)] + rest.drop_last());
        assert(parts_from(t, c, i) =~= seq![s.subrange(i, p)] + (rest.drop_last() + parts(x, c)));
        assert(parts_from(t, c, i) =~= parts_from(s, c, i).drop_last() + parts(x, c));
    }
}

/// Where a text ends in the separator, what is put behind it makes parts of its
/// own.
pub proof fn lemma_parts_append(s: Seq<char>, x: Seq<char>, c: char)
    requires
        s.len() > 0,
        s.last() == c,
    ensures
        parts(s, c).len() > 0,
        parts(s, c).last() == Seq::<char>::empty(),
        parts(s + x, c) == parts(s, c).drop_last() + parts(x, c),
{
    lemma_parts_joined(s, x, c, 0);
}

/// A line makes one part, and the separator behind it an empty one.
pub proof fn lemma_parts_line(t: Seq<char>, c: char)
    requires
        !t.contains(c),
    ensures
        parts(t.push(c), c) == seq![t, Seq::empty()],
{
    let s = t.push(c);
    assert forall|k: int| 0 <= k < t.len() implies s[k] != c by {
        assert(t[k] == s[k]);
        assert(t.contains(t[k]));
    }
    lemma_char_pos_is(s, c, 0, t.len() as int);
    assert(s.subrange(0, t.len() as int) =~= t);
    assert(char_pos(s, c, s.len() as int) == s.len());
    assert(parts_from(s, c, s.len() as int) =~= seq![Seq::<char>::empty()]) by {
        assert(s.subrange(s.len() as int, s.len() as int) =~= Seq::empty());
    }
    assert(parts(s, c) =~= seq![t, Seq::empty()]);
}

/// The parts that the separator `c` divides `s` into.
pub fn split_text(s: &str, c: char) -> (r: Vec<String>)
    ensures
        r.deep_view() == parts(s@, c),
        r.len() >= 1,
{
    let v = chars_of(s);
    let mut out: Vec<String> = Vec::new();
    let mut start: usize = 0;
    assert(out.deep_view() + parts_from(s@, c, 0) =~= parts(s@, c));
    loop
        invariant
            v@ == s@,
            start <= v.len(),
            out.deep_view() + parts_from(s@, c, start as int) == parts(s@, c),
        decreases v.len() - start,
    {
        let ghost before = out.deep_view();
        let mut p: usize = start;
        while p < v.len() && v[p] != c
            invariant
                v@ == s@,
                start <= p <= v.len(),
                forall|k: int| start <= k < p ==> s@[k] != c,
            decreases v.len() - p,
        {
            p = p + 1;
        }
        proof {
            lemma_char_pos(s@, c, start as int);
            let q = char_pos(s@, c, start as int);
            if q < p {
                assert(s@[q] != c);
            } else if p < q {
                assert(s@[p as int] != c);
            }
        }
        let part = text_of(&v, start, p);
        let ghost part_view = part@;
        out.push(part);
        assert(out.deep_view() =~= before + seq![part_view]);
        if p >= v.len() {
            return out;
        }
        proof {
            let rest = parts_from(s@, c, p + 1);
            assert((before + seq![part_view]) + rest =~= before + (seq![part_view] + rest));
        }
        start = p + 1;
    }
}

/// How many characters from `i` on are no white space.
pub open spec fn word_len(s: Seq<char>, i: int) -> nat
    decreases s.len() - i,
{
    if 0 <= i < s.len() && !is_space(s[i]) {
        1 + word_len(s, i + 1)
    } else {
        0
    }
}

/// How many characters stand from `i` on.
pub open spec fn rest_len(s: Seq<char>, i: int) -> nat {
    if i < s.len() {
        (s.len() - i) as nat
    } else {
        0
    }
}

/// The words of `s` from `i` on.
pub open spec fn words_from(s: Seq<char>, i: int) -> Seq<Seq<char>>
    decreases rest_len(s, i),
{
    if i < 0 || i >= s.len() {
        Seq::empty()
    } else if is_space(s[i]) {
        words_from(s, i + 1)
    } else {
        let l = word_len(s, i);
        seq![s.subrange(i, i + l)] + words_from(s, if l > 0 { i + l } else { i + 1 })
    }
}

/// The words of `s`: what white space separates.
pub open spec fn words(s: Seq<char>) -> Seq<Seq<char>> {
    words_from(s, 0)
}

proof fn lemma_word_len(s: Seq<char>, i: int, p: int)
    requires
        0 <= i <= p <= s.len(),
        forall|k: int| i <= k < p ==> !is_space(s[k]),
        p < s.len() ==> is_space(s[p]),
    ensures
        word_len(s, i) == p - i,
    decreases p - i,
{
    if i < p {
        lemma_word_len(s, i + 1, p);
    }
}

/// The words of `s`.
pub fn split_words(s: &str) -> (r: Vec<String>)
    ensures
        r.deep_view() == words(s@),
{
    let v = chars_of(s);
    let mut out: Vec<String> = Vec::new();
    let mut i: usize = 0;
    assert(out.deep_view() + words_from(s@, 0) =~= words(s@));
    while i < v.len()
        invariant
            v@ == s@,
            i <= v.len(),
            out.deep_view() + words_from(s@, i as int) == words(s@),
        decreases v.len() - i,
    {
        if is_white_space(v[i]) {
            i = i + 1;
        } else {
            let ghost before = out.deep_view();
            let mut p: usize = i;
            while p < v.len() && !is_white_space(v[p])
                invariant
                    v@ == s@,
                    i <= p <= v.len(),
                    forall|k: int| i <= k < p ==> !is_space(s@[k]),
                decreases v.len() - p,
            {
                p = p + 1;
            }
            proof {
                lemma_word_len(s@, i as int, p as int);
            }
            let word = text_of(&v, i, p);
            let ghost word_view = word@;
            out.push(word);
            proof {
                assert(out.deep_view() =~= before + seq![word_view]);
                let rest = words_from(s@, p as int);
                assert((before + seq![word_view]) + rest =~= before + (seq![word_view] + rest));
            }
            i = p;
        }
    }
    assert(out.deep_view() + Seq::<Seq<char>>::empty() =~= out.deep_view());
    out
}

/// Whether a text is in a list.
pub fn holds_text(list: &Vec<String>, t: &str) -> (r: bool)
    ensures
        r == list.deep_view().contains(t@),
{
    let ghost l = list.deep_view();
    let mut i: usize = 0;
    while i < list.len()
        invariant
            l == list.deep_view(),
            i <= list.len(),
            forall|k: int| 0 <= k < i ==> l[k] != t@,
        decreases list.len() - i,
    {
        assert(l[i as int] == list@[i as int]@);
        if same_text(list[i].as_str(), t) {
            return true;
        }
        i = i + 1;
    }
    false
}

proof fn lemma_start_is_suffix(s: Seq<char>)
    ensures
        ({
            let t = trimmed_start(s);
            let n = s.len() - t.len();
            &&& 0 <= n
            &&& s.subrange(n, s.len() as int) == t
            &&& forall|i: int| 0 <= i < n ==> is_space(#[trigger] s[i])
            &&& t.len() > 0 ==> !is_space(t[0])
        }),
    decreases s.len(),
{
    if s.len() > 0 && is_space(s[0]) {
        let r = s.subrange(1, s.len() as int);
        lemma_start_is_suffix(r);
        let t = trimmed_start(r);
        let n = s.len() - t.len();
        assert(s.subrange(n, s.len() as int) =~= r.subrange(n - 1, r.len() as int));
        assert forall|i: int| 0 <= i < n implies is_space(#[trigger] s[i]) by {
            if i > 0 {
                assert(r[i - 1] == s[i]);
            }
        }
    } else {
        assert(s.subrange(0, s.len() as int) =~= s);
    }
}

proof fn lemma_end_is_prefix(s: Seq<char>)
    ensures
        ({
            let t = trimmed_end(s);
            &&& t.len() <= s.len()
            &&& s.take(t.len() as int) == t
            &&& forall|i: int| t.len() <= i < s.len() ==> is_space(#[trigger] s[i])
            &&& t.len() > 0 ==> !is_space(t.last())
        }),
    decreases s.len(),
{
    if s.len() > 0 && is_space(s.last()) {
        let r = s.drop_last();
        lemma_end_is_prefix(r);
        let t = trimmed_end(r);
        assert(s.take(t.len() as int) =~= r.take(t.len() as int));
        assert forall|i: int| t.len() <= i < s.len() implies is_space(#[trigger] s[i]) by {
            if i < r.len() {
                assert(r[i] == s[i]);
            }
        }
    } else {
        assert(s.take(s.len() as int) =~= s);
    }
}

/// Trimming takes white space off both ends of a text, all of it and nothing else.
pub proof fn law_trimming_takes_off_white_space(s: Seq<char>)
    ensures
        ({
            let t = trimmed(s);
            &&& t.len() > 0 ==> !is_space(t[0]) && !is_space(t.last())
            &&& exists|a: int|
                0 <= a && a + t.len() <= s.len() && #[trigger] s.subrange(a, a + t.len()) == t && (forall|i: int|
                    0 <= i < a || a + t.len() <= i < s.len() ==> is_space(#[trigger] s[i]))
        }),
{
    lemma_start_is_suffix(s);
    let u = trimmed_start(s);
    lemma_end_is_prefix(u);
    let t = trimmed(s);
    let a = s.len() - u.len();
    assert(s.subrange(a, a + t.len()) =~= t) by {
        assert forall|i: int| 0 <= i < t.len() implies s[a + i] == t[i] by {
            assert(u.take(t.len() as int)[i] == u[i]);
            assert(s.subrange(a, s.len() as int)[i] == s[a + i]);
        }
    }
    assert forall|i: int| 0 <= i < a || a + t.len() <= i < s.len() implies is_space(#[trigger] s[i]) by {
        if i >= a {
            assert(s.subrange(a, s.len() as int)[i - a] == s[i]);
            assert(is_space(u[i - a]));
        }
    }
    if t.len() > 0 {
        assert(u.take(t.len() as int)[0] == u[0]);
    }
}

/// Blanks, tabs and line ends are white space; letters, digits and marks are not.
pub proof fn law_white_space(c: char)
    ensures
        is_space(' ') && is_space('\t') && is_space('\n') && is_space('\r'),
        '!' <= c <= '~' ==> !is_space(c),
{
}

} // verus!

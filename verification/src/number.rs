//! Numbers as they are written with digits.
use vstd::prelude::*;
use crate::text::{decimal, digit_char};

verus! {

/// The value of a digit in a radix up to 16.
pub open spec fn digit_value(c: char, radix: nat) -> Option<nat> {
    let v = if '0' <= c <= '9' {
        (c as u32 - '0' as u32) as nat
    } else if 'a' <= c <= 'f' {
        (c as u32 - 'a' as u32 + 10) as nat
    } else if 'A' <= c <= 'F' {
        (c as u32 - 'A' as u32 + 10) as nat
    } else {
        16
    };
    if v < radix {
        Some(v)
    } else {
        None
    }
}

/// The number that a run of digits writes; none where one is no digit.
pub open spec fn digits_value(s: Seq<char>, radix: nat) -> Option<nat>
    decreases s.len(),
{
    if s.len() == 0 {
        Some(0)
    } else {
        match (digits_value(s.drop_last(), radix), digit_value(s.last(), radix)) {
            (Some(v), Some(d)) => Some(v * radix + d),
            _ => None,
        }
    }
}

/// The unsigned 64-bit number that `s` writes, with an optional plus sign.
pub open spec fn unsigned_value(s: Seq<char>, radix: nat) -> Option<u64> {
    let body = if s.len() > 0 && s[0] == '+' {
        s.subrange(1, s.len() as int)
    } else {
        s
    };
    match digits_value(body, radix) {
        Some(v) => if body.len() > 0 && v <= u64::MAX {
            Some(v as u64)
        } else {
            None
        },
        None => None,
    }
}

/// Digits beyond the largest value only make the number larger.
proof fn lemma_digits_grow(s: Seq<char>, k: int, radix: nat)
    requires
        0 <= k <= s.len(),
        radix >= 1,
    ensures
        digits_value(s.subrange(0, k), radix) is None ==> digits_value(s, radix) is None,
        digits_value(s, radix) is Some ==> digits_value(s.subrange(0, k), radix) is Some
            && digits_value(s, radix)->0 >= digits_value(s.subrange(0, k), radix)->0,
    decreases s.len() - k,
{
    if k == s.len() {
        assert(s.subrange(0, k) =~= s);
    } else {
        let t = s.drop_last();
        lemma_digits_grow(t, k, radix);
        assert(t.subrange(0, k) =~= s.subrange(0, k));
        if digits_value(s, radix) is Some {
            let v = digits_value(t, radix)->0;
            assert(v * radix >= v) by (nonlinear_arith)
                requires
                    radix >= 1,
            ;
        }
    }
}

/// The value of a digit in the radix.
pub fn digit_of(c: char, radix: u64) -> (r: Option<u64>)
    requires
        radix <= 16,
    ensures
        match r {
            Some(d) => digit_value(c, radix as nat) == Some(d as nat) && d < radix,
            None => digit_value(c, radix as nat) is None,
        },
{
    let v: u64 = if '0' <= c && c <= '9' {
        c as u64 - '0' as u64
    } else if 'a' <= c && c <= 'f' {
        c as u64 - 'a' as u64 + 10
    } else if 'A' <= c && c <= 'F' {
        c as u64 - 'A' as u64 + 10
    } else {
        16
    };
    if v < radix {
        Some(v)
    } else {
        None
    }
}

/// The number that the digits `from..to` of `v` write.
pub fn read_digits(v: &Vec<char>, from: usize, to: usize, radix: u64) -> (r: Option<u64>)
    requires
        from <= to <= v.len(),
        1 <= radix <= 16,
    ensures
        r == match digits_value(v@.subrange(from as int, to as int), radix as nat) {
            Some(n) => if n <= u64::MAX {
                Some(n as u64)
            } else {
                None
            },
            None => None,
        },
{
    let ghost s = v@.subrange(from as int, to as int);
    let mut i: usize = from;
    let mut n: u64 = 0;
    assert(s.subrange(0, 0) =~= Seq::empty());
    while i < to
        invariant
            from <= i <= to <= v.len(),
            1 <= radix <= 16,
            s == v@.subrange(from as int, to as int),
            digits_value(s.subrange(0, i - from), radix as nat) == Some(n as nat),
        decreases to - i,
    {
        proof {
            assert(s.subrange(0, i + 1 - from).drop_last() =~= s.subrange(0, i - from));
            assert(s.subrange(0, i + 1 - from).last() == v@[i as int]);
            lemma_digits_grow(s, i + 1 - from, radix as nat);
        }
        match digit_of(v[i], radix) {
            None => {
                return None;
            },
            Some(d) => {
                match n.checked_mul(radix) {
                    None => {
                        return None;
                    },
                    Some(m) => {
                        match m.checked_add(d) {
                            None => {
                                return None;
                            },
                            Some(x) => {
                                n = x;
                            },
                        }
                    },
                }
            },
        }
        i = i + 1;
    }
    assert(s.subrange(0, to - from) =~= s);
    Some(n)
}

/// The unsigned number that the characters from `from` on write.
pub fn read_unsigned(v: &Vec<char>, from: usize, radix: u64) -> (r: Option<u64>)
    requires
        from <= v.len(),
        1 <= radix <= 16,
    ensures
        r == unsigned_value(v@.subrange(from as int, v.len() as int), radix as nat),
{
    let ghost s = v@.subrange(from as int, v.len() as int);
    let start: usize = if from < v.len() && v[from] == '+' {
        from + 1
    } else {
        from
    };
    proof {
        if start > from {
            assert(s.subrange(1, s.len() as int) =~= v@.subrange(start as int, v.len() as int));
        }
    }
    if start == v.len() {
        return None;
    }
    read_digits(v, start, v.len(), radix)
}

pub open spec fn in_i64(n: int) -> bool {
    i64::MIN <= n <= i64::MAX
}

/// The number that `s` writes in decimal digits alone, where there is a digit and
/// the number is a signed 64-bit one.
pub open spec fn decimal_value(s: Seq<char>) -> Option<i64> {
    match digits_value(s, 10) {
        Some(v) => if s.len() > 0 && v <= i64::MAX {
            Some(v as i64)
        } else {
            None
        },
        None => None,
    }
}

/// The number that a text of digits writes.
pub fn read_decimal(v: &Vec<char>) -> (r: Option<i64>)
    ensures
        r == decimal_value(v@),
{
    assert(v@.subrange(0, v.len() as int) =~= v@);
    if v.len() == 0 {
        return None;
    }
    match read_digits(v, 0, v.len(), 10) {
        Some(n) => if n <= 0x7FFF_FFFF_FFFF_FFFF {
            Some(n as i64)
        } else {
            None
        },
        None => None,
    }
}

/// `n` in decimal with zeros in front to at least `width` digits.
pub open spec fn padded(n: nat, width: nat) -> Seq<char>
    decreases width,
{
    if width == 0 {
        if n == 0 {
            Seq::empty()
        } else {
            decimal(n)
        }
    } else {
        padded(n / 10, (width - 1) as nat).push(digit_char(n % 10))
    }
}

/// `n` in decimal with zeros in front to at least `width` digits.
pub fn padded_text(n: u64, width: u64) -> (r: String)
    ensures
        r@ == padded(n as nat, width as nat),
    decreases width,
{
    if width == 0 {
        if n == 0 {
            String::new()
        } else {
            crate::text::decimal_text(n)
        }
    } else {
        let mut s = padded_text(n / 10, width - 1);
        s.push(crate::text::digit(n % 10));
        s
    }
}

pub proof fn lemma_digit_char(d: nat)
    requires
        d < 10,
    ensures
        digit_value(digit_char(d), 10) == Some(d),
{
}

/// Digits that fill the width read as the number that they were written for.
pub proof fn lemma_padded_reads_back(n: nat, width: nat)
    requires
        n < pow10(width),
    ensures
        padded(n, width).len() == width,
        digits_value(padded(n, width), 10) == Some(n),
    decreases width,
{
    if width == 0 {
    } else {
        assert(n / 10 < pow10((width - 1) as nat)) by (nonlinear_arith)
            requires
                n < 10 * pow10((width - 1) as nat),
        ;
        lemma_padded_reads_back(n / 10, (width - 1) as nat);
        lemma_digit_char(n % 10);
        let s = padded(n, width);
        assert(s.drop_last() =~= padded(n / 10, (width - 1) as nat));
        assert((n / 10) * 10 + n % 10 == n);
    }
}

pub open spec fn pow10(width: nat) -> nat
    decreases width,
{
    if width == 0 {
        1
    } else {
        10 * pow10((width - 1) as nat)
    }
}

/// Of two numbers with the same number of digits, the smaller one has the smaller
/// digit where they first differ, which is the place given back.
pub proof fn lemma_padded_order(n: nat, m: nat, width: nat) -> (k: int)
    requires
        n < m < pow10(width),
    ensures
        0 <= k < width,
        padded(n, width).len() == width,
        padded(m, width).len() == width,
        padded(n, width).take(k) == padded(m, width).take(k),
        (padded(n, width)[k] as nat) < (padded(m, width)[k] as nat),
    decreases width,
{
    lemma_padded_reads_back(n, width);
    lemma_padded_reads_back(m, width);
    let s = padded(n, width);
    let t = padded(m, width);
    let w = (width - 1) as nat;
    assert(s.take(w as int) =~= padded(n / 10, w));
    assert(t.take(w as int) =~= padded(m / 10, w));
    if n / 10 == m / 10 {
        assert(n % 10 < m % 10);
        w as int
    } else {
        assert(m / 10 < pow10(w)) by (nonlinear_arith)
            requires
                m < 10 * pow10(w),
        ;
        let k = lemma_padded_order(n / 10, m / 10, w);
        assert(s.take(k) =~= s.take(w as int).take(k));
        assert(t.take(k) =~= t.take(w as int).take(k));
        assert(s[k] == s.take(w as int)[k] && t[k] == t.take(w as int)[k]);
        k
    }
}

/// Every character of a padded number is ASCII.
pub proof fn lemma_padded_ascii(n: nat, width: nat)
    requires
        n < pow10(width),
    ensures
        vstd::utf8::is_ascii_chars(padded(n, width)),
    decreases width,
{
    if width > 0 {
        assert(n / 10 < pow10((width - 1) as nat)) by (nonlinear_arith)
            requires
                n < 10 * pow10((width - 1) as nat),
        ;
        lemma_padded_ascii(n / 10, (width - 1) as nat);
    }
}

pub open spec fn hex_char(d: nat) -> char {
    if d == 10 {
        'a'
    } else if d == 11 {
        'b'
    } else if d == 12 {
        'c'
    } else if d == 13 {
        'd'
    } else if d == 14 {
        'e'
    } else if d == 15 {
        'f'
    } else {
        digit_char(d)
    }
}

/// The last `width` hexadecimal digits of `n`.
pub open spec fn hex_padded(n: nat, width: nat) -> Seq<char>
    decreases width,
{
    if width == 0 {
        Seq::empty()
    } else {
        hex_padded(n / 16, (width - 1) as nat).push(hex_char(n % 16))
    }
}

pub open spec fn pow16(width: nat) -> nat
    decreases width,
{
    if width == 0 {
        1
    } else {
        16 * pow16((width - 1) as nat)
    }
}

fn hex_digit(d: u64) -> (c: char)
    requires
        d < 16,
    ensures
        c == hex_char(d as nat),
{
    match d {
        10 => 'a',
        11 => 'b',
        12 => 'c',
        13 => 'd',
        14 => 'e',
        15 => 'f',
        _ => crate::text::digit(d),
    }
}

/// The last `width` hexadecimal digits of `n`.
pub fn hex_text(n: u64, width: u64) -> (r: String)
    ensures
        r@ == hex_padded(n as nat, width as nat),
    decreases width,
{
    if width == 0 {
        String::new()
    } else {
        let mut s = hex_text(n / 16, width - 1);
        s.push(hex_digit(n % 16));
        s
    }
}

/// Hexadecimal digits that fill the width read as the number that they were
/// written for.
pub proof fn lemma_hex_reads_back(n: nat, width: nat)
    requires
        n < pow16(width),
    ensures
        hex_padded(n, width).len() == width,
        digits_value(hex_padded(n, width), 16) == Some(n),
    decreases width,
{
    if width > 0 {
        assert(n / 16 < pow16((width - 1) as nat)) by (nonlinear_arith)
            requires
                n < 16 * pow16((width - 1) as nat),
        ;
        lemma_hex_reads_back(n / 16, (width - 1) as nat);
        let s = hex_padded(n, width);
        assert(s.drop_last() =~= hex_padded(n / 16, (width - 1) as nat));
        assert(digit_value(hex_char(n % 16), 16) == Some(n % 16));
        assert((n / 16) * 16 + n % 16 == n);
    }
}

/// A digit stands for its value, a letter from `a` to `f` in either case for ten to
/// fifteen, and digits behind each other for the number that they write.
pub proof fn law_digits_write_numbers(s: Seq<char>, c: char, radix: nat)
    requires
        radix == 10 || radix == 16,
    ensures
        digit_value('0', radix) == Some(0nat) && digit_value('1', radix) == Some(1nat) && digit_value('9', radix) == Some(
            9nat,
        ),
        '0' <= c <= '9' ==> digit_value(c, radix) == Some((c as nat - '0' as nat) as nat),
        radix == 16 && 'a' <= c <= 'f' ==> digit_value(c, radix) == Some((c as nat - 'a' as nat + 10) as nat),
        radix == 16 && 'A' <= c <= 'F' ==> digit_value(c, radix) == Some((c as nat - 'A' as nat + 10) as nat),
        digits_value(Seq::empty(), radix) == Some(0nat),
        digits_value(s, radix) is Some && digit_value(c, radix) is Some ==> digits_value(s.push(c), radix) == Some(
            digits_value(s, radix)->0 * radix + digit_value(c, radix)->0,
        ),
        digits_value(s, radix) is None || digit_value(c, radix) is None ==> digits_value(s.push(c), radix) is None,
{
    assert(s.push(c).drop_last() =~= s);
}

} // verus!

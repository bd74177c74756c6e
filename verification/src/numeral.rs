//! Integers as text: decimal and hexadecimal numerals.

use vstd::prelude::*;

use crate::text::{digit, is_digit, to_chars};

verus! {

pub open spec fn digit_of(d: int) -> char {
    (48 + d) as char
}

/// The decimal numeral of `n`, without leading zeros.
pub open spec fn dec_of(n: nat) -> Seq<char>
    decreases n,
{
    if n < 10 {
        seq![digit_of(n as int)]
    } else {
        dec_of(n / 10).push(digit_of((n % 10) as int))
    }
}

fn digit_char(d: u8) -> (c: char)
    requires
        d < 10,
    ensures
        c == digit_of(d as int),
{
    (48 + d) as char
}

pub fn dec(n: u64) -> (r: String)
    ensures
        r@ == dec_of(n as nat),
    decreases n,
{
    if n < 10 {
        let mut r = String::new();
        r.push(digit_char(n as u8));
        assert(r@ =~= dec_of(n as nat));
        r
    } else {
        let mut r = dec(n / 10);
        r.push(digit_char((n % 10) as u8));
        r
    }
}

pub fn dec_usize(n: usize) -> (r: String)
    ensures
        r@ == dec_of(n as nat),
{
    dec(n as u64)
}

/// Every character is a decimal digit.
pub open spec fn all_digits(s: Seq<char>) -> bool {
    forall|i: int| 0 <= i < s.len() ==> is_digit(#[trigger] s[i])
}

/// The value of the first `n` digits.
pub open spec fn digits_value(s: Seq<char>, n: nat) -> nat
    decreases n,
{
    if n == 0 {
        0
    } else {
        digits_value(s, (n - 1) as nat) * 10 + (s[n - 1] as nat - 48) as nat
    }
}

/// The number a run of digits denotes, where it is at most `max`; no digits
/// denote none.
pub open spec fn parse_digits(s: Seq<char>, max: nat) -> Option<nat> {
    if s.len() > 0 && all_digits(s) && digits_value(s, s.len()) <= max {
        Some(digits_value(s, s.len()))
    } else {
        None
    }
}

/// The unsigned number a text denotes: digits after an optional plus sign.
pub open spec fn parse_unsigned(s: Seq<char>, max: nat) -> Option<nat> {
    if s.len() > 0 && s[0] == '+' {
        parse_digits(s.subrange(1, s.len() as int), max)
    } else {
        parse_digits(s, max)
    }
}

/// The signed number a text denotes: digits after an optional sign.
pub open spec fn parse_signed(s: Seq<char>) -> Option<int> {
    if s.len() > 0 && s[0] == '-' {
        match parse_digits(s.subrange(1, s.len() as int), 0x8000_0000_0000_0000) {
            Some(n) => Some(-(n as int)),
            None => None,
        }
    } else {
        match parse_unsigned(s, 0x7fff_ffff_ffff_ffff) {
            Some(n) => Some(n as int),
            None => None,
        }
    }
}

/// A leading part of a text has the value of that part.
proof fn lemma_digits_prefix(s: Seq<char>, t: Seq<char>, n: nat)
    requires
        n <= s.len(),
        n <= t.len(),
        forall|i: int| 0 <= i < n ==> s[i] == t[i],
    ensures
        digits_value(s, n) == digits_value(t, n),
    decreases n,
{
    if n > 0 {
        lemma_digits_prefix(s, t, (n - 1) as nat);
    }
}

/// A decimal numeral reads back as its number.
pub proof fn lemma_dec_reads_back(n: nat)
    ensures
        dec_of(n).len() > 0,
        all_digits(dec_of(n)),
        digits_value(dec_of(n), dec_of(n).len()) == n,
        parse_digits(dec_of(n), n) == Some(n),
    decreases n,
{
    let s = dec_of(n);
    if n < 10 {
        assert(digits_value(s, 0) == 0);
        assert(digits_value(s, 1) == digits_value(s, 0) * 10 + (s[0] as nat - 48) as nat);
    } else {
        lemma_dec_reads_back(n / 10);
        let head = dec_of(n / 10);
        lemma_digits_prefix(s, head, head.len());
        assert(forall|i: int| 0 <= i < head.len() ==> s[i] == head[i]);
        assert(s.last() == digit_of((n % 10) as int));
        assert(digits_value(s, s.len()) == digits_value(s, head.len()) * 10 + (s[s.len() - 1] as nat
            - 48) as nat);
    }
}

/// Different numbers have different numerals.
pub proof fn lemma_dec_distinct(a: nat, b: nat)
    requires
        dec_of(a) == dec_of(b),
    ensures
        a == b,
{
    lemma_dec_reads_back(a);
    lemma_dec_reads_back(b);
}

proof fn lemma_digits_grow(s: Seq<char>, m: nat, n: nat)
    requires
        m <= n <= s.len(),
        all_digits(s),
    ensures
        digits_value(s, m) <= digits_value(s, n),
    decreases n,
{
    if m < n {
        lemma_digits_grow(s, m, (n - 1) as nat);
        assert(is_digit(s[n - 1]));
    }
}

fn read_digits(v: &Vec<char>, from: usize, max: u64) -> (r: Option<u64>)
    requires
        from <= v.len(),
    ensures
        match r {
            Some(n) => parse_digits(v@.subrange(from as int, v.len() as int), max as nat) == Some(
                n as nat,
            ),
            None => parse_digits(v@.subrange(from as int, v.len() as int), max as nat) is None,
        },
{
    let ghost s = v@.subrange(from as int, v.len() as int);
    if from == v.len() {
        return None;
    }
    let mut i: usize = from;
    while i < v.len()
        invariant
            from <= i <= v.len(),
            s == v@.subrange(from as int, v.len() as int),
            forall|k: int| 0 <= k < i - from ==> is_digit(#[trigger] s[k]),
        decreases v.len() - i,
    {
        if !digit(v[i]) {
            assert(s[i - from] == v@[i as int]);
            return None;
        }
        assert(s[i - from] == v@[i as int]);
        i = i + 1;
    }
    assert(all_digits(s));
    let mut n: u64 = 0;
    i = from;
    while i < v.len()
        invariant
            from <= i <= v.len(),
            s == v@.subrange(from as int, v.len() as int),
            all_digits(s),
            n == digits_value(s, (i - from) as nat),
            n <= max,
        decreases v.len() - i,
    {
        assert(s[i - from] == v@[i as int]);
        assert(is_digit(s[i - from]));
        let d: u64 = v[i] as u64 - 48;
        assert(digits_value(s, (i - from + 1) as nat) == n * 10 + d);
        proof {
            lemma_digits_grow(s, (i - from + 1) as nat, s.len());
        }
        if n > max / 10 {
            assert(n * 10 >= (max / 10) * 10 + 10);
            return None;
        }
        if d > max - n * 10 {
            return None;
        }
        n = n * 10 + d;
        i = i + 1;
    }
    Some(n)
}

pub fn parse_uint(s: &str, max: u64) -> (r: Option<u64>)
    ensures
        match r {
            Some(n) => parse_unsigned(s@, max as nat) == Some(n as nat) && n <= max,
            None => parse_unsigned(s@, max as nat) is None,
        },
{
    let v = to_chars(s);
    if v.len() > 0 && v[0] == '+' {
        read_digits(&v, 1, max)
    } else {
        assert(v@.subrange(0, v.len() as int) =~= v@);
        read_digits(&v, 0, max)
    }
}

/// The number a run of digits denotes.
pub fn parse_digit_text(s: &str, max: u64) -> (r: Option<u64>)
    ensures
        match r {
            Some(n) => parse_digits(s@, max as nat) == Some(n as nat),
            None => parse_digits(s@, max as nat) is None,
        },
{
    let v = to_chars(s);
    assert(v@.subrange(0, v.len() as int) =~= v@);
    read_digits(&v, 0, max)
}

pub fn parse_usize(s: &str) -> (r: Option<usize>)
    ensures
        match r {
            Some(n) => parse_unsigned(s@, usize::MAX as nat) == Some(n as nat),
            None => parse_unsigned(s@, usize::MAX as nat) is None,
        },
{
    match parse_uint(s, usize::MAX as u64) {
        Some(n) => Some(n as usize),
        None => None,
    }
}

pub fn parse_int(s: &str) -> (r: Option<i64>)
    ensures
        match r {
            Some(n) => parse_signed(s@) == Some(n as int),
            None => parse_signed(s@) is None,
        },
{
    let v = to_chars(s);
    if v.len() > 0 && v[0] == '-' {
        match read_digits(&v, 1, 0x8000_0000_0000_0000) {
            Some(n) => {
                if n == 0x8000_0000_0000_0000 {
                    Some(i64::MIN)
                } else {
                    Some(-(n as i64))
                }
            },
            None => None,
        }
    } else {
        match parse_uint(s, 0x7fff_ffff_ffff_ffff) {
            Some(n) => Some(n as i64),
            None => None,
        }
    }
}

pub open spec fn hex_digit(d: int) -> char {
    if d < 10 {
        (48 + d) as char
    } else {
        (87 + d) as char
    }
}

/// The lowest `width` hexadecimal digits of `n`, in lower case.
pub open spec fn hex_of(n: nat, width: nat) -> Seq<char>
    decreases width,
{
    if width == 0 {
        seq![]
    } else {
        hex_of(n / 16, (width - 1) as nat).push(hex_digit((n % 16) as int))
    }
}

pub fn hex(n: u64, width: usize) -> (r: String)
    ensures
        r@ == hex_of(n as nat, width as nat),
    decreases width,
{
    if width == 0 {
        String::new()
    } else {
        let mut r = hex(n / 16, width - 1);
        let d: u8 = (n % 16) as u8;
        if d < 10 {
            r.push((48 + d) as char);
        } else {
            r.push((87 + d) as char);
        }
        r
    }
}

/// A numeral has as many characters as it was asked to have.
pub proof fn lemma_hex_len(n: nat, width: nat)
    ensures
        hex_of(n, width).len() == width,
    decreases width,
{
    if width > 0 {
        lemma_hex_len(n / 16, (width - 1) as nat);
    }
}

} // verus!

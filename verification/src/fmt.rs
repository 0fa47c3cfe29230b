//! Decimal rendering and reading of integers, as `format!("{:0w}")` and
//! `str::parse` do it for the small fields this crate needs.

use vstd::prelude::*;

verus! {

/// The ASCII digit for `d` (`0 <= d < 10`).
pub open spec fn digit_char(d: int) -> char {
    ((d + 48) as u32) as char
}

/// True when `c` is one of `'0'..='9'`.
pub open spec fn is_digit(c: char) -> bool {
    '0' <= c && c <= '9'
}

/// The value of an ASCII digit.
pub open spec fn digit_value(c: char) -> int {
    (c as int) - 48
}

/// Decimal representation of `n` without leading zeros ("0" for zero).
pub open spec fn decimal(n: nat) -> Seq<char>
    decreases n,
{
    if n < 10 {
        seq![digit_char(n as int)]
    } else {
        decimal(n / 10).push(digit_char((n % 10) as int))
    }
}

/// `s` left-padded with `'0'` up to `width` characters.
pub open spec fn zero_pad(s: Seq<char>, width: nat) -> Seq<char> {
    if s.len() >= width {
        s
    } else {
        Seq::new((width - s.len()) as nat, |i: int| '0') + s
    }
}

/// `format!("{:0width$}", n)` for a signed integer: the sign counts
/// towards the width and the zeros go after it.
pub open spec fn padded_int(n: int, width: nat) -> Seq<char> {
    if n < 0 {
        seq!['-'] + zero_pad(decimal((-n) as nat), if width >= 1 { (width - 1) as nat } else { 0 })
    } else {
        zero_pad(decimal(n as nat), width)
    }
}

/// True when every character of `s` is an ASCII digit.
pub open spec fn all_digits(s: Seq<char>) -> bool {
    forall|i: int| 0 <= i < s.len() ==> is_digit(#[trigger] s[i])
}

/// The number written by the ASCII digits `s` (0 for the empty sequence).
pub open spec fn digits_value(s: Seq<char>) -> nat
    decreases s.len(),
{
    if s.len() == 0 {
        0
    } else {
        (digits_value(s.drop_last()) * 10 + digit_value(s.last())) as nat
    }
}

/// What `str::parse` of an integer type gives for `s`: an optional `+`
/// (and, for a signed type, `-`) followed by at least one ASCII digit.
/// Only used on fields too short to overflow.
pub open spec fn parse_int(s: Seq<char>, signed: bool) -> Option<int> {
    if s.len() == 0 {
        None
    } else if (s[0] == '+' || s[0] == '-') && s.len() == 1 {
        None
    } else if s[0] == '+' {
        if all_digits(s.drop_first()) {
            Some(digits_value(s.drop_first()) as int)
        } else {
            None
        }
    } else if s[0] == '-' && signed {
        if all_digits(s.drop_first()) {
            Some(-(digits_value(s.drop_first()) as int))
        } else {
            None
        }
    } else if all_digits(s) {
        Some(digits_value(s) as int)
    } else {
        None
    }
}

pub proof fn lemma_decimal_digits(n: nat)
    ensures
        all_digits(decimal(n)),
        digits_value(decimal(n)) == n,
        decimal(n).len() >= 1,
        n < 10 ==> decimal(n).len() == 1,
        10 <= n < 100 ==> decimal(n).len() == 2,
        100 <= n < 1000 ==> decimal(n).len() == 3,
        1000 <= n < 10000 ==> decimal(n).len() == 4,
    decreases n,
{
    if n >= 10 {
        lemma_decimal_digits(n / 10);
        let s = decimal(n);
        assert(s.drop_last() == decimal(n / 10));
        lemma_digit_roundtrip((n % 10) as int);
        assert(s.last() == digit_char((n % 10) as int));
        assert(digits_value(s) == digits_value(s.drop_last()) * 10 + digit_value(s.last()));
        assert((n / 10) * 10 + n % 10 == n);
    } else {
        assert(decimal(n).drop_last() =~= Seq::<char>::empty());
        lemma_digit_roundtrip(n as int);
        assert(digits_value(Seq::<char>::empty()) == 0);
        assert(decimal(n).last() == digit_char(n as int));
    }
}

pub proof fn lemma_digit_roundtrip(d: int)
    requires
        0 <= d < 10,
    ensures
        digit_value(digit_char(d)) == d,
        is_digit(digit_char(d)),
{
    assert(((d + 48) as u32) as char as int == d + 48);
}

/// Leading zeros do not change the value of a digit string.
pub proof fn lemma_zero_pad_value(s: Seq<char>, width: nat)
    requires
        all_digits(s),
    ensures
        all_digits(zero_pad(s, width)),
        digits_value(zero_pad(s, width)) == digits_value(s),
        zero_pad(s, width).len() == if s.len() >= width { s.len() } else { width },
    decreases s.len(),
{
    if s.len() < width {
        let z = Seq::new((width - s.len()) as nat, |i: int| '0');
        lemma_zeros_then_digits(z, s);
    }
}

proof fn lemma_zeros_then_digits(z: Seq<char>, s: Seq<char>)
    requires
        all_digits(s),
        forall|i: int| 0 <= i < z.len() ==> z[i] == '0',
    ensures
        all_digits(z + s),
        digits_value(z + s) == digits_value(s),
    decreases s.len(),
{
    if s.len() == 0 {
        assert(z + s =~= z);
        lemma_zeros_value(z);
    } else {
        lemma_zeros_then_digits(z, s.drop_last());
        assert((z + s).drop_last() =~= z + s.drop_last());
    }
}

proof fn lemma_zeros_value(z: Seq<char>)
    requires
        forall|i: int| 0 <= i < z.len() ==> z[i] == '0',
    ensures
        digits_value(z) == 0,
    decreases z.len(),
{
    if z.len() > 0 {
        lemma_zeros_value(z.drop_last());
    }
}

/// The ASCII digit for `d`.
pub fn digit_of(d: u64) -> (c: char)
    requires
        d < 10,
    ensures
        c == digit_char(d as int),
        is_digit(c),
{
    let b: u8 = 48 + (d as u8);
    b as char
}

/// Decimal digits of `n`.
pub fn decimal_chars(n: u64) -> (r: Vec<char>)
    ensures
        r@ == decimal(n as nat),
    decreases n,
{
    if n < 10 {
        let mut v: Vec<char> = Vec::new();
        v.push(digit_of(n));
        v
    } else {
        let mut v = decimal_chars(n / 10);
        v.push(digit_of(n % 10));
        v
    }
}

/// `s` left-padded with zeros to `width`.
pub fn zero_padded(s: Vec<char>, width: usize) -> (r: Vec<char>)
    ensures
        r@ == zero_pad(s@, width as nat),
{
    if s.len() >= width {
        s
    } else {
        let mut out: Vec<char> = Vec::new();
        let k = width - s.len();
        let mut i: usize = 0;
        while i < k
            invariant
                i <= k,
                out@ == Seq::new(i as nat, |j: int| '0'),
            decreases k - i,
        {
            out.push('0');
            i = i + 1;
            assert(out@ =~= Seq::new(i as nat, |j: int| '0'));
        }
        let mut j: usize = 0;
        while j < s.len()
            invariant
                j <= s.len(),
                out@ == Seq::new(k as nat, |x: int| '0') + s@.take(j as int),
            decreases s.len() - j,
        {
            out.push(s[j]);
            j = j + 1;
            assert(out@ =~= Seq::new(k as nat, |x: int| '0') + s@.take(j as int));
        }
        assert(s@.take(s.len() as int) =~= s@);
        out
    }
}

/// `format!("{:0width$}", n)` for an `i64`.
pub fn padded_i64(n: i64, width: usize) -> (r: Vec<char>)
    requires
        width >= 1,
    ensures
        r@ == padded_int(n as int, width as nat),
{
    if n < 0 {
        let m: u64 = ((-(n + 1)) as u64) + 1;
        let digits = decimal_chars(m);
        let padded = zero_padded(digits, width - 1);
        let mut out: Vec<char> = Vec::new();
        out.push('-');
        let mut j: usize = 0;
        while j < padded.len()
            invariant
                j <= padded.len(),
                out@ == seq!['-'] + padded@.take(j as int),
            decreases padded.len() - j,
        {
            out.push(padded[j]);
            j = j + 1;
            assert(out@ =~= seq!['-'] + padded@.take(j as int));
        }
        assert(padded@.take(padded.len() as int) =~= padded@);
        out
    } else {
        zero_padded(decimal_chars(n as u64), width)
    }
}

proof fn lemma_digits_prefix_monotone(s: Seq<char>, i: int, j: int)
    requires
        0 <= i <= j <= s.len(),
        all_digits(s),
    ensures
        digits_value(s.take(i)) <= digits_value(s.take(j)),
    decreases j - i,
{
    if i < j {
        lemma_digits_prefix_monotone(s, i, j - 1);
        assert(s.take(j).drop_last() =~= s.take(j - 1));
        assert(is_digit(s[j - 1]));
    }
}

/// `str::parse::<u64>` of a string of ASCII digits: `None` for the empty
/// string or a value above `u64::MAX`.
pub fn parse_u64_digits(s: &Vec<char>) -> (r: Option<u64>)
    requires
        all_digits(s@),
    ensures
        r is Some <==> (s@.len() > 0 && digits_value(s@) <= u64::MAX),
        r matches Some(v) ==> v == digits_value(s@),
{
    if s.len() == 0 {
        return None;
    }
    let mut acc: u64 = 0;
    let mut i: usize = 0;
    assert(s@.take(0) =~= Seq::<char>::empty());
    while i < s.len()
        invariant
            i <= s.len(),
            all_digits(s@),
            acc == digits_value(s@.take(i as int)),
        decreases s.len() - i,
    {
        let c = s[i];
        assert(is_digit(c));
        let d: u64 = ((c as u32) - 48) as u64;
        assert(s@.take(i + 1).drop_last() =~= s@.take(i as int));
        assert(s@.take(i + 1).last() == c);
        let m = acc.checked_mul(10);
        match m {
            Some(m) => {
                let n = m.checked_add(d);
                match n {
                    Some(n) => {
                        acc = n;
                    },
                    None => {
                        proof {
                            lemma_digits_prefix_monotone(s@, i + 1, s.len() as int);
                            assert(s@.take(s.len() as int) =~= s@);
                        }
                        return None;
                    },
                }
            },
            None => {
                proof {
                    lemma_digits_prefix_monotone(s@, i + 1, s.len() as int);
                    assert(s@.take(s.len() as int) =~= s@);
                }
                return None;
            },
        }
        i = i + 1;
    }
    assert(s@.take(s.len() as int) =~= s@);
    Some(acc)
}

/// Whether every character of `s` is an ASCII digit.
pub fn all_digits_exec(s: &Vec<char>) -> (r: bool)
    ensures
        r == all_digits(s@),
{
    let mut i: usize = 0;
    while i < s.len()
        invariant
            i <= s.len(),
            forall|k: int| 0 <= k < i ==> is_digit(#[trigger] s@[k]),
        decreases s.len() - i,
    {
        if !('0' <= s[i] && s[i] <= '9') {
            return false;
        }
        i = i + 1;
    }
    true
}

/// Whether some character of `s` is an ASCII digit.
pub fn any_digit_exec(s: &Vec<char>) -> (r: bool)
    ensures
        r == exists|k: int| 0 <= k < s@.len() && is_digit(#[trigger] s@[k]),
{
    let mut i: usize = 0;
    while i < s.len()
        invariant
            i <= s.len(),
            forall|k: int| 0 <= k < i ==> !is_digit(#[trigger] s@[k]),
        decreases s.len() - i,
    {
        if '0' <= s[i] && s[i] <= '9' {
            return true;
        }
        i = i + 1;
    }
    false
}

} // verus!

//! Decimal numerals: rendering unsigned integers and reading `u32` values,
//! as `format!("{}")` and `str::parse::<u32>` do.
use vstd::prelude::*;
use crate::text::push_char;

verus! {

/// The digit character for `d` (`0 <= d < 10`).
pub open spec fn digit_char(d: nat) -> char {
    (d + 48) as char
}

/// The value of a digit character.
pub open spec fn digit_value(c: char) -> nat {
    (c as nat - 48) as nat
}

/// Whether `c` is one of `0`..`9`.
pub open spec fn is_digit(c: char) -> bool {
    '0' <= c && c <= '9'
}

/// The shortest decimal numeral of `n`, without sign or leading zeros.
pub open spec fn decimal(n: nat) -> Seq<char>
    decreases n,
{
    if n < 10 {
        seq![digit_char(n)]
    } else {
        decimal(n / 10).push(digit_char(n % 10))
    }
}

/// `n` in decimal, padded on the left with `0` to at least `width` characters.
pub open spec fn zero_padded(n: nat, width: nat) -> Seq<char> {
    let d = decimal(n);
    if d.len() >= width {
        d
    } else {
        Seq::new((width - d.len()) as nat, |i: int| '0') + d
    }
}

/// The value of a string of decimal digits.
pub open spec fn digits_value(s: Seq<char>) -> nat
    decreases s.len(),
{
    if s.len() == 0 {
        0
    } else {
        digits_value(s.drop_last()) * 10 + digit_value(s.last())
    }
}

/// Whether every character of `s` is a decimal digit.
pub open spec fn all_digits(s: Seq<char>) -> bool {
    forall|i: int| 0 <= i < s.len() ==> is_digit(#[trigger] s[i])
}

/// The digits of a numeral once an optional leading `+` is removed.
pub open spec fn unsigned_part(s: Seq<char>) -> Seq<char> {
    if s.len() > 0 && s[0] == '+' {
        s.drop_first()
    } else {
        s
    }
}

/// Whether `str::parse::<u32>` accepts `s`: an optional `+`, then at least one
/// decimal digit, with a value that fits in a `u32`.
pub open spec fn is_u32_numeral(s: Seq<char>) -> bool {
    let t = unsigned_part(s);
    &&& t.len() > 0
    &&& all_digits(t)
    &&& digits_value(t) <= u32::MAX
}

/// The value that `str::parse::<u32>` gives for `s`.
pub open spec fn numeral_value(s: Seq<char>) -> nat {
    digits_value(unsigned_part(s))
}

proof fn lemma_digits_value_prefix(s: Seq<char>, k: int)
    requires
        all_digits(s),
        0 <= k <= s.len(),
    ensures
        digits_value(s.take(k)) <= digits_value(s),
    decreases s.len(),
{
    if k < s.len() {
        assert(s.drop_last().take(k) =~= s.take(k));
        lemma_digits_value_prefix(s.drop_last(), k);
    } else {
        assert(s.take(k) =~= s);
    }
}

proof fn lemma_digit_char(d: nat)
    requires d < 10,
    ensures
        is_digit(digit_char(d)),
        digit_value(digit_char(d)) == d,
        digit_char(d) != '+',
{
}

/// The decimal numeral of `n` is a non-empty string of digits whose value is `n`.
pub proof fn lemma_decimal_reads_back(n: nat)
    ensures
        decimal(n).len() > 0,
        all_digits(decimal(n)),
        digits_value(decimal(n)) == n,
    decreases n,
{
    if n < 10 {
        lemma_digit_char(n);
        assert(decimal(n).drop_last() =~= Seq::<char>::empty());
        assert(digits_value(decimal(n).drop_last()) == 0);
    } else {
        lemma_decimal_reads_back(n / 10);
        lemma_digit_char(n % 10);
        let d = decimal(n);
        assert(d.drop_last() =~= decimal(n / 10));
        assert(d.last() == digit_char(n % 10));
        assert((n / 10) * 10 + n % 10 == n) by (nonlinear_arith);
        assert(digits_value(d) == digits_value(decimal(n / 10)) * 10 + digit_value(digit_char(n % 10)));
        assert forall|i: int| 0 <= i < d.len() implies is_digit(#[trigger] d[i]) by {
            if i < d.len() - 1 {
                assert(d[i] == decimal(n / 10)[i]);
            }
        }
    }
}

/// Reading the decimal numeral of a `u32` back, as `str::parse::<u32>` does, gives
/// the number itself.
pub proof fn lemma_u32_numeral_round_trip(n: u32)
    ensures
        is_u32_numeral(decimal(n as nat)),
        numeral_value(decimal(n as nat)) == n,
{
    lemma_decimal_reads_back(n as nat);
    assert(is_digit(decimal(n as nat)[0]));
}

/// Reads `chars[lo..hi]` as a `u32` the way `str::parse::<u32>` does.
pub(crate) fn parse_u32_range(chars: &Vec<char>, lo: usize, hi: usize) -> (r: Option<u32>)
    requires lo <= hi <= chars.len(),
    ensures
        r is Some <==> is_u32_numeral(chars@.subrange(lo as int, hi as int)),
        r matches Some(v) ==> v == numeral_value(chars@.subrange(lo as int, hi as int)),
{
    let ghost s = chars@.subrange(lo as int, hi as int);
    let mut start = lo;
    if lo < hi && chars[lo] == '+' {
        start = lo + 1;
        assert(s.drop_first() =~= chars@.subrange(start as int, hi as int));
    }
    let ghost t = chars@.subrange(start as int, hi as int);
    assert(unsigned_part(s) == t);
    if start == hi {
        return None;
    }
    let mut i = start;
    while i < hi
        invariant
            start <= i <= hi <= chars.len(),
            t == chars@.subrange(start as int, hi as int),
            s == chars@.subrange(lo as int, hi as int),
            unsigned_part(s) == t,
            forall|j: int| start <= j < i ==> is_digit(#[trigger] chars@[j]),
        decreases hi - i,
    {
        if !('0' <= chars[i] && chars[i] <= '9') {
            assert(t[i - start] == chars@[i as int]);
            assert(!is_digit(t[i - start]));
            assert(!all_digits(unsigned_part(s)));
            return None;
        }
        i = i + 1;
    }
    assert(all_digits(t)) by {
        assert forall|j: int| 0 <= j < t.len() implies is_digit(#[trigger] t[j]) by {
            assert(t[j] == chars@[start + j]);
        }
    }
    let mut value: u64 = 0;
    let mut i = start;
    assert(t.take(0) =~= Seq::<char>::empty());
    while i < hi
        invariant
            start <= i <= hi <= chars.len(),
            t == chars@.subrange(start as int, hi as int),
            s == chars@.subrange(lo as int, hi as int),
            unsigned_part(s) == t,
            all_digits(t),
            value == digits_value(t.take(i - start)),
            value <= u32::MAX,
        decreases hi - i,
    {
        let c = chars[i];
        assert(is_digit(t[i - start]));
        let d = (c as u32 - 48) as u64;
        assert(t.take(i + 1 - start).drop_last() =~= t.take(i - start));
        assert(t.take(i + 1 - start).last() == c);
        assert(d == digit_value(c));
        value = value * 10 + d;
        i = i + 1;
        assert(value == digits_value(t.take(i - start)));
        if value > 0xffff_ffff {
            proof { lemma_digits_value_prefix(t, i - start); }
            assert(!is_u32_numeral(s));
            return None;
        }
    }
    assert(t.take(hi - start) =~= t);
    Some(value as u32)
}

/// `n` written in decimal, with at least `width` characters (zeros on the left).
pub fn decimal_padded(n: u128, width: usize) -> (r: String)
    ensures r@ == zero_padded(n as nat, width as nat),
{
    let mut rev: Vec<char> = Vec::new();
    let mut m: u128 = n;
    let ghost mut acc: Seq<char> = Seq::empty();
    while m >= 10
        invariant
            decimal(n as nat) == decimal(m as nat) + acc,
            rev@ == acc.reverse(),
        decreases m,
    {
        let d = (m % 10) as u32;
        let c = ((d + 48) as u8) as char;
        proof {
            assert(decimal(m as nat) == decimal((m / 10) as nat).push(digit_char((m % 10) as nat)));
            acc = seq![c] + acc;
        }
        rev.push(c);
        m = m / 10;
    }
    let c = ((m as u32 + 48) as u8) as char;
    rev.push(c);
    let ghost digits = seq![c] + acc;
    assert(decimal(n as nat) =~= digits);
    let mut r = String::new();
    let len = rev.len();
    let npad: usize = if len < width { width - len } else { 0 };
    let mut pad = 0usize;
    assert(r@ =~= Seq::new(0, |i: int| '0'));
    while pad < npad
        invariant
            pad <= npad,
            r@ == Seq::new(pad as nat, |i: int| '0'),
        decreases npad - pad,
    {
        push_char(&mut r, '0');
        pad = pad + 1;
        assert(r@ =~= Seq::new(pad as nat, |i: int| '0'));
    }
    let ghost zeros = r@;
    let mut k = len;
    while k > 0
        invariant
            k <= len == rev@.len(),
            rev@ == digits.reverse(),
            r@ == zeros + digits.take(len - k),
        decreases k,
    {
        k = k - 1;
        push_char(&mut r, rev[k]);
        assert(digits.take(len - k) =~= digits.take(len - k - 1).push(rev@[k as int]));
    }
    assert(digits.take(len as int) =~= digits);
    assert(r@ =~= zero_padded(n as nat, width as nat));
    r
}


/// `n` written in decimal.
pub fn decimal_string(n: u128) -> (r: String)
    ensures r@ == decimal(n as nat),
{
    decimal_padded(n, 0)
}

}

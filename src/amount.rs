//! Signed decimal amounts, and the literals they are read from.
use vstd::prelude::*;

verus! {

/// A signed decimal: `units / 10^scale`.
#[derive(Clone, Copy, Debug, PartialEq, Eq, Structural)]
pub struct Amount {
    pub units: i64,
    pub scale: usize,
}

impl Amount {
    pub fn new(units: i64, scale: usize) -> (r: Amount)
        ensures
            r == (Amount { units, scale }),
    {
        Amount { units, scale }
    }

    pub fn units(&self) -> (r: i64)
        ensures
            r == self.units,
    {
        self.units
    }

    pub fn scale(&self) -> (r: usize)
        ensures
            r == self.scale,
    {
        self.scale
    }
}

pub open spec fn is_digit(c: char) -> bool {
    '0' <= c && c <= '9'
}

pub open spec fn digit_value(c: char) -> int {
    c as int - '0' as int
}

/// The number spelled by the digits of `t`, read left to right; other characters are skipped.
pub open spec fn digits_value(t: Seq<char>) -> int
    decreases t.len(),
{
    if t.len() == 0 {
        0
    } else if is_digit(t.last()) {
        digits_value(t.drop_last()) * 10 + digit_value(t.last())
    } else {
        digits_value(t.drop_last())
    }
}

pub open spec fn count_dots(t: Seq<char>) -> nat
    decreases t.len(),
{
    if t.len() == 0 {
        0
    } else if t.last() == '.' {
        count_dots(t.drop_last()) + 1
    } else {
        count_dots(t.drop_last())
    }
}

/// How many characters follow the last dot (all of them when there is none).
pub open spec fn digits_after_dot(t: Seq<char>) -> nat
    decreases t.len(),
{
    if t.len() == 0 {
        0
    } else if t.last() == '.' {
        0
    } else {
        digits_after_dot(t.drop_last()) + 1
    }
}

/// `t` is a run of digits, optionally with one dot between two digits.
pub open spec fn is_unsigned_literal(t: Seq<char>) -> bool {
    &&& t.len() > 0
    &&& is_digit(t[0])
    &&& is_digit(t.last())
    &&& forall|j: int| 0 <= j < t.len() ==> (is_digit(#[trigger] t[j]) || t[j] == '.')
    &&& count_dots(t) <= 1
}

pub open spec fn literal_scale(t: Seq<char>) -> nat {
    if count_dots(t) == 0 {
        0
    } else {
        digits_after_dot(t)
    }
}

pub open spec fn has_sign(t: Seq<char>) -> bool {
    t.len() > 0 && (t[0] == '-' || t[0] == '+')
}

/// The digits of a literal, without its sign.
pub open spec fn magnitude_part(t: Seq<char>) -> Seq<char> {
    if has_sign(t) {
        t.subrange(1, t.len() as int)
    } else {
        t
    }
}

/// The amount that a word spells: an optional sign, digits, and an optional
/// dot followed by digits. A word whose digits exceed the range of `i64` spells none.
pub open spec fn literal_amount(t: Seq<char>) -> Option<Amount> {
    let m = magnitude_part(t);
    if is_unsigned_literal(m) && digits_value(m) <= i64::MAX {
        let v = if t[0] == '-' {
            -digits_value(m)
        } else {
            digits_value(m)
        };
        Some(Amount { units: v as i64, scale: literal_scale(m) as usize })
    } else {
        None
    }
}

proof fn lemma_digits_value_nonneg(t: Seq<char>)
    ensures
        digits_value(t) >= 0,
    decreases t.len(),
{
    if t.len() > 0 {
        lemma_digits_value_nonneg(t.drop_last());
    }
}

/// Reading more characters never makes the number smaller.
proof fn lemma_digits_value_grows(t: Seq<char>, j: int)
    requires
        0 <= j <= t.len(),
    ensures
        digits_value(t.subrange(0, j)) <= digits_value(t),
    decreases t.len() - j,
{
    if j < t.len() {
        let p = t.subrange(0, j + 1);
        assert(p.drop_last() == t.subrange(0, j));
        lemma_digits_value_nonneg(t.subrange(0, j));
        lemma_digits_value_grows(t, j + 1);
    } else {
        assert(t.subrange(0, j) == t);
    }
}

/// Reads the amount spelled by `s[start..end]`.
pub fn parse_literal(s: &Vec<char>, start: usize, end: usize) -> (r: Option<Amount>)
    requires
        start <= end <= s@.len(),
    ensures
        r == literal_amount(s@.subrange(start as int, end as int)),
{
    let ghost t = s@.subrange(start as int, end as int);
    if start == end {
        return None;
    }
    let negative = s[start] == '-';
    let first: usize = if s[start] == '-' || s[start] == '+' { start + 1 } else { start };
    let ghost m = magnitude_part(t);
    assert(m == s@.subrange(first as int, end as int));
    if first == end || !('0' <= s[first] && s[first] <= '9') || !('0' <= s[end - 1] && s[end - 1] <= '9') {
        return None;
    }
    let mut acc: i64 = 0;
    let mut dots: usize = 0;
    let mut after: usize = 0;
    let mut i: usize = first;
    while i < end
        invariant
            first <= i <= end <= s@.len(),
            m == s@.subrange(first as int, end as int),
            t == s@.subrange(start as int, end as int),
            m == magnitude_part(t),
            negative == (t[0] == '-'),
            acc as int == digits_value(m.subrange(0, i - first)),
            acc >= 0,
            dots as nat == count_dots(m.subrange(0, i - first)),
            after as nat == digits_after_dot(m.subrange(0, i - first)),
            after <= i - first,
            dots <= 1,
            forall|j: int| 0 <= j < i - first ==> (is_digit(#[trigger] m[j]) || m[j] == '.'),
        decreases end - i,
    {
        let c = s[i];
        let ghost p = m.subrange(0, i - first + 1);
        assert(p.drop_last() == m.subrange(0, i - first));
        assert(p.last() == c);
        assert(m[i - first] == c);
        if '0' <= c && c <= '9' {
            let d: i64 = (c as u32 - '0' as u32) as i64;
            if acc > (i64::MAX - d) / 10 {
                proof {
                    assert(acc * 10 + d > i64::MAX) by (nonlinear_arith)
                        requires
                            acc > (i64::MAX - d) / 10,
                            0 <= d <= 9,
                    ;
                    assert(d == digit_value(c));
                    assert(digits_value(p) == acc * 10 + d);
                    lemma_digits_value_grows(m, i - first + 1);
                    assert(!(digits_value(m) <= i64::MAX));
                }
                return None;
            }
            acc = acc * 10 + d;
            after = after + 1;
        } else if c == '.' {
            if dots == 1 {
                proof {
                    assert(count_dots(p) == 2);
                    assert(!is_unsigned_literal(m)) by {
                        lemma_dots_grow(m, i - first + 1);
                    }
                }
                return None;
            }
            dots = dots + 1;
            after = 0;
        } else {
            assert(!is_digit(m[i - first]) && m[i - first] != '.');
            assert(!is_unsigned_literal(m));
            return None;
        }
        i = i + 1;
    }
    assert(m.subrange(0, m.len() as int) == m);
    let scale: usize = if dots == 0 { 0 } else { after };
    let units: i64 = if negative { -acc } else { acc };
    Some(Amount { units, scale })
}

proof fn lemma_dots_grow(t: Seq<char>, j: int)
    requires
        0 <= j <= t.len(),
    ensures
        count_dots(t.subrange(0, j)) <= count_dots(t),
    decreases t.len() - j,
{
    if j < t.len() {
        let p = t.subrange(0, j + 1);
        assert(p.drop_last() == t.subrange(0, j));
        lemma_dots_grow(t, j + 1);
    } else {
        assert(t.subrange(0, j) == t);
    }
}

pub open spec fn pow10(n: nat) -> int
    decreases n,
{
    if n == 0 {
        1
    } else {
        10 * pow10((n - 1) as nat)
    }
}

pub proof fn lemma_pow10_positive(n: nat)
    ensures
        pow10(n) >= 1,
    decreases n,
{
    if n > 0 {
        lemma_pow10_positive((n - 1) as nat);
    }
}

pub proof fn lemma_pow10_add(m: nat, n: nat)
    ensures
        pow10(m + n) == pow10(m) * pow10(n),
    decreases n,
{
    if n > 0 {
        lemma_pow10_add(m, (n - 1) as nat);
        assert(pow10(m + n) == 10 * pow10((m + n - 1) as nat));
        assert(pow10(m) * pow10(n) == pow10(m) * (10 * pow10((n - 1) as nat)));
        assert(pow10(m) * (10 * pow10((n - 1) as nat)) == 10 * (pow10(m) * pow10((n - 1) as nat)))
            by (nonlinear_arith);
    }
}

/// Compares the values of two amounts (`units / 10^scale`) as -1, 0 or 1.
pub open spec fn value_cmp(a: Amount, b: Amount) -> int {
    let x = a.units * pow10(b.scale as nat);
    let y = b.units * pow10(a.scale as nat);
    if x < y {
        -1
    } else if x > y {
        1
    } else {
        0
    }
}

} // verus!

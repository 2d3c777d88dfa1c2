//! Candidate price tags and the order that ranks them.
use vstd::prelude::*;
use crate::amount::{Amount, lemma_pow10_add, lemma_pow10_positive, pow10, value_cmp};
use crate::currency::Currency;
use std::cmp::Ordering;

verus! {

/// What a candidate is: its amount, its currency's code, where the code stands
/// in the text, and whether the amount follows the code.
pub struct MatchView {
    pub amount: Amount,
    pub code: Seq<char>,
    pub index: nat,
    pub before: bool,
}

/// A candidate price tag found while scanning a text.
#[derive(Clone, Debug, PartialEq)]
pub struct PriceTagMatch {
    pub amount: Amount,
    pub currency: Currency,
    pub index: usize,
    pub before: bool,
}

impl View for PriceTagMatch {
    type V = MatchView;

    open spec fn view(&self) -> MatchView {
        MatchView {
            amount: self.amount,
            code: self.currency@,
            index: self.index as nat,
            before: self.before,
        }
    }
}

/// Lexical order of codes: -1, 0 or 1.
pub open spec fn code_cmp(a: Seq<char>, b: Seq<char>) -> int
    decreases a.len(),
{
    if a.len() == 0 {
        if b.len() == 0 {
            0
        } else {
            -1
        }
    } else if b.len() == 0 {
        1
    } else if a[0] < b[0] {
        -1
    } else if a[0] > b[0] {
        1
    } else {
        code_cmp(a.drop_first(), b.drop_first())
    }
}

pub open spec fn int_cmp(a: int, b: int) -> int {
    if a < b {
        -1
    } else if a > b {
        1
    } else {
        0
    }
}

/// The ranking, as -1, 0 or 1: earlier index first; at one index, the amount
/// after the code first; then the smaller amount; between equal amounts, the
/// one written with fewer decimals; then the code in lexical order.
pub open spec fn match_cmp(a: MatchView, b: MatchView) -> int {
    if a.index != b.index {
        int_cmp(a.index as int, b.index as int)
    } else if a.before != b.before {
        if a.before {
            -1
        } else {
            1
        }
    } else if value_cmp(a.amount, b.amount) != 0 {
        value_cmp(a.amount, b.amount)
    } else if a.amount.scale != b.amount.scale {
        int_cmp(a.amount.scale as int, b.amount.scale as int)
    } else {
        code_cmp(a.code, b.code)
    }
}

pub open spec fn ordering_of(c: int) -> Ordering {
    if c < 0 {
        Ordering::Less
    } else if c > 0 {
        Ordering::Greater
    } else {
        Ordering::Equal
    }
}

proof fn lemma_code_cmp_antisymmetric(a: Seq<char>, b: Seq<char>)
    ensures
        code_cmp(a, b) == -code_cmp(b, a),
        code_cmp(a, b) == 0 ==> a == b,
        -1 <= code_cmp(a, b) <= 1,
    decreases a.len(),
{
    if a.len() > 0 && b.len() > 0 && a[0] == b[0] {
        lemma_code_cmp_antisymmetric(a.drop_first(), b.drop_first());
        if code_cmp(a, b) == 0 {
            assert(a[0] == b[0]);
            assert(a == seq![a[0]] + a.drop_first());
            assert(b == seq![b[0]] + b.drop_first());
        }
    }
}

proof fn lemma_code_cmp_transitive(a: Seq<char>, b: Seq<char>, c: Seq<char>)
    requires
        code_cmp(a, b) <= 0,
        code_cmp(b, c) <= 0,
    ensures
        code_cmp(a, c) <= 0,
        code_cmp(a, b) < 0 || code_cmp(b, c) < 0 ==> code_cmp(a, c) < 0,
    decreases a.len(),
{
    lemma_code_cmp_antisymmetric(a, b);
    lemma_code_cmp_antisymmetric(b, c);
    lemma_code_cmp_antisymmetric(a, c);
    if a.len() > 0 && b.len() > 0 && c.len() > 0 && a[0] == b[0] && b[0] == c[0] {
        lemma_code_cmp_transitive(a.drop_first(), b.drop_first(), c.drop_first());
    }
}

proof fn lemma_mul_order(x: int, y: int, p: int)
    requires
        p >= 1,
    ensures
        x <= y <==> x * p <= y * p,
        x < y <==> x * p < y * p,
        x == y <==> x * p == y * p,
{
    assert(x <= y <==> x * p <= y * p) by (nonlinear_arith)
        requires
            p >= 1,
    ;
    assert(x < y <==> x * p < y * p) by (nonlinear_arith)
        requires
            p >= 1,
    ;
}

proof fn lemma_value_cmp_facts(a: Amount, b: Amount)
    ensures
        value_cmp(a, b) == -value_cmp(b, a),
        -1 <= value_cmp(a, b) <= 1,
        value_cmp(a, b) == 0 && a.scale == b.scale ==> a == b,
{
    if value_cmp(a, b) == 0 && a.scale == b.scale {
        lemma_pow10_positive(a.scale as nat);
        lemma_mul_order(a.units as int, b.units as int, pow10(a.scale as nat));
    }
}

proof fn lemma_value_cmp_transitive(a: Amount, b: Amount, c: Amount)
    requires
        value_cmp(a, b) <= 0,
        value_cmp(b, c) <= 0,
    ensures
        value_cmp(a, c) <= 0,
        value_cmp(a, b) < 0 || value_cmp(b, c) < 0 ==> value_cmp(a, c) < 0,
{
    let pa = pow10(a.scale as nat);
    let pb = pow10(b.scale as nat);
    let pc = pow10(c.scale as nat);
    let (au, bu, cu) = (a.units as int, b.units as int, c.units as int);
    lemma_pow10_positive(a.scale as nat);
    lemma_pow10_positive(b.scale as nat);
    lemma_pow10_positive(c.scale as nat);
    lemma_mul_order(au * pb, bu * pa, pc);
    lemma_mul_order(bu * pc, cu * pb, pa);
    lemma_mul_order(au * pc, cu * pa, pb);
    assert(au * pb * pc == au * pc * pb) by (nonlinear_arith);
    assert(bu * pa * pc == bu * pc * pa) by (nonlinear_arith);
    assert(cu * pb * pa == cu * pa * pb) by (nonlinear_arith);
}

/// Compares `x * 10^d` with `y`.
fn compare_scaled(x: i64, d: usize, y: i64) -> (r: Ordering)
    ensures
        r == ordering_of(int_cmp(x * pow10(d as nat), y as int)),
{
    let mut acc: i128 = x as i128;
    let mut k: usize = 0;
    while k < d
        invariant
            k <= d,
            acc == x * pow10(k as nat),
            i64::MIN <= acc <= i64::MAX,
        decreases d - k,
    {
        proof {
            assert(pow10((k + 1) as nat) == 10 * pow10(k as nat));
            assert(x * (10 * pow10(k as nat)) == (x * pow10(k as nat)) * 10) by (nonlinear_arith);
        }
        acc = acc * 10;
        k = k + 1;
        if acc > i64::MAX as i128 || acc < i64::MIN as i128 {
            proof {
                let p = pow10((d - k) as nat);
                lemma_pow10_add(k as nat, (d - k) as nat);
                lemma_pow10_positive((d - k) as nat);
                assert(x * (pow10(k as nat) * p) == (x * pow10(k as nat)) * p) by (nonlinear_arith);
                if acc > 0 {
                    assert(acc * p >= acc) by (nonlinear_arith)
                        requires
                            acc > 0,
                            p >= 1,
                    ;
                } else {
                    assert(acc * p <= acc) by (nonlinear_arith)
                        requires
                            acc < 0,
                            p >= 1,
                    ;
                }
            }
            return if acc > 0 {
                Ordering::Greater
            } else {
                Ordering::Less
            };
        }
    }
    if acc < y as i128 {
        Ordering::Less
    } else if acc > y as i128 {
        Ordering::Greater
    } else {
        Ordering::Equal
    }
}

/// Compares `a` with `b` by value.
pub fn compare_amounts(a: Amount, b: Amount) -> (r: Ordering)
    ensures
        r == ordering_of(value_cmp(a, b)),
{
    if a.scale <= b.scale {
        let d = b.scale - a.scale;
        let r = compare_scaled(a.units, d, b.units);
        proof {
            lemma_pow10_add(a.scale as nat, d as nat);
            lemma_pow10_positive(a.scale as nat);
            let pa = pow10(a.scale as nat);
            let pd = pow10(d as nat);
            assert(a.units * (pa * pd) == (a.units * pd) * pa) by (nonlinear_arith);
            lemma_mul_order(a.units * pd, b.units as int, pa);
        }
        r
    } else {
        let d = a.scale - b.scale;
        let r = compare_scaled(b.units, d, a.units);
        proof {
            lemma_pow10_add(b.scale as nat, d as nat);
            lemma_pow10_positive(b.scale as nat);
            let pb = pow10(b.scale as nat);
            let pd = pow10(d as nat);
            assert(b.units * (pb * pd) == (b.units * pd) * pb) by (nonlinear_arith);
            lemma_mul_order(b.units * pd, a.units as int, pb);
            lemma_value_cmp_facts(a, b);
        }
        match r {
            Ordering::Less => Ordering::Greater,
            Ordering::Greater => Ordering::Less,
            Ordering::Equal => Ordering::Equal,
        }
    }
}

/// The ranking is reflexive: every candidate ranks equal to itself.
pub proof fn lemma_rank_reflexive(a: MatchView)
    ensures
        match_cmp(a, a) == 0,
{
    lemma_code_cmp_antisymmetric(a.code, a.code);
}

/// The ranking is antisymmetric: swapping two candidates swaps the outcome,
/// and two candidates rank equal only when they are the same candidate.
pub proof fn lemma_rank_antisymmetric(a: MatchView, b: MatchView)
    ensures
        match_cmp(a, b) == -match_cmp(b, a),
        match_cmp(a, b) == 0 ==> a == b,
        -1 <= match_cmp(a, b) <= 1,
{
    lemma_code_cmp_antisymmetric(a.code, b.code);
    lemma_value_cmp_facts(a.amount, b.amount);
}

/// The ranking is transitive, and strictly so where one step is strict.
pub proof fn lemma_rank_transitive(a: MatchView, b: MatchView, c: MatchView)
    requires
        match_cmp(a, b) <= 0,
        match_cmp(b, c) <= 0,
    ensures
        match_cmp(a, c) <= 0,
        match_cmp(a, b) < 0 || match_cmp(b, c) < 0 ==> match_cmp(a, c) < 0,
{
    lemma_rank_antisymmetric(a, b);
    lemma_rank_antisymmetric(b, c);
    lemma_rank_antisymmetric(a, c);
    if a.index == b.index && b.index == c.index && a.before == b.before && b.before == c.before {
        let (x, y, z) = (a.amount, b.amount, c.amount);
        lemma_value_cmp_transitive(x, y, z);
        if value_cmp(x, y) == 0 && value_cmp(y, z) == 0 {
            lemma_value_cmp_facts(x, y);
            lemma_value_cmp_facts(y, z);
            lemma_value_cmp_facts(x, z);
            lemma_value_cmp_transitive(z, y, x);
            if x.scale == y.scale && y.scale == z.scale {
                lemma_code_cmp_transitive(a.code, b.code, c.code);
            }
        }
    }
}

/// Lexical comparison of two codes.
pub fn compare_codes(a: &Vec<char>, b: &Vec<char>) -> (r: Ordering)
    ensures
        r == ordering_of(code_cmp(a@, b@)),
{
    let mut i: usize = 0;
    assert(a@.subrange(0, a@.len() as int) == a@);
    assert(b@.subrange(0, b@.len() as int) == b@);
    while i < a.len() && i < b.len() && a[i] == b[i]
        invariant
            i <= a@.len(),
            i <= b@.len(),
            code_cmp(a@, b@) == code_cmp(a@.subrange(i as int, a@.len() as int), b@.subrange(i as int, b@.len() as int)),
        decreases a@.len() - i,
    {
        let ghost ta = a@.subrange(i as int, a@.len() as int);
        let ghost tb = b@.subrange(i as int, b@.len() as int);
        assert(ta.drop_first() == a@.subrange(i + 1, a@.len() as int));
        assert(tb.drop_first() == b@.subrange(i + 1, b@.len() as int));
        i = i + 1;
    }
    let ghost ta = a@.subrange(i as int, a@.len() as int);
    let ghost tb = b@.subrange(i as int, b@.len() as int);
    if i == a.len() {
        if i == b.len() {
            Ordering::Equal
        } else {
            Ordering::Less
        }
    } else if i == b.len() {
        Ordering::Greater
    } else if a[i] < b[i] {
        assert(ta[0] == a@[i as int]);
        Ordering::Less
    } else {
        assert(ta[0] == a@[i as int] && tb[0] == b@[i as int]);
        Ordering::Greater
    }
}

fn compare_sizes(a: usize, b: usize) -> (r: Ordering)
    ensures
        r == ordering_of(int_cmp(a as int, b as int)),
{
    if a < b {
        Ordering::Less
    } else if a > b {
        Ordering::Greater
    } else {
        Ordering::Equal
    }
}

impl PriceTagMatch {
    pub fn new(amount: Amount, currency: &Currency, index: usize, before: bool) -> (r: PriceTagMatch)
        ensures
            r@ == (MatchView { amount, code: currency@, index: index as nat, before }),
    {
        PriceTagMatch { amount, currency: currency.copy(), index, before }
    }

    /// Ranks two candidates, step by step: index, then which side the amount
    /// stands on, then amount, then code.
    pub fn compare(&self, other: &PriceTagMatch) -> (r: Ordering)
        ensures
            r == ordering_of(match_cmp(self@, other@)),
    {
        if self.index != other.index {
            return compare_sizes(self.index, other.index);
        }
        if self.before != other.before {
            return if self.before {
                Ordering::Less
            } else {
                Ordering::Greater
            };
        }
        match compare_amounts(self.amount, other.amount) {
            Ordering::Equal => {},
            r => {
                return r;
            },
        }
        if self.amount.scale != other.amount.scale {
            return compare_sizes(self.amount.scale, other.amount.scale);
        }
        let a = crate::currency::chars_of(self.currency.code.as_str());
        let b = crate::currency::chars_of(other.currency.code.as_str());
        compare_codes(&a, &b)
    }
}

} // verus!

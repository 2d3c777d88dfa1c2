//! Reading price tags out of free text.
use vstd::prelude::*;
use crate::amount::{Amount, literal_amount, parse_literal};
use crate::currency::{Currency, chars_of};
use crate::ranking::{MatchView, PriceTagMatch, match_cmp, lemma_rank_antisymmetric, lemma_rank_transitive};
use crate::words::{find_space_end, find_space_start, find_word_end, find_word_start, is_space_char, space_end, space_start, starts_word, word_end, word_start};
use std::cmp::Ordering;

verus! {

/// An amount in a currency.
#[derive(Clone, Debug, PartialEq)]
pub struct PriceTag {
    pub currency: Currency,
    pub amount: Amount,
}

impl View for PriceTag {
    type V = (Seq<char>, Amount);

    open spec fn view(&self) -> (Seq<char>, Amount) {
        (self.currency@, self.amount)
    }
}

impl PriceTag {
    pub fn new(currency: &Currency, amount: Amount) -> (r: PriceTag)
        ensures
            r@ == (currency@, amount),
    {
        PriceTag { currency: currency.copy(), amount }
    }

    pub fn currency(&self) -> (r: &Currency)
        ensures
            r == &self.currency,
    {
        &self.currency
    }

    pub fn amount(&self) -> (r: Amount)
        ensures
            r == self.amount,
    {
        self.amount
    }
}

/// The word at `i` is `code`.
pub open spec fn code_at(s: Seq<char>, i: nat, code: Seq<char>) -> bool {
    starts_word(s, i) && s.subrange(i as int, word_end(s, i) as int) == code
}

/// The amount spelled by the word that follows the word at `i`.
pub open spec fn amount_after(s: Seq<char>, i: nat) -> Option<Amount> {
    let k = space_end(s, word_end(s, i));
    if k < s.len() {
        literal_amount(s.subrange(k as int, word_end(s, k) as int))
    } else {
        None
    }
}

/// The amount spelled by the word that precedes the word at `i`.
pub open spec fn amount_before(s: Seq<char>, i: nat) -> Option<Amount> {
    let e = space_start(s, i);
    if 0 < e {
        literal_amount(s.subrange(word_start(s, e) as int, e as int))
    } else {
        None
    }
}

/// `m` is a price tag of text `s`: a word equal to one of `codes`, with an
/// amount in the word right after it (`before`) or right before it.
pub open spec fn is_match(s: Seq<char>, codes: Seq<Seq<char>>, m: MatchView) -> bool {
    &&& codes.contains(m.code)
    &&& code_at(s, m.index, m.code)
    &&& if m.before {
        amount_after(s, m.index) == Some(m.amount)
    } else {
        amount_before(s, m.index) == Some(m.amount)
    }
}

/// Each candidate ranks strictly before those after it.
pub open spec fn strictly_ranked(ms: Seq<MatchView>) -> bool {
    forall|i: int, j: int| 0 <= i < j < ms.len() ==> match_cmp(#[trigger] ms[i], #[trigger] ms[j]) < 0
}

pub open spec fn match_views(v: Seq<PriceTagMatch>) -> Seq<MatchView> {
    v.map_values(|m: PriceTagMatch| m@)
}

pub open spec fn codes_of(cs: Seq<Currency>) -> Seq<Seq<char>> {
    cs.map_values(|c: Currency| c@)
}

/// Puts `m` into the ranked `v` at its place, unless `v` holds it already.
fn insert_ranked(v: &mut Vec<PriceTagMatch>, m: PriceTagMatch)
    requires
        strictly_ranked(match_views(old(v)@)),
    ensures
        strictly_ranked(match_views(final(v)@)),
        forall|x: MatchView| match_views(final(v)@).contains(x) <==> (match_views(old(v)@).contains(x) || x == m@),
{
    let ghost old_views = match_views(v@);
    let mut p: usize = 0;
    while p < v.len() && matches!(v[p].compare(&m), Ordering::Less)
        invariant
            p <= v@.len(),
            v@ == old(v)@,
            forall|k: int| 0 <= k < p ==> match_cmp(#[trigger] match_views(v@)[k], m@) < 0,
        decreases v@.len() - p,
    {
        p = p + 1;
    }
    if p < v.len() && matches!(v[p].compare(&m), Ordering::Equal) {
        proof {
            lemma_rank_antisymmetric(v@[p as int]@, m@);
            assert(match_views(v@)[p as int] == m@);
        }
        return;
    }
    proof {
        if p < v@.len() {
            lemma_rank_antisymmetric(v@[p as int]@, m@);
        }
    }
    v.insert(p, m);
    proof {
        let nv = match_views(v@);
        assert(nv == old_views.insert(p as int, m@));
        assert forall|i: int, j: int| 0 <= i < j < nv.len() implies match_cmp(#[trigger] nv[i], #[trigger] nv[j]) < 0 by {
            if j == p {
                assert(nv[i] == old_views[i]);
            } else if i == p {
                assert(nv[j] == old_views[j - 1]);
                if j - 1 > p {
                    lemma_rank_transitive(m@, old_views[p as int], old_views[j - 1]);
                }
            } else if i < p && j > p {
                assert(match_cmp(old_views[i], m@) < 0);
                assert(match_cmp(m@, old_views[j - 1]) < 0) by {
                    if j - 1 > p {
                        lemma_rank_transitive(m@, old_views[p as int], old_views[j - 1]);
                    }
                }
                lemma_rank_transitive(old_views[i], m@, old_views[j - 1]);
            } else if i > p {
                assert(nv[i] == old_views[i - 1] && nv[j] == old_views[j - 1]);
            } else {
                assert(nv[i] == old_views[i] && nv[j] == old_views[j]);
            }
        }
        assert forall|x: MatchView| nv.contains(x) <==> (old_views.contains(x) || x == m@) by {
            if nv.contains(x) {
                let k = choose|k: int| 0 <= k < nv.len() && nv[k] == x;
                if k < p {
                    assert(old_views[k] == x);
                } else if k > p {
                    assert(old_views[k - 1] == x);
                }
            }
            if old_views.contains(x) {
                let k = choose|k: int| 0 <= k < old_views.len() && old_views[k] == x;
                if k < p {
                    assert(nv[k] == x);
                } else {
                    assert(nv[k + 1] == x);
                }
            }
            if x == m@ {
                assert(nv[p as int] == x);
            }
        }
    }
}

/// `m` is a price tag of text `s` for the currency code `code`.
pub open spec fn is_match_for(s: Seq<char>, code: Seq<char>, m: MatchView) -> bool {
    &&& m.code == code
    &&& code_at(s, m.index, m.code)
    &&& if m.before {
        amount_after(s, m.index) == Some(m.amount)
    } else {
        amount_before(s, m.index) == Some(m.amount)
    }
}

/// Whether `s[from..to]` is `code`.
fn span_equals(s: &Vec<char>, from: usize, to: usize, code: &Vec<char>) -> (r: bool)
    requires
        from <= to <= s@.len(),
    ensures
        r == (s@.subrange(from as int, to as int) == code@),
{
    if to - from != code.len() {
        return false;
    }
    let ghost t = s@.subrange(from as int, to as int);
    let mut i: usize = 0;
    while i < code.len()
        invariant
            from <= to <= s@.len(),
            t == s@.subrange(from as int, to as int),
            t.len() == code@.len(),
            i <= code@.len(),
            t.subrange(0, i as int) == code@.subrange(0, i as int),
        decreases code@.len() - i,
    {
        if s[from + i] != code[i] {
            assert(t[i as int] != code@[i as int]);
            return false;
        }
        assert(t.subrange(0, i + 1) == t.subrange(0, i as int).push(t[i as int]));
        assert(code@.subrange(0, i + 1) == code@.subrange(0, i as int).push(code@[i as int]));
        i = i + 1;
    }
    assert(t == t.subrange(0, i as int));
    assert(code@ == code@.subrange(0, i as int));
    true
}

/// The amounts after and before the word at `i`, where that word is `code`.
fn amounts_at(s: &Vec<char>, code: &Vec<char>, i: usize) -> (r: (Option<Amount>, Option<Amount>))
    requires
        i < s@.len(),
    ensures
        r.0 == (if code_at(s@, i as nat, code@) {
            amount_after(s@, i as nat)
        } else {
            None
        }),
        r.1 == (if code_at(s@, i as nat, code@) {
            amount_before(s@, i as nat)
        } else {
            None
        }),
{
    if is_space_char(s[i]) || (i > 0 && !is_space_char(s[i - 1])) {
        return (None, None);
    }
    let we = find_word_end(s, i);
    if !span_equals(s, i, we, code) {
        return (None, None);
    }
    let k = find_space_end(s, we);
    let after = if k < s.len() {
        let ke = find_word_end(s, k);
        parse_literal(s, k, ke)
    } else {
        None
    };
    let e = find_space_start(s, i);
    let before = if e > 0 {
        let ws = find_word_start(s, e);
        parse_literal(s, ws, e)
    } else {
        None
    };
    (after, before)
}

/// Every price tag of `text` in one of `candidates`, ranked best first, each once.
pub fn ranked_matches(candidates: &[Currency], text: &str) -> (r: Vec<PriceTagMatch>)
    ensures
        strictly_ranked(match_views(r@)),
        forall|m: MatchView|
            match_views(r@).contains(m) <==> is_match(text@, codes_of(candidates@), m),
{
    let s = chars_of(text);
    let ghost codes = codes_of(candidates@);
    let mut out: Vec<PriceTagMatch> = Vec::new();
    let mut ci: usize = 0;
    while ci < candidates.len()
        invariant
            s@ == text@,
            codes == codes_of(candidates@),
            ci <= candidates@.len(),
            strictly_ranked(match_views(out@)),
            forall|m: MatchView|
                match_views(out@).contains(m) <==> (codes.subrange(0, ci as int).contains(m.code)
                    && is_match_for(s@, m.code, m)),
        decreases candidates@.len() - ci,
    {
        let code = chars_of(candidates[ci].code.as_str());
        let mut i: usize = 0;
        while i < s.len()
            invariant
                s@ == text@,
                codes == codes_of(candidates@),
                ci < candidates@.len(),
                code@ == codes[ci as int],
                i <= s@.len(),
                strictly_ranked(match_views(out@)),
                forall|m: MatchView|
                    match_views(out@).contains(m) <==> ((codes.subrange(0, ci as int).contains(m.code)
                        || (m.code == code@ && m.index < i)) && is_match_for(s@, m.code, m)),
            decreases s@.len() - i,
        {
            let (after, before) = amounts_at(&s, &code, i);
            let ghost prev = match_views(out@);
            if let Some(a) = after {
                insert_ranked(&mut out, PriceTagMatch::new(a, &candidates[ci], i, true));
            }
            let ghost mid = match_views(out@);
            if let Some(b) = before {
                insert_ranked(&mut out, PriceTagMatch::new(b, &candidates[ci], i, false));
            }
            assert forall|m: MatchView|
                match_views(out@).contains(m) <==> ((codes.subrange(0, ci as int).contains(m.code)
                    || (m.code == code@ && m.index < i + 1)) && is_match_for(s@, m.code, m)) by {
                if m.code == code@ && m.index == i {
                    if is_match_for(s@, m.code, m) {
                        if m.before {
                            assert(mid.contains(m));
                        }
                    }
                }
            }
            i = i + 1;
        }
        proof {
            let next = codes.subrange(0, ci + 1);
            let before_ci = codes.subrange(0, ci as int);
            assert forall|x: Seq<char>| next.contains(x) <==> (before_ci.contains(x) || x == code@) by {
                if next.contains(x) {
                    let k = choose|k: int| 0 <= k < next.len() && next[k] == x;
                    if k < ci {
                        assert(before_ci[k] == x);
                    }
                }
                if before_ci.contains(x) {
                    let k = choose|k: int| 0 <= k < before_ci.len() && before_ci[k] == x;
                    assert(next[k] == x);
                }
                if x == code@ {
                    assert(next[ci as int] == x);
                }
            }
            assert forall|m: MatchView| #[trigger] is_match_for(s@, m.code, m) implies m.index < s@.len() by {}
        }
        ci = ci + 1;
    }
    assert(codes.subrange(0, ci as int) == codes);
    out
}

pub open spec fn tags_of_matches(ms: Seq<MatchView>) -> Seq<(Seq<char>, Amount)> {
    ms.map_values(|m: MatchView| (m.code, m.amount))
}

pub open spec fn tag_views(r: Seq<PriceTag>) -> Seq<(Seq<char>, Amount)> {
    r.map_values(|t: PriceTag| t@)
}

/// The price tags of `text` in the `candidates` currencies, best first: the
/// tags of every candidate match, strictly ranked.
pub fn iso(candidates: &[Currency], text: &str) -> (r: Vec<PriceTag>)
    ensures
        exists|ms: Seq<MatchView>|
            {
                &&& strictly_ranked(ms)
                &&& forall|m: MatchView| ms.contains(m) <==> is_match(text@, codes_of(candidates@), m)
                &&& tag_views(r@) == #[trigger] tags_of_matches(ms)
            },
{
    let ms = ranked_matches(candidates, text);
    let mut r: Vec<PriceTag> = Vec::new();
    let mut i: usize = 0;
    while i < ms.len()
        invariant
            i <= ms@.len(),
            r@.len() == i,
            tag_views(r@) == tags_of_matches(match_views(ms@)).subrange(0, i as int),
        decreases ms@.len() - i,
    {
        let t = PriceTag { currency: ms[i].currency.copy(), amount: ms[i].amount };
        assert(t@ == tags_of_matches(match_views(ms@))[i as int]);
        let ghost old_r = r@;
        r.push(t);
        assert forall|k: int| 0 <= k < i implies tag_views(r@)[k] == tag_views(old_r)[k] by {
            assert(r@[k] == old_r[k]);
        }
        assert(tag_views(r@) =~= tags_of_matches(match_views(ms@)).subrange(0, i + 1));
        i = i + 1;
    }
    assert(tag_views(r@) =~= tags_of_matches(match_views(ms@)));
    r
}

/// Two strictly ranked sequences with the same candidates are the same
/// sequence: ranking a set of candidates gives one order only.
pub proof fn lemma_ranking_unique(a: Seq<MatchView>, b: Seq<MatchView>)
    requires
        strictly_ranked(a),
        strictly_ranked(b),
        forall|x: MatchView| a.contains(x) <==> b.contains(x),
    ensures
        a == b,
    decreases a.len(),
{
    if a.len() == 0 {
        if b.len() > 0 {
            assert(b.contains(b[0]));
        }
        return;
    }
    assert(a.contains(a[0]));
    assert(b.len() > 0);
    assert(b.contains(b[0]));
    let j = choose|j: int| 0 <= j < b.len() && b[j] == a[0];
    let k = choose|k: int| 0 <= k < a.len() && a[k] == b[0];
    if j > 0 && k > 0 {
        assert(match_cmp(b[0], b[j]) < 0);
        assert(match_cmp(a[0], a[k]) < 0);
        lemma_rank_antisymmetric(a[0], b[0]);
    } else if j > 0 {
        assert(match_cmp(b[0], b[j]) < 0);
        lemma_rank_antisymmetric(a[0], a[0]);
    } else if k > 0 {
        assert(match_cmp(a[0], a[k]) < 0);
        lemma_rank_antisymmetric(b[0], b[0]);
    }
    assert(a[0] == b[0]);
    let ta = a.drop_first();
    let tb = b.drop_first();
    assert forall|x: MatchView| ta.contains(x) <==> tb.contains(x) by {
        if ta.contains(x) {
            let i = choose|i: int| 0 <= i < ta.len() && ta[i] == x;
            assert(a[i + 1] == x);
            assert(match_cmp(a[0], a[i + 1]) < 0);
            lemma_rank_antisymmetric(a[0], x);
            assert(b.contains(x));
            let l = choose|l: int| 0 <= l < b.len() && b[l] == x;
            assert(l != 0);
            assert(tb[l - 1] == x);
        }
        if tb.contains(x) {
            let i = choose|i: int| 0 <= i < tb.len() && tb[i] == x;
            assert(b[i + 1] == x);
            assert(match_cmp(b[0], b[i + 1]) < 0);
            lemma_rank_antisymmetric(b[0], x);
            assert(a.contains(x));
            let l = choose|l: int| 0 <= l < a.len() && a[l] == x;
            assert(l != 0);
            assert(ta[l - 1] == x);
        }
    }
    assert forall|i: int, j: int| 0 <= i < j < ta.len() implies match_cmp(#[trigger] ta[i], #[trigger] ta[j]) < 0 by {
        assert(ta[i] == a[i + 1] && ta[j] == a[j + 1]);
    }
    assert forall|i: int, j: int| 0 <= i < j < tb.len() implies match_cmp(#[trigger] tb[i], #[trigger] tb[j]) < 0 by {
        assert(tb[i] == b[i + 1] && tb[j] == b[j + 1]);
    }
    lemma_ranking_unique(ta, tb);
    assert(a == seq![a[0]] + ta);
    assert(b == seq![b[0]] + tb);
}

/// Ranking is the same whether or not other candidates are considered, as long
/// as only one of them matches: the ranked matches over `codes` equal the
/// ranked matches over that one code alone.
pub proof fn lemma_candidates_consistent(
    s: Seq<char>,
    codes: Seq<Seq<char>>,
    code: Seq<char>,
    all: Seq<MatchView>,
    one: Seq<MatchView>,
)
    requires
        codes.contains(code),
        forall|m: MatchView| is_match(s, codes, m) ==> m.code == code,
        strictly_ranked(all),
        forall|m: MatchView| all.contains(m) <==> is_match(s, codes, m),
        strictly_ranked(one),
        forall|m: MatchView| one.contains(m) <==> is_match(s, seq![code], m),
    ensures
        all == one,
{
    assert forall|m: MatchView| all.contains(m) <==> one.contains(m) by {
        if is_match(s, seq![code], m) {
            assert(seq![code][0] == m.code);
        }
        if is_match(s, codes, m) {
            assert(seq![code][0] == code);
        }
    }
    lemma_ranking_unique(all, one);
}

} // verus!

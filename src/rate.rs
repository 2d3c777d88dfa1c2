//! Exchange rates, their freshness, and the rows they are stored as.
use vstd::prelude::*;
use crate::amount::Amount;
use crate::currency::Currency;

verus! {

/// What a rate is: source and destination codes, when it was observed, the
/// rate (destination units for one source unit), who gave it, and until when it holds.
pub struct RateView {
    pub src: Seq<char>,
    pub dst: Seq<char>,
    pub date: i64,
    pub rate: Amount,
    pub provider: Seq<char>,
    pub cache_until: Option<i64>,
}

/// One observed exchange rate. Times are seconds since the Unix epoch.
#[derive(Clone, Debug, PartialEq)]
pub struct Rate {
    pub src: Currency,
    pub dst: Currency,
    pub date: i64,
    pub rate: Amount,
    pub provider: String,
    pub cache_until: Option<i64>,
}

impl View for Rate {
    type V = RateView;

    open spec fn view(&self) -> RateView {
        RateView {
            src: self.src@,
            dst: self.dst@,
            date: self.date,
            rate: self.rate,
            provider: self.provider@,
            cache_until: self.cache_until,
        }
    }
}

/// The rate from a currency to itself: one, from no provider, with no expiry.
pub open spec fn parity_view(c: Seq<char>) -> RateView {
    RateView {
        src: c,
        dst: c,
        date: 0,
        rate: Amount { units: 1, scale: 0 },
        provider: Seq::empty(),
        cache_until: None,
    }
}

/// A rate is fresh at `now` when it holds until strictly after `now`. The
/// rate from a currency to itself is always fresh.
pub open spec fn is_fresh(r: RateView, now: i64) -> bool {
    r.src == r.dst || match r.cache_until {
        Some(t) => t > now,
        None => false,
    }
}

pub open spec fn rate_views(rs: Seq<Rate>) -> Seq<RateView> {
    rs.map_values(|r: Rate| r@)
}

/// The rates of `rs` fresh at `now`, in their order.
pub open spec fn fresh_of(rs: Seq<RateView>, now: i64) -> Seq<RateView>
    decreases rs.len(),
{
    if rs.len() == 0 {
        Seq::empty()
    } else if is_fresh(rs.last(), now) {
        fresh_of(rs.drop_last(), now).push(rs.last())
    } else {
        fresh_of(rs.drop_last(), now)
    }
}

/// The rates of `rs` not fresh at `now`, in their order.
pub open spec fn stale_of(rs: Seq<RateView>, now: i64) -> Seq<RateView>
    decreases rs.len(),
{
    if rs.len() == 0 {
        Seq::empty()
    } else if is_fresh(rs.last(), now) {
        stale_of(rs.drop_last(), now)
    } else {
        stale_of(rs.drop_last(), now).push(rs.last())
    }
}

impl Rate {
    pub fn new(
        src: &Currency,
        dst: &Currency,
        date: i64,
        rate: Amount,
        provider: &str,
        cache_until: Option<i64>,
    ) -> (r: Rate)
        ensures
            r@ == (RateView { src: src@, dst: dst@, date, rate, provider: provider@, cache_until }),
    {
        Rate { src: src.copy(), dst: dst.copy(), date, rate, provider: provider.to_string(), cache_until }
    }

    /// The rate from `c` to itself.
    pub fn parity(c: &Currency) -> (r: Rate)
        ensures
            r@ == parity_view(c@),
    {
        let provider = String::new();
        assert(provider@ == Seq::<char>::empty());
        Rate {
            src: c.copy(),
            dst: c.copy(),
            date: 0,
            rate: Amount { units: 1, scale: 0 },
            provider,
            cache_until: None,
        }
    }

    pub fn src(&self) -> (r: &Currency)
        ensures
            r == &self.src,
    {
        &self.src
    }

    pub fn dst(&self) -> (r: &Currency)
        ensures
            r == &self.dst,
    {
        &self.dst
    }

    pub fn provider(&self) -> (r: &str)
        ensures
            r@ == self.provider@,
    {
        self.provider.as_str()
    }

    pub fn cache_until(&self) -> (r: Option<i64>)
        ensures
            r == self.cache_until,
    {
        self.cache_until
    }

    /// Whether the rate still holds at `now`: its expiry is strictly after
    /// `now`, or it is a rate from a currency to itself, which always holds.
    pub fn uptodate(&self, now: i64) -> (r: bool)
        ensures
            r == is_fresh(self@, now),
    {
        if self.src.same_as(&self.dst) {
            return true;
        }
        match self.cache_until {
            Some(t) => t > now,
            None => false,
        }
    }
}

/// Splits `rates` into those fresh at `now` and the others, keeping their
/// order. A rate from a currency to itself counts as fresh whatever its expiry;
/// the cache never stores one.
pub fn partition_by_expiry(rates: Vec<Rate>, now: i64) -> (r: (Vec<Rate>, Vec<Rate>))
    ensures
        rate_views(r.0@) == fresh_of(rate_views(rates@), now),
        rate_views(r.1@) == stale_of(rate_views(rates@), now),
{
    let ghost all = rate_views(rates@);
    let n = rates.len();
    let mut rest = rates;
    let mut fresh: Vec<Rate> = Vec::new();
    let mut stale: Vec<Rate> = Vec::new();
    let mut i: usize = 0;
    while i < n
        invariant
            n == all.len(),
            i <= n,
            rest@.len() == n - i,
            rate_views(rest@) == all.subrange(i as int, n as int),
            rate_views(fresh@) == fresh_of(all.subrange(0, i as int), now),
            rate_views(stale@) == stale_of(all.subrange(0, i as int), now),
        decreases n - i,
    {
        assert(rate_views(rest@)[0] == all[i as int]);
        let ghost old_rest = rest@;
        let r = rest.remove(0);
        assert(rate_views(rest@) =~= all.subrange(i + 1, n as int)) by {
            assert forall|k: int| 0 <= k < rest@.len() implies rate_views(rest@)[k] == all[i + 1 + k] by {
                assert(rest@[k] == old_rest[k + 1]);
                assert(rate_views(old_rest)[k + 1] == all.subrange(i as int, n as int)[k + 1]);
            }
        }
        let ghost p = all.subrange(0, i + 1);
        assert(p.drop_last() == all.subrange(0, i as int));
        assert(p.last() == r@);
        if r.uptodate(now) {
            let ghost old_f = fresh@;
            fresh.push(r);
            assert(rate_views(fresh@) =~= rate_views(old_f).push(r@)) by {
                assert forall|k: int| 0 <= k < old_f.len() implies fresh@[k] == old_f[k] by {}
            }
        } else {
            let ghost old_s = stale@;
            stale.push(r);
            assert(rate_views(stale@) =~= rate_views(old_s).push(r@)) by {
                assert forall|k: int| 0 <= k < old_s.len() implies stale@[k] == old_s[k] by {}
            }
        }
        i = i + 1;
    }
    assert(all.subrange(0, n as int) == all);
    (fresh, stale)
}

/// Each rate lands in exactly one of the two parts: fresh ones in the first,
/// the others in the second, and the parts hold as many rates as there were.
pub proof fn lemma_partition_exact(rs: Seq<RateView>, now: i64)
    ensures
        fresh_of(rs, now).len() + stale_of(rs, now).len() == rs.len(),
        forall|k: int| 0 <= k < fresh_of(rs, now).len() ==> is_fresh(#[trigger] fresh_of(rs, now)[k], now),
        forall|k: int| 0 <= k < stale_of(rs, now).len() ==> !is_fresh(#[trigger] stale_of(rs, now)[k], now),
        forall|x: RateView| rs.contains(x) ==> (fresh_of(rs, now).contains(x) <==> is_fresh(x, now)),
        forall|x: RateView| rs.contains(x) ==> (stale_of(rs, now).contains(x) <==> !is_fresh(x, now)),
    decreases rs.len(),
{
    if rs.len() > 0 {
        let init = rs.drop_last();
        lemma_partition_exact(init, now);
        let f = fresh_of(rs, now);
        let st = stale_of(rs, now);
        assert forall|x: RateView| rs.contains(x) implies (f.contains(x) <==> is_fresh(x, now)) && (st.contains(x) <==> !is_fresh(x, now)) by {
            let k = choose|k: int| 0 <= k < rs.len() && rs[k] == x;
            if k < rs.len() - 1 {
                assert(init[k] == x);
                assert(init.contains(x));
            }
            if f.contains(x) {
                let j = choose|j: int| 0 <= j < f.len() && f[j] == x;
            }
            if st.contains(x) {
                let j = choose|j: int| 0 <= j < st.len() && st[j] == x;
            }
            if is_fresh(x, now) {
                if k == rs.len() - 1 {
                    assert(f[f.len() - 1] == x);
                } else {
                    let j = choose|j: int| 0 <= j < fresh_of(init, now).len() && fresh_of(init, now)[j] == x;
                    assert(f[j] == x);
                }
            } else {
                if k == rs.len() - 1 {
                    assert(st[st.len() - 1] == x);
                } else {
                    let j = choose|j: int| 0 <= j < stale_of(init, now).len() && stale_of(init, now)[j] == x;
                    assert(st[j] == x);
                }
            }
        }
    }
}

} // verus!

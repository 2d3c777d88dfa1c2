//! Currencies, known by their code.
use vstd::prelude::*;

verus! {

/// A currency, matched in text by its code (for instance `USD`).
#[derive(Clone, Debug, PartialEq, Eq)]
pub struct Currency {
    pub code: String,
}

impl View for Currency {
    type V = Seq<char>;

    open spec fn view(&self) -> Seq<char> {
        self.code@
    }
}

/// The characters of `s`, one by one.
pub fn chars_of(s: &str) -> (r: Vec<char>)
    ensures
        r@ == s@,
{
    let n = s.unicode_len();
    let mut r: Vec<char> = Vec::new();
    let mut i: usize = 0;
    while i < n
        invariant
            n == s@.len(),
            i <= n,
            r@ == s@.subrange(0, i as int),
        decreases n - i,
    {
        r.push(s.get_char(i));
        assert(r@ == s@.subrange(0, i + 1));
        i = i + 1;
    }
    assert(r@ == s@);
    r
}

/// Whether two character sequences are equal.
pub fn same_chars(a: &Vec<char>, b: &Vec<char>) -> (r: bool)
    ensures
        r == (a@ == b@),
{
    if a.len() != b.len() {
        return false;
    }
    let mut i: usize = 0;
    while i < a.len()
        invariant
            a@.len() == b@.len(),
            i <= a@.len(),
            a@.subrange(0, i as int) == b@.subrange(0, i as int),
        decreases a.len() - i,
    {
        if a[i] != b[i] {
            assert(a@[i as int] != b@[i as int]);
            return false;
        }
        assert(a@.subrange(0, i + 1) == b@.subrange(0, i + 1)) by {
            assert(a@.subrange(0, i + 1) == a@.subrange(0, i as int).push(a@[i as int]));
            assert(b@.subrange(0, i + 1) == b@.subrange(0, i as int).push(b@[i as int]));
        }
        i = i + 1;
    }
    assert(a@ == a@.subrange(0, i as int));
    assert(b@ == b@.subrange(0, i as int));
    true
}

impl Currency {
    pub fn new(code: &str) -> (r: Currency)
        ensures
            r@ == code@,
    {
        Currency { code: code.to_string() }
    }

    pub fn code(&self) -> (r: &str)
        ensures
            r@ == self@,
    {
        self.code.as_str()
    }

    /// A copy of this currency.
    pub fn copy(&self) -> (r: Currency)
        ensures
            r@ == self@,
    {
        Currency { code: self.code.clone() }
    }

    /// Whether both currencies have the same code.
    pub fn same_as(&self, other: &Currency) -> (r: bool)
        ensures
            r == (self@ == other@),
    {
        let a = chars_of(self.code.as_str());
        let b = chars_of(other.code.as_str());
        same_chars(&a, &b)
    }
}

} // verus!

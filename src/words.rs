//! Words of a text: runs of characters between spaces.
use vstd::prelude::*;

verus! {

pub open spec fn is_space(c: char) -> bool {
    c == ' ' || c == '\t' || c == '\n' || c == '\r'
}

/// The first space at or after `i`, or the end of `s`.
pub open spec fn word_end(s: Seq<char>, i: nat) -> nat
    decreases s.len() - i,
{
    if i >= s.len() || is_space(s[i as int]) {
        i
    } else {
        word_end(s, i + 1)
    }
}

/// The first character that is no space at or after `i`, or the end of `s`.
pub open spec fn space_end(s: Seq<char>, i: nat) -> nat
    decreases s.len() - i,
{
    if i >= s.len() || !is_space(s[i as int]) {
        i
    } else {
        space_end(s, i + 1)
    }
}

/// Where the word that ends at `e` starts.
pub open spec fn word_start(s: Seq<char>, e: nat) -> nat
    decreases e,
{
    if e == 0 || e > s.len() || is_space(s[e - 1]) {
        e
    } else {
        word_start(s, (e - 1) as nat)
    }
}

/// Where the spaces that end at `e` start.
pub open spec fn space_start(s: Seq<char>, e: nat) -> nat
    decreases e,
{
    if e == 0 || e > s.len() || !is_space(s[e - 1]) {
        e
    } else {
        space_start(s, (e - 1) as nat)
    }
}

/// A word starts at `i`.
pub open spec fn starts_word(s: Seq<char>, i: nat) -> bool {
    i < s.len() && !is_space(s[i as int]) && (i == 0 || is_space(s[i - 1]))
}

pub fn is_space_char(c: char) -> (r: bool)
    ensures
        r == is_space(c),
{
    c == ' ' || c == '\t' || c == '\n' || c == '\r'
}

pub fn find_word_end(s: &Vec<char>, i: usize) -> (r: usize)
    requires
        i <= s@.len(),
    ensures
        r as nat == word_end(s@, i as nat),
        i <= r <= s@.len(),
{
    let mut j = i;
    while j < s.len() && !is_space_char(s[j])
        invariant
            i <= j <= s@.len(),
            word_end(s@, j as nat) == word_end(s@, i as nat),
        decreases s@.len() - j,
    {
        j = j + 1;
    }
    j
}

pub fn find_space_end(s: &Vec<char>, i: usize) -> (r: usize)
    requires
        i <= s@.len(),
    ensures
        r as nat == space_end(s@, i as nat),
        i <= r <= s@.len(),
{
    let mut j = i;
    while j < s.len() && is_space_char(s[j])
        invariant
            i <= j <= s@.len(),
            space_end(s@, j as nat) == space_end(s@, i as nat),
        decreases s@.len() - j,
    {
        j = j + 1;
    }
    j
}

pub fn find_word_start(s: &Vec<char>, e: usize) -> (r: usize)
    requires
        e <= s@.len(),
    ensures
        r as nat == word_start(s@, e as nat),
        r <= e,
{
    let mut j = e;
    while j > 0 && !is_space_char(s[j - 1])
        invariant
            j <= e <= s@.len(),
            word_start(s@, j as nat) == word_start(s@, e as nat),
        decreases j,
    {
        j = j - 1;
    }
    j
}

pub fn find_space_start(s: &Vec<char>, e: usize) -> (r: usize)
    requires
        e <= s@.len(),
    ensures
        r as nat == space_start(s@, e as nat),
        r <= e,
{
    let mut j = e;
    while j > 0 && is_space_char(s[j - 1])
        invariant
            j <= e <= s@.len(),
            space_start(s@, j as nat) == space_start(s@, e as nat),
        decreases j,
    {
        j = j - 1;
    }
    j
}

} // verus!

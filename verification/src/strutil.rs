//! Character-level string helpers.
//!
//! Paths, modes and header values arrive as strings; the components compare
//! and slice them character by character so that every step is verified.

use vstd::prelude::*;
use vstd::string::StrSliceExecFns;

verus! {

/// Whether two string slices hold the same characters.
pub fn str_eq(a: &str, b: &str) -> (r: bool)
    ensures
        r == (a@ == b@),
{
    let an = a.unicode_len();
    let bn = b.unicode_len();
    if an != bn {
        assert(a@ != b@) by {
            assert(a@.len() != b@.len());
        }
        return false;
    }
    let mut i: usize = 0;
    while i < an
        invariant
            an == a@.len(),
            an == b@.len(),
            i <= an,
            forall|j: int| 0 <= j < i ==> a@[j] == b@[j],
        decreases an - i,
    {
        if a.get_char(i) != b.get_char(i) {
            return false;
        }
        i = i + 1;
    }
    proof {
        assert(a@ =~= b@);
    }
    true
}

/// Whether `s` begins with the characters of `prefix`.
pub fn str_starts_with(s: &str, prefix: &str) -> (r: bool)
    ensures
        r == (prefix@.len() <= s@.len() && s@.subrange(0, prefix@.len() as int) == prefix@),
{
    let sn = s.unicode_len();
    let pn = prefix.unicode_len();
    if pn > sn {
        return false;
    }
    let mut i: usize = 0;
    while i < pn
        invariant
            sn == s@.len(),
            pn == prefix@.len(),
            pn <= sn,
            i <= pn,
            forall|j: int| 0 <= j < i ==> s@[j] == prefix@[j],
        decreases pn - i,
    {
        if s.get_char(i) != prefix.get_char(i) {
            assert(s@.subrange(0, pn as int)[i as int] != prefix@[i as int]);
            return false;
        }
        i = i + 1;
    }
    proof {
        assert(s@.subrange(0, pn as int) =~= prefix@);
    }
    true
}

/// The position one past the last occurrence of `c` in `s`, or 0 when `c`
/// does not occur: everything from that position on lies after every `c`.
pub open spec fn spec_after_last(s: Seq<char>, c: char) -> int
    decreases s.len(),
{
    if s.len() == 0 {
        0
    } else if s[s.len() - 1] == c {
        s.len() as int
    } else {
        spec_after_last(s.drop_last(), c)
    }
}

/// `spec_after_last` always lands inside the string.
pub proof fn lemma_after_last_in_range(s: Seq<char>, c: char)
    ensures
        0 <= spec_after_last(s, c) <= s.len(),
    decreases s.len(),
{
    if s.len() > 0 && s[s.len() - 1] != c {
        lemma_after_last_in_range(s.drop_last(), c);
    }
}

/// Index one past the last occurrence of `c`, or 0 when `c` is absent.
pub fn after_last(s: &str, c: char) -> (r: usize)
    ensures
        r == spec_after_last(s@, c),
{
    let n = s.unicode_len();
    let mut i: usize = n;
    proof {
        assert(s@.subrange(0, n as int) =~= s@);
    }
    while i > 0
        invariant
            n == s@.len(),
            i <= n,
            spec_after_last(s@, c) == spec_after_last(s@.subrange(0, i as int), c),
        decreases i,
    {
        if s.get_char(i - 1) == c {
            proof {
                assert(s@.subrange(0, i as int)[i - 1] == c);
            }
            return i;
        }
        proof {
            let sub = s@.subrange(0, i as int);
            assert(sub.drop_last() =~= s@.subrange(0, i - 1));
        }
        i = i - 1;
    }
    proof {
        assert(s@.subrange(0, 0) =~= Seq::<char>::empty());
    }
    0
}

/// Whether some element of `items` holds exactly the characters `s`.
pub open spec fn spec_contains_str(items: Seq<String>, s: Seq<char>) -> bool {
    exists|i: int| 0 <= i < items.len() && items[i]@ == s
}

/// Whether `items` holds a string equal to `s`.
pub fn contains_str(items: &Vec<String>, s: &str) -> (r: bool)
    ensures
        r == spec_contains_str(items@, s@),
{
    let mut i: usize = 0;
    while i < items.len()
        invariant
            i <= items@.len(),
            forall|j: int| 0 <= j < i ==> items@[j]@ != s@,
        decreases items@.len() - i,
    {
        if str_eq(items[i].as_str(), s) {
            return true;
        }
        i = i + 1;
    }
    false
}

/// Whether `s` begins with one of the prefixes in `prefixes`.
pub open spec fn spec_has_prefix_in(prefixes: Seq<String>, s: Seq<char>) -> bool {
    exists|i: int|
        0 <= i < prefixes.len() && prefixes[i]@.len() <= s.len() && s.subrange(
            0,
            prefixes[i]@.len() as int,
        ) == prefixes[i]@
}

/// Whether `s` begins with one of the given prefixes.
pub fn has_prefix_in(prefixes: &Vec<String>, s: &str) -> (r: bool)
    ensures
        r == spec_has_prefix_in(prefixes@, s@),
{
    let mut i: usize = 0;
    while i < prefixes.len()
        invariant
            i <= prefixes@.len(),
            forall|j: int|
                0 <= j < i ==> !(prefixes@[j]@.len() <= s@.len() && s@.subrange(
                    0,
                    prefixes@[j]@.len() as int,
                ) == prefixes@[j]@),
        decreases prefixes@.len() - i,
    {
        if str_starts_with(s, prefixes[i].as_str()) {
            return true;
        }
        i = i + 1;
    }
    false
}

} // verus!

//! Version normalization and membership testing.
//!
//! A requested version may carry a `+`-delimited build-metadata suffix.
//! Before the version is looked up in a registry's listing the suffix is
//! stripped; the listing itself is kept as the registry reported it.

use vstd::prelude::*;

use crate::text::spec_contains_string;
use crate::text::str_eq;

verus! {

/// The index of the first `+` in `s`, or `s.len()` when there is none.
pub open spec fn first_plus_index(s: Seq<char>) -> int
    decreases s.len(),
{
    if s.len() == 0 {
        0
    } else if s[0] == '+' {
        0
    } else {
        1 + first_plus_index(s.skip(1))
    }
}

/// `first_plus_index` is exactly the least index holding `+`.
pub proof fn lemma_first_plus_index(s: Seq<char>)
    ensures
        0 <= first_plus_index(s) <= s.len(),
        forall|j: int| 0 <= j < first_plus_index(s) ==> s[j] != '+',
        first_plus_index(s) < s.len() ==> s[first_plus_index(s)] == '+',
    decreases s.len(),
{
    if s.len() > 0 && s[0] != '+' {
        lemma_first_plus_index(s.skip(1));
        assert forall|j: int| 0 <= j < first_plus_index(s) implies s[j] != '+' by {
            if j > 0 {
                assert(s.skip(1)[j - 1] == s[j]);
                assert(j - 1 < first_plus_index(s.skip(1)));
            }
        }
        if first_plus_index(s) < s.len() {
            assert(s.skip(1)[first_plus_index(s.skip(1))] == s[first_plus_index(s)]);
        }
    }
}

/// The version with its build-metadata suffix removed: everything before the
/// first `+`; the version itself when it has none.
pub open spec fn spec_normalize_version(s: Seq<char>) -> Seq<char> {
    s.take(first_plus_index(s))
}

/// Normalization strips exactly the `+`-delimited suffix: the result is the
/// prefix of the input up to the first `+`, holds no `+` itself, and is the
/// whole input if and only if the input has no `+`.
pub proof fn lemma_normalize_strips_suffix(s: Seq<char>)
    ensures
        spec_normalize_version(s).len() <= s.len(),
        spec_normalize_version(s) == s.take(spec_normalize_version(s).len() as int),
        forall|j: int| 0 <= j < spec_normalize_version(s).len() ==> s[j] != '+',
        spec_normalize_version(s).len() < s.len() ==> s[spec_normalize_version(s).len() as int]
            == '+',
        (spec_normalize_version(s) == s) <==> (forall|j: int| 0 <= j < s.len() ==> s[j] != '+'),
{
    lemma_first_plus_index(s);
    let k = first_plus_index(s);
    assert(s.take(k).len() == k);
    if k == s.len() {
        assert(s.take(k) =~= s);
    }
    if spec_normalize_version(s) == s {
        assert(forall|j: int| 0 <= j < s.len() ==> s[j] != '+') by {
            if exists|j: int| 0 <= j < s.len() && s[j] == '+' {
                let j = choose|j: int| 0 <= j < s.len() && s[j] == '+';
                assert(s.take(k).len() == s.len());
            }
        }
    }
}

/// Strips the `+`-delimited build-metadata suffix from a version string.
pub fn normalize_version(s: &str) -> (r: String)
    ensures
        r@ == spec_normalize_version(s@),
{
    let n = s.unicode_len();
    let mut i: usize = 0;
    while i < n
        invariant
            n == s@.len(),
            i <= n,
            forall|j: int| 0 <= j < i ==> s@[j] != '+',
        decreases n - i,
    {
        if s.get_char(i) == '+' {
            proof {
                lemma_first_plus_index(s@);
                assert(first_plus_index(s@) == i) by {
                    if first_plus_index(s@) < i {
                        assert(s@[first_plus_index(s@)] != '+');
                    }
                    if i < first_plus_index(s@) {
                        assert(s@[i as int] != '+');
                    }
                }
            }
            let r = s.substring_char(0, i);
            proof {
                assert(s@.subrange(0, i as int) =~= s@.take(i as int));
            }
            return r.to_owned();
        }
        i = i + 1;
    }
    proof {
        lemma_first_plus_index(s@);
        assert(first_plus_index(s@) == n) by {
            if first_plus_index(s@) < n {
                assert(s@[first_plus_index(s@)] != '+');
            }
        }
        assert(s@.take(n as int) =~= s@);
    }
    s.to_owned()
}

/// The normalized version occurs, letter for letter, in the listing.
pub open spec fn spec_version_found(listing: Seq<String>, version: Seq<char>) -> bool {
    spec_contains_string(listing, spec_normalize_version(version))
}

/// Membership of a requested version in a registry's version listing: the
/// request is normalized first, the listing entries are compared as given.
pub fn version_in_listing(listing: &Vec<String>, version: &str) -> (r: bool)
    ensures
        r == spec_version_found(listing@, version@),
{
    let normalized = normalize_version(version);
    let mut i: usize = 0;
    while i < listing.len()
        invariant
            i <= listing@.len(),
            normalized@ == spec_normalize_version(version@),
            forall|j: int| 0 <= j < i ==> listing@[j]@ != normalized@,
        decreases listing@.len() - i,
    {
        if str_eq(listing[i].as_str(), normalized.as_str()) {
            assert(spec_contains_string(listing@, normalized@));
            return true;
        }
        i = i + 1;
    }
    false
}

} // verus!

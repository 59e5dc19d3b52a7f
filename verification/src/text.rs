//! Small verified string helpers shared by the URL and path logic.

use vstd::prelude::*;

verus! {

/// Relies on `String::push` of std: appends the given character to the end
/// of the string.  vstd specifies `append`/`concat` for `&str` pieces but not
/// `push`, which the character-wise builders here need.
pub assume_specification[ String::push ](s: &mut String, ch: char)
    ensures
        final(s)@ == old(s)@.push(ch),
;

/// Character-wise string equality.
pub fn str_eq(a: &str, b: &str) -> (r: bool)
    ensures
        r == (a@ == b@),
{
    let n = a.unicode_len();
    if n != b.unicode_len() {
        return false;
    }
    let mut i: usize = 0;
    while i < n
        invariant
            n == a@.len(),
            n == b@.len(),
            i <= n,
            forall|j: int| 0 <= j < i ==> a@[j] == b@[j],
        decreases n - i,
    {
        if a.get_char(i) != b.get_char(i) {
            return false;
        }
        i = i + 1;
    }
    proof {
        assert(a@ =~= b@);
    }
    true
}

/// Whether some entry of `v` holds exactly the characters of `s`.
pub open spec fn spec_contains_string(v: Seq<String>, s: Seq<char>) -> bool {
    exists|i: int| 0 <= i < v.len() && v[i]@ == s
}

/// Membership of `s` in a vector of strings, by content.
pub fn contains_string(v: &Vec<String>, s: &str) -> (r: bool)
    ensures
        r == spec_contains_string(v@, s@),
{
    let mut i: usize = 0;
    while i < v.len()
        invariant
            i <= v@.len(),
            forall|j: int| 0 <= j < i ==> v@[j]@ != s@,
        decreases v@.len() - i,
    {
        if str_eq(v[i].as_str(), s) {
            assert(spec_contains_string(v@, s@));
            return true;
        }
        i = i + 1;
    }
    false
}

/// The string ends in a path separator.
pub open spec fn ends_with_slash(s: Seq<char>) -> bool {
    s.len() > 0 && s[s.len() - 1] == '/'
}

/// The index of the last `/` in `s`, or `-1` when there is none.
pub open spec fn last_slash_index(s: Seq<char>) -> int
    decreases s.len(),
{
    if s.len() == 0 {
        -1
    } else if s[s.len() - 1] == '/' {
        s.len() - 1
    } else {
        last_slash_index(s.drop_last())
    }
}

/// `last_slash_index` is exactly the greatest index holding `/`.
pub proof fn lemma_last_slash_index(s: Seq<char>)
    ensures
        -1 <= last_slash_index(s) < s.len(),
        last_slash_index(s) >= 0 ==> s[last_slash_index(s)] == '/',
        forall|j: int| last_slash_index(s) < j < s.len() ==> s[j] != '/',
    decreases s.len(),
{
    if s.len() > 0 && s[s.len() - 1] != '/' {
        lemma_last_slash_index(s.drop_last());
        assert(forall|j: int| 0 <= j < s.len() - 1 ==> s[j] == s.drop_last()[j]);
    }
}

/// Appending slash-free characters does not move the last slash.
pub proof fn lemma_last_slash_index_append(a: Seq<char>, b: Seq<char>)
    requires
        forall|j: int| 0 <= j < b.len() ==> b[j] != '/',
    ensures
        last_slash_index(a + b) == last_slash_index(a),
    decreases b.len(),
{
    if b.len() == 0 {
        assert(a + b =~= a);
    } else {
        let s = a + b;
        assert(s[s.len() - 1] == b[b.len() - 1]);
        assert(s.drop_last() =~= a + b.drop_last());
        lemma_last_slash_index_append(a, b.drop_last());
    }
}

/// The last slash of `a.push('/')` is that very character.
pub proof fn lemma_last_slash_index_push_slash(a: Seq<char>)
    ensures
        last_slash_index(a.push('/')) == a.len(),
{
    let s = a.push('/');
    assert(s[s.len() - 1] == '/');
}

/// The characters after the last `/`, the whole string when there is none.
pub open spec fn spec_file_name(s: Seq<char>) -> Seq<char> {
    s.skip(last_slash_index(s) + 1)
}

/// The file-name component of a `/`-separated path.
pub fn file_name(s: &str) -> (r: String)
    ensures
        r@ == spec_file_name(s@),
{
    let n = s.unicode_len();
    let mut last: Option<usize> = None;
    let mut i: usize = 0;
    while i < n
        invariant
            n == s@.len(),
            i <= n,
            match last {
                Some(k) => k < i && s@[k as int] == '/' && forall|j: int| k < j < i ==> s@[j] != '/',
                None => forall|j: int| 0 <= j < i ==> s@[j] != '/',
            },
        decreases n - i,
    {
        if s.get_char(i) == '/' {
            last = Some(i);
        }
        i = i + 1;
    }
    proof {
        lemma_last_slash_index(s@);
    }
    match last {
        Some(k) => {
            proof {
                let lsi = last_slash_index(s@);
                assert(k <= lsi) by {
                    if lsi < k {
                        assert(s@[k as int] == '/');
                    }
                }
                assert(lsi <= k) by {
                    if k < lsi {
                        assert(s@[lsi] == '/');
                    }
                }
            }
            let r = s.substring_char(k + 1, n);
            r.to_owned()
        }
        None => {
            proof {
                let lsi = last_slash_index(s@);
                if lsi >= 0 {
                    assert(s@[lsi] == '/');
                }
                assert(s@.skip(0) =~= s@);
            }
            s.to_owned()
        }
    }
}

} // verus!

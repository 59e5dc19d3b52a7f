//! Building canonical download URLs, and normalizing base addresses.
//!
//! `{base}{id}/{version}/{id}.{version}.nupkg`: the base address always ends
//! in `/`, the id and version are percent-encoded as path segments.  Building
//! is deterministic and injective on (base, id, version) triples: splitting
//! the produced URL at its last three `/` and decoding the two inner
//! segments recovers base, id and version exactly.

use vstd::prelude::*;

use crate::text::ends_with_slash;
use crate::text::last_slash_index;
use crate::text::lemma_last_slash_index_append;
use crate::text::lemma_last_slash_index_push_slash;
use crate::urlenc::encode_segment;
use crate::urlenc::lemma_decode_encode;
use crate::urlenc::lemma_encode_no_slash;
use crate::urlenc::spec_decode_component;
use crate::urlenc::spec_encode_component;

verus! {

/// The flat-container archive name suffix.
pub open spec fn nupkg_suffix() -> Seq<char> {
    seq!['.', 'n', 'u', 'p', 'k', 'g']
}

/// The canonical download URL for a package under a base address.
pub open spec fn spec_download_url(base: Seq<char>, id: Seq<char>, version: Seq<char>) -> Seq<
    char,
> {
    base + spec_encode_component(id) + seq!['/'] + spec_encode_component(version) + seq!['/']
        + spec_encode_component(id) + seq!['.'] + spec_encode_component(version) + nupkg_suffix()
}

/// Where an address's path part ends: the index of the first `?` or `#`, or
/// the whole length when there is neither.
pub open spec fn path_end_index(s: Seq<char>) -> int
    decreases s.len(),
{
    if s.len() == 0 {
        0
    } else if s[0] == '?' || s[0] == '#' {
        0
    } else {
        1 + path_end_index(s.skip(1))
    }
}

/// `path_end_index` is exactly the least index holding `?` or `#`.
pub proof fn lemma_path_end_index(s: Seq<char>)
    ensures
        0 <= path_end_index(s) <= s.len(),
        forall|j: int| 0 <= j < path_end_index(s) ==> s[j] != '?' && s[j] != '#',
        path_end_index(s) < s.len() ==> (s[path_end_index(s)] == '?' || s[path_end_index(s)]
            == '#'),
    decreases s.len(),
{
    if s.len() > 0 && s[0] != '?' && s[0] != '#' {
        lemma_path_end_index(s.skip(1));
        assert forall|j: int| 0 <= j < path_end_index(s) implies s[j] != '?' && s[j] != '#' by {
            if j > 0 {
                assert(s.skip(1)[j - 1] == s[j]);
                assert(j - 1 < path_end_index(s.skip(1)));
            }
        }
        if path_end_index(s) < s.len() {
            assert(s.skip(1)[path_end_index(s.skip(1))] == s[path_end_index(s)]);
        }
    }
}

/// The address's path part ends in `/` (any query or fragment aside).
pub open spec fn path_ends_with_slash(s: Seq<char>) -> bool {
    path_end_index(s) > 0 && s[path_end_index(s) - 1] == '/'
}

/// A base address keeps exactly one trailing path separator: unchanged when
/// its path part already ends in `/`, else one `/` inserted at the path's
/// end, before any query or fragment.
pub open spec fn spec_with_trailing_slash(s: Seq<char>) -> Seq<char> {
    if path_ends_with_slash(s) {
        s
    } else {
        s.take(path_end_index(s)) + seq!['/'] + s.skip(path_end_index(s))
    }
}

/// Normalizes a base address so relative joins are unambiguous.
pub fn ensure_trailing_slash(s: String) -> (r: String)
    ensures
        r@ == spec_with_trailing_slash(s@),
        path_ends_with_slash(r@),
{
    let st = s.as_str();
    let n = st.unicode_len();
    let mut cut: usize = 0;
    while cut < n && st.get_char(cut) != '?' && st.get_char(cut) != '#'
        invariant
            n == s@.len(),
            st@ == s@,
            cut <= n,
            forall|j: int| 0 <= j < cut ==> s@[j] != '?' && s@[j] != '#',
        decreases n - cut,
    {
        cut = cut + 1;
    }
    proof {
        lemma_path_end_index(s@);
        assert(path_end_index(s@) == cut) by {
            if path_end_index(s@) < cut {
                assert(s@[path_end_index(s@)] != '?' && s@[path_end_index(s@)] != '#');
            }
            if cut < path_end_index(s@) {
                assert(s@[cut as int] != '?' && s@[cut as int] != '#');
            }
        }
    }
    if cut > 0 && st.get_char(cut - 1) == '/' {
        s
    } else {
        let mut out = st.substring_char(0, cut).to_owned();
        out.push('/');
        out.append(st.substring_char(cut, n));
        proof {
            assert(s@.subrange(0, cut as int) =~= s@.take(cut as int));
            assert(s@.subrange(cut as int, n as int) =~= s@.skip(cut as int));
            assert(out@ =~= s@.take(cut as int) + seq!['/'] + s@.skip(cut as int));
            let r = spec_with_trailing_slash(s@);
            assert(path_end_index(r) == cut + 1) by {
                lemma_path_end_index(r);
                assert forall|j: int| 0 <= j <= cut implies r[j] != '?' && r[j] != '#' by {
                    if j < cut {
                        assert(r[j] == s@[j]);
                    } else {
                        assert(r[j] == '/');
                    }
                }
                if path_end_index(r) < cut + 1 {
                    assert(r[path_end_index(r)] == '?' || r[path_end_index(r)] == '#');
                }
                if cut < n {
                    assert(r[cut + 1] == s@[cut as int]);
                }
            }
            assert(r[cut as int] == '/');
        }
        out
    }
}

/// Builds the canonical download URL.  Pure: no network, no cache; malformed
/// characters are percent-encoded, never rejected.
pub fn build_download_url(base: &str, id: &str, version: &str) -> (r: String)
    ensures
        r@ == spec_download_url(base@, id@, version@),
{
    let e_id = encode_segment(id);
    let e_ver = encode_segment(version);
    let mut out = base.to_owned();
    out.append(e_id.as_str());
    out.push('/');
    out.append(e_ver.as_str());
    out.push('/');
    out.append(e_id.as_str());
    out.push('.');
    out.append(e_ver.as_str());
    out.append(".nupkg");
    proof {
        reveal_strlit(".nupkg");
        assert(".nupkg"@ =~= nupkg_suffix());
        assert(out@ =~= spec_download_url(base@, id@, version@));
    }
    out
}

/// Splits a download URL at its last three `/`: the prefix through the third
/// last is the base, the two enclosed segments decode to id and version.
pub open spec fn spec_parse_download_url(url: Seq<char>) -> Option<
    (Seq<char>, Seq<char>, Seq<char>),
> {
    let k2 = last_slash_index(url);
    if k2 >= 0 {
        let k1 = last_slash_index(url.take(k2));
        if k1 >= 0 {
            let k0 = last_slash_index(url.take(k1));
            if k0 >= 0 {
                match (
                    spec_decode_component(url.subrange(k0 + 1, k1)),
                    spec_decode_component(url.subrange(k1 + 1, k2)),
                ) {
                    (Some(id), Some(version)) => Some((url.take(k0 + 1), id, version)),
                    _ => None,
                }
            } else {
                None
            }
        } else {
            None
        }
    } else {
        None
    }
}

proof fn lemma_nupkg_suffix_no_slash()
    ensures
        forall|k: int| 0 <= k < nupkg_suffix().len() ==> nupkg_suffix()[k] != '/',
{
    assert forall|k: int| 0 <= k < nupkg_suffix().len() implies nupkg_suffix()[k] != '/' by {
        if k == 0 {
            assert(nupkg_suffix()[0] == '.');
        } else if k == 1 {
            assert(nupkg_suffix()[1] == 'n');
        } else if k == 2 {
            assert(nupkg_suffix()[2] == 'u');
        } else if k == 3 {
            assert(nupkg_suffix()[3] == 'p');
        } else if k == 4 {
            assert(nupkg_suffix()[4] == 'k');
        } else {
            assert(nupkg_suffix()[5] == 'g');
        }
    }
}

/// Round trip: parsing the path segments of a built URL recovers the base,
/// the id and the version exactly, for any base that ends in `/`.
pub proof fn lemma_parse_download_url(base: Seq<char>, id: Seq<char>, version: Seq<char>)
    requires
        ends_with_slash(base),
    ensures
        spec_parse_download_url(spec_download_url(base, id, version)) == Some(
            (base, id, version),
        ),
{
    let ei = spec_encode_component(id);
    let ev = spec_encode_component(version);
    lemma_encode_no_slash(id);
    lemma_encode_no_slash(version);
    lemma_nupkg_suffix_no_slash();
    let url = spec_download_url(base, id, version);
    let p1 = base + ei;
    let p2 = base + ei + seq!['/'] + ev;
    let tail = ei + seq!['.'] + ev + nupkg_suffix();

    assert(url =~= (p2 + seq!['/']) + tail);
    assert forall|j: int| 0 <= j < tail.len() implies tail[j] != '/' by {
        if j < ei.len() {
            assert(tail[j] == ei[j]);
        } else if j == ei.len() {
            assert(tail[j] == '.');
        } else if j < ei.len() + 1 + ev.len() {
            assert(tail[j] == ev[j - ei.len() - 1]);
        } else {
            assert(tail[j] == nupkg_suffix()[j - (ei.len() + 1 + ev.len())]);
        }
    }
    lemma_last_slash_index_append(p2 + seq!['/'], tail);
    assert(p2 + seq!['/'] =~= p2.push('/'));
    lemma_last_slash_index_push_slash(p2);
    let k2 = last_slash_index(url);
    assert(k2 == p2.len());
    assert(url.take(k2) =~= p2);

    assert(p2 =~= (p1 + seq!['/']) + ev);
    lemma_last_slash_index_append(p1 + seq!['/'], ev);
    assert(p1 + seq!['/'] =~= p1.push('/'));
    lemma_last_slash_index_push_slash(p1);
    let k1 = last_slash_index(url.take(k2));
    assert(k1 == p1.len());
    assert(url.take(k1) =~= p1);

    lemma_last_slash_index_append(base, ei);
    assert(base[base.len() - 1] == '/');
    assert(last_slash_index(base) == base.len() - 1);
    let k0 = last_slash_index(url.take(k1));
    assert(k0 == base.len() - 1);

    assert(url.subrange(k0 + 1, k1) =~= ei);
    assert(url.subrange(k1 + 1, k2) =~= ev);
    lemma_decode_encode(id);
    lemma_decode_encode(version);
    assert(url.take(k0 + 1) =~= base);
}

/// Injectivity: distinct (base, id, version) triples with normalized bases
/// always build distinct URLs.
pub proof fn lemma_download_url_injective(
    b1: Seq<char>,
    i1: Seq<char>,
    v1: Seq<char>,
    b2: Seq<char>,
    i2: Seq<char>,
    v2: Seq<char>,
)
    requires
        ends_with_slash(b1),
        ends_with_slash(b2),
        spec_download_url(b1, i1, v1) == spec_download_url(b2, i2, v2),
    ensures
        b1 == b2,
        i1 == i2,
        v1 == v2,
{
    lemma_parse_download_url(b1, i1, v1);
    lemma_parse_download_url(b2, i2, v2);
}

} // verus!

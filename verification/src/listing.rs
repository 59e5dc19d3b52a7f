//! Interpreting a registry's version listing.
//!
//! The listing endpoint answers in one of two shapes: a flat
//! `{"versions": [...]}` list, or a paginated registration document whose
//! leaves each carry a `catalogEntry.version`.  The flat shape is probed
//! first; the paginated pages are flattened, in order, into one listing.

use vstd::prelude::*;

use crate::types::FailureCause;

verus! {

/// The lower-casing an id undergoes before it names a listing endpoint.
/// A function of the characters alone; its value is not spelled out here.
pub uninterp spec fn lower_of(s: Seq<char>) -> Seq<char>;

/// Relies on `str::to_lowercase` of std: the result depends on the
/// characters alone.
#[verifier::external_body]
fn to_lowercase_string(s: &str) -> (r: String)
    ensures
        r@ == lower_of(s@),
{
    s.to_lowercase()
}

/// The URL of a package's version-listing endpoint: the base address (which
/// ends in `/`), the lower-cased id, and `/index.json`.
pub fn build_listing_url(base: &str, id: &str) -> (r: String)
    ensures
        r@ == base@ + lower_of(id@) + "/index.json"@,
{
    let lower = to_lowercase_string(id);
    let mut out = base.to_owned();
    out.append(lower.as_str());
    out.append("/index.json");
    out
}

/// The version strings of a flat `{"versions": [...]}` listing, `None` when
/// the body is not such a document.  A function of the body text alone; its
/// value is not spelled out here.
pub uninterp spec fn flat_versions_of(body: Seq<char>) -> Option<Seq<Seq<char>>>;

/// The per-page `catalogEntry.version` strings of a paginated registration
/// document, `None` when the body is not such a document.  A function of the
/// body text alone; its value is not spelled out here.
pub uninterp spec fn paged_versions_of(body: Seq<char>) -> Option<Seq<Seq<Seq<char>>>>;

/// Relies on serde_json (`from_str` and `Value::{get, as_array, as_str}`):
/// decodes a flat `{"versions": [...]}` listing into its version strings, in
/// order; `None` when the body is not such a document.  The decode depends
/// on the body alone.
#[verifier::external_body]
pub(crate) fn decode_flat_versions(body: &str) -> (r: Option<Vec<String>>)
    ensures
        match r {
            Some(versions) => flat_versions_of(body@) == Some(versions.deep_view()),
            None => flat_versions_of(body@) is None,
        },
{
    let v: serde_json::Value = serde_json::from_str(body).ok()?;
    let arr = v.get("versions")?.as_array()?;
    let mut out: Vec<String> = Vec::new();
    for x in arr {
        out.push(x.as_str()?.to_string());
    }
    Some(out)
}

/// Relies on serde_json (`from_str` and `Value::{get, as_array, as_str}`):
/// decodes a paginated registration document into one vector of
/// `catalogEntry.version` strings per page, in document order; `None` when
/// the body is not such a document.  The decode depends on the body alone.
#[verifier::external_body]
pub(crate) fn decode_paged_versions(body: &str) -> (r: Option<Vec<Vec<String>>>)
    ensures
        match r {
            Some(pages) => paged_versions_of(body@) == Some(pages.deep_view()),
            None => paged_versions_of(body@) is None,
        },
{
    let v: serde_json::Value = serde_json::from_str(body).ok()?;
    let pages = v.get("items")?.as_array()?;
    let mut out: Vec<Vec<String>> = Vec::new();
    for p in pages {
        let leaves = p.get("items")?.as_array()?;
        let mut page: Vec<String> = Vec::new();
        for l in leaves {
            page.push(l.get("catalogEntry")?.get("version")?.as_str()?.to_string());
        }
        out.push(page);
    }
    Some(out)
}

/// Concatenates the pages of a registration document into one ordered
/// listing.
pub fn flatten_pages(pages: &Vec<Vec<String>>) -> (r: Vec<String>)
    ensures
        r.deep_view() == pages.deep_view().flatten(),
{
    let ghost all = pages.deep_view();
    let mut out: Vec<String> = Vec::new();
    let mut i: usize = 0;
    while i < pages.len()
        invariant
            all == pages.deep_view(),
            i <= pages@.len(),
            all.len() == pages@.len(),
            out.deep_view() == all.take(i as int).flatten_alt(),
        decreases pages@.len() - i,
    {
        let mut j: usize = 0;
        while j < pages[i].len()
            invariant
                all == pages.deep_view(),
                i < pages@.len(),
                all.len() == pages@.len(),
                j <= pages@[i as int]@.len(),
                out.deep_view() == all.take(i as int).flatten_alt() + all[i as int].take(
                    j as int,
                ),
            decreases pages@[i as int]@.len() - j,
        {
            let ghost prev = out.deep_view();
            out.push(pages[i][j].clone());
            proof {
                assert(all[i as int] =~= pages@[i as int].deep_view());
                assert(out.deep_view() =~= prev.push(pages@[i as int]@[j as int]@));
                assert(all[i as int].take(j + 1 as int) =~= all[i as int].take(j as int).push(
                    pages@[i as int]@[j as int]@,
                ));
                assert(out.deep_view() =~= all.take(i as int).flatten_alt() + all[
                    i as int
                ].take(j + 1 as int));
            }
            j = j + 1;
        }
        proof {
            assert(all[i as int].take(pages@[i as int]@.len() as int) =~= all[i as int]);
            assert(all.take(i + 1 as int).drop_last() =~= all.take(i as int));
            assert(all.take(i + 1 as int).flatten_alt() == all.take(
                i + 1 as int,
            ).drop_last().flatten_alt() + all.take(i + 1 as int).last());
            assert(out.deep_view() =~= all.take(i + 1 as int).flatten_alt());
        }
        i = i + 1;
    }
    proof {
        assert(all.take(pages@.len() as int) =~= all);
        all.lemma_flatten_and_flatten_alt_are_equivalent();
    }
    out
}

/// What a version-listing body means: the flat shape if it decodes, else the
/// paginated shape with its pages flattened in order, else
/// `VersionLookupFailed`.
pub open spec fn spec_extract_versions(body: Seq<char>) -> Result<Seq<Seq<char>>, FailureCause> {
    match flat_versions_of(body) {
        Some(versions) => Ok(versions),
        None => match paged_versions_of(body) {
            Some(pages) => Ok(pages.flatten()),
            None => Err(FailureCause::VersionLookupFailed),
        },
    }
}

/// Interprets a version-listing body: the flat shape if it decodes, else the
/// paginated shape flattened, else `VersionLookupFailed`.
pub fn extract_versions(body: &str) -> (r: Result<Vec<String>, FailureCause>)
    ensures
        match r {
            Ok(versions) => spec_extract_versions(body@) == Ok::<Seq<Seq<char>>, FailureCause>(
                versions.deep_view(),
            ),
            Err(c) => spec_extract_versions(body@) == Err::<Seq<Seq<char>>, FailureCause>(c),
        },
{
    match decode_flat_versions(body) {
        Some(versions) => Ok(versions),
        None => match decode_paged_versions(body) {
            Some(pages) => Ok(flatten_pages(&pages)),
            None => Err(FailureCause::VersionLookupFailed),
        },
    }
}

} // verus!

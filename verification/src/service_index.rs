//! Interpreting a registry's service index: the JSON document is decoded to
//! its typed resource entries, and the single `PackageBaseAddress/3.0.0`
//! entry names the root under which package archives live.

use vstd::prelude::*;

use crate::text::str_eq;
use crate::types::FailureCause;
use crate::types::ResourceEntry;
use crate::url_builder::ensure_trailing_slash;
use crate::url_builder::path_ends_with_slash;
use crate::url_builder::spec_with_trailing_slash;

verus! {

/// The resource type that declares the package base address.
pub open spec fn base_address_type() -> Seq<char> {
    "PackageBaseAddress/3.0.0"@
}

/// The `(type, url)` pairs a decoded service index carries.
pub open spec fn entry_views(entries: Seq<ResourceEntry>) -> Seq<(Seq<char>, Seq<char>)> {
    entries.map_values(|e: ResourceEntry| (e.typ@, e.url@))
}

/// Some entry declares the package-base-address type.
pub open spec fn has_base_entry(entries: Seq<(Seq<char>, Seq<char>)>) -> bool {
    exists|i: int| 0 <= i < entries.len() && entries[i].0 == base_address_type()
}

/// The index of the first entry declaring the package-base-address type,
/// or `entries.len()` when there is none.
pub open spec fn first_base_entry(entries: Seq<(Seq<char>, Seq<char>)>) -> int
    decreases entries.len(),
{
    if entries.len() == 0 {
        0
    } else if entries[0].0 == base_address_type() {
        0
    } else {
        1 + first_base_entry(entries.drop_first())
    }
}

/// `first_base_entry` is exactly the least matching index, and falls within
/// the entries exactly when one matches.
pub proof fn lemma_first_base_entry(entries: Seq<(Seq<char>, Seq<char>)>)
    ensures
        0 <= first_base_entry(entries) <= entries.len(),
        forall|j: int| 0 <= j < first_base_entry(entries) ==> entries[j].0 != base_address_type(),
        first_base_entry(entries) < entries.len() ==> entries[first_base_entry(entries)].0
            == base_address_type(),
        has_base_entry(entries) <==> first_base_entry(entries) < entries.len(),
    decreases entries.len(),
{
    if entries.len() > 0 && entries[0].0 != base_address_type() {
        lemma_first_base_entry(entries.drop_first());
        let f = first_base_entry(entries);
        assert forall|j: int| 0 <= j < f implies entries[j].0 != base_address_type() by {
            if j > 0 {
                assert(entries.drop_first()[j - 1] == entries[j]);
            }
        }
        if f < entries.len() {
            assert(entries.drop_first()[f - 1] == entries[f]);
        }
        if has_base_entry(entries) {
            let w = choose|i: int|
                0 <= i < entries.len() && entries[i].0 == base_address_type();
            assert(entries.drop_first()[w - 1] == entries[w]);
            assert(has_base_entry(entries.drop_first()));
        }
        if has_base_entry(entries.drop_first()) {
            let w = choose|i: int|
                0 <= i < entries.drop_first().len() && entries.drop_first()[i].0
                    == base_address_type();
            assert(entries.drop_first()[w] == entries[w + 1]);
            assert(has_base_entry(entries));
        }
    }
}

/// What selecting the base address from a service index yields: the first
/// matching entry's URL, normalized to a trailing separator; or
/// `RegistryMalformed` when no entry declares the type.
pub open spec fn spec_select_base_address(entries: Seq<(Seq<char>, Seq<char>)>) -> Result<
    Seq<char>,
    FailureCause,
> {
    if has_base_entry(entries) {
        Ok(spec_with_trailing_slash(entries[first_base_entry(entries)].1))
    } else {
        Err(FailureCause::RegistryMalformed)
    }
}

/// Selects the package base address among a service index's resource
/// entries.  Absence of the expected resource type is a malformed registry.
pub fn select_base_address(entries: &Vec<ResourceEntry>) -> (r: Result<String, FailureCause>)
    ensures
        match r {
            Ok(b) => spec_select_base_address(entry_views(entries@)) == Ok::<
                Seq<char>,
                FailureCause,
            >(b@) && path_ends_with_slash(b@),
            Err(c) => spec_select_base_address(entry_views(entries@)) == Err::<
                Seq<char>,
                FailureCause,
            >(c),
        },
{
    let ghost views = entry_views(entries@);
    let mut i: usize = 0;
    while i < entries.len()
        invariant
            views == entry_views(entries@),
            views.len() == entries@.len(),
            i <= entries@.len(),
            forall|j: int| 0 <= j < i ==> views[j].0 != base_address_type(),
        decreases entries@.len() - i,
    {
        if str_eq(entries[i].typ.as_str(), "PackageBaseAddress/3.0.0") {
            proof {
                assert(views[i as int].0 == entries@[i as int].typ@);
                lemma_first_base_entry(views);
                assert(first_base_entry(views) == i) by {
                    if first_base_entry(views) < i {
                        assert(views[first_base_entry(views)].0 != base_address_type());
                    }
                    if i < first_base_entry(views) {
                        assert(views[i as int].0 != base_address_type());
                    }
                }
                assert(has_base_entry(views));
            }
            let b = ensure_trailing_slash(entries[i].url.clone());
            proof {
                assert(views[i as int].1 == entries@[i as int].url@);
            }
            return Ok(b);
        }
        proof {
            assert(views[i as int].0 == entries@[i as int].typ@);
        }
        i = i + 1;
    }
    proof {
        lemma_first_base_entry(views);
        if has_base_entry(views) {
            assert(views[first_base_entry(views)].0 == base_address_type());
        }
    }
    Err(FailureCause::RegistryMalformed)
}

/// The `(type, url)` entries of a service-index document, `None` when the
/// body is not such a document.  A function of the body text alone; its
/// value is not spelled out here.
pub uninterp spec fn service_index_of(body: Seq<char>) -> Option<Seq<(Seq<char>, Seq<char>)>>;

/// Relies on serde_json (`from_str` and `Value::{get, as_array, as_str}`):
/// decodes a service-index document into its resource entries, one
/// `{@type, @id}` pair per entry, in document order; `None` when the body is
/// not such a document.  The decode depends on the body alone.
#[verifier::external_body]
pub(crate) fn decode_service_index(body: &str) -> (r: Option<Vec<ResourceEntry>>)
    ensures
        match r {
            Some(entries) => service_index_of(body@) == Some(entry_views(entries@)),
            None => service_index_of(body@) is None,
        },
{
    let v: serde_json::Value = serde_json::from_str(body).ok()?;
    let arr = v.get("resources")?.as_array()?;
    let mut out: Vec<ResourceEntry> = Vec::new();
    for e in arr {
        let typ = e.get("@type")?.as_str()?.to_string();
        let url = e.get("@id")?.as_str()?.to_string();
        out.push(ResourceEntry { typ, url });
    }
    Some(out)
}

} // verus!

//! The resolver: single-flight caches for registry base addresses and
//! version listings, and the orchestration of one run.
//!
//! Both caches move a key atomically from absent to answered — a value or a
//! failure — and record every fetch in a ghost log.  Well-formedness ties
//! the log to the cached keys, so each registry (and each registry/package
//! pair) is fetched at most once per run, and a failure observed once is the
//! failure every later caller observes.

use vstd::prelude::*;

use crate::listing::build_listing_url;
use crate::listing::extract_versions;
use crate::net::http_get;
use crate::net::new_client;
use crate::nix_hash::hash;
use crate::nix_hash::nix_base32_of;
use crate::nix_hash::sha256_of;
use crate::service_index::decode_service_index;
use crate::service_index::select_base_address;
use crate::text::spec_contains_string;
use crate::text::contains_string;
use crate::text::file_name;
use crate::text::spec_file_name;
use crate::text::str_eq;
use crate::types::FailureCause;
use crate::types::HttpOutcome;
use crate::types::Package;
use crate::types::RegistrySource;
use crate::types::ResolutionResult;
use crate::types::result_is_for;
use crate::types::spec_status_ok;
use crate::listing::spec_extract_versions;
use crate::service_index::spec_select_base_address;
use crate::service_index::service_index_of;
use crate::url_builder::build_download_url;
use crate::url_builder::path_ends_with_slash;
use crate::url_builder::spec_download_url;
use crate::version::spec_normalize_version;
use crate::version::version_in_listing;

verus! {

/// A cached base-address answer, seen abstractly.
pub open spec fn view_base_result(v: Result<String, FailureCause>) -> Result<
    Seq<char>,
    FailureCause,
> {
    match v {
        Ok(b) => Ok(b@),
        Err(c) => Err(c),
    }
}

/// A cached version-listing answer, seen abstractly.
pub open spec fn view_versions_result(v: Result<Vec<String>, FailureCause>) -> Result<
    Seq<Seq<char>>,
    FailureCause,
> {
    match v {
        Ok(vs) => Ok(vs.deep_view()),
        Err(c) => Err(c),
    }
}

fn clone_base_result(r: &Result<String, FailureCause>) -> (out: Result<String, FailureCause>)
    ensures
        out == *r,
{
    match r {
        Ok(s) => Ok(s.clone()),
        Err(c) => Err(*c),
    }
}

fn clone_strings(v: &Vec<String>) -> (out: Vec<String>)
    ensures
        out@ == v@,
{
    let mut out: Vec<String> = Vec::new();
    let mut i: usize = 0;
    while i < v.len()
        invariant
            i <= v@.len(),
            out@.len() == i,
            forall|j: int| 0 <= j < i ==> out@[j] == v@[j],
        decreases v@.len() - i,
    {
        out.push(v[i].clone());
        i = i + 1;
    }
    proof {
        assert(out@ =~= v@);
    }
    out
}

fn clone_versions_result(r: &Result<Vec<String>, FailureCause>) -> (out: Result<
    Vec<String>,
    FailureCause,
>)
    ensures
        view_versions_result(out) == view_versions_result(*r),
        out is Ok <==> *r is Ok,
{
    match r {
        Ok(vs) => Ok(clone_strings(vs)),
        Err(c) => Err(*c),
    }
}

/// First-match lookup over parallel key/value sequences.
pub open spec fn seq_get_base(
    keys: Seq<String>,
    values: Seq<Result<String, FailureCause>>,
    k: Seq<char>,
) -> Option<Result<Seq<char>, FailureCause>>
    decreases keys.len(),
{
    if keys.len() == 0 || values.len() == 0 {
        None
    } else if keys[0]@ == k {
        Some(view_base_result(values[0]))
    } else {
        seq_get_base(keys.drop_first(), values.drop_first(), k)
    }
}

/// The single-flight cache of package base addresses, one entry per
/// registry; the ghost log records every service-index fetch.
pub struct RegistryCache {
    keys: Vec<String>,
    values: Vec<Result<String, FailureCause>>,
    fetch_log: Ghost<Seq<Seq<char>>>,
}

impl RegistryCache {
    /// The cached answer for a registry, if any.
    pub closed spec fn spec_get(self, k: Seq<char>) -> Option<Result<Seq<char>, FailureCause>> {
        seq_get_base(self.keys@, self.values@, k)
    }

    /// The registry has been answered (with a value or a failure).
    pub closed spec fn contains_key(self, k: Seq<char>) -> bool {
        self.spec_get(k) is Some
    }

    /// Every service-index URL fetched so far, in order.
    pub closed spec fn spec_fetch_log(self) -> Seq<Seq<char>> {
        self.fetch_log@
    }

    /// One value per key; keys distinct; the fetch log is exactly the keys;
    /// every cached success carries its trailing path separator.
    pub closed spec fn wf(self) -> bool {
        &&& self.values@.len() == self.keys@.len()
        &&& forall|i: int, j: int|
            0 <= i < j < self.keys@.len() ==> self.keys@[i]@ != self.keys@[j]@
        &&& self.fetch_log@ == Seq::new(self.keys@.len() as nat, |i: int| self.keys@[i]@)
        &&& forall|i: int|
            0 <= i < self.values@.len() ==> ((#[trigger] self.values@[i]) matches Ok(b)
                ==> path_ends_with_slash(b@))
    }

    /// An answered registry is exactly one whose cached answer exists.
    pub proof fn lemma_contains_key_is_answered(self, k: Seq<char>)
        ensures
            self.contains_key(k) <==> self.spec_get(k) is Some,
    {
    }

    /// An empty cache: nothing answered, nothing fetched.
    pub fn new() -> (r: RegistryCache)
        ensures
            r.wf(),
            r.spec_fetch_log() == Seq::<Seq<char>>::empty(),
            forall|k: Seq<char>| r.spec_get(k) is None,
    {
        let r = RegistryCache { keys: Vec::new(), values: Vec::new(), fetch_log: Ghost(
            Seq::empty(),
        ) };
        proof {
            assert(r.fetch_log@ =~= Seq::new(r.keys@.len() as nat, |i: int| r.keys@[i]@));
        }
        r
    }
}

proof fn lemma_seq_get_base_at(
    keys: Seq<String>,
    values: Seq<Result<String, FailureCause>>,
    i: int,
)
    requires
        keys.len() == values.len(),
        0 <= i < keys.len(),
        forall|m: int| 0 <= m < i ==> keys[m]@ != keys[i]@,
    ensures
        seq_get_base(keys, values, keys[i]@) == Some(view_base_result(values[i])),
    decreases i,
{
    if i > 0 {
        assert(keys.drop_first()[i - 1] == keys[i]);
        assert(forall|m: int|
            0 <= m < i - 1 ==> keys.drop_first()[m] == keys[m + 1]);
        lemma_seq_get_base_at(keys.drop_first(), values.drop_first(), i - 1);
    }
}

proof fn lemma_seq_get_base_none(
    keys: Seq<String>,
    values: Seq<Result<String, FailureCause>>,
    k: Seq<char>,
)
    requires
        keys.len() == values.len(),
        seq_get_base(keys, values, k) is None,
    ensures
        forall|i: int| 0 <= i < keys.len() ==> keys[i]@ != k,
    decreases keys.len(),
{
    if keys.len() > 0 {
        lemma_seq_get_base_none(keys.drop_first(), values.drop_first(), k);
        assert forall|i: int| 0 <= i < keys.len() implies keys[i]@ != k by {
            if i > 0 {
                assert(keys.drop_first()[i - 1] == keys[i]);
            }
        }
    }
}

proof fn lemma_seq_get_base_push(
    keys: Seq<String>,
    values: Seq<Result<String, FailureCause>>,
    nk: String,
    nv: Result<String, FailureCause>,
    k: Seq<char>,
)
    requires
        keys.len() == values.len(),
    ensures
        seq_get_base(keys.push(nk), values.push(nv), k) == match seq_get_base(keys, values, k) {
            Some(v) => Some(v),
            None => if nk@ == k {
                Some(view_base_result(nv))
            } else {
                None
            },
        },
    decreases keys.len(),
{
    let lk = keys.push(nk);
    let lv = values.push(nv);
    assert(lk.len() == keys.len() + 1);
    assert(lv.len() == values.len() + 1);
    if keys.len() == 0 {
        assert(lk[0] == nk);
        assert(lv[0] == nv);
        if nk@ == k {
            assert(seq_get_base(lk, lv, k) == Some(view_base_result(nv)));
        } else {
            assert(lk.drop_first() =~= Seq::<String>::empty());
            assert(lv.drop_first() =~= Seq::<Result<String, FailureCause>>::empty());
            assert(seq_get_base(lk.drop_first(), lv.drop_first(), k) is None) by {
                assert(lk.drop_first().len() == 0);
            }
            assert(seq_get_base(lk, lv, k) is None);
        }
    } else {
        assert(lk[0] == keys[0]);
        assert(lv[0] == values[0]);
        if keys[0]@ == k {
            assert(seq_get_base(lk, lv, k) == Some(view_base_result(values[0])));
            assert(seq_get_base(keys, values, k) == Some(view_base_result(values[0])));
        } else {
            assert(lk.drop_first() =~= keys.drop_first().push(nk));
            assert(lv.drop_first() =~= values.drop_first().push(nv));
            lemma_seq_get_base_push(keys.drop_first(), values.drop_first(), nk, nv, k);
            assert(seq_get_base(lk, lv, k) == seq_get_base(lk.drop_first(), lv.drop_first(), k));
            assert(seq_get_base(keys, values, k) == seq_get_base(keys.drop_first(),
                values.drop_first(), k));
        }
    }
}

proof fn lemma_seq_get_base_ok_slash(
    keys: Seq<String>,
    values: Seq<Result<String, FailureCause>>,
    k: Seq<char>,
    b: Seq<char>,
)
    requires
        keys.len() == values.len(),
        forall|i: int|
            0 <= i < values.len() ==> ((#[trigger] values[i]) matches Ok(s) ==> path_ends_with_slash(
                s@,
            )),
        seq_get_base(keys, values, k) == Some(Ok::<Seq<char>, FailureCause>(b)),
    ensures
        path_ends_with_slash(b),
    decreases keys.len(),
{
    if keys.len() > 0 && keys[0]@ != k {
        assert(forall|i: int|
            0 <= i < values.drop_first().len() ==> values.drop_first()[i] == values[i + 1]);
        lemma_seq_get_base_ok_slash(keys.drop_first(), values.drop_first(), k, b);
    }
}

impl RegistryCache {
    /// The cached answer for a registry, cloned out; `None` on a miss.
    pub fn lookup(&self, key: &str) -> (r: Option<Result<String, FailureCause>>)
        requires
            self.wf(),
        ensures
            match r {
                Some(v) => self.spec_get(key@) == Some(view_base_result(v)),
                None => self.spec_get(key@) is None,
            },
    {
        let mut i: usize = 0;
        while i < self.keys.len()
            invariant
                self.wf(),
                i <= self.keys@.len(),
                forall|j: int| 0 <= j < i ==> self.keys@[j]@ != key@,
            decreases self.keys@.len() - i,
        {
            if str_eq(self.keys[i].as_str(), key) {
                proof {
                    lemma_seq_get_base_at(self.keys@, self.values@, i as int);
                }
                return Some(clone_base_result(&self.values[i]));
            }
            i = i + 1;
        }
        proof {
            lemma_seq_get_base_found(self.keys@, self.values@, key@);
        }
        None
    }

    /// Moves a registry from absent to answered; the fetch is logged.
    fn insert(&mut self, key: String, value: Result<String, FailureCause>)
        requires
            old(self).wf(),
            !old(self).contains_key(key@),
            value matches Ok(b) ==> path_ends_with_slash(b@),
        ensures
            final(self).wf(),
            final(self).spec_fetch_log() == old(self).spec_fetch_log().push(key@),
            final(self).spec_get(key@) == Some(view_base_result(value)),
            forall|k: Seq<char>|
                k != key@ ==> final(self).spec_get(k) == old(self).spec_get(k),
    {
        let ghost kview = key@;
        let ghost okeys = self.keys@;
        let ghost ovalues = self.values@;
        self.fetch_log = Ghost(self.fetch_log@.push(key@));
        self.keys.push(key);
        self.values.push(value);
        proof {
            lemma_seq_get_base_none(okeys, ovalues, kview);
            assert forall|i: int, j: int|
                0 <= i < j < self.keys@.len() implies self.keys@[i]@ != self.keys@[j]@ by {
                if j == okeys.len() {
                    assert(self.keys@[i] == okeys[i]);
                }
            }
            assert(self.fetch_log@ =~= Seq::new(self.keys@.len() as nat, |i: int| self.keys@[i]@));
            assert forall|k: Seq<char>| true implies #[trigger] self.spec_get(k) == (if k == kview {
                Some(view_base_result(self.values@[okeys.len() as int]))
            } else {
                seq_get_base(okeys, ovalues, k)
            }) by {
                lemma_seq_get_base_push(okeys, ovalues, self.keys@[okeys.len() as int],
                    self.values@[okeys.len() as int], k);
                assert(self.keys@ =~= okeys.push(self.keys@[okeys.len() as int]));
                assert(self.values@ =~= ovalues.push(self.values@[okeys.len() as int]));
            }
        }
    }
}

proof fn lemma_seq_get_base_found(
    keys: Seq<String>,
    values: Seq<Result<String, FailureCause>>,
    k: Seq<char>,
)
    requires
        keys.len() == values.len(),
        forall|i: int| 0 <= i < keys.len() ==> keys[i]@ != k,
    ensures
        seq_get_base(keys, values, k) is None,
    decreases keys.len(),
{
    if keys.len() > 0 {
        assert forall|i: int|
            0 <= i < keys.drop_first().len() implies keys.drop_first()[i]@ != k by {
            assert(keys.drop_first()[i] == keys[i + 1]);
        }
        lemma_seq_get_base_found(keys.drop_first(), values.drop_first(), k);
    }
}


/// First-match lookup over parallel (registry, id) key pairs.
pub open spec fn seq_get_versions(
    regs: Seq<String>,
    ids: Seq<String>,
    values: Seq<Result<Vec<String>, FailureCause>>,
    rk: Seq<char>,
    ik: Seq<char>,
) -> Option<Result<Seq<Seq<char>>, FailureCause>>
    decreases regs.len(),
{
    if regs.len() == 0 || ids.len() == 0 || values.len() == 0 {
        None
    } else if regs[0]@ == rk && ids[0]@ == ik {
        Some(view_versions_result(values[0]))
    } else {
        seq_get_versions(regs.drop_first(), ids.drop_first(), values.drop_first(), rk, ik)
    }
}

/// The single-flight cache of version listings, one entry per
/// (registry, package id) pair; the ghost log records every listing fetch.
pub struct VersionCache {
    reg_keys: Vec<String>,
    id_keys: Vec<String>,
    values: Vec<Result<Vec<String>, FailureCause>>,
    fetch_log: Ghost<Seq<(Seq<char>, Seq<char>)>>,
}

impl VersionCache {
    /// The cached answer for a (registry, id) pair, if any.
    pub closed spec fn spec_get(self, rk: Seq<char>, ik: Seq<char>) -> Option<
        Result<Seq<Seq<char>>, FailureCause>,
    > {
        seq_get_versions(self.reg_keys@, self.id_keys@, self.values@, rk, ik)
    }

    /// The pair has been answered (with a listing or a failure).
    pub closed spec fn contains_key(self, rk: Seq<char>, ik: Seq<char>) -> bool {
        self.spec_get(rk, ik) is Some
    }

    /// Every (registry, id) listing fetch so far, in order.
    pub closed spec fn spec_fetch_log(self) -> Seq<(Seq<char>, Seq<char>)> {
        self.fetch_log@
    }

    /// One value per key pair; pairs distinct; the fetch log is exactly the
    /// key pairs.
    pub closed spec fn wf(self) -> bool {
        &&& self.id_keys@.len() == self.reg_keys@.len()
        &&& self.values@.len() == self.reg_keys@.len()
        &&& forall|i: int, j: int|
            0 <= i < j < self.reg_keys@.len() ==> !(self.reg_keys@[i]@ == self.reg_keys@[j]@
                && self.id_keys@[i]@ == self.id_keys@[j]@)
        &&& self.fetch_log@ == Seq::new(
            self.reg_keys@.len() as nat,
            |i: int| (self.reg_keys@[i]@, self.id_keys@[i]@),
        )
    }

    /// An answered pair is exactly one whose cached answer exists.
    pub proof fn lemma_contains_key_is_answered(self, rk: Seq<char>, ik: Seq<char>)
        ensures
            self.contains_key(rk, ik) <==> self.spec_get(rk, ik) is Some,
    {
    }

    /// An empty cache: nothing answered, nothing fetched.
    pub fn new() -> (r: VersionCache)
        ensures
            r.wf(),
            r.spec_fetch_log() == Seq::<(Seq<char>, Seq<char>)>::empty(),
            forall|rk: Seq<char>, ik: Seq<char>| r.spec_get(rk, ik) is None,
    {
        let r = VersionCache {
            reg_keys: Vec::new(),
            id_keys: Vec::new(),
            values: Vec::new(),
            fetch_log: Ghost(Seq::empty()),
        };
        proof {
            assert(r.fetch_log@ =~= Seq::new(
                r.reg_keys@.len() as nat,
                |i: int| (r.reg_keys@[i]@, r.id_keys@[i]@),
            ));
        }
        r
    }

    /// The cached answer for a pair, cloned out; `None` on a miss.
    pub fn lookup(&self, reg: &str, id: &str) -> (r: Option<Result<Vec<String>, FailureCause>>)
        requires
            self.wf(),
        ensures
            match r {
                Some(v) => self.spec_get(reg@, id@) == Some(view_versions_result(v)),
                None => self.spec_get(reg@, id@) is None,
            },
    {
        let mut i: usize = 0;
        while i < self.reg_keys.len()
            invariant
                self.wf(),
                i <= self.reg_keys@.len(),
                forall|j: int|
                    0 <= j < i ==> !(self.reg_keys@[j]@ == reg@ && self.id_keys@[j]@ == id@),
            decreases self.reg_keys@.len() - i,
        {
            if str_eq(self.reg_keys[i].as_str(), reg) && str_eq(self.id_keys[i].as_str(), id) {
                proof {
                    lemma_seq_get_versions_at(self.reg_keys@, self.id_keys@, self.values@,
                        i as int);
                }
                return Some(clone_versions_result(&self.values[i]));
            }
            i = i + 1;
        }
        proof {
            lemma_seq_get_versions_found(self.reg_keys@, self.id_keys@, self.values@, reg@, id@);
        }
        None
    }

    /// Moves a pair from absent to answered; the fetch is logged.
    fn insert(&mut self, reg: String, id: String, value: Result<Vec<String>, FailureCause>)
        requires
            old(self).wf(),
            !old(self).contains_key(reg@, id@),
        ensures
            final(self).wf(),
            final(self).spec_fetch_log() == old(self).spec_fetch_log().push((reg@, id@)),
            final(self).spec_get(reg@, id@) == Some(view_versions_result(value)),
            forall|rk: Seq<char>, ik: Seq<char>|
                !(rk == reg@ && ik == id@) ==> final(self).spec_get(rk, ik) == old(self).spec_get(rk, ik),
    {
        let ghost rview = reg@;
        let ghost iview = id@;
        let ghost oregs = self.reg_keys@;
        let ghost oids = self.id_keys@;
        let ghost ovalues = self.values@;
        self.fetch_log = Ghost(self.fetch_log@.push((reg@, id@)));
        self.reg_keys.push(reg);
        self.id_keys.push(id);
        self.values.push(value);
        proof {
            lemma_seq_get_versions_none(oregs, oids, ovalues, rview, iview);
            assert forall|i: int, j: int|
                0 <= i < j < self.reg_keys@.len() implies !(self.reg_keys@[i]@
                == self.reg_keys@[j]@ && self.id_keys@[i]@ == self.id_keys@[j]@) by {
                if j == oregs.len() {
                    assert(self.reg_keys@[i] == oregs[i]);
                    assert(self.id_keys@[i] == oids[i]);
                }
            }
            assert(self.fetch_log@ =~= Seq::new(
                self.reg_keys@.len() as nat,
                |i: int| (self.reg_keys@[i]@, self.id_keys@[i]@),
            ));
            assert forall|rk: Seq<char>, ik: Seq<char>| true implies #[trigger] self.spec_get(
                rk,
                ik,
            ) == (if rk == rview && ik == iview {
                Some(view_versions_result(self.values@[oregs.len() as int]))
            } else {
                seq_get_versions(oregs, oids, ovalues, rk, ik)
            }) by {
                lemma_seq_get_versions_push(oregs, oids, ovalues,
                    self.reg_keys@[oregs.len() as int], self.id_keys@[oregs.len() as int],
                    self.values@[oregs.len() as int], rk, ik);
                assert(self.reg_keys@ =~= oregs.push(self.reg_keys@[oregs.len() as int]));
                assert(self.id_keys@ =~= oids.push(self.id_keys@[oregs.len() as int]));
                assert(self.values@ =~= ovalues.push(self.values@[oregs.len() as int]));
            }
        }
    }
}

proof fn lemma_seq_get_versions_at(
    regs: Seq<String>,
    ids: Seq<String>,
    values: Seq<Result<Vec<String>, FailureCause>>,
    i: int,
)
    requires
        regs.len() == ids.len(),
        regs.len() == values.len(),
        0 <= i < regs.len(),
        forall|m: int| 0 <= m < i ==> !(regs[m]@ == regs[i]@ && ids[m]@ == ids[i]@),
    ensures
        seq_get_versions(regs, ids, values, regs[i]@, ids[i]@) == Some(
            view_versions_result(values[i]),
        ),
    decreases i,
{
    if i > 0 {
        assert(regs.drop_first()[i - 1] == regs[i]);
        assert(ids.drop_first()[i - 1] == ids[i]);
        assert(forall|m: int| 0 <= m < i - 1 ==> regs.drop_first()[m] == regs[m + 1]);
        assert(forall|m: int| 0 <= m < i - 1 ==> ids.drop_first()[m] == ids[m + 1]);
        lemma_seq_get_versions_at(regs.drop_first(), ids.drop_first(), values.drop_first(),
            i - 1);
    }
}

proof fn lemma_seq_get_versions_none(
    regs: Seq<String>,
    ids: Seq<String>,
    values: Seq<Result<Vec<String>, FailureCause>>,
    rk: Seq<char>,
    ik: Seq<char>,
)
    requires
        regs.len() == ids.len(),
        regs.len() == values.len(),
        seq_get_versions(regs, ids, values, rk, ik) is None,
    ensures
        forall|i: int| 0 <= i < regs.len() ==> !(regs[i]@ == rk && ids[i]@ == ik),
    decreases regs.len(),
{
    if regs.len() > 0 {
        lemma_seq_get_versions_none(regs.drop_first(), ids.drop_first(), values.drop_first(),
            rk, ik);
        assert forall|i: int| 0 <= i < regs.len() implies !(regs[i]@ == rk && ids[i]@ == ik) by {
            if i > 0 {
                assert(regs.drop_first()[i - 1] == regs[i]);
                assert(ids.drop_first()[i - 1] == ids[i]);
            }
        }
    }
}

proof fn lemma_seq_get_versions_found(
    regs: Seq<String>,
    ids: Seq<String>,
    values: Seq<Result<Vec<String>, FailureCause>>,
    rk: Seq<char>,
    ik: Seq<char>,
)
    requires
        regs.len() == ids.len(),
        regs.len() == values.len(),
        forall|i: int| 0 <= i < regs.len() ==> !(regs[i]@ == rk && ids[i]@ == ik),
    ensures
        seq_get_versions(regs, ids, values, rk, ik) is None,
    decreases regs.len(),
{
    if regs.len() > 0 {
        assert forall|i: int|
            0 <= i < regs.drop_first().len() implies !(regs.drop_first()[i]@ == rk
            && ids.drop_first()[i]@ == ik) by {
            assert(regs.drop_first()[i] == regs[i + 1]);
            assert(ids.drop_first()[i] == ids[i + 1]);
        }
        lemma_seq_get_versions_found(regs.drop_first(), ids.drop_first(), values.drop_first(),
            rk, ik);
    }
}

proof fn lemma_seq_get_versions_push(
    regs: Seq<String>,
    ids: Seq<String>,
    values: Seq<Result<Vec<String>, FailureCause>>,
    nr: String,
    ni: String,
    nv: Result<Vec<String>, FailureCause>,
    rk: Seq<char>,
    ik: Seq<char>,
)
    requires
        regs.len() == ids.len(),
        regs.len() == values.len(),
    ensures
        seq_get_versions(regs.push(nr), ids.push(ni), values.push(nv), rk, ik) == match
            seq_get_versions(regs, ids, values, rk, ik) {
            Some(v) => Some(v),
            None => if nr@ == rk && ni@ == ik {
                Some(view_versions_result(nv))
            } else {
                None
            },
        },
    decreases regs.len(),
{
    let lr = regs.push(nr);
    let li = ids.push(ni);
    let lv = values.push(nv);
    assert(lr.len() == regs.len() + 1);
    assert(li.len() == ids.len() + 1);
    assert(lv.len() == values.len() + 1);
    if regs.len() == 0 {
        assert(lr[0] == nr);
        assert(li[0] == ni);
        assert(lv[0] == nv);
        if nr@ == rk && ni@ == ik {
            assert(seq_get_versions(lr, li, lv, rk, ik) == Some(view_versions_result(nv)));
        } else {
            assert(lr.drop_first() =~= Seq::<String>::empty());
            assert(li.drop_first() =~= Seq::<String>::empty());
            assert(lv.drop_first() =~= Seq::<Result<Vec<String>, FailureCause>>::empty());
            assert(seq_get_versions(lr.drop_first(), li.drop_first(), lv.drop_first(), rk, ik)
                is None) by {
                assert(lr.drop_first().len() == 0);
            }
            assert(seq_get_versions(lr, li, lv, rk, ik) is None);
        }
    } else {
        assert(lr[0] == regs[0]);
        assert(li[0] == ids[0]);
        assert(lv[0] == values[0]);
        if regs[0]@ == rk && ids[0]@ == ik {
            assert(seq_get_versions(lr, li, lv, rk, ik) == Some(view_versions_result(values[0])));
            assert(seq_get_versions(regs, ids, values, rk, ik) == Some(
                view_versions_result(values[0]),
            ));
        } else {
            assert(lr.drop_first() =~= regs.drop_first().push(nr));
            assert(li.drop_first() =~= ids.drop_first().push(ni));
            assert(lv.drop_first() =~= values.drop_first().push(nv));
            lemma_seq_get_versions_push(regs.drop_first(), ids.drop_first(),
                values.drop_first(), nr, ni, nv, rk, ik);
            assert(seq_get_versions(lr, li, lv, rk, ik) == seq_get_versions(lr.drop_first(),
                li.drop_first(), lv.drop_first(), rk, ik));
            assert(seq_get_versions(regs, ids, values, rk, ik) == seq_get_versions(
                regs.drop_first(), ids.drop_first(), values.drop_first(), rk, ik));
        }
    }
}


/// The bytes of a local artifact, or `None` when it could not be read.
pub open spec fn spec_artifact_view(a: Option<Vec<u8>>) -> Option<Seq<u8>> {
    match a {
        Some(v) => Some(v@),
        None => None,
    }
}

/// A package is skipped when its archive file name is on the exclusion list
/// or its recorded source is not a URL.
pub open spec fn spec_is_skip(pkg: Package, excluded: Seq<String>) -> bool {
    spec_contains_string(excluded, spec_file_name(pkg.nupkg_path@)) || !(pkg.source is Url)
}

/// The normalized requested version occurs in the listing.
pub open spec fn listing_has_version(listing: Seq<Seq<char>>, version: Seq<char>) -> bool {
    exists|i: int| 0 <= i < listing.len() && listing[i] == spec_normalize_version(version)
}

/// Past the registry steps, a package either hashes and resolves, or fails
/// with `HashIoError` because its archive could not be read.
pub open spec fn spec_resolved_or_hash_failed(
    base: Seq<char>,
    pkg: Package,
    artifact: Option<Seq<u8>>,
    r: ResolutionResult,
) -> bool {
    match artifact {
        None => r matches ResolutionResult::Failed { cause: c, .. } && c
            == FailureCause::HashIoError,
        Some(bytes) => r matches ResolutionResult::Resolved { url: u, hash: h, .. } && u@
            == spec_download_url(base, pkg.id@, pkg.version@) && h@ == nix_base32_of(
            sha256_of(bytes),
        ),
    }
}

/// The whole terminal-state contract of one package's resolution, read
/// against the resolver state after the call: skipped exactly when the skip
/// condition holds; otherwise the registry's cached answer decides, then
/// (when verification is on) the cached listing decides, then the archive
/// bytes decide.
pub open spec fn spec_resolution_ok(
    n: NuGet,
    pkg: Package,
    artifact: Option<Seq<u8>>,
    excluded: Seq<String>,
    r: ResolutionResult,
) -> bool {
    &&& result_is_for(r, pkg)
    &&& (r is Skipped <==> spec_is_skip(pkg, excluded))
    &&& (!spec_is_skip(pkg, excluded) ==> {
        let src = pkg.source.spec_url();
        &&& n.base_cache().contains_key(src)
        &&& match n.base_cache().spec_get(src)->Some_0 {
            Err(c) => r matches ResolutionResult::Failed { cause: rc, .. } && rc == c,
            Ok(base) => if n.verify_versions {
                &&& n.versions_cache().contains_key(src, pkg.id@)
                &&& match n.versions_cache().spec_get(src, pkg.id@)->Some_0 {
                    Err(c) => r matches ResolutionResult::Failed { cause: rc, .. } && rc == c,
                    Ok(listing) => if listing_has_version(listing, pkg.version@) {
                        spec_resolved_or_hash_failed(base, pkg, artifact, r)
                    } else {
                        r is NotFound
                    },
                }
            } else {
                spec_resolved_or_hash_failed(base, pkg, artifact, r)
            },
        }
    })
}

/// Whatever one state has answered, the other answers identically: caches
/// only grow, and an answer once given never changes.
pub open spec fn spec_cache_extends(o: NuGet, n: NuGet) -> bool {
    &&& n.verify_versions == o.verify_versions
    &&& forall|k: Seq<char>|
        #[trigger] o.base_cache().contains_key(k) ==> n.base_cache().spec_get(k)
            == o.base_cache().spec_get(k)
    &&& forall|rk: Seq<char>, ik: Seq<char>|
        #[trigger] o.versions_cache().contains_key(rk, ik) ==> n.versions_cache().spec_get(
            rk,
            ik,
        ) == o.versions_cache().spec_get(rk, ik)
}

/// A terminal state, once justified by a resolver state, stays justified by
/// every later state: the caches it reads only grow.
pub proof fn lemma_resolution_ok_extends(
    o: NuGet,
    n: NuGet,
    pkg: Package,
    artifact: Option<Seq<u8>>,
    excluded: Seq<String>,
    r: ResolutionResult,
)
    requires
        spec_resolution_ok(o, pkg, artifact, excluded, r),
        spec_cache_extends(o, n),
    ensures
        spec_resolution_ok(n, pkg, artifact, excluded, r),
{
    if !spec_is_skip(pkg, excluded) {
        let src = pkg.source.spec_url();
        assert(o.base_cache().contains_key(src));
        assert(n.base_cache().spec_get(src) == o.base_cache().spec_get(src));
        if o.base_cache().spec_get(src)->Some_0 is Ok && o.verify_versions {
            assert(o.versions_cache().contains_key(src, pkg.id@));
            assert(n.versions_cache().spec_get(src, pkg.id@) == o.versions_cache().spec_get(
                src,
                pkg.id@,
            ));
        }
    }
}

/// The resolver: the HTTP client, the two single-flight caches, the input
/// descriptors and the verification switch.
pub struct NuGet {
    /// The HTTP client every fetch of this run goes through.
    pub client: reqwest::blocking::Client,
    /// The single-flight cache of package base addresses.
    pub package_base_address_cache: RegistryCache,
    /// The single-flight cache of version listings.
    pub version_cache: VersionCache,
    /// The package descriptors of this run, in input order.
    pub packages: Vec<Package>,
    /// Whether each version is confirmed against the registry's listing
    /// before a URL is built.
    pub verify_versions: bool,
}

impl NuGet {
    /// The base-address cache.
    pub open spec fn base_cache(self) -> RegistryCache {
        self.package_base_address_cache
    }

    /// The version-listing cache.
    pub open spec fn versions_cache(self) -> VersionCache {
        self.version_cache
    }

    /// Both caches well-formed, every descriptor well-formed.
    pub open spec fn wf(self) -> bool {
        &&& self.package_base_address_cache.wf()
        &&& self.version_cache.wf()
        &&& forall|i: int| 0 <= i < self.packages@.len() ==> (#[trigger] self.packages@[i]).wf()
    }

    /// A fresh resolver over the given descriptors: empty caches, nothing
    /// fetched.  `None` when the HTTP client (carrying the given per-request
    /// timeout) cannot be set up.
    pub fn new(packages: Vec<Package>, verify_versions: bool, timeout_ms: u64) -> (r: Option<
        NuGet,
    >)
        requires
            forall|i: int| 0 <= i < packages@.len() ==> (#[trigger] packages@[i]).wf(),
        ensures
            r matches Some(n) ==> {
                &&& n.wf()
                &&& n.packages == packages
                &&& n.verify_versions == verify_versions
                &&& n.base_cache().spec_fetch_log() == Seq::<Seq<char>>::empty()
                &&& n.versions_cache().spec_fetch_log() == Seq::<(Seq<char>, Seq<char>)>::empty()
                &&& forall|k: Seq<char>| n.base_cache().spec_get(k) is None
                &&& forall|rk: Seq<char>, ik: Seq<char>|
                    n.versions_cache().spec_get(rk, ik) is None
            },
    {
        match new_client(timeout_ms) {
            Some(client) => Some(
                NuGet {
                    client,
                    package_base_address_cache: RegistryCache::new(),
                    version_cache: VersionCache::new(),
                    packages,
                    verify_versions,
                },
            ),
            None => None,
        }
    }

    /// Applies one service-index fetch outcome for a registry not yet
    /// answered: a missing response or a non-2xx status is
    /// `RegistryUnreachable`; an undecodable document or one without the
    /// package-base-address resource is `RegistryMalformed`; otherwise the
    /// normalized base address.  The answer is cached and the fetch logged.
    pub fn admit_index_outcome(&mut self, source: &str, outcome: HttpOutcome) -> (r: Result<
        String,
        FailureCause,
    >)
        requires
            old(self).wf(),
            !old(self).base_cache().contains_key(source@),
        ensures
            final(self).wf(),
            final(self).packages == old(self).packages,
            final(self).verify_versions == old(self).verify_versions,
            final(self).versions_cache() == old(self).versions_cache(),
            spec_cache_extends(*old(self), *final(self)),
            final(self).base_cache().spec_fetch_log() == old(self).base_cache().spec_fetch_log().push(source@),
            final(self).base_cache().spec_get(source@) == Some(view_base_result(r)),
            forall|k: Seq<char>|
                k != source@ ==> final(self).base_cache().spec_get(k) == old(self).base_cache().spec_get(k),
            r matches Ok(b) ==> path_ends_with_slash(b@),
            outcome is NetworkFailure ==> r == Err::<String, FailureCause>(
                FailureCause::RegistryUnreachable,
            ),
            (outcome matches HttpOutcome::Response { status, .. } && !spec_status_ok(status))
                ==> r == Err::<String, FailureCause>(FailureCause::RegistryUnreachable),
            outcome matches HttpOutcome::Response { status, body } ==> (spec_status_ok(
                status,
            ) ==> (match service_index_of(body@) {
                None => r == Err::<String, FailureCause>(FailureCause::RegistryMalformed),
                Some(entries) => view_base_result(r) == spec_select_base_address(entries),
            })),
    {
        let r: Result<String, FailureCause> = match outcome {
            HttpOutcome::NetworkFailure => Err(FailureCause::RegistryUnreachable),
            HttpOutcome::Response { status, body } => {
                if !(200 <= status && status < 300) {
                    Err(FailureCause::RegistryUnreachable)
                } else {
                    match decode_service_index(body.as_str()) {
                        None => Err(FailureCause::RegistryMalformed),
                        Some(entries) => select_base_address(&entries),
                    }
                }
            }
        };
        let stored = clone_base_result(&r);
        self.package_base_address_cache.insert(source.to_owned(), stored);
        r
    }

    /// The base address for a registry: the cached answer when there is one,
    /// else exactly one service-index fetch, whose outcome is cached for
    /// every later caller.
    pub fn get_package_base_address(&mut self, source: &str) -> (r: Result<String, FailureCause>)
        requires
            old(self).wf(),
        ensures
            final(self).wf(),
            final(self).packages == old(self).packages,
            final(self).verify_versions == old(self).verify_versions,
            final(self).versions_cache() == old(self).versions_cache(),
            spec_cache_extends(*old(self), *final(self)),
            old(self).base_cache().contains_key(source@) ==> final(self).base_cache() == old(self).base_cache(),
            !old(self).base_cache().contains_key(source@) ==> final(self).base_cache().spec_fetch_log() == old(self).base_cache().spec_fetch_log().push(
                source@,
            ) && (forall|k: Seq<char>|
                k != source@ ==> final(self).base_cache().spec_get(k) == old(self).base_cache().spec_get(k)),
            final(self).base_cache().spec_get(source@) == Some(view_base_result(r)),
            final(self).base_cache().contains_key(source@),
            r matches Ok(b) ==> path_ends_with_slash(b@),
    {
        match self.package_base_address_cache.lookup(source) {
            Some(v) => {
                proof {
                    match &v {
                        Ok(b) => lemma_seq_get_base_ok_slash(
                            self.package_base_address_cache.keys@,
                            self.package_base_address_cache.values@,
                            source@,
                            b@,
                        ),
                        Err(_) => (),
                    }
                }
                v
            }
            None => {
                let outcome = http_get(&self.client, source);
                self.admit_index_outcome(source, outcome)
            }
        }
    }

    /// Applies one version-listing fetch outcome for a (registry, id) pair
    /// not yet answered: a missing response, a non-2xx status or an
    /// undecodable document is `VersionLookupFailed`; otherwise the listing,
    /// flat or flattened from its pages.  The answer is cached and the fetch
    /// logged.
    pub fn admit_listing_outcome(&mut self, source: &str, id: &str, outcome: HttpOutcome) -> (r:
        Result<Vec<String>, FailureCause>)
        requires
            old(self).wf(),
            !old(self).versions_cache().contains_key(source@, id@),
        ensures
            final(self).wf(),
            final(self).packages == old(self).packages,
            final(self).verify_versions == old(self).verify_versions,
            final(self).base_cache() == old(self).base_cache(),
            spec_cache_extends(*old(self), *final(self)),
            final(self).versions_cache().spec_fetch_log() == old(self).versions_cache().spec_fetch_log().push((source@, id@)),
            final(self).versions_cache().spec_get(source@, id@) == Some(
                view_versions_result(r),
            ),
            forall|rk: Seq<char>, ik: Seq<char>|
                !(rk == source@ && ik == id@) ==> final(self).versions_cache().spec_get(rk, ik)
                    == old(self).versions_cache().spec_get(rk, ik),
            outcome is NetworkFailure ==> r == Err::<Vec<String>, FailureCause>(
                FailureCause::VersionLookupFailed,
            ),
            (outcome matches HttpOutcome::Response { status, .. } && !spec_status_ok(status))
                ==> r == Err::<Vec<String>, FailureCause>(FailureCause::VersionLookupFailed),
            outcome matches HttpOutcome::Response { status, body } ==> (spec_status_ok(status)
                ==> view_versions_result(r) == spec_extract_versions(body@)),
            r is Err ==> r == Err::<Vec<String>, FailureCause>(
                FailureCause::VersionLookupFailed,
            ),
    {
        let r: Result<Vec<String>, FailureCause> = match outcome {
            HttpOutcome::NetworkFailure => Err(FailureCause::VersionLookupFailed),
            HttpOutcome::Response { status, body } => {
                if !(200 <= status && status < 300) {
                    Err(FailureCause::VersionLookupFailed)
                } else {
                    extract_versions(body.as_str())
                }
            }
        };
        let stored = clone_versions_result(&r);
        self.version_cache.insert(source.to_owned(), id.to_owned(), stored);
        r
    }

    /// The version listing for a (registry, id) pair: the cached answer when
    /// there is one, else exactly one fetch of
    /// `{base}{lowercased id}/index.json`, whose outcome is cached for every
    /// later caller.
    pub fn get_versions(&mut self, source: &str, base: &str, id: &str) -> (r: Result<
        Vec<String>,
        FailureCause,
    >)
        requires
            old(self).wf(),
        ensures
            final(self).wf(),
            final(self).packages == old(self).packages,
            final(self).verify_versions == old(self).verify_versions,
            final(self).base_cache() == old(self).base_cache(),
            spec_cache_extends(*old(self), *final(self)),
            old(self).versions_cache().contains_key(source@, id@) ==> final(self).versions_cache() == old(self).versions_cache(),
            !old(self).versions_cache().contains_key(source@, id@) ==> final(self).versions_cache().spec_fetch_log() == old(self).versions_cache().spec_fetch_log().push((source@, id@)),
            final(self).versions_cache().spec_get(source@, id@) == Some(
                view_versions_result(r),
            ),
            final(self).versions_cache().contains_key(source@, id@),
    {
        match self.version_cache.lookup(source, id) {
            Some(v) => v,
            None => {
                let url = build_listing_url(base, id);
                let outcome = http_get(&self.client, url.as_str());
                self.admit_listing_outcome(source, id, outcome)
            }
        }
    }

    /// The canonical download URL for one package: the registry's base
    /// address (cached, fetched at most once) joined with the encoded id and
    /// version.
    pub fn get_download_url(&mut self, pkg: &Package) -> (r: Result<String, FailureCause>)
        requires
            old(self).wf(),
            pkg.source is Url,
        ensures
            final(self).wf(),
            final(self).packages == old(self).packages,
            final(self).verify_versions == old(self).verify_versions,
            final(self).versions_cache() == old(self).versions_cache(),
            spec_cache_extends(*old(self), *final(self)),
            final(self).base_cache().contains_key(pkg.source.spec_url()),
            match r {
                Ok(url) => final(self).base_cache().spec_get(pkg.source.spec_url())->Some_0
                    matches Ok(base) && url@ == spec_download_url(base, pkg.id@, pkg.version@),
                Err(c) => final(self).base_cache().spec_get(pkg.source.spec_url())->Some_0
                    == Err::<Seq<char>, FailureCause>(c),
            },
    {
        let source: String = match &pkg.source {
            RegistrySource::Url(s) => s.clone(),
            RegistrySource::NonResolvable => {
                proof {
                    assert(false);
                }
                String::new()
            }
        };
        match self.get_package_base_address(source.as_str()) {
            Ok(base) => Ok(build_download_url(base.as_str(), pkg.id.as_str(),
                pkg.version.as_str())),
            Err(c) => Err(c),
        }
    }

    /// Resolves one package to its terminal state (see
    /// [`spec_resolution_ok`]); at most one fetch per registry and per
    /// (registry, id) across all calls.
    pub fn resolve_package(&mut self, pkg: &Package, artifact: &Option<Vec<u8>>, excluded: &Vec<
        String,
    >) -> (r: ResolutionResult)
        requires
            old(self).wf(),
            pkg.wf(),
        ensures
            final(self).wf(),
            final(self).packages == old(self).packages,
            final(self).verify_versions == old(self).verify_versions,
            spec_cache_extends(*old(self), *final(self)),
            spec_resolution_ok(
                *final(self),
                *pkg,
                spec_artifact_view(*artifact),
                excluded@,
                r,
            ),
    {
        let id = pkg.id.clone();
        let version = pkg.version.clone();
        let fname = file_name(pkg.nupkg_path.as_str());
        if contains_string(excluded, fname.as_str()) {
            return ResolutionResult::Skipped { id, version };
        }
        let source: String = match &pkg.source {
            RegistrySource::Url(s) => s.clone(),
            RegistrySource::NonResolvable => {
                return ResolutionResult::Skipped { id, version };
            }
        };
        let base = match self.get_package_base_address(source.as_str()) {
            Ok(b) => b,
            Err(c) => {
                return ResolutionResult::Failed { id, version, cause: c };
            }
        };
        if self.verify_versions {
            match self.get_versions(source.as_str(), base.as_str(), id.as_str()) {
                Ok(listing) => {
                    let found = version_in_listing(&listing, version.as_str());
                    proof {
                        assert(listing_has_version(listing.deep_view(), version@)
                            == crate::version::spec_version_found(listing@, version@)) by {
                            if crate::version::spec_version_found(listing@, version@) {
                                let w = choose|i: int|
                                    0 <= i < listing@.len() && listing@[i]@
                                        == spec_normalize_version(version@);
                                assert(listing.deep_view()[w] == spec_normalize_version(
                                    version@,
                                ));
                            }
                            if listing_has_version(listing.deep_view(), version@) {
                                let w = choose|i: int|
                                    0 <= i < listing.deep_view().len() && listing.deep_view()[i]
                                        == spec_normalize_version(version@);
                                assert(listing@[w]@ == spec_normalize_version(version@));
                            }
                        }
                    }
                    if !found {
                        return ResolutionResult::NotFound { id, version };
                    }
                }
                Err(c) => {
                    return ResolutionResult::Failed { id, version, cause: c };
                }
            }
        }
        let url = build_download_url(base.as_str(), id.as_str(), version.as_str());
        match artifact {
            Some(bytes) => {
                let h = hash(bytes.as_slice());
                ResolutionResult::Resolved { id, version, url, hash: h }
            }
            None => ResolutionResult::Failed { id, version, cause: FailureCause::HashIoError },
        }
    }

    /// Resolves every descriptor, in input order, to exactly one terminal
    /// state: the i-th result answers the i-th package, whatever order the
    /// underlying fetches completed in.  `artifacts[i]` holds the bytes of
    /// the i-th package's archive, `None` where it could not be read.
    pub fn resolve_all(&mut self, artifacts: &Vec<Option<Vec<u8>>>, excluded: &Vec<String>) -> (
        results: Vec<ResolutionResult>)
        requires
            old(self).wf(),
            artifacts@.len() == old(self).packages@.len(),
        ensures
            final(self).wf(),
            final(self).packages == old(self).packages,
            final(self).verify_versions == old(self).verify_versions,
            results@.len() == old(self).packages@.len(),
            forall|i: int|
                0 <= i < results@.len() ==> result_is_for(
                    #[trigger] results@[i],
                    old(self).packages@[i],
                ),
            forall|i: int|
                0 <= i < results@.len() ==> spec_resolution_ok(
                    *final(self),
                    old(self).packages@[i],
                    spec_artifact_view(artifacts@[i]),
                    excluded@,
                    #[trigger] results@[i],
                ),
    {
        let ghost initial = *old(self);
        let mut results: Vec<ResolutionResult> = Vec::new();
        let mut i: usize = 0;
        while i < self.packages.len()
            invariant
                self.wf(),
                self.packages == initial.packages,
                self.verify_versions == initial.verify_versions,
                artifacts@.len() == self.packages@.len(),
                i <= self.packages@.len(),
                results@.len() == i,
                forall|j: int|
                    0 <= j < i ==> spec_resolution_ok(
                        *self,
                        initial.packages@[j],
                        spec_artifact_view(artifacts@[j]),
                        excluded@,
                        #[trigger] results@[j],
                    ),
            decreases self.packages@.len() - i,
        {
            let pkg = self.packages[i].clone();
            let ghost prev = *self;
            let r = self.resolve_package(&pkg, &artifacts[i], excluded);
            proof {
                assert forall|j: int|
                    0 <= j < i implies spec_resolution_ok(
                    *self,
                    initial.packages@[j],
                    spec_artifact_view(artifacts@[j]),
                    excluded@,
                    #[trigger] results@[j],
                ) by {
                    lemma_resolution_ok_extends(
                        prev,
                        *self,
                        initial.packages@[j],
                        spec_artifact_view(artifacts@[j]),
                        excluded@,
                        results@[j],
                    );
                }
            }
            results.push(r);
            i = i + 1;
        }
        results
    }
}

/// Single-flight, across a whole run: in every well-formed resolver state
/// the log of service-index fetches names each registry at most once, and
/// the log of listing fetches names each (registry, package id) pair at
/// most once.
pub proof fn lemma_single_flight(n: NuGet)
    requires
        n.wf(),
    ensures
        forall|i: int, j: int|
            0 <= i < j < n.base_cache().spec_fetch_log().len() ==> n.base_cache().spec_fetch_log(
            )[i] != n.base_cache().spec_fetch_log()[j],
        forall|i: int, j: int|
            0 <= i < j < n.versions_cache().spec_fetch_log().len()
                ==> n.versions_cache().spec_fetch_log()[i] != n.versions_cache().spec_fetch_log(
            )[j],
{
}

/// The manifest of a run: the `Resolved` entries, in input order.
pub fn manifest(results: &Vec<ResolutionResult>) -> (m: Vec<ResolutionResult>)
    ensures
        m@ == results@.filter(|r: ResolutionResult| r is Resolved),
{
    let mut m: Vec<ResolutionResult> = Vec::new();
    let mut i: usize = 0;
    while i < results.len()
        invariant
            i <= results@.len(),
            m@ == results@.take(i as int).filter(|r: ResolutionResult| r is Resolved),
        decreases results@.len() - i,
    {
        let keep = match &results[i] {
            ResolutionResult::Resolved { .. } => true,
            _ => false,
        };
        if keep {
            m.push(results[i].clone());
        }
        proof {
            let pred = |r: ResolutionResult| r is Resolved;
            results@.take(i as int).lemma_filter_push(results@[i as int], pred);
            assert(results@.take(i + 1 as int) =~= results@.take(i as int).push(
                results@[i as int],
            ));
            assert(results@.take(i as int).push(results@[i as int]).filter(pred) == (
            if pred(results@[i as int]) {
                results@.take(i as int).filter(pred).push(results@[i as int])
            } else {
                results@.take(i as int).filter(pred)
            }));
            assert(m@ == results@.take(i + 1 as int).filter(pred));
        }
        i = i + 1;
    }
    proof {
        assert(results@.take(results@.len() as int) =~= results@);
    }
    m
}

} // verus!

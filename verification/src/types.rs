//! The data model: package descriptors, registry references, failure kinds
//! and the terminal resolution states.

use vstd::prelude::*;

verus! {

/// The provenance of a package: either the service-index URL of the registry
/// it came from, or an explicit marker that the recorded source is not a URL
/// and can never be resolved (such a package is skipped, not failed).
pub enum RegistrySource {
    Url(String),
    NonResolvable,
}

impl RegistrySource {
    /// The service-index URL, where there is one.
    pub open spec fn spec_url(self) -> Seq<char>
        recommends
            self is Url,
    {
        self->Url_0@
    }
}

impl Clone for RegistrySource {
    fn clone(&self) -> (r: RegistrySource)
        ensures
            r == *self,
    {
        match self {
            RegistrySource::Url(s) => RegistrySource::Url(s.clone()),
            RegistrySource::NonResolvable => RegistrySource::NonResolvable,
        }
    }
}

/// One locally installed package, as the directory scanner reports it.
pub struct Package {
    /// The package id declared in the package's own manifest.
    pub id: String,
    /// The declared version; it may carry a `+`-delimited build-metadata
    /// suffix, which is ignored when the version is compared to a listing.
    pub version: String,
    /// The registry the package was installed from.
    pub source: RegistrySource,
    /// The path of the local package archive.
    pub nupkg_path: String,
}

impl Package {
    /// Descriptor invariant: id and version are never empty.
    pub open spec fn wf(self) -> bool {
        &&& self.id@.len() > 0
        &&& self.version@.len() > 0
    }
}

impl Clone for Package {
    fn clone(&self) -> (r: Package)
        ensures
            r == *self,
    {
        Package {
            id: self.id.clone(),
            version: self.version.clone(),
            source: self.source.clone(),
            nupkg_path: self.nupkg_path.clone(),
        }
    }
}

/// Why a resolution failed.  `NotFound` and `Skipped` are terminal states of
/// their own, not failures.
#[derive(Clone, Copy, Debug, PartialEq, Eq, Structural)]
pub enum FailureCause {
    /// The registry could not be reached, or answered with a non-2xx status.
    RegistryUnreachable,
    /// The service index could not be decoded, or carries no
    /// package-base-address resource.
    RegistryMalformed,
    /// The version listing could not be fetched or decoded.
    VersionLookupFailed,
    /// The local package archive could not be read.
    HashIoError,
}

/// The terminal state of one package's resolution.  Exactly one such value is
/// produced per input descriptor, in input order.
#[derive(Debug, PartialEq, Eq)]
pub enum ResolutionResult {
    /// The package resolved: the version is published (when verification is
    /// on), the download URL was built, the local artifact was hashed.
    Resolved { id: String, version: String, url: String, hash: String },
    /// Verification was on and the requested version is absent from the
    /// registry's listing.
    NotFound { id: String, version: String },
    /// A registry, listing or artifact failure; the cause says which.
    Failed { id: String, version: String, cause: FailureCause },
    /// The package is on the exclusion list, or its recorded source is not a
    /// URL.  Not an error; excluded from the manifest.
    Skipped { id: String, version: String },
}

impl Clone for ResolutionResult {
    fn clone(&self) -> (r: ResolutionResult)
        ensures
            r == *self,
    {
        match self {
            ResolutionResult::Resolved { id, version, url, hash } => ResolutionResult::Resolved {
                id: id.clone(),
                version: version.clone(),
                url: url.clone(),
                hash: hash.clone(),
            },
            ResolutionResult::NotFound { id, version } => ResolutionResult::NotFound {
                id: id.clone(),
                version: version.clone(),
            },
            ResolutionResult::Failed { id, version, cause } => ResolutionResult::Failed {
                id: id.clone(),
                version: version.clone(),
                cause: *cause,
            },
            ResolutionResult::Skipped { id, version } => ResolutionResult::Skipped {
                id: id.clone(),
                version: version.clone(),
            },
        }
    }
}

/// The id a result speaks of.
pub open spec fn result_id(r: ResolutionResult) -> Seq<char> {
    match r {
        ResolutionResult::Resolved { id, .. } => id@,
        ResolutionResult::NotFound { id, .. } => id@,
        ResolutionResult::Failed { id, .. } => id@,
        ResolutionResult::Skipped { id, .. } => id@,
    }
}

/// The version a result speaks of.
pub open spec fn result_version(r: ResolutionResult) -> Seq<char> {
    match r {
        ResolutionResult::Resolved { version, .. } => version@,
        ResolutionResult::NotFound { version, .. } => version@,
        ResolutionResult::Failed { version, .. } => version@,
        ResolutionResult::Skipped { version, .. } => version@,
    }
}

/// A result carries the id and version of the descriptor it answers.
pub open spec fn result_is_for(r: ResolutionResult, pkg: Package) -> bool {
    result_id(r) == pkg.id@ && result_version(r) == pkg.version@
}

/// One `{type, url}` resource entry of a registry's service index.
pub struct ResourceEntry {
    /// The declared resource type.
    pub typ: String,
    /// The resource's endpoint URL.
    pub url: String,
}

/// What one HTTP GET came back with: a status code and a body, or no answer
/// at all.
pub enum HttpOutcome {
    Response { status: u16, body: String },
    NetworkFailure,
}

/// 2xx is success.
pub open spec fn spec_status_ok(status: u16) -> bool {
    200 <= status < 300
}

} // verus!

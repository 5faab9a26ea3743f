use vstd::prelude::*;

use crate::errors::NpmError;
use crate::package::{NpmPackageId, NpmResolutionPackage};

verus! {

/// A user-written reference to a package: a name, optionally narrowed by a
/// version range. Requests are unique by the (name, range) pair.
pub struct NpmPackageReq {
    pub name: String,
    pub version_req: Option<String>,
}

/// Distinguishes execution-time resolution from type-checking resolution;
/// the two may select different variants of a package.
pub enum NodeResolutionMode {
    Execution,
    Types,
}

/// An immutable point-in-time view of a full resolution graph.
pub struct NpmResolutionSnapshot {
    pub packages: Vec<NpmResolutionPackage>,
}

/// A mutable record into which a resolver writes the identities it has
/// resolved.
pub struct Lockfile {
    pub packages: Vec<NpmPackageId>,
}

/// The capability set that every concrete resolver backend implements.
/// Module specifiers and package directories cross this boundary as plain
/// strings; a backend's only observable side effects are the cache directory
/// during request changes and the lockfile argument during `lock`.
pub trait InnerNpmPackageResolver: Send + Sync {
    /// Returns the directory on disk holding the extracted contents of the
    /// package that satisfies the given user-level request; fails when the
    /// current resolution does not satisfy the request.
    fn resolve_package_folder_from_deno_module(&self, pkg_req: &NpmPackageReq) -> Result<
        String,
        NpmError,
    >;

    /// Returns the directory of the package that the referring module sees
    /// under the given bare name, in the given resolution mode. The
    /// referrer's own package decides which version is visible.
    fn resolve_package_folder_from_package(
        &self,
        name: &str,
        referrer: &str,
        mode: NodeResolutionMode,
    ) -> Result<String, NpmError>;

    /// Returns the top-level directory of the registry-managed package that
    /// the specifier points into; fails when the specifier lies in no known
    /// package.
    fn resolve_package_folder_from_specifier(&self, specifier: &str) -> Result<String, NpmError>;

    /// Returns the on-disk size in bytes of the extracted package; fails
    /// when the package is absent or unreadable.
    fn package_size(&self, package_id: &NpmPackageId) -> Result<u64, NpmError>;

    /// Whether the resolver currently holds any resolutions.
    fn has_packages(&self) -> bool;

    /// Merges additional requests into the current resolution and fetches
    /// what is newly needed, preserving existing resolutions; returns on
    /// full completion or on the first failure.
    fn add_package_reqs(&mut self, packages: Vec<NpmPackageReq>) -> Result<(), NpmError>;

    /// Replaces the request set wholesale: resolves new entries, retains
    /// compatible existing ones, and lets obsolete ones be forgotten;
    /// returns on full completion or on the first failure. The list is read
    /// as a set: order and duplicates carry no meaning.
    fn set_package_reqs(&mut self, packages: Vec<NpmPackageReq>) -> Result<(), NpmError>;

    /// Confirms with the permission system that the path may be read.
    fn ensure_read_permission(&self, path: &str) -> Result<(), NpmError>;

    /// Produces an immutable copy of the current resolution graph; cheap and
    /// repeatable.
    fn snapshot(&self) -> NpmResolutionSnapshot;

    /// Writes the currently resolved identities into the lockfile.
    fn lock(&self, lockfile: &mut Lockfile) -> Result<(), NpmError>;
}

} // verus!

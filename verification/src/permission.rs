use vstd::prelude::*;

use crate::errors::NpmError;
use crate::paths::{
    starts_with_path, has_parent_component, path_starts_with, contains_parent_component,
};

verus! {

/// The outcome of canonicalizing a filesystem path (resolving symlinks and
/// `.` / `..` components): the canonical path, a report that the path does
/// not exist, or any other failure.
pub enum CanonResult {
    Canonicalized(String),
    NotFound,
    Failed,
}

/// When a read of `path` under the registry root is granted, given the
/// canonicalization outcomes for the registry root and for the path itself:
/// the path must lie lexically under the root, hold no `..` component, and
/// — with both canonical forms at hand — resolve under the canonical root.
/// A path that does not exist may still be probed; a root that cannot be
/// canonicalized grants nothing.
pub open spec fn read_allowed(
    registry_path: Seq<char>,
    path: Seq<char>,
    canonical_registry: CanonResult,
    canonical_path: CanonResult,
) -> bool {
    &&& starts_with_path(path, registry_path)
    &&& !has_parent_component(path)
    &&& match canonical_registry {
        CanonResult::Canonicalized(reg) => match canonical_path {
            CanonResult::Canonicalized(p) => starts_with_path(p@, reg@),
            CanonResult::NotFound => true,
            CanonResult::Failed => false,
        },
        CanonResult::NotFound => false,
        CanonResult::Failed => false,
    }
}

/// Builds the error that the permission check reports: kind
/// `PermissionDenied`, message `Reading <path> is not allowed`.
fn permission_denied(path: &str) -> (e: NpmError)
    ensures
        e.kind@ == "PermissionDenied"@,
        e.message@ == "Reading "@ + path@ + " is not allowed"@,
{
    let message = String::from_str("Reading ").concat(path).concat(" is not allowed");
    NpmError { kind: String::from_str("PermissionDenied"), message }
}

/// Decides whether `path` may be read as registry-managed content under
/// `registry_path`. The caller supplies the canonicalization outcomes of the
/// two paths; the decision grants the read exactly under `read_allowed`, and
/// a denial carries the original, non-canonical path in its message.
pub fn ensure_registry_read_permission(
    registry_path: &str,
    path: &str,
    canonical_registry: &CanonResult,
    canonical_path: &CanonResult,
) -> (r: Result<(), NpmError>)
    ensures
        r is Ok <==> read_allowed(registry_path@, path@, *canonical_registry, *canonical_path),
        r is Err ==> r->Err_0.kind@ == "PermissionDenied"@ && r->Err_0.message@ == "Reading "@
            + path@ + " is not allowed"@,
{
    if path_starts_with(path, registry_path) && !contains_parent_component(path) {
        match canonical_registry {
            CanonResult::Canonicalized(reg) => {
                match canonical_path {
                    CanonResult::Canonicalized(p) => {
                        if path_starts_with(p.as_str(), reg.as_str()) {
                            return Result::Ok(());
                        }
                    },
                    CanonResult::NotFound => {
                        return Result::Ok(());
                    },
                    CanonResult::Failed => {},
                }
            },
            CanonResult::NotFound => {},
            CanonResult::Failed => {},
        }
    }
    Result::Err(permission_denied(path))
}

/// Law: a path that lies lexically under the registry root, holds no `..`
/// component, and either resolves under the canonical root or does not exist
/// at all, is granted.
pub proof fn lemma_read_allowed_under_root(
    registry_path: Seq<char>,
    path: Seq<char>,
    reg: String,
    canonical_path: CanonResult,
)
    requires
        starts_with_path(path, registry_path),
        !has_parent_component(path),
        match canonical_path {
            CanonResult::Canonicalized(p) => starts_with_path(p@, reg@),
            CanonResult::NotFound => true,
            CanonResult::Failed => false,
        },
    ensures
        read_allowed(registry_path, path, CanonResult::Canonicalized(reg), canonical_path),
{
}

/// Law: a path holding a `..` component is denied, whatever the registry
/// root is and whatever the filesystem reports.
pub proof fn lemma_parent_component_denied(
    registry_path: Seq<char>,
    path: Seq<char>,
    canonical_registry: CanonResult,
    canonical_path: CanonResult,
)
    requires
        has_parent_component(path),
    ensures
        !read_allowed(registry_path, path, canonical_registry, canonical_path),
{
}

/// Law: a path inside the registry root whose canonical form — symlinks
/// resolved — lies outside the canonical root is denied.
pub proof fn lemma_escaping_symlink_denied(
    registry_path: Seq<char>,
    path: Seq<char>,
    reg: String,
    p: String,
)
    requires
        !starts_with_path(p@, reg@),
    ensures
        !read_allowed(
            registry_path,
            path,
            CanonResult::Canonicalized(reg),
            CanonResult::Canonicalized(p),
        ),
{
}

} // verus!

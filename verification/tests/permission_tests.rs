use npm_resolver_common::permission::{ensure_registry_read_permission, CanonResult};

fn canonical(path: &str) -> CanonResult {
    CanonResult::Canonicalized(String::from(path))
}

#[test]
fn test_permission_existing_path_under_registry() {
    let r = ensure_registry_read_permission(
        "/reg",
        "/reg/foo/bar",
        &canonical("/reg"),
        &canonical("/reg/foo/bar"),
    );
    assert!(r.is_ok());
}

#[test]
fn test_permission_parent_component_rejected() {
    // the lexical check fires whatever the filesystem would say
    let r = ensure_registry_read_permission(
        "/reg",
        "/reg/../etc/passwd",
        &canonical("/reg"),
        &canonical("/etc/passwd"),
    );
    let err = r.unwrap_err();
    assert_eq!(err.kind, "PermissionDenied");
    assert_eq!(err.message, "Reading /reg/../etc/passwd is not allowed");
}

#[test]
fn test_permission_missing_file_accepted() {
    let r = ensure_registry_read_permission(
        "/reg",
        "/reg/missing.json",
        &canonical("/reg"),
        &CanonResult::NotFound,
    );
    assert!(r.is_ok());
}

#[test]
fn test_permission_outside_registry_rejected() {
    let r = ensure_registry_read_permission(
        "/reg",
        "/elsewhere/x",
        &canonical("/reg"),
        &canonical("/elsewhere/x"),
    );
    let err = r.unwrap_err();
    assert_eq!(err.kind, "PermissionDenied");
    assert_eq!(err.message, "Reading /elsewhere/x is not allowed");
}

#[test]
fn test_permission_sibling_prefix_rejected() {
    // "/registry-evil" shares the text prefix but not the component
    let r = ensure_registry_read_permission(
        "/reg",
        "/registry-evil/x",
        &canonical("/reg"),
        &canonical("/registry-evil/x"),
    );
    assert!(r.is_err());
}

#[test]
fn test_permission_escaping_symlink_rejected() {
    // a link inside the registry that resolves outside the canonical root
    let r = ensure_registry_read_permission(
        "/reg",
        "/reg/link/secret",
        &canonical("/reg"),
        &canonical("/outside/secret"),
    );
    let err = r.unwrap_err();
    assert_eq!(err.kind, "PermissionDenied");
    assert_eq!(err.message, "Reading /reg/link/secret is not allowed");
}

#[test]
fn test_permission_unreadable_registry_root_rejected() {
    let r = ensure_registry_read_permission(
        "/reg",
        "/reg/foo",
        &CanonResult::Failed,
        &canonical("/reg/foo"),
    );
    assert!(r.is_err());
}

#[test]
fn test_permission_other_canonicalize_failure_rejected() {
    let r = ensure_registry_read_permission(
        "/reg",
        "/reg/foo",
        &canonical("/reg"),
        &CanonResult::Failed,
    );
    assert!(r.is_err());
}

use npm_resolver_common::errors::NpmError;
use npm_resolver_common::package::{
    NpmPackageId, NpmPackageVersionDistInfo, NpmResolutionPackage,
};
use npm_resolver_common::prefetch::{
    cache_download_order, collect_first_error, sort_packages_by_id,
};

fn package(name: &str, version: &str, tarball: &str) -> NpmResolutionPackage {
    NpmResolutionPackage {
        id: NpmPackageId {
            name: String::from(name),
            version: String::from(version),
        },
        copy_index: 0,
        dist: NpmPackageVersionDistInfo {
            tarball: String::from(tarball),
            integrity: String::from("sha512-test"),
        },
    }
}

fn cache_error(message: &str) -> NpmError {
    NpmError {
        kind: String::from("CacheFailure"),
        message: String::from(message),
    }
}

#[test]
fn test_cache_download_order_empty_is_empty() {
    assert_eq!(cache_download_order(Vec::new(), true), Vec::new());
    assert_eq!(cache_download_order(Vec::new(), false), Vec::new());
}

#[test]
fn test_collect_first_error_empty_is_ok() {
    assert!(collect_first_error(Vec::new()).is_ok());
}

#[test]
fn test_cache_download_order_not_serial_keeps_order() {
    let packages = vec![
        package("b", "1.0.0", "https://registry.example/b-1.0.0.tgz"),
        package("a", "1.0.0", "https://registry.example/a-1.0.0.tgz"),
    ];
    assert_eq!(cache_download_order(packages.clone(), false), packages);
}

#[test]
fn test_cache_download_order_serial_sorts_by_name_then_version() {
    let a1 = package("a", "1.0.0", "https://registry.example/a-1.0.0.tgz");
    let a2 = package("a", "2.0.0", "https://registry.example/a-2.0.0.tgz");
    let b1 = package("b", "1.0.0", "https://registry.example/b-1.0.0.tgz");
    let ordered = cache_download_order(
        vec![b1.clone(), a2.clone(), a1.clone()],
        true,
    );
    assert_eq!(ordered, vec![a1, a2, b1]);
}

#[test]
fn test_serial_order_is_permutation_independent() {
    let a1 = package("a", "1.0.0", "https://registry.example/a-1.0.0.tgz");
    let a2 = package("a", "2.0.0", "https://registry.example/a-2.0.0.tgz");
    let b1 = package("b", "1.0.0", "https://registry.example/b-1.0.0.tgz");
    let first = vec![b1.clone(), a2.clone(), a1.clone()];
    let second = vec![a2, b1, a1];
    assert_eq!(
        cache_download_order(first, true),
        cache_download_order(second, true)
    );
}

#[test]
fn test_sort_packages_by_id_concrete() {
    let a1 = package("left-pad", "1.0.0", "https://registry.example/l.tgz");
    let b1 = package("chalk", "4.1.2", "https://registry.example/c.tgz");
    let sorted = sort_packages_by_id(vec![a1.clone(), b1.clone()]);
    assert_eq!(sorted, vec![b1, a1]);
}

#[test]
fn test_collect_first_error_surfaces_middle_failure() {
    let results: Vec<Result<(), NpmError>> = vec![
        Ok(()),
        Err(cache_error("tarball checksum mismatch")),
        Ok(()),
    ];
    let outcome = collect_first_error(results);
    let err = outcome.unwrap_err();
    assert_eq!(err.kind, "CacheFailure");
    assert_eq!(err.message, "tarball checksum mismatch");
}

#[test]
fn test_collect_first_error_takes_the_first_of_two() {
    let results: Vec<Result<(), NpmError>> = vec![
        Err(cache_error("first failure")),
        Err(cache_error("second failure")),
    ];
    let err = collect_first_error(results).unwrap_err();
    assert_eq!(err.message, "first failure");
}

#[test]
fn test_collect_first_error_all_ok() {
    let results: Vec<Result<(), NpmError>> = vec![Ok(()), Ok(()), Ok(())];
    assert!(collect_first_error(results).is_ok());
}

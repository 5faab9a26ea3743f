use npm_resolver_common::types_name::types_package_name;

#[test]
fn test_types_package_name() {
    assert_eq!(types_package_name("name"), "@types/name");
    assert_eq!(
        types_package_name("@scoped/package"),
        "@types/@scoped__package"
    );
}

#[test]
fn test_types_package_name_nested_scope() {
    assert_eq!(types_package_name("@a/b/c"), "@types/@a__b__c");
}

#[test]
fn test_types_package_name_keeps_prefix_and_drops_slashes() {
    let names = ["name", "@scoped/package", "@a/b/c", "a-b.c", ""];
    for name in names {
        let mapped = types_package_name(name);
        assert!(mapped.starts_with("@types/"));
        assert!(!mapped["@types/".len()..].contains('/'));
    }
}

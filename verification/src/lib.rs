//! Common pieces of an npm package resolver: the capability set that every
//! concrete resolver backend implements, the order and error handling of the
//! parallel cache pre-fetch, the read-permission check that confines
//! filesystem access to the registry root, and the mapping from a package
//! name to its companion `@types/...` package name.

pub mod errors;
pub mod package;
pub mod paths;
pub mod permission;
pub mod prefetch;
pub mod resolver;
pub mod types_name;

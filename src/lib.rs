//! Reads the dependency section of a package manifest and looks up the
//! version (or tag) that each dependency asks for.

pub mod decode;
pub mod entry;
pub mod laws;
pub mod manifest;

pub use decode::parse_cargo_toml;
pub use entry::{
    build_manifest, resolve_dependencies, resolve_dependency, FieldValue, ParseError, RawEntry,
    VersionField,
};
pub use manifest::{CargoToml, Dependency};

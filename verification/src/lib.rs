//! Safe handling of untrusted filesystem paths under a trusted root
//! directory: symlink-aware containment resolution, race-free handle
//! validation, and staged directory creation.

pub mod path_model;
pub mod path_ops;
pub mod resolver;
pub mod safe_dir_builder;

pub use safe_dir_builder::SafeDirBuilder;

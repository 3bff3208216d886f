//! Provisioning of prebuilt Python interpreters and per-package virtual
//! environments: version resolution against a release catalog, platform
//! suffix selection, integrity-checked downloads, and idempotent package
//! installation with shim generation.

pub mod catalog;
pub mod download;
pub mod errors;
pub mod fsmodel;
pub mod pipeline;
pub mod platform;
pub mod strutil;
pub mod version;

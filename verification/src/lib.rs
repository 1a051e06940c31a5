//! Installing font bundles from a release feed: the catalog of assets, the
//! progress protocol of an install run, and the selection of font files from
//! a compressed archive.

pub mod archive;
pub mod asset;
pub mod catalog;
pub mod error;
pub mod install;
pub mod path;
pub mod progress;
pub mod protocol;
pub mod text;
pub mod view;

//! A BagIt 1.0 packager: the tag-file and manifest formats, the percent codec of manifest
//! paths, and the decisions that turn a directory into a bag.

pub mod bag;
pub mod consts;
pub mod digest;
pub mod encoding;
pub mod error;
pub mod io;
pub mod manifest;
pub mod order;
pub mod tag;
pub mod tagfile;
pub mod text;
pub mod validate;

pub use crate::bag::{open_bag, Bag, BagItVersion, BagUpdater};
pub use crate::digest::DigestAlgorithm;
pub use crate::error::{Error, IoErrorKind};
pub use crate::tag::{BagDeclaration, BagInfo, Tag, TagList};

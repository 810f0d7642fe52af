//! A verified core for an image-favourites utility: path handling for
//! directory scans, a favourites store with set semantics, and an export
//! pipeline that copies favourite files to a destination directory while
//! reporting progress.
//!
//! All filesystem and database I/O lives outside this crate; the modules
//! here hold the decisions those edges rely on, each with a proved
//! contract.

use vstd::prelude::*;

pub mod paths;
pub mod scan;
pub mod store;
pub mod export;

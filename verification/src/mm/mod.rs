//! Address spaces: permissions, page-table entries and mapped regions.
use vstd::prelude::*;

pub mod address_space;
pub mod flags;
pub mod image;
pub mod memory_set;
pub mod proofs;

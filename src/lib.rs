//! Groups tables by the overlap of their column names, merges each group's
//! headers and realigns every row to the merged header.

pub mod header;
pub mod compat;
pub mod remap;
pub mod grouping;
pub mod naming;
pub mod source;
pub mod combine;

//! Signed crate packages: a binary container that bundles a `.crate` archive
//! with its metadata, its dependency table and CMS signatures, behind a section
//! index, a string table and a SHA-256 fingerprint.
use vstd::prelude::*;

pub mod codec;
pub mod crypto;
pub mod layout;
pub mod section;
pub mod package;
pub mod signature;
pub mod context;
pub mod unpack;
pub mod round_trip;
pub mod signing;

verus! {

} // verus!

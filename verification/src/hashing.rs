//! The hasher behind the hash tables of this crate.

use vstd::prelude::*;

verus! {

/// `rustc_hash::FxHasher`, the hasher of every hash table here. Nothing is
/// claimed of the values it computes.
#[verifier::external_type_specification]
#[verifier::external_body]
pub struct ExFxHasher(rustc_hash::FxHasher);

/// `std::hash::BuildHasherDefault`, which makes a hasher by its `Default`.
#[verifier::external_type_specification]
#[verifier::external_body]
#[verifier::reject_recursive_types(H)]
pub struct ExBuildHasherDefault<H>(std::hash::BuildHasherDefault<H>);

} // verus!

//! Decoding of mesh descriptions from a JSON-like value tree into typed
//! records. Semantic problems (an unknown mode code, an unrecognized attribute
//! name) become `Invalid` markers inside the result; only a value of the wrong
//! shape, or a missing required member, is an error.
use vstd::prelude::*;

pub mod decimal;
pub mod decode;
pub mod mesh;
pub mod validation;
pub mod value;

verus! {

} // verus!

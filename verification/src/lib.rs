//! The Diavolo archive format's field accessors and the model of its
//! specification files, with the semantic checks that the code generator runs.
use vstd::prelude::*;

pub mod field;
pub mod text;
pub mod strmap;
pub mod schema;
pub mod problem;
pub mod validate;

verus! {

} // verus!

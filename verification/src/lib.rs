use vstd::prelude::*;

pub mod text;
pub mod token;
pub mod validation;
pub mod studio;
pub mod parser;

verus! {

} // verus!

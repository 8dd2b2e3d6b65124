use vstd::prelude::*;

pub mod config;
pub mod laws;
pub mod page;
pub mod text;
pub mod walk;

verus! {

} // verus!

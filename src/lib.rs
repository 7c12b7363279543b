use vstd::prelude::*;

pub mod commands;
pub mod config;
pub mod tree;

verus! {

} // verus!

use vstd::prelude::*;

pub mod connection;
pub mod error;
pub mod splitter;

verus! {

} // verus!

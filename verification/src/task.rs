use vstd::prelude::*;

pub mod keyboard;
pub mod timer;

verus! {

} // verus!

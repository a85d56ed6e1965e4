use vstd::prelude::*;

pub mod body;
pub mod gravity;
pub mod motion;
pub mod solar_system;

verus! {

} // verus!

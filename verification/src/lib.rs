//! Configuration reading, text handling and decision logic of a loader that
//! starts 3DMigoto into a target game process.
use vstd::prelude::*;

pub mod text;
pub mod ini;
pub mod wide;
pub mod config;
pub mod version;
pub mod process;

verus! {

} // verus!

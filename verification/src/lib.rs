pub mod filesystem;
pub mod instruction;
pub mod laws;
pub mod mem_ram;
pub mod processo;
pub mod queues;
pub mod resources;
pub mod search;
pub mod segments;
pub mod setup;

use vstd::prelude::*;

verus! {

} // verus!

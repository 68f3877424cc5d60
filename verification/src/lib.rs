//! NovaOS: an educational operating-system simulator whose kernel, storage,
//! network and userspace logic is specified and verified.
use vstd::prelude::*;

pub mod text;
pub mod kernel;
pub mod drivers;
pub mod filesystem;
pub mod networking;
pub mod userspace;
pub mod gui;
pub mod shell;
pub mod system;

verus! {

} // verus!

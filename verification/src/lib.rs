pub mod data;
pub mod error;
pub mod format;
pub mod io;
pub mod vint;

use vstd::prelude::*;

verus! {

} // verus!

use vstd::prelude::*;

pub mod text;
pub mod inject;
pub mod extract;
pub mod klee;
pub mod fastcheck;
pub mod report;
pub mod xtool;
pub mod driver;
pub mod source;

verus! {

} // verus!

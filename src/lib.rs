use vstd::prelude::*;

pub mod day;
pub mod mask;
pub mod parse;
pub mod process;
pub mod schedules;
pub mod text;
pub mod user;

verus! {

} // verus!

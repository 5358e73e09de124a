use vstd::prelude::*;

pub mod arith;
pub mod character;
pub mod cli;
pub mod collision;
pub mod npc;
pub mod record;
pub mod render;
pub mod rounding;
pub mod single;
pub mod text;
pub mod ui;

verus! {

} // verus!

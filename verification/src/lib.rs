use vstd::prelude::*;

pub mod files;
pub mod links;
pub mod menu;
pub mod settings;
pub mod text;

verus! {

} // verus!

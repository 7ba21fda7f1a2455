use vstd::prelude::*;

pub mod text;
pub mod search;
pub mod paths;
pub mod filetree;
pub mod tabs;
pub mod app;
pub mod events;
pub mod highlight;
pub mod ui;

verus! {

} // verus!

use vstd::prelude::*;

pub mod access;
pub mod client;
pub mod document;
pub mod edit;
pub mod editor;
pub mod model;
pub mod position;
pub mod protocol;
pub mod registry;
pub mod server;
pub mod text;

verus! {

} // verus!

//! An in-memory workspace / database / table store driven by a small
//! command language, with every decision of the command interpreter
//! stated and proved.
use vstd::prelude::*;

pub mod outside;
pub mod text;
pub mod notice;
pub mod output;
pub mod table;
pub mod store;
pub mod order;
pub mod exchange;
pub mod command;
pub mod session;
pub mod laws;
pub mod readback;
pub mod selection;
pub mod command_laws;

verus! {

} // verus!

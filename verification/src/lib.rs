//! Decay sources from time-stepped activation inventories.
//!
//! For each requested time step of an inventory, every unstable nuclide is
//! matched to the decay records of its own excitation level. Records that
//! were never observed are dropped, the rest are ordered, and the result is
//! laid out as a text table, as structured entries, or as source
//! distribution cards for a transport code.

pub mod quantity;
pub mod text;
pub mod order;
pub mod nuclide;
pub mod record;
pub mod cli;
pub mod wrappers;
pub mod source;
pub mod builder;
pub mod table;
pub mod mcnp;
pub mod parse;
pub mod select;
pub mod json;
pub mod output;
pub mod readback;

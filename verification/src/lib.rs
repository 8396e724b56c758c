//! A small, fully verified core for a terminal recipe manager.
//!
//! The library holds the recipe data model, the line-oriented textual
//! codec that persists recipes, the in-memory collection kept in lockstep
//! with a modelled backing store, and the pure validators behind the
//! interactive menu.  All file and console I/O lives outside the library
//! and hands plain values in and out.

pub mod codec;
pub mod menu;
pub mod recipe;
pub mod store;
pub mod text;
pub mod unit;

//! Structural listing, full-tree dumping and parse diagnostics for
//! SystemVerilog sources, over plain values handed in by a front end.
use vstd::prelude::*;

pub mod text;
pub mod defines;
pub mod dump;
pub mod escape;
pub mod extract;
pub mod locate;
pub mod session;

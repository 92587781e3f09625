//! A verified reader for Wavefront OBJ geometry files and MTL material
//! libraries.
use vstd::prelude::*;

pub mod text;
pub mod lexer;
pub mod obj;
pub mod mtl;
pub mod object;
pub mod parser;
pub mod table;
pub mod compose;
pub mod display;
pub mod roundtrip;
pub mod readback;
pub mod properties;

verus! {
} // verus!

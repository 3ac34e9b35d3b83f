//! Configuration handed to the core by its caller.

use vstd::prelude::*;

verus! {

/// How command outcomes are rendered.
#[derive(Clone, Copy, PartialEq, Eq, Structural, Debug)]
pub enum Mode {
    Minimum,
    Simple,
}

/// What the surrounding layer reads from the configuration file: the data
/// directory the collection files live in, and the rendering mode.  The
/// core never resolves the directory itself; its caller loads and defaults
/// this value.
#[derive(Debug, PartialEq, Eq)]
pub struct MyConfig {
    pub data: String,
    pub mode: Mode,
}

} // verus!

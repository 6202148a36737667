//! Plugins: parts of the engine that are loaded while it runs.
use vstd::prelude::*;

verus! {

/// A part of the engine that is loaded while it runs.
pub trait Plugin {

}

} // verus!

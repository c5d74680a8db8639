//! The colour theme choice of the settings form.

use vstd::prelude::*;

verus! {

/// The interface colour theme.
#[derive(Debug, Clone, Copy, PartialEq)]
pub enum Theme {
    Light,
    Dark,
}

} // verus!

//! The size of a pseudo-terminal.
use vstd::prelude::*;

verus! {

/// Rows and columns of a pseudo-terminal.
#[derive(Debug, Clone, Copy, PartialEq, Eq, Structural)]
pub struct PtySize {
    pub rows: u16,
    pub cols: u16,
}

} // verus!

//! What a file chosen in a file dialog is used for.
use vstd::prelude::*;

verus! {

/// Whether a chosen file is opened afresh or replaces the current one.
#[derive(Clone, Copy, Debug, PartialEq, Eq, Structural)]
pub enum OpenMode {
    Open,
    Switch,
}

} // verus!

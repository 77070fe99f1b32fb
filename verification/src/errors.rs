//! The error taxonomy of the pipeline.  Every fatal stage failure aborts
//! the remainder of `generate` and is surfaced to the caller as a typed
//! result; nothing is logged inside the library.

use vstd::prelude::*;
use crate::readers::IoError;
use crate::validators::ValidationError;

verus! {

/// A failure inside a filter, sorter, or formatter stage, such as a
/// missing metadata value the sorter needs.
#[derive(Clone, Copy, Debug, PartialEq, Eq, Structural)]
pub struct StageError;

/// The error `generate` surfaces: the failure of the first stage that
/// failed.
#[derive(Clone, Copy, Debug, PartialEq, Eq, Structural)]
pub enum LstError {
    /// The location does not denote a usable filesystem object.
    Validation(ValidationError),
    /// A directory enumeration failed.
    Io(IoError),
    /// A filter, sorter, or formatter stage failed.
    Stage(StageError),
}

} // verus!

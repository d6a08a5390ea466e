//! Error kinds of the pipeline.
//!
//! `Configuration` is fatal at construction time (a missing class count or
//! an invalid threshold).  `Inference` marks a collaborator failure for one
//! image; the batch continues.  `ShapeMismatch` marks a tensor whose
//! dimensions disagree with the model description.  An empty result is not
//! an error: it is an ordinary value.

use vstd::prelude::*;

verus! {

#[derive(Clone, Copy, Debug, PartialEq, Eq, Structural)]
pub enum YoloError {
    Configuration,
    Inference,
    ShapeMismatch,
}

} // verus!

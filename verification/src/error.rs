//! The errors of drawing to a terminal: the backend failed, or drawing the frame did.
use vstd::prelude::*;

verus! {

/// An error of a terminal: one of its backend, or one raised while drawing a frame.
#[derive(Debug)]
pub enum Error<B, D> {
    Backend(B),
    DrawFrame(D),
}

impl<B, D> Error<B, D> {
    /// What went wrong, in words.
    pub fn message(&self) -> (m: &'static str)
        ensures
            m@ == match self {
                Error::Backend(_) => "failed to execute backend operation"@,
                Error::DrawFrame(_) => "failed to draw frame"@,
            },
    {
        match self {
            Error::Backend(_) => "failed to execute backend operation",
            Error::DrawFrame(_) => "failed to draw frame",
        }
    }
}

} // verus!

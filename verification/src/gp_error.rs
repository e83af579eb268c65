//! The error of the application that carries no detail.
use vstd::prelude::*;

verus! {

#[derive(Debug, PartialEq, Eq, Structural, Clone, Copy)]
pub struct GpError {}

impl GpError {
    /// The text that the error displays.
    pub fn to_string(&self) -> (r: String)
        ensures
            r@ == "GpError is here!"@,
    {
        "GpError is here!".to_owned()
    }

    /// The description of the error.
    pub fn description(&self) -> (r: &'static str)
        ensures
            r@ == "I'm the gphero of errors"@,
    {
        "I'm the gphero of errors"
    }
}

} // verus!

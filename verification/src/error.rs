//! The ways a conversion can fail.

use vstd::prelude::*;

verus! {

/// Why a conversion was given up. No partial grid or tree is ever handed out
/// together with one of these.
#[derive(Clone, Copy, Debug, PartialEq, Eq, Structural)]
pub enum ConversionError {
    /// A setting that cannot be worked with, such as a negative grid dimension.
    Config,
    /// The contact test could not decide a cell.
    ContactTest,
    /// The tree under construction refused a field.
    Encode,
}

impl ConversionError {
    /// A short description for messages to people.
    pub fn message(&self) -> (text: &'static str)
        ensures
            text@ == match *self {
                ConversionError::Config => "invalid configuration"@,
                ConversionError::ContactTest => "the contact test failed"@,
                ConversionError::Encode => "the tree could not be built"@,
            },
    {
        match self {
            ConversionError::Config => "invalid configuration",
            ConversionError::ContactTest => "the contact test failed",
            ConversionError::Encode => "the tree could not be built",
        }
    }
}

} // verus!

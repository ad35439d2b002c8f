//! The ways in which a template can be too narrow to render.

use vstd::prelude::*;
use vstd::string::StringExecFns;

verus! {

/// A template, or a row, that is too narrow for what it has to hold.
#[derive(Clone, Copy, Debug, PartialEq, Eq, Structural)]
pub enum SizeError {
    /// The length is below the two columns that are kept for the border.
    NoRoomForBorder,
    /// The row leaves no column for the content of a field.
    NoRoomForValue,
}

impl SizeError {
    /// What is wrong, in words.
    pub fn message(&self) -> (text: String)
        ensures
            text@ == match *self {
                SizeError::NoRoomForBorder => "the length leaves no room for the border"@,
                SizeError::NoRoomForValue => "the length leaves no room for the values"@,
            },
    {
        match self {
            SizeError::NoRoomForBorder => String::from_str(
                "the length leaves no room for the border",
            ),
            SizeError::NoRoomForValue => String::from_str(
                "the length leaves no room for the values",
            ),
        }
    }
}

} // verus!

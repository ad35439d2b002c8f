//! The limits that new templates are held to.

use vstd::prelude::*;

verus! {

/// The limits and the suggested values for the templates that are written.
#[derive(Clone, Copy, Debug, PartialEq, Eq, Structural)]
pub struct Config {
    pub max_header_len: u16,
    pub max_title_len: u16,
    /// The length that is suggested for a header, and the longest that is
    /// accepted.
    pub header_len: u16,
    /// The number of blank lines that is suggested above and below the
    /// fields, and the largest that is accepted.
    pub space_height: u8,
}

impl Config {
    /// Whether `length` is accepted as the length of a header: at least the
    /// two columns that are kept for the border, and not above `header_len`.
    pub fn accepts_length(&self, length: u16) -> (ok: bool)
        ensures
            ok == (2 <= length <= self.header_len),
    {
        length >= 2 && length <= self.header_len
    }

    /// Whether `space` is accepted as a number of blank lines: not above
    /// `space_height`.
    pub fn accepts_space(&self, space: u8) -> (ok: bool)
        ensures
            ok == (space <= self.space_height),
    {
        space <= self.space_height
    }
}

} // verus!

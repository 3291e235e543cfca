//! The host conventions the resolver depends on.

use vstd::prelude::*;

verus! {

/// Which path conventions are in force.
#[derive(Clone, Copy, Debug, PartialEq, Eq, Structural)]
pub enum Platform {
    /// `/` separates segments; a leading `/` makes a path absolute.
    Unix,
    /// `\` separates segments, `/` is accepted as well; a leading drive
    /// letter makes a path absolute.
    Windows,
}

impl Platform {
    /// The separator character paths are normalised to.
    pub open spec fn spec_separator(self) -> char {
        match self {
            Platform::Unix => '/',
            Platform::Windows => '\\',
        }
    }

    /// Whether `c` ends a path segment when it closes a base path.
    pub open spec fn spec_closes_segment(self, c: char) -> bool {
        match self {
            Platform::Unix => c == '/',
            Platform::Windows => c == '/' || c == '\\',
        }
    }

    /// The separator character paths are normalised to.
    #[verifier::when_used_as_spec(spec_separator)]
    pub fn separator(self) -> (c: char)
        ensures
            c == self.spec_separator(),
    {
        match self {
            Platform::Unix => '/',
            Platform::Windows => '\\',
        }
    }

    /// Whether `c` ends a path segment when it closes a base path.
    #[verifier::when_used_as_spec(spec_closes_segment)]
    pub fn closes_segment(self, c: char) -> (b: bool)
        ensures
            b == self.spec_closes_segment(c),
    {
        match self {
            Platform::Unix => c == '/',
            Platform::Windows => c == '/' || c == '\\',
        }
    }
}

} // verus!

//! What can go wrong when a descriptor is read, checked or spent.

use vstd::prelude::*;

verus! {

/// Why a script is not safe to use, although it is well formed.
#[derive(Debug, Clone, Copy, PartialEq, Eq)]
pub enum AnalysisError {
    /// A branch can be spent without a signature.
    SiglessBranch,
    /// One public key occurs more than once.
    RepeatedPubkeys,
    /// A branch exceeds the resource limits of the network.
    BranchExceedResouceLimits,
    /// A branch mixes block heights and times in its timelocks.
    HeightTimelockCombination,
    /// A third party can change the witness of the script.
    Malleable,
}

/// An error of this library.
#[derive(Debug, PartialEq, Eq)]
pub enum Error {
    /// Something other than the expected text was met; the text that was, or a description.
    Unexpected(String),
    /// The descriptor as a whole is not acceptable.
    BadDescriptor(String),
    /// A byte outside the printable range.
    Unprintable(u8),
    /// The text ended, or went on with something else, where this character had to come.
    ExpectedChar(char),
    /// A tree is nested too deeply.
    MaxRecursiveDepthExceeded,
    /// No witness at all can satisfy the descriptor.
    ImpossibleSatisfaction,
    /// No witness could be made from what is known.
    CouldNotSatisfy,
    /// A script is not safe to use.
    AnalysisError(AnalysisError),
}

/// The mathematical content of an [`Error`].
pub enum ErrorView {
    Unexpected(Seq<char>),
    BadDescriptor(Seq<char>),
    Unprintable(u8),
    ExpectedChar(char),
    MaxRecursiveDepthExceeded,
    ImpossibleSatisfaction,
    CouldNotSatisfy,
    AnalysisError(AnalysisError),
}

impl View for Error {
    type V = ErrorView;

    open spec fn view(&self) -> ErrorView {
        match self {
            Error::Unexpected(s) => ErrorView::Unexpected(s@),
            Error::BadDescriptor(s) => ErrorView::BadDescriptor(s@),
            Error::Unprintable(b) => ErrorView::Unprintable(*b),
            Error::ExpectedChar(c) => ErrorView::ExpectedChar(*c),
            Error::MaxRecursiveDepthExceeded => ErrorView::MaxRecursiveDepthExceeded,
            Error::ImpossibleSatisfaction => ErrorView::ImpossibleSatisfaction,
            Error::CouldNotSatisfy => ErrorView::CouldNotSatisfy,
            Error::AnalysisError(e) => ErrorView::AnalysisError(*e),
        }
    }
}

impl Clone for Error {
    fn clone(&self) -> (r: Self)
        ensures
            r == *self,
    {
        match self {
            Error::Unexpected(s) => Error::Unexpected(s.clone()),
            Error::BadDescriptor(s) => Error::BadDescriptor(s.clone()),
            Error::Unprintable(b) => Error::Unprintable(*b),
            Error::ExpectedChar(c) => Error::ExpectedChar(*c),
            Error::MaxRecursiveDepthExceeded => Error::MaxRecursiveDepthExceeded,
            Error::ImpossibleSatisfaction => Error::ImpossibleSatisfaction,
            Error::CouldNotSatisfy => Error::CouldNotSatisfy,
            Error::AnalysisError(e) => Error::AnalysisError(*e),
        }
    }
}

/// The error for a piece of text that should not be where it is.
pub fn errstr(s: &str) -> (r: Error)
    ensures
        r@ == ErrorView::Unexpected(s@),
{
    Error::Unexpected(s.to_owned())
}

} // verus!

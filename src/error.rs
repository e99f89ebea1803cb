use vstd::prelude::*;

verus! {

/// The typed failures of the library.
#[derive(Debug, PartialEq, Eq)]
pub enum W2vError {
    /// A word was looked up that the dictionary does not hold.
    UnknownWord,
    /// A dictionary or matrix index lay outside `[0, size)`.
    IndexOutOfRange,
    /// Creating or writing an output file failed; the message says why.
    Io(String),
}

} // verus!

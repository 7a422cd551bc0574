use vstd::prelude::*;

verus! {

/// The ways serving a listing or a delete can fail.
#[derive(Clone, Copy, Debug, PartialEq, Eq, Structural)]
pub enum AppError {
    /// The directory itself could not be opened or listed.
    ReadingDirectory,
    /// An entry's name is not representable as text.
    NameConversion,
    /// Any other failure: metadata, timestamps, removal, rendering.
    Foo,
}

impl AppError {
    /// The message shown for this error.
    pub fn message(&self) -> (r: &'static str) {
        match self {
            AppError::ReadingDirectory => "Couldn't read directory",
            AppError::NameConversion => "Couldn't convert",
            AppError::Foo => "foo barz baz",
        }
    }
}

} // verus!

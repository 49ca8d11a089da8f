use vstd::prelude::*;

verus! {

/// Why a project file yields no result.
#[derive(Clone, Copy, Debug, PartialEq, Eq, Structural)]
pub enum AlsError {
    /// The bytes are not a gzip stream.
    Gzip,
    /// The bytes that the stream inflates to are not UTF-8 text.
    Utf8,
    /// The text is not a well-formed XML document.
    Xml,
    /// A `Path` or `CurrentStart` element that the walk reads has no `Value` attribute.
    MissingValue,
    /// A clip's start time is not written as a number.
    InvalidStart,
    /// A clip's start time is written as a number but is none, so that it has
    /// no place in the order of the clips.
    NanStart,
}

} // verus!

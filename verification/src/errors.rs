//! The builder's error taxonomy. Every error is fatal to the load attempt
//! that raised it and is surfaced to the caller unmodified: there is no local
//! recovery, no skipping of bad lines, and no partial result.

use vstd::prelude::*;

verus! {

/// Which part of a non-blank line could not be read: one of the four
/// delimiters or the coordinate comma missing, or the id, x, y or a child
/// substring failing numeric parsing.
#[derive(Clone, Copy, Debug, PartialEq, Eq)]
pub enum LineField {
    /// No `(` on the line.
    OpenParen,
    /// No `)` after the first `(`.
    CloseParen,
    /// No `[` on the line.
    OpenBracket,
    /// No `]` on the line.
    CloseBracket,
    /// No `,` between the first `(` and the `)` after it.
    Comma,
    /// The id substring is not an unsigned integer.
    Id,
    /// The x substring is not a float literal.
    X,
    /// The y substring is not a float literal.
    Y,
    /// A child substring is not an unsigned integer.
    Child,
}

/// Why a load failed. Each kind is distinct and non-overlapping; the first
/// error encountered wins and aborts the whole load.
#[derive(Debug, PartialEq, Eq)]
pub enum BuilderError {
    /// A record lists its own id as a child; carries that id.
    SelfReference(u32),
    /// A record lists a child id that is no record's id; carries
    /// (parent id, missing child id).
    UnknownIdForChild(u32, u32),
    /// An id appears on more than one record; carries the id.
    RepeatedPoint(u32),
    /// The file could not be read; carries the underlying cause's message.
    /// The library itself reads no files: the caller reads the map file and
    /// reports such a failure through this variant.
    IOError(String),
    /// A non-blank line could not be read; carries the 0-indexed line number
    /// and the field that failed.
    CouldNotReadLine(usize, LineField),
}

/// The mathematical value of a [`BuilderError`].
pub enum ErrorView {
    SelfReference(u32),
    UnknownIdForChild(u32, u32),
    RepeatedPoint(u32),
    IOError(Seq<char>),
    CouldNotReadLine(int, LineField),
}

impl View for BuilderError {
    type V = ErrorView;

    open spec fn view(&self) -> ErrorView {
        match self {
            BuilderError::SelfReference(id) => ErrorView::SelfReference(*id),
            BuilderError::UnknownIdForChild(parent, child) => ErrorView::UnknownIdForChild(
                *parent,
                *child,
            ),
            BuilderError::RepeatedPoint(id) => ErrorView::RepeatedPoint(*id),
            BuilderError::IOError(cause) => ErrorView::IOError(cause@),
            BuilderError::CouldNotReadLine(line, field) => ErrorView::CouldNotReadLine(
                *line as int,
                *field,
            ),
        }
    }
}

} // verus!

use vstd::prelude::*;

verus! {

/// std's I/O error, carried unread in `TempelError::TemplateRead`.
#[verifier::external_type_specification]
#[verifier::external_body]
pub struct ExIoError(std::io::Error);

/// Why a template could not be compiled or rendered.
#[derive(Debug)]
pub enum TempelError {
    /// The document could not be read from storage.
    TemplateRead(std::io::Error),
    /// The document holds a different number of `{{` and `}}`.
    UnbalancedBraces,
    /// Kept for callers that reject loop blocks left unclosed; compiling and
    /// rendering never return it, since an unclosed block stays as plain text.
    UnbalancedForLoop,
    /// A loop names a list that is not bound, or is bound to a scalar.
    NoSuchList(String),
    /// The `{{` at byte `start` and its `}}` at byte `end` are out of order.
    FormatError { start: usize, end: usize },
}

pub type TempelResult<T> = Result<T, TempelError>;

} // verus!

use vstd::prelude::*;

verus! {

/// The failure kinds of this crate, one variant per failure source.
///
/// Construction failures: `FileOpenError`, `MalformedInput`,
/// `ElementNotFound`, `AttributeMissing`. Lookup failures:
/// `ResourceIdNotFound`, `ResourcePathNotFound`, `CoverNotFound`.
/// Navigation failures: `LastPage`, `FirstPage`, `InvalidPageIndex`,
/// `NavigationBroken`.
#[derive(Debug, Clone, PartialEq, Eq)]
pub enum ErrorKind {
    /// The underlying store could not be opened or is not a valid package.
    FileOpenError,
    /// Bytes that should hold well-formed markup (or text) do not.
    MalformedInput,
    /// A required element is absent; the payload is the element name.
    ElementNotFound(String),
    /// A required attribute is absent; the payload is the attribute name.
    AttributeMissing(String),
    /// No resource entry carries this identifier.
    ResourceIdNotFound(String),
    /// No archive or resource entry is stored at this path.
    ResourcePathNotFound(String),
    /// The metadata holds no `cover` key.
    CoverNotFound,
    /// `go_next` was called at the last spine position.
    LastPage,
    /// `go_prev` was called at the first spine position.
    FirstPage,
    /// `set_current_page` was called with an index past the spine.
    InvalidPageIndex(usize),
    /// The cursor does not point into the spine (an empty spine).
    NavigationBroken,
}

/// A failure of this crate: its discriminable kind, so that callers can
/// tell failure sources apart programmatically.
#[derive(Debug, Clone, PartialEq, Eq)]
pub struct DocError {
    pub kind: ErrorKind,
}

} // verus!

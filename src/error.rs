use vstd::prelude::*;

verus! {

/// What can go wrong while loading the manifest or a page.
#[derive(Debug, Clone, PartialEq)]
pub enum DataError {
    /// A manifest, revision or page fetch failed; the text says why.
    Network(String),
    /// The manifest is not valid JSON; the text says why.
    Json(String),
    /// The persistent store refused a read or a write; the text says why.
    Storage(String),
    /// A manifest node lacks `name`, `path` or `type`, or has an unknown `type`.
    InvalidStructure,
    /// No page has the requested identity, or the page has no source file.
    PageNotFound,
}

impl DataError {
    /// A human-readable description of the error.
    pub fn message(&self) -> (r: String)
        ensures
            self is InvalidStructure ==> r@ == "Invalid data structure"@,
            self is PageNotFound ==> r@ == "Page not found"@,
            self is Network ==> r@ == "Network error: "@ + self->Network_0@,
            self is Json ==> r@ == "JSON error: "@ + self->Json_0@,
            self is Storage ==> r@ == "Storage error: "@ + self->Storage_0@,
    {
        match self {
            DataError::Network(e) => String::from_str("Network error: ").concat(e.as_str()),
            DataError::Json(e) => String::from_str("JSON error: ").concat(e.as_str()),
            DataError::Storage(e) => String::from_str("Storage error: ").concat(e.as_str()),
            DataError::InvalidStructure => String::from_str("Invalid data structure"),
            DataError::PageNotFound => String::from_str("Page not found"),
        }
    }
}

} // verus!

use vstd::prelude::*;

verus! {

/// Errors reported while reading an archive or decoding its blocks.
#[derive(Debug, Clone, PartialEq, Eq)]
pub enum CarError {
    /// The byte source ended early or could not be read.
    IO(String),
    /// A section declared a length above the per-section ceiling.
    TooLargeSection(usize),
    /// Bytes that do not follow the expected format.
    Parsing(String),
    /// A lookup by identifier or by name found nothing.
    NotFound(String),
}

impl CarError {
    pub open spec fn is_io(&self) -> bool {
        self is IO
    }

    pub open spec fn is_parsing(&self) -> bool {
        self is Parsing
    }

    pub open spec fn is_not_found(&self) -> bool {
        self is NotFound
    }
}

} // verus!

//! Classification of a document text extraction attempt.
//!
//! Reading the file system and parsing the PDF are the caller's: it checks
//! that the path exists, runs the extractor, and hands both facts here.
//! The decision of what they mean stands in the library.  An extraction
//! that yields no text at all is treated as a failure (`Empty`), not as a
//! valid zero-content record: an empty document cannot be retrieved
//! meaningfully, and surfacing it at ingest time beats storing a vacuous
//! embedding.

use vstd::prelude::*;

verus! {

/// Why no text could be had from the document.
#[derive(Debug, Clone, Copy, PartialEq, Eq, Structural)]
pub enum ExtractionError {
    /// The path does not exist.  Checked before extraction is attempted,
    /// because the extractor's own not-found error is a less specific
    /// signal.
    NotFound,
    /// The file exists but could not be parsed (corrupt or encrypted).
    ParseFailure,
    /// Extraction succeeded but yielded no text.
    Empty,
}

/// What an extraction attempt means: `exists` says whether the path
/// exists, `extracted` what the parser returned (`None` when it failed).
pub open spec fn spec_classify_extraction(exists_path: bool, extracted: Option<String>) -> Result<
    String,
    ExtractionError,
> {
    if !exists_path {
        Err(ExtractionError::NotFound)
    } else {
        match extracted {
            None => Err(ExtractionError::ParseFailure),
            Some(t) => if t@.len() == 0 {
                Err(ExtractionError::Empty)
            } else {
                Ok(t)
            },
        }
    }
}

/// Decides the outcome of a document text extraction: a missing path is
/// `NotFound` (whatever the parser would have said), a parser failure is
/// `ParseFailure`, empty text is `Empty`, and otherwise the text is
/// returned unchanged.
pub fn classify_extraction(exists_path: bool, extracted: Option<String>) -> (r: Result<
    String,
    ExtractionError,
>)
    ensures
        r == spec_classify_extraction(exists_path, extracted),
{
    if !exists_path {
        Err(ExtractionError::NotFound)
    } else {
        match extracted {
            None => Err(ExtractionError::ParseFailure),
            Some(t) => {
                if t.as_str().is_empty() {
                    Err(ExtractionError::Empty)
                } else {
                    Ok(t)
                }
            },
        }
    }
}

} // verus!

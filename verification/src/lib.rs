//! A single-document embedding-and-retrieval core.
//!
//! The library holds the logic of a minimal retrieval-augmented chat
//! pipeline: loading a configuration, classifying the outcome of document
//! text extraction, storing fixed-point embedding vectors in an in-memory
//! index with a deterministic top-k similarity query, assembling the prompt
//! handed to a completion provider, and the two-state interactive session
//! machine.  Providers (embedding model, completion model, PDF extraction)
//! are external collaborators: callers obtain their results and hand them
//! to the functions here as plain values.

pub mod agent;
pub mod extract;
pub mod index;
pub mod session;
pub mod text;
pub mod utils;

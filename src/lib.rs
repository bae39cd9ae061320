//! A staging and promotion pipeline for code snippets: content-addressed
//! storage of normalised source, staging records with write-once results,
//! and versioned production slots updated by compare-and-set.

pub mod content;
pub mod pipeline;
pub mod programs;
pub mod sandbox;

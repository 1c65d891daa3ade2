//! Timelines as documents, and markers.
pub mod document;
pub mod export;
pub mod export_laws;
pub mod fidelity;
pub mod import;
pub mod laws;
pub mod marker;
pub mod rollback;
pub mod round_trip;

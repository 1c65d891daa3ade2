//! Editing timelines from outside of the application.
pub mod batch;
pub mod catalog;
pub mod catalog_laws;
pub mod dynamic;
pub mod dynamic_laws;
pub mod ease;
pub mod edit;
pub mod edit_laws;
pub mod fault;
pub mod host;
pub mod inspect;
pub mod inspect_laws;
pub mod json;
pub mod names;
pub mod names_laws;
pub mod persist;
pub mod project;
pub mod project_laws;
pub mod schema;
pub mod shown_laws;
pub mod state;
pub mod studio;
pub mod transport;
pub mod transport_laws;
pub mod watch;
pub mod watch_laws;

//! Edits, and applying them alone, together, forth and back.
pub mod apply;
pub mod asked_laws;
pub mod clear_laws;
pub mod history;
pub mod insert;
pub mod laws;
pub mod op;
pub mod remove_laws;
pub mod request;
pub mod restore_laws;
pub mod restored_laws;
pub mod run;
pub mod show_laws;
pub mod snapshot;
pub mod undo_laws;
pub mod undone_laws;
pub mod update;
pub mod update_laws;
pub mod value;
pub mod walk;

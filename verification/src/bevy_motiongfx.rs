//! Timelines in a Bevy application.
pub mod controller;
pub mod controller_laws;
pub mod manager;
pub mod remote;
pub mod world;

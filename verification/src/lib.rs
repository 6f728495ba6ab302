//! A library for browsing and editing a host-oriented SSH client
//! configuration file: a line-preserving document engine, a filter index,
//! and the session state machine of the interactive picker.

pub mod app;
pub mod settings;
pub mod ssh_config;
pub mod text;
pub mod ui;

//! Monitor-layout management.
//!
//! The library decides; talking to Windows, to the disk and to the network is
//! left to its caller, who hands in what came of it.

pub mod app;
pub mod arrangement;
pub mod audio;
pub mod clones;
pub mod controllers;
pub mod display;
pub mod hotkeys;
pub mod model;
pub mod order;
pub mod singles;
pub mod snap;
pub mod startup;
pub mod storage;
pub mod text;
pub mod tray;
pub mod updater;

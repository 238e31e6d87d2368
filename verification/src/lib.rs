//! The logic of a package manager for pacman and Flatpak.
#![allow(unused_imports)]

pub mod alpm;
pub mod appstream;
pub mod backends;
pub mod bytes;
pub mod cache;
pub mod data;
pub mod desktop;
pub mod error;
pub mod firmware;
pub mod flatpak;
pub mod jobs;
pub mod json;
pub mod manager;
pub mod names;
pub mod operation;
pub mod order;
pub mod overview;
pub mod package;
pub mod plasmoid;
pub mod rounding;
pub mod runner;
pub mod session;
pub mod settings;
pub mod source;
pub mod state;
pub mod sync;
pub mod terminal;
pub mod text;
pub mod theme;
pub mod ui;
pub mod utils;
pub mod window;

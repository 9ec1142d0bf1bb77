//! treelix: the logic of a terminal file explorer that lives beside the Helix
//! editor, written so that every decision it makes is stated and proved.
//!
//! Nothing here touches a terminal, a socket, a clock or a disk. What those
//! say arrives as plain values, and what should be done to them leaves as
//! plain values.

pub mod app;
pub mod cli;
pub mod clipboard;
pub mod config;
pub mod diagnostics;
pub mod document;
pub mod editor;
pub mod filter;
pub mod fuzzy;
pub mod git;
pub mod git_laws;
pub mod ipc;
pub mod ipc_laws;
pub mod keymap;
pub mod layout;
pub mod marks;
pub mod order;
pub mod path;
pub mod paths;
pub mod render;
pub mod start_laws;
pub mod style;
pub mod text;
pub mod text_laws;
pub mod theme;
pub mod theme_laws;
pub mod tree;
pub mod ui_overlays;
pub mod walk_laws;
pub mod watcher;

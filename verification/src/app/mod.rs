//! The explorer: what it does with what the user, the editor, git and the disk
//! tell it.

pub mod draw;
pub mod file_laws;
pub mod files;
pub mod filter_laws;
pub mod find;
pub mod key_laws;
pub mod keys;
pub mod laws;
pub mod live;
pub mod move_laws;
pub mod names;
pub mod nav;
pub mod reload;
pub mod reload_laws;
pub mod run;
pub mod select;
pub mod show_laws;
pub mod state;
pub mod view;
pub mod word_laws;

//! How the tree is drawn: lines of styled text.

pub mod builder;
pub mod decorators;
pub mod icons;
pub mod laws;

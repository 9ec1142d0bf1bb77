//! The tree: nodes that load lazily, and the rows that show them.

pub mod depth;
pub mod expand_laws;
pub mod laws;
pub mod model;
pub mod name_laws;
pub mod node;
pub mod open_laws;
pub mod ops;
pub mod order_laws;
pub mod reload_laws;
pub mod row_laws;
pub mod rows;
pub mod shown_laws;
pub mod sort;

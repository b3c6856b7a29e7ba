//! A model of an HTML table element: derived attribute caches kept in sync
//! with raw attribute strings, and structural invariants over an ordered
//! child list (a single caption child, contiguous section children).

pub mod attrcache;
pub mod color;
pub mod dimension;
pub mod node;
pub mod strutil;

pub use color::Rgba;
pub use node::HTMLTableElement;
pub use node::HTMLTableElementLayoutHelpers;

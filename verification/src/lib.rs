//! A small document engine core: a markup parser that builds a DOM-like tree
//! of text and element nodes, and a style-selector parser that produces
//! selector lists ordered by CSS specificity.

pub mod scan;
pub mod dom;
pub mod parser;
pub mod css;

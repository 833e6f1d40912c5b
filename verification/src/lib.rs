//! A single-pass, hand-written recursive-descent XML parser together with the
//! document tree it produces (elements, attributes, text, processing
//! instructions) and position-aware error reporting.

pub mod chars;
pub mod cursor;
pub mod element;
pub mod error;
pub mod fixtures;
pub mod model;
pub mod ord_map;
pub mod parser;
pub mod pi;
pub mod stack;
pub mod strings;
pub mod structure;
pub mod writer;

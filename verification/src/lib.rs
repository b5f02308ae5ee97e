//! Verified core of a terminal disk-usage analyzer.
pub mod text;
pub mod tree;
pub mod order;
pub mod scan;
pub mod size_text;
pub mod state;
pub mod input;
pub mod laws;
pub mod layout;

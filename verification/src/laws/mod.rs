//! What the operations of the library are for, stated of their inputs and results alone.
//!
//! Each law here is an equation or a relation that holds for all inputs, in terms of characters,
//! sequences and literal texts, of the functions that the contracts speak of.

pub mod aur;
pub mod deobfuscation;
pub mod findings;
pub mod install;
pub mod metadata;
pub mod overlay;
pub mod provenance;
pub mod references;
pub mod scanner;
pub mod text;
pub mod views;
pub mod words;

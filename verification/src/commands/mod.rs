//! The commands: one module for each, with the conversion it rests on.
pub mod from;
pub mod into;
pub mod main;
pub mod signature;
pub mod to;

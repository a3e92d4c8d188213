//! Classical electromagnetism: the exactly representable part of the library.

pub mod constants;

pub mod waves;
pub mod agent_field;

//! Modules that code can import.
pub mod datetime;
pub mod pathlib;

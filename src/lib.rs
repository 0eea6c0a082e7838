//! Walks the virtual directory tree of an object-storage bucket listed by
//! prefix and delimiter, and summarises what it found.
pub mod decimal;
pub mod laws;
pub mod size_format;
pub mod report;
pub mod walker;

//! Tiled XML files: the documents as event sequences, and their rendering.
pub mod tmx;
pub mod tsx;
pub mod xml;

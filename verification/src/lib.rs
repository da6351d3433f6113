//! Parsing of Motorola S-record (S19) firmware images, and the table and
//! screen model of a terminal viewer for them.
pub mod control;
pub mod hex;
pub mod laws;
pub mod parse;
pub mod record;
pub mod screen;
pub mod strings;
pub mod table;
pub mod text;

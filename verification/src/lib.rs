//! Particulate-matter monitor core: a streaming sensor-frame decoder with
//! checksum-based resynchronization, and a line-buffered command protocol
//! with persistent Wi-Fi configuration.

pub mod command;
pub mod config;
pub mod dispatch;
pub mod frame;
pub mod reader;
pub mod source;
pub mod store;
pub mod text;

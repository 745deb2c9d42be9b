//! Verified core of a client for NYPA DB publisher streams and of its
//! variable command and control.
//!
//! The library decides and decodes; the I/O (sockets, files, HTTP, the
//! Bevy world) is done by its callers, which hand it plain values:
//!
//! - `discovery`: publisher socket names, stream ids and their order;
//! - `bytes`, `frame`: words and frame headers read from raw bytes;
//! - `flat_file`: flat-file record decoding and the replay state machine;
//! - `plugin`: the link's reconnect and reader decisions;
//! - `control`: reflected variables and control replies;
//! - `faults`: fault areas and their faulted state.

pub mod bytes;
pub mod control;
pub mod discovery;
pub mod faults;
pub mod flat_file;
pub mod frame;
pub mod plugin;
pub mod text;

pub use discovery::{extract_socket_name_info, publisher_socket_order, stream_id_from_socket_path};
pub use flat_file::FlatFileFormat;

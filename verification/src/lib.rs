//! flog — the verified core of a terminal log viewer for Flutter apps.
//!
//! The crate holds the logic of the viewer: device discovery bookkeeping,
//! wire-format framing, transport planning, text wrapping and the JSON
//! viewer's tokenizer, tree and fold state. Terminal drawing, sockets and
//! subprocesses live outside this crate and hand it plain values.

pub mod json;
pub mod text;
pub mod transport;
pub mod ui;

//! The log detail panel's body: sections found in a message and the
//! line-level styling of their text.

pub mod section;
pub mod renderers;
pub mod panel;

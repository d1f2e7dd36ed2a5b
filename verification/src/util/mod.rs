//! Assorted helpers.
//!
//! * [`namespace`]: acting on behalf of a container that has namespaces of its own.
//! * [`log`]: a logger that can be swapped out after installation.
//! * [`escape`]: undoing udev's escaping of device strings.
pub mod escape;
pub mod log;
pub mod namespace;

//! Parsers for the values of the `org.lowrisc.hotplug.*` annotations.
//!
//! Each type has a `from_str` and a `to_string`, where `to_string` round-trips back to the accepted
//! syntax. Parse errors are user-facing: they quote the offending input and state the expected
//! form.
pub mod device;
pub mod lookup;
pub mod symlink;

pub use device::DeviceRef;
pub use symlink::Symlink;

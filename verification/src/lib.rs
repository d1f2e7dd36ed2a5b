//! Hot-plugging of host devices into a running container.
//!
//! # Why
//!
//! An OCI runtime can only give a container access to devices that exist when the container is
//! created. A device plugged in later has a major/minor number allocated by the kernel at that
//! point, so it cannot be named up front, and a wildcard cgroup rule would grant access to every
//! device handled by the same driver.
//!
//! This library instead watches for devices appearing beneath a set of *root devices* (typically a
//! USB hub) and grants the container access to exactly those devices as they appear, revoking it as
//! they disappear. See [`hotplug::exactness`] for what that means.
//!
//! # Structure
//!
//! Everything that is decided is decided here, and everything that touches the system is left to
//! the program around it: the library says what to do next, and is told how it went.
//!
//! * [`runc`]: the `runc` interface: command line, OCI `config.json`, `libcontainer` `state.json`,
//!   and [`runc::Container`], which manipulates a live container's cgroup and namespaces.
//! * [`create`]: creating a container with the devices that its annotations ask for, and
//!   supervising it.
//! * [`cgroup`]: per-device access to a cgroup.
//! * [`dev`]: device enumeration and monitoring.
//! * [`hotplug`]: [`hotplug::HotPlug`], which joins the two: it turns device events into cgroup,
//!   `/dev` and sysfs changes inside the container.
//! * [`event`]: what happens to a container that is supervised.
//! * [`cli`]: parsers for the device and symlink annotation syntax.
//! * [`util`]: namespaces, logging and string escaping helpers.
//! * [`text`], [`number`], [`path`] and [`path_map`]: text, numbers in text, paths, and maps keyed
//!   by path.
pub mod cgroup;
pub mod cli;
pub mod create;
pub mod dev;
pub mod event;
pub mod hotplug;
pub mod number;
pub mod path;
pub mod path_map;
pub mod runc;
pub mod text;
pub mod util;

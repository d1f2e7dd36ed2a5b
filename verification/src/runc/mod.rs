//! Interfacing with `runc`.
//!
//! This program stands in for `runc`, so it must speak its interfaces:
//!
//! * [`cli`]: enough of `runc`'s command line to recognise `create` and forward everything else.
//! * [`config`]: the parts of the OCI `config.json` in the bundle that matter here.
//! * [`state`]: the parts of `runc`'s `state.json` that tell where the container's cgroup is and
//!   what its init process is.
//! * [`log`]: logrus-compatible messages, for when `runc` is asked to log that way.
//!
//! [`Container`] then builds on those to manipulate the container `runc` created; [`remount`] says what
//! becomes of its `/dev`.
pub mod cli;
pub mod config;
pub mod container;
pub mod log;
pub mod remount;
pub mod state;

pub use container::Container;

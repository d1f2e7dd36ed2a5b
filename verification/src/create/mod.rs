//! Handling the `create` verb: what is configured for a container, creating it, and supervising it
//! until it stops.
//!
//! Which devices to plug in is configured through OCI annotations:
//!
//! * `org.lowrisc.hotplug.devices` (required): comma-separated list of root devices, each in the
//!   syntax of [`crate::cli::DeviceRef`]. The container gets access to these and all their
//!   descendants. Unplugging a root device stops the container: see
//!   [`supervisor::unplugging_a_root_stops`].
//! * `org.lowrisc.hotplug.symlinks` (optional): comma-separated list of [`crate::cli::Symlink`]s,
//!   giving matching devices a well-known path inside the container, like a udev `SYMLINK` rule
//!   would on bare metal.
//! * `org.lowrisc.hotplug.sysfs` (optional, `ro` by default): set to `rw` to make each attached
//!   device's sysfs directory writable inside the container. Opt-in because sysfs attributes are
//!   host state shared with every other user of the device.
//!
//! [`Creation`] leads from the command line to a container that is under control, and [`Supervisor`]
//! takes it from there.
pub mod annotations;
pub mod creation;
pub mod supervisor;

pub use annotations::{root_devices, symlinks, sysfs, AnnotationError};
pub use creation::{CreateError, CreateStep, Creation, Phase, Supervised};
pub use supervisor::{SuperviseError, SuperviseStep, Supervisor};

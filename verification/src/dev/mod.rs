//! Host-side view of devices.
//!
//! [`Device`] is a snapshot of one device: what udev reports of it plus the device node information,
//! which becomes unavailable once the device is gone. [`DeviceMonitor`] turns udev events into
//! [`DeviceEvent`]s for a subtree of the device hierarchy.
//!
//! Nothing here touches the container; acting on these events is [`crate::hotplug`]'s job.
pub mod device;
pub mod monitor;

pub use device::{DevNode, Device, UdevDevice};
pub use monitor::{DeviceEvent, DeviceMonitor};

# container-hotplug

Hot-plugs host devices into a container as they are plugged and unplugged, granting the container
access to exactly the devices below a set of root devices.

`container-hotplug` is a drop-in replacement for `runc`: it forwards every subcommand to the real
`runc` and only adds behaviour to `create`. Which devices to plug in is configured through OCI
annotations:

* `org.lowrisc.hotplug.devices` (required): comma-separated list of root devices, such as
  `parent-of:usb:2b3e:c310`. Unplugging a root device stops the container.
* `org.lowrisc.hotplug.symlinks` (optional): comma-separated list of symlinks, such as
  `usb:2b3e:c310:1=/dev/ttyACM_CW310_0`.
* `org.lowrisc.hotplug.sysfs` (optional, `ro` by default): set to `rw` to make the sysfs directory
  of each attached device writable.

## Layout

* `src/` is the library, verified with Verus: parsing, device monitoring, what to do to the
  container and in which order, and what holds of it throughout. It performs no I/O of its own; it
  says what to do next and is told how it went.
* `app/` is the program around it: the command line, udev, netlink, namespaces, mounts, the eBPF
  filter, and the event loop.
* `tests/` runs the library on concrete values.

## What is proved

Among others:

* The container has access to a device exactly if the device is attached, and the attached devices
  are those that have been seen below a root (`src/hotplug/exactness.rs`).
* Removing a device undoes adding it, both in what is known of the container and inside it
  (`src/hotplug/exactness.rs`, `src/hotplug/effects.rs`).
* Unplugging a root device stops the container, whether or not it has a device node
  (`src/create/supervisor.rs`).
* Remounting `/dev` moves everything that was there (`src/runc/remount.rs`).
* Devices are reported in order: added before removed, and never twice in a row
  (`src/dev/monitor.rs`).
* The container has the device node and the symlinks of each attached device
  (`src/hotplug/presence.rs`).
* The caller is told once that the container is ready, and only once the devices present at the start
  are attached and there in the container (`src/create/supervisor.rs`).
* While device filtering is taken over, a filter is attached at all times (`src/cgroup.rs`).
* References and symlink rules round-trip through text (`src/cli/`).

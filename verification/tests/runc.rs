use container_hotplug::cgroup::{Access, Device, DeviceType, MapUpdate};
use container_hotplug::create::{root_devices, symlinks, sysfs, AnnotationError};
use container_hotplug::dev::{Device as CharDevice, UdevDevice};
use container_hotplug::path::PathBuf;
use container_hotplug::runc::cli::{
    exit_code, handover, Command, CreateOptions, GlobalOptions, Handover, LogFormat, LogTarget,
    Startup, Subcommand, Verb,
};
use container_hotplug::runc::config::{Annotations, Config};
use container_hotplug::runc::container::{
    missing_dir, populated, wait_step, ContainerError, DevEntry, EntryKind, FsError, FsOp, FsStep,
    NoPopulatedField, SetupStep, SysfsStep, WaitStep,
};
use container_hotplug::runc::log::{map_log_level, JsonLogger};
use container_hotplug::runc::state::State;
use container_hotplug::runc::Container;
use container_hotplug::util::log::Level;
use container_hotplug::util::namespace::{IdMap, UserNamespace};
use std::collections::BTreeMap;

fn p(s: &str) -> PathBuf {
    PathBuf::from_text(s)
}

fn config(annotations: &[(&str, &str)]) -> Config {
    let mut a = Annotations::new();
    for (name, value) in annotations {
        a.insert(name.to_string(), value.to_string());
    }
    Config::new(1000, 1001, a)
}

fn state(pid: u32, unified: &str, devices: Option<&str>) -> State {
    State::new(pid, p(unified), devices.map(p))
}

fn container() -> Container {
    let s = state(42, "/sys/fs/cgroup/docker-1.scope", None);
    Container::new(&config(&[]), &s).1.unwrap()
}

fn ns(uid: &str, gid: &str) -> UserNamespace {
    UserNamespace { uid_map: IdMap::parse(uid).unwrap(), gid_map: IdMap::parse(gid).unwrap() }
}

fn no_ns() -> UserNamespace {
    ns("0 0 4294967295", "0 0 4294967295")
}

fn setup(steps: &[SetupStep]) -> Vec<String> {
    steps
        .iter()
        .map(|s| match s {
            SetupStep::Watch(p) => format!("watch {}", p.display()),
            SetupStep::Remove(p) => format!("remove {}", p.display()),
            SetupStep::TakeOver(c) => format!("take over {}", c.pin.display()),
            SetupStep::RemountDev => "remount".to_string(),
            SetupStep::Fail(e) => format!("fail {}", e.message()),
        })
        .collect()
}

fn op(op: &FsOp) -> String {
    match op {
        FsOp::ClearUmask => "umask 0".to_string(),
        FsOp::CreateDir(p) => format!("mkdir {}", p.display()),
        FsOp::CreateDirAll(p) => format!("mkdir -p {}", p.display()),
        FsOp::RemoveDir(p) => format!("rmdir {}", p.display()),
        FsOp::CreateFile(p) => format!("touch {}", p.display()),
        FsOp::RemoveFile(p) => format!("rm {}", p.display()),
        FsOp::Mknod(p, ty, mode, dev) => {
            let ty = if *ty == DeviceType::Block { 'b' } else { 'c' };
            format!("mknod -m {mode:o} {} {ty} {dev:x}", p.display())
        }
        FsOp::Chown(p, uid, gid) => format!("chown {uid}:{gid} {}", p.display()),
        FsOp::SetMode(p, mode) => format!("chmod {mode:o} {}", p.display()),
        FsOp::Symlink(p, q) => format!("ln -s {} {}", p.display(), q.display()),
        FsOp::CopyLink(p, q) => format!("cp -d {} {}", p.display(), q.display()),
        FsOp::MoveMount(p, q) => format!("mount --move {} {}", p.display(), q.display()),
        FsOp::AttachMount(p) => format!("attach {}", p.display()),
        FsOp::Unmount(p) => format!("umount -l {}", p.display()),
        FsOp::RequireDir(p) => format!("test -d {}", p.display()),
    }
}

fn script(steps: &[FsStep]) -> Vec<String> {
    steps
        .iter()
        .map(|s| match s {
            FsStep::Must(o) => op(o),
            FsStep::Try(o) => format!("-{}", op(o)),
            FsStep::MoveEntries(dir) => format!("move all of {}", dir.display()),
            FsStep::Fail(e) => format!("fail {}", e.message()),
        })
        .collect()
}

fn sysfs_line(step: &SysfsStep) -> String {
    match step {
        SysfsStep::Clone(dir) => format!("clone {}", dir.display()),
        SysfsStep::MakePrivate => "private".to_string(),
        SysfsStep::Idmap => "idmap".to_string(),
        SysfsStep::Attach(dir) => format!("attach {}", dir.display()),
    }
}

#[test]
fn bundles_hold_their_config() {
    assert_eq!(Config::from_bundle(&p("/run/b")).display(), "/run/b/config.json");
    assert_eq!(Config::from_bundle(&p("")).display(), "config.json");
}

#[test]
fn states_are_kept_per_container() {
    assert_eq!(State::from_root_and_id(&p("/run/runc"), "c1").display(), "/run/runc/c1/state.json");
    assert_eq!(State::from_root_and_id(&p("/run/runc"), "").display(), "/state.json");
}

#[test]
fn annotations_have_one_value_each() {
    let c = config(&[("a", "1"), ("b", "2"), ("a", "3")]);
    assert_eq!(c.annotations.get("a"), Some(&"3".to_string()));
    assert_eq!(c.annotations.get("b"), Some(&"2".to_string()));
    assert_eq!(c.annotations.get("c"), None);
    assert_eq!(c.annotations.entries.len(), 2);
    assert_eq!((c.process.user.uid, c.process.user.gid), (1000, 1001));
}

#[test]
fn root_devices_are_configured() {
    let c = config(&[("org.lowrisc.hotplug.devices", "usb:2b3e,x,parent-of:usb:2b3e:c310")]);
    let refs = root_devices(&c).unwrap();
    assert_eq!(refs.len(), 3);
    assert_eq!(refs[0].as_ref().unwrap().to_string(), "usb:2b3e");
    assert_eq!(refs[1].as_ref().unwrap_err().found, "x");
    assert_eq!(refs[2].as_ref().unwrap().to_string(), "parent-of:usb:2b3e:c310");
}

#[test]
fn older_name_for_root_devices_is_known() {
    let c = config(&[("org.lowrisc.hotplug.device", "usb:2b3e")]);
    assert_eq!(root_devices(&c).unwrap().len(), 1);
    let c = config(&[
        ("org.lowrisc.hotplug.device", "usb:2b3e,usb:2b3f"),
        ("org.lowrisc.hotplug.devices", "usb:2b3e"),
    ]);
    assert_eq!(root_devices(&c).unwrap().len(), 1);
}

#[test]
fn root_devices_are_required() {
    let e = root_devices(&config(&[])).unwrap_err();
    assert!(matches!(e, AnnotationError::NoDevices));
    assert_eq!(
        e.message(),
        "Cannot find annotation `org.lowrisc.hotplug.devices`. Please use normal runc instead."
    );
    let empty = config(&[("org.lowrisc.hotplug.devices", "")]);
    assert!(root_devices(&empty).unwrap()[0].is_err());
}

#[test]
fn symlinks_are_configured() {
    assert_eq!(symlinks(&config(&[])).unwrap().len(), 0);
    let c = config(&[(
        "org.lowrisc.hotplug.symlinks",
        "usb:2b3e:c310:1=/dev/a,usb:2b3e:c310:3=/dev/b",
    )]);
    let links = symlinks(&c).unwrap();
    assert_eq!(links.len(), 2);
    assert_eq!(links[1].to_string(), "usb:2b3e:c310:03=/dev/b");
    let c = config(&[("org.lowrisc.hotplug.symlinks", "usb:2b3e:c310:1=/dev/a,y,x")]);
    assert_eq!(symlinks(&c).unwrap_err().found, "y");
}

#[test]
fn sysfs_is_opt_in() {
    let with = |v| sysfs(&config(&[("org.lowrisc.hotplug.sysfs", v)]));
    assert!(!sysfs(&config(&[])).unwrap());
    for v in ["false", "0", "ro"] {
        assert!(!with(v).unwrap());
    }
    for v in ["true", "1", "rw"] {
        assert!(with(v).unwrap());
    }
    let e = with("RW").unwrap_err();
    assert!(matches!(e, AnnotationError::Sysfs(_)));
    assert_eq!(
        e.message(),
        "Annotation `org.lowrisc.hotplug.sysfs` should be one of `rw` or `ro`, found `RW`"
    );
}

#[test]
fn only_create_is_acted_on() {
    let command = |log: Option<PathBuf>, log_format, command| Command {
        global: GlobalOptions {
            debug: false,
            log,
            log_format,
            root: p("/run/runc"),
            systemd_cgroup: false,
        },
        command,
    };
    let create = || {
        Subcommand::Create(CreateOptions {
            bundle: p("/b"),
            console_socket: None,
            pid_file: None,
            container_id: "c".to_string(),
        })
    };
    let c = command(None, LogFormat::Json, create());
    assert!(matches!(c.startup(true), Startup::Proceed(LogTarget::Unchanged, Verb::Create)));
    assert_eq!(c.startup(true).refusal(), None);
    assert!(matches!(c.startup(false), Startup::NotRoot));
    assert_eq!(c.startup(false).refusal(), Some("This program must be run as root"));
    let c = command(Some(p("/l")), LogFormat::Json, Subcommand::Other(vec!["start".to_string()]));
    match c.startup(true) {
        Startup::Proceed(LogTarget::Json(f), Verb::Forward) => assert_eq!(f.display(), "/l"),
        other => panic!("{other:?}"),
    }
    let c = command(Some(p("/l")), LogFormat::Text, Subcommand::Run { args: vec![] });
    assert!(matches!(c.startup(true), Startup::Proceed(LogTarget::Stderr(_), Verb::Reject)));
    assert_eq!(
        c.startup(true).refusal(),
        Some("container-hotplug does not support `run` command.")
    );
}

#[test]
fn exit_codes_are_passed_on() {
    assert_eq!(exit_code(Some(0)), 0);
    assert_eq!(exit_code(Some(125)), 125);
    assert_eq!(exit_code(None), 1);
    assert_eq!(handover(0), Handover::PassOn);
    assert_eq!(handover(1), Handover::Ready);
}

#[test]
fn json_messages_are_as_logrus_has_them() {
    let l = JsonLogger::new(());
    let m = l.message(Level::Warn, "hello".to_string(), 1_700_000_000);
    assert_eq!(m.level, "warning");
    assert_eq!(m.msg, "hello");
    assert_eq!(m.time, "2023-11-14T22:13:20Z");
    assert_eq!(l.message(Level::Info, String::new(), 0).time, "1970-01-01T00:00:00Z");
    let last = l.message(Level::Info, String::new(), 253402300799);
    assert_eq!(last.time, "9999-12-31T23:59:59Z");
    assert_eq!(l.line("{}"), "{}\n");
    assert_eq!([l.line("{1}"), l.line("{2}")].concat().lines().count(), 2);
    assert_eq!(map_log_level(Level::Error), "error");
    assert_eq!(map_log_level(Level::Info), "info");
    assert_eq!(map_log_level(Level::Debug), "debug");
    assert_eq!(map_log_level(Level::Trace), "trace");
}

#[test]
fn populated_field_is_found() {
    let lines = |l: &[&str]| l.iter().map(|s| s.to_string()).collect::<Vec<_>>();
    assert_eq!(populated(&lines(&["populated 1", "frozen 0"]), false), Ok(true));
    assert_eq!(populated(&lines(&["frozen 1", "populated 0"]), false), Ok(false));
    assert_eq!(populated(&lines(&["frozen 1", "populated "]), false), Ok(false));
    assert_eq!(populated(&lines(&["populated 1", "populated 0"]), true), Ok(true));
    assert_eq!(populated(&lines(&["frozen 1"]), false), Err(NoPopulatedField));
    assert_eq!(NoPopulatedField.message(), "Cannot find populated field");
    assert_eq!(wait_step(&lines(&["populated 1"]), false), WaitStep::AwaitChange);
    assert_eq!(wait_step(&lines(&["populated 0"]), false), WaitStep::Done);
    assert_eq!(wait_step(&lines(&[]), false), WaitStep::Fail(NoPopulatedField));
}

#[test]
fn deleted_cgroups_are_not_populated() {
    assert_eq!(populated(&vec![], true), Ok(false));
    assert_eq!(populated(&vec!["frozen 0".to_string()], true), Ok(false));
    assert_eq!(wait_step(&vec![], true), WaitStep::Done);
}

#[test]
fn containers_are_set_up() {
    let (steps, c) = Container::new(&config(&[]), &state(42, "/sys/fs/cgroup/docker-1.scope", None));
    assert_eq!(
        setup(&steps),
        vec![
            "watch /sys/fs/cgroup/docker-1.scope/cgroup.events",
            "remove /run/systemd/transient/docker-1.scope.d/50-DeviceAllow.conf",
            "remove /run/systemd/transient/docker-1.scope.d/50-DevicePolicy.conf",
            "take over /sys/fs/bpf/docker-1-device-filter",
            "remount",
        ]
    );
    let c = c.unwrap();
    assert_eq!((c.uid, c.gid, c.pid()), (1000, 1001, 42));
    assert_eq!(c.cgroup_device_filter.pin.display(), "/sys/fs/bpf/docker-1-device-filter");
}

#[test]
fn containers_are_refused() {
    let last = |s: &State| {
        let (steps, c) = Container::new(&config(&[]), s);
        assert!(c.is_none());
        (setup(&steps).len(), setup(&steps).pop().unwrap())
    };
    assert_eq!(
        last(&state(42, "/", None)),
        (2, "fail cgroup doesn't have file name".to_string())
    );
    let odd = State::new(42, PathBuf::from_bytes(vec![47, 255]), None);
    assert_eq!(last(&odd), (2, "fail cgroup name is not UTF-8".to_string()));
    assert_eq!(
        last(&state(42, "/c/x", Some("/v1"))),
        (4, "fail cgroupv1 is no longer supported".to_string())
    );
    assert_eq!(
        last(&state(2147483648, "/c/x", None)),
        (5, "fail out of range integral type conversion attempted".to_string())
    );
    assert_eq!(last(&state(0, "/c/x", None)), (5, "fail Invalid PID".to_string()));
    assert_eq!(ContainerError::InvalidPid.message(), "Invalid PID");
}

#[test]
fn dev_is_remounted_with_a_user_namespace() {
    let c = container();
    assert!(c.remount_dev(&no_ns()).is_none());
    assert_eq!(
        script(&c.remount_dev(&ns("0 100000 65536", "0 200000 65536")).unwrap()),
        vec![
            "umask 0",
            "mkdir /olddev",
            "mount --move /dev /olddev",
            "attach /dev",
            "chown 100000:200000 /dev",
            "chmod 755 /dev",
            "move all of /olddev",
            "umount -l /olddev",
            "rmdir /olddev",
        ]
    );
    assert_eq!(
        script(&c.remount_dev(&ns("0 100000 65536", "1 1 1")).unwrap()).pop().unwrap(),
        "fail GID overflows"
    );
}

#[test]
fn everything_in_dev_is_moved() {
    let c = container();
    let entry = |name, kind| DevEntry { name: p(name), kind };
    let entries = vec![
        entry("sda", EntryKind::BlockDevice(0o60660, 0x800)),
        entry("pts", EntryKind::Directory),
        entry("console", EntryKind::CharDevice(0o20620, 0x8800)),
        entry("stdin", EntryKind::Symlink),
    ];
    assert_eq!(
        script(&c.move_entries(&entries)),
        vec![
            "mknod -m 60660 /dev/sda b 800",
            "-umount -l /olddev/sda",
            "mkdir /dev/pts",
            "mount --move /olddev/pts /dev/pts",
            "touch /dev/console",
            "mount --move /olddev/console /dev/console",
            "cp -d /olddev/stdin /dev/stdin",
        ]
    );
    assert!(c.move_entries(&vec![]).is_empty());
}

#[test]
fn old_dev_is_moved_over() {
    let c = container();
    let moved = |name, kind| script(&c.move_entry(&p(name), kind));
    assert_eq!(
        moved("console", EntryKind::CharDevice(0o620, 1)),
        vec!["touch /dev/console", "mount --move /olddev/console /dev/console"]
    );
    assert_eq!(
        moved("pts", EntryKind::Directory),
        vec!["mkdir /dev/pts", "mount --move /olddev/pts /dev/pts"]
    );
    assert_eq!(moved("fd", EntryKind::Symlink), vec!["cp -d /olddev/fd /dev/fd"]);
    assert_eq!(
        moved("null", EntryKind::CharDevice(0o20666, 0x103)),
        vec!["mknod -m 20666 /dev/null c 103", "-umount -l /olddev/null"]
    );
    assert_eq!(
        moved("sda", EntryKind::BlockDevice(0o60660, 0x800)),
        vec!["mknod -m 60660 /dev/sda b 800", "-umount -l /olddev/sda"]
    );
    assert_eq!(moved("log", EntryKind::Other), vec!["fail Unknown file present in /dev"]);
    assert_eq!(FsError::UnknownFile.message(), "Unknown file present in /dev");
}

#[test]
fn nodes_are_created_for_the_user() {
    let c = container();
    let mapped = ns("0 100000 65536", "0 200000 65536");
    assert_eq!(
        script(&c.mknod(&mapped, &p("/dev/bus/usb/001/002"), DeviceType::Character, (189, 1))),
        vec![
            "-mkdir -p /dev/bus/usb/001",
            "-rm /dev/bus/usb/001/002",
            "mknod -m 644 /dev/bus/usb/001/002 c bd01",
            "chown 101000:201001 /dev/bus/usb/001/002",
        ]
    );
    assert_eq!(
        script(&c.mknod(&no_ns(), &p("/dev/sda"), DeviceType::Block, (0x12345, 0x54321))),
        vec![
            "-mkdir -p /dev",
            "-rm /dev/sda",
            "mknod -m 644 /dev/sda b 1200054334521",
            "chown 1000:1001 /dev/sda",
        ]
    );
    assert_eq!(
        script(&c.mknod(&ns("0 1 1", "0 1 1"), &p("/dev/x"), DeviceType::Block, (8, 0)))
            .pop()
            .unwrap(),
        "fail UID overflows"
    );
}

#[test]
fn links_are_created_and_removed() {
    let c = container();
    assert_eq!(
        script(&c.symlink(&p("/dev/ttyACM0"), &p("/dev/board/a"))),
        vec!["-mkdir -p /dev/board", "-rm /dev/board/a", "ln -s /dev/ttyACM0 /dev/board/a"]
    );
    assert_eq!(script(&c.rm(&p("/dev/board/a"))), vec!["-rm /dev/board/a"]);
}

#[test]
fn sysfs_mounts_are_private_before_they_are_attached() {
    let c = container();
    let sys = p("/sys/devices/x");
    let steps = |ns: &UserNamespace| {
        let steps = c.bind_sysfs(ns, &sys);
        steps.iter().map(|s| format!("{} {}", sysfs_line(s), s.must_succeed())).collect::<Vec<_>>()
    };
    assert_eq!(
        steps(&no_ns()),
        vec!["clone /sys/devices/x true", "private true", "attach /sys/devices/x true"]
    );
    assert_eq!(
        steps(&ns("0 1 1", "0 1 1")),
        vec![
            "clone /sys/devices/x true",
            "private true",
            "idmap false",
            "attach /sys/devices/x true",
        ]
    );
    assert_eq!(
        script(&c.attach_sysfs(&sys)),
        vec!["test -d /sys/devices/x", "attach /sys/devices/x"]
    );
    assert_eq!(script(&c.unbind_sysfs(&sys)), vec!["-umount -l /sys/devices/x"]);
    assert_eq!(SysfsStep::Clone(p("/sys")).context(&sys), "Cannot clone sysfs mount for /sys/devices/x");
    assert_eq!(
        SysfsStep::MakePrivate.context(&sys),
        "Cannot make sysfs mount private for /sys/devices/x"
    );
    assert_eq!(SysfsStep::Attach(p("/sys")).context(&sys), "Cannot mount sysfs directory /sys/devices/x");
    assert_eq!(missing_dir(&sys), "/sys/devices/x does not exist in the container");
}

#[test]
fn idmap_warning_comes_once() {
    let mut c = container();
    assert_eq!(
        c.idmap_failed(&p("/sys/x"), "EINVAL"),
        Some(
            "Cannot idmap sysfs mount for /sys/x: EINVAL. Writing to sysfs attributes requires a \
             container user that maps to host root."
                .to_string()
        )
    );
    assert_eq!(c.idmap_failed(&p("/sys/y"), "EINVAL"), None);
}

#[test]
fn container_access_is_set() {
    assert_eq!(
        container().device(DeviceType::Block, (8, 1), Access::all()),
        MapUpdate::Insert(Device { device_type: 1, major: 8, minor: 1 }, 7)
    );
    assert_eq!(
        container().device(DeviceType::Block, (8, 1), Access::empty()),
        MapUpdate::Remove(Device { device_type: 1, major: 8, minor: 1 })
    );
}

/// The device nodes and links after some steps, with what is known of each.
fn files_after(steps: &[FsStep], files: &mut BTreeMap<String, String>) {
    for step in steps {
        match step {
            FsStep::Must(FsOp::RemoveFile(p)) | FsStep::Try(FsOp::RemoveFile(p)) => {
                files.remove(&p.display());
            }
            FsStep::Must(FsOp::Mknod(p, _, mode, dev)) => {
                let made = files.insert(p.display(), format!("{mode:o} {dev:x}"));
                assert!(made.is_none());
            }
            FsStep::Must(FsOp::Chown(p, uid, gid)) => {
                files.get_mut(&p.display()).unwrap().push_str(&format!(" {uid}:{gid}"));
            }
            FsStep::Must(FsOp::Symlink(source, p)) => {
                let made = files.insert(p.display(), source.display());
                assert!(made.is_none());
            }
            FsStep::Try(FsOp::CreateDirAll(_)) => {}
            other => panic!("{other:?}"),
        }
    }
}

#[test]
fn creating_replaces_and_removing_undoes() {
    let c = container();
    let mut files = BTreeMap::new();
    files.insert("/dev/x".to_string(), "old".to_string());
    files_after(&c.mknod(&no_ns(), &p("/dev/x"), DeviceType::Character, (1, 3)), &mut files);
    assert_eq!(files["/dev/x"], "644 103 1000:1001");
    files_after(&c.symlink(&p("/dev/x"), &p("/dev/y")), &mut files);
    files_after(&c.symlink(&p("/dev/z"), &p("/dev/y")), &mut files);
    assert_eq!(files["/dev/y"], "/dev/z");
    files_after(&c.rm(&p("/dev/y")), &mut files);
    files_after(&c.rm(&p("/dev/y")), &mut files);
    files_after(&c.rm(&p("/dev/x")), &mut files);
    assert!(files.is_empty());
}

#[test]
fn device_numbers_go_there_and_back() {
    for devnum in [0x103u64, 0xa603, 0x1234_5678_9abc_def0, u64::MAX] {
        let d = CharDevice::from_udev(UdevDevice {
            syspath: p("/sys/d"),
            devnode: Some(p("/dev/x")),
            devnum: Some(devnum),
            subsystem: Some(b"tty".to_vec()),
            properties: Vec::new(),
        });
        let node = d.devnode().unwrap();
        let steps = container().mknod(&no_ns(), &node.path, node.ty, node.devnum);
        assert!(steps
            .iter()
            .any(|s| matches!(s, FsStep::Must(FsOp::Mknod(_, _, 0o644, dev)) if *dev == devnum)));
    }
}

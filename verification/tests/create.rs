use container_hotplug::create::{CreateError, CreateStep, Creation, Phase};
use container_hotplug::path::PathBuf;
use container_hotplug::runc::cli::{CreateOptions, GlobalOptions, LogFormat};
use container_hotplug::runc::config::{Annotations, Config};
use container_hotplug::runc::container::{ContainerError, SetupStep};
use container_hotplug::runc::state::State;

fn p(s: &str) -> PathBuf {
    PathBuf::from_text(s)
}

fn begin() -> Creation {
    let global = GlobalOptions {
        debug: false,
        log: None,
        log_format: LogFormat::Text,
        root: p("/run/runc"),
        systemd_cgroup: true,
    };
    let create = CreateOptions {
        bundle: p("/bundle"),
        console_socket: None,
        pid_file: None,
        container_id: "c1".to_string(),
    };
    let (creation, step) = Creation::new(&global, &create);
    match step {
        CreateStep::ReadConfig(path) => assert_eq!(path.display(), "/bundle/config.json"),
        other => panic!("{other:?}"),
    }
    creation
}

fn config(annotations: &[(&str, &str)]) -> Config {
    let mut a = Annotations::new();
    for (name, value) in annotations {
        a.insert(name.to_string(), value.to_string());
    }
    Config::new(1000, 1001, a)
}

fn failure(step: CreateStep) -> String {
    match step {
        CreateStep::Fail(e) => e.message(),
        other => panic!("{other:?}"),
    }
}

/// A creation that is about to run `runc`.
fn about_to_run() -> Creation {
    let mut c = begin();
    let step = c.config_read(config(&[("org.lowrisc.hotplug.devices", "usb:2b3e")]));
    assert!(matches!(step, CreateStep::Resolve(_)));
    assert!(matches!(c.root_resolved(p("/sys/devices/usb1")), CreateStep::SwitchLogger));
    assert!(matches!(c.logger_switched(), CreateStep::RunRunc));
    c
}

#[test]
fn containers_are_created_step_by_step() {
    let mut c = begin();
    let step = c.config_read(config(&[
        ("org.lowrisc.hotplug.devices", "usb:2b3e,parent-of:usb:2b3e:c310"),
        ("org.lowrisc.hotplug.symlinks", "usb:2b3e:c310:1=/dev/board"),
        ("org.lowrisc.hotplug.sysfs", "rw"),
    ]));
    match step {
        CreateStep::Resolve(r) => assert_eq!(r.to_string(), "usb:2b3e"),
        other => panic!("{other:?}"),
    }
    match c.root_resolved(p("/sys/a")) {
        CreateStep::Resolve(r) => assert_eq!(r.to_string(), "parent-of:usb:2b3e:c310"),
        other => panic!("{other:?}"),
    }
    assert!(matches!(c.root_resolved(p("/sys/b")), CreateStep::SwitchLogger));
    assert!(matches!(c.logger_switched(), CreateStep::RunRunc));
    match c.runc_exited(true, Some(0)) {
        CreateStep::ReadState(path) => assert_eq!(path.display(), "/run/runc/c1/state.json"),
        other => panic!("{other:?}"),
    }
    let state = State::new(42, p("/sys/fs/cgroup/docker-1.scope"), None);
    let mut step = c.state_read(&state);
    let mut steps = Vec::new();
    while let CreateStep::SetUp(s) = step {
        steps.push(s);
        step = c.set_up();
    }
    assert_eq!(steps.len(), 5);
    assert!(matches!(steps[0], SetupStep::Watch(_)));
    assert!(matches!(steps[4], SetupStep::RemountDev));
    assert!(matches!(step, CreateStep::DetachStdio));
    assert!(matches!(c.stdio_detached(), CreateStep::Supervise));
    assert_eq!(c.phase(), Phase::Supervise);
    let c = c.finish();
    let devices: Vec<_> = c.devices.iter().map(|d| d.display()).collect();
    assert_eq!(devices, vec!["/sys/a", "/sys/b"]);
    assert_eq!(c.symlinks.len(), 1);
    assert!(c.sysfs);
    assert_eq!(c.container.pid(), 42);
}

#[test]
fn devices_are_required_first() {
    let mut c = begin();
    assert_eq!(
        failure(c.config_read(config(&[("org.lowrisc.hotplug.sysfs", "x")]))),
        "Cannot find annotation `org.lowrisc.hotplug.devices`. Please use normal runc instead."
    );
    assert_eq!(c.phase(), Phase::Over);
}

#[test]
fn malformed_devices_matter_in_turn() {
    let mut c = begin();
    let step = c.config_read(config(&[
        ("org.lowrisc.hotplug.devices", "usb:2b3e,x,usb:2b3f"),
        ("org.lowrisc.hotplug.symlinks", "x"),
    ]));
    assert!(matches!(step, CreateStep::Resolve(_)));
    let step = c.root_resolved(p("/sys/a"));
    assert!(matches!(step, CreateStep::Fail(CreateError::Device(_))));
    assert_eq!(
        failure(step),
        "Device format should be `[[parent-of:]*]<PREFIX>:<DEVICE>`, found `x`"
    );
}

#[test]
fn other_annotations_come_after_devices() {
    let mut c = begin();
    c.config_read(config(&[
        ("org.lowrisc.hotplug.devices", "usb:2b3e"),
        ("org.lowrisc.hotplug.symlinks", "x"),
        ("org.lowrisc.hotplug.sysfs", "x"),
    ]));
    let step = c.root_resolved(p("/sys/a"));
    assert!(matches!(step, CreateStep::Fail(CreateError::Symlink(_))));
    assert_eq!(
        failure(step),
        "Symlink format should be `<PREFIX>:<DEVICE>=<PATH>`, found `x`"
    );
    let mut c = begin();
    c.config_read(config(&[
        ("org.lowrisc.hotplug.devices", "usb:2b3e"),
        ("org.lowrisc.hotplug.sysfs", "x"),
    ]));
    let step = c.root_resolved(p("/sys/a"));
    assert!(matches!(step, CreateStep::Fail(CreateError::Annotation(_))));
}

#[test]
fn failing_runc_is_passed_on() {
    let mut c = about_to_run();
    assert!(matches!(c.runc_exited(false, Some(125)), CreateStep::Exit(125)));
    assert_eq!(c.phase(), Phase::Over);
    let mut c = about_to_run();
    assert!(matches!(c.runc_exited(false, None), CreateStep::Exit(1)));
}

#[test]
fn cgroup_v1_is_refused_before_takeover() {
    let mut c = about_to_run();
    c.runc_exited(true, Some(0));
    let state = State::new(42, p("/c/x"), Some(p("/v1")));
    let mut step = c.state_read(&state);
    for _ in 0..3 {
        assert!(!matches!(step, CreateStep::SetUp(SetupStep::TakeOver(_))));
        step = c.set_up();
    }
    assert!(matches!(
        step,
        CreateStep::Fail(CreateError::Container(ContainerError::CgroupV1))
    ));
    assert_eq!(failure(step), "cgroupv1 is no longer supported");
    assert!(c.container().is_none());
}

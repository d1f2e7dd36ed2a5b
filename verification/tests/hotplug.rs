use container_hotplug::cgroup::{Access, DeviceType};
use container_hotplug::cli::{DeviceRef, Symlink};
use container_hotplug::create::{SuperviseError, SuperviseStep, Supervisor};
use container_hotplug::dev::device::Property;
use container_hotplug::dev::monitor::{seen_message, EventType, Polled, UdevEvent};
use container_hotplug::dev::{Device, DeviceEvent, UdevDevice};
use container_hotplug::event::Event;
use container_hotplug::hotplug::kobject_uevent::announce;
use container_hotplug::hotplug::{Action, Announcement, HotPlug, Step};
use container_hotplug::path::PathBuf;
use std::collections::{BTreeMap, BTreeSet};

fn p(s: &str) -> PathBuf {
    PathBuf::from_text(s)
}

fn bare(syspath: &str) -> UdevDevice {
    UdevDevice {
        syspath: p(syspath),
        devnode: None,
        devnum: None,
        subsystem: None,
        properties: Vec::new(),
    }
}

fn tty(syspath: &str, devnode: &str, minor: u64) -> UdevDevice {
    let property = |n: &str, v: &str| Property {
        name: n.as_bytes().to_vec(),
        value: v.as_bytes().to_vec(),
    };
    UdevDevice {
        syspath: p(syspath),
        devnode: Some(p(devnode)),
        devnum: Some(0xa600 + minor),
        subsystem: Some(b"tty".to_vec()),
        properties: vec![
            property("ID_VENDOR_ID", "2b3e"),
            property("ID_MODEL_ID", "c310"),
            property("ID_USB_INTERFACE_NUM", "01"),
        ],
    }
}

fn event(event_type: EventType, device: UdevDevice) -> Polled {
    Polled::Event(UdevEvent { event_type, device })
}

fn shown(a: &Action) -> String {
    match a {
        Action::Device(ty, (major, minor), access) => {
            let ty = if *ty == DeviceType::Block { 'b' } else { 'c' };
            format!("device {ty} {major}:{minor} {}", access.bits())
        }
        Action::Mknod(path, ty, (major, minor)) => {
            let ty = if *ty == DeviceType::Block { 'b' } else { 'c' };
            format!("mknod {} {ty} {major}:{minor}", path.display())
        }
        Action::Symlink(source, link) => format!("ln {} {}", source.display(), link.display()),
        Action::BindSysfs(path) => format!("bind {}", path.display()),
        Action::UnbindSysfs(path) => format!("unbind {}", path.display()),
        Action::Rm(path) => format!("rm {}", path.display()),
        Action::Send(u, what) => format!("send {} {}", u.syspath.display(), what.name()),
    }
}

/// A container that every action works on, but for those on sysfs if `sysfs_ok` is not set.
#[derive(Default, Clone, PartialEq, Debug)]
struct Inside {
    access: BTreeMap<(u32, u32), u32>,
    files: BTreeMap<String, String>,
    writable: BTreeSet<String>,
}

impl Inside {
    fn perform(&mut self, a: &Action, sysfs_ok: bool) -> bool {
        match a {
            Action::Device(_, devnum, access) => {
                if access.is_empty() {
                    self.access.remove(devnum);
                } else {
                    self.access.insert(*devnum, access.bits());
                }
            }
            Action::Mknod(path, _, devnum) => {
                self.files.insert(path.display(), format!("{}:{}", devnum.0, devnum.1));
            }
            Action::Symlink(source, link) => {
                self.files.insert(link.display(), source.display());
            }
            Action::BindSysfs(path) => {
                if !sysfs_ok {
                    return false;
                }
                self.writable.insert(path.display());
            }
            Action::UnbindSysfs(path) => {
                self.writable.remove(&path.display());
            }
            Action::Rm(path) => {
                self.files.remove(&path.display());
            }
            Action::Send(_, _) => {}
        }
        true
    }
}

/// Run until there is an event or nothing to be done, with the socket giving `polls`.
fn run(
    h: &mut HotPlug,
    c: &mut Inside,
    polls: Vec<Polled>,
    sysfs_ok: bool,
) -> (Vec<String>, Option<Event>) {
    let mut polls = polls.into_iter();
    let mut log = Vec::new();
    let mut step = h.run(Polled::NotYet);
    loop {
        match step {
            Step::Poll => match polls.next() {
                Some(polled) => step = h.run(polled),
                None => return (log, None),
            },
            Step::Seen(path) => {
                log.push(seen_message(&path));
                match polls.next() {
                    Some(polled) => step = h.run(polled),
                    None => return (log, None),
                }
            }
            Step::Perform(a) => {
                log.push(shown(&a));
                let ok = c.perform(&a, sysfs_ok);
                step = h.resume(ok);
            }
            Step::Emit(e) => return (log, Some(e)),
            Step::Skip => {
                log.push("skip".to_string());
                return (log, None);
            }
            Step::Wait => {
                log.push("wait".to_string());
                return (log, None);
            }
            Step::Fail => {
                log.push("fail".to_string());
                return (log, None);
            }
        }
    }
}

fn board() -> Symlink {
    Symlink::from_str("usb:2b3e:c310:1=/dev/board").unwrap()
}

#[test]
fn devices_are_attached_and_detached() {
    let mut h = HotPlug::new(
        vec![p("/sys/hub")],
        vec![tty("/sys/hub/a", "/dev/ttyACM0", 0)],
        vec![board()],
        true,
    );
    let mut c = Inside::default();
    let (log, e) = run(&mut h, &mut c, vec![], true);
    assert_eq!(
        log,
        vec![
            "device c 166:0 7",
            "mknod /dev/ttyACM0 c 166:0",
            "ln /dev/ttyACM0 /dev/board",
            "bind /sys/hub/a",
            "send /sys/hub/a add",
        ]
    );
    assert_eq!(
        e.unwrap().to_string(),
        "Attaching device 166:000 (Unknown) [/dev/ttyACM0, /dev/board]"
    );
    let (log, e) = run(&mut h, &mut c, vec![Polled::Drained], true);
    assert!(log.is_empty());
    assert!(matches!(e, Some(Event::Initialized)));
    let gone = event(EventType::Remove, bare("/sys/hub/a"));
    let (log, e) = run(&mut h, &mut c, vec![gone], true);
    assert_eq!(
        log,
        vec![
            "unbind /sys/hub/a",
            "device c 166:0 0",
            "rm /dev/ttyACM0",
            "rm /dev/board",
            "send /sys/hub/a remove",
        ]
    );
    assert_eq!(
        e.unwrap().to_string(),
        "Detaching device 166:000 (Unknown) [/dev/ttyACM0, /dev/board]"
    );
    assert_eq!(c, Inside::default());
}

#[test]
fn sysfs_is_left_alone_unless_asked_for() {
    let mut h =
        HotPlug::new(vec![p("/sys/hub")], vec![tty("/sys/hub/a", "/dev/ttyACM0", 0)], vec![], false);
    let mut c = Inside::default();
    let (log, _) = run(&mut h, &mut c, vec![], true);
    assert_eq!(
        log,
        vec!["device c 166:0 7", "mknod /dev/ttyACM0 c 166:0", "send /sys/hub/a add"]
    );
    assert!(c.writable.is_empty());
}

#[test]
fn failing_sysfs_does_not_matter() {
    let mut h =
        HotPlug::new(vec![p("/sys/hub")], vec![tty("/sys/hub/a", "/dev/ttyACM0", 0)], vec![], true);
    let mut c = Inside::default();
    let (_, e) = run(&mut h, &mut c, vec![], false);
    assert!(matches!(e, Some(Event::Attach(_))));
    let gone = event(EventType::Remove, bare("/sys/hub/a"));
    let (log, e) = run(&mut h, &mut c, vec![gone], false);
    assert_eq!(log, vec!["device c 166:0 0", "rm /dev/ttyACM0", "send /sys/hub/a remove"]);
    assert!(matches!(e, Some(Event::Detach(_))));
    assert_eq!(c, Inside::default());
}

#[test]
fn any_other_failure_is_fatal() {
    for failing in 0..5 {
        let mut h = HotPlug::new(
            vec![p("/sys/hub")],
            vec![tty("/sys/hub/a", "/dev/ttyACM0", 0)],
            vec![board()],
            true,
        );
        let mut step = h.run(Polled::NotYet);
        for done in 0..=failing {
            match step {
                Step::Perform(_) => step = h.resume(done < failing),
                other => panic!("{other:?}"),
            }
        }
        if failing == 3 {
            assert!(matches!(step, Step::Perform(Action::Send(_, Announcement::Add))));
        } else {
            assert!(matches!(step, Step::Fail));
        }
    }
}

#[test]
fn devices_without_node_are_skipped() {
    let mut h = HotPlug::new(vec![p("/sys/hub")], vec![bare("/sys/hub/a")], vec![], true);
    let mut c = Inside::default();
    assert_eq!(run(&mut h, &mut c, vec![], true).0, vec!["skip"]);
    let gone = event(EventType::Remove, bare("/sys/hub/a"));
    assert_eq!(run(&mut h, &mut c, vec![gone], true).0, vec!["skip"]);
    assert_eq!(c, Inside::default());
}

#[test]
fn unplugging_a_root_without_node_stops_the_container() {
    let mut h = HotPlug::new(
        vec![p("/sys/hub")],
        vec![bare("/sys/hub"), tty("/sys/hub/a", "/dev/ttyACM0", 0)],
        vec![],
        false,
    );
    let mut s = Supervisor::new(vec![p("/sys/hub")]);
    let mut c = Inside::default();
    assert_eq!(run(&mut h, &mut c, vec![], true).0, vec!["skip"]);
    let (_, e) = run(&mut h, &mut c, vec![], true);
    assert_eq!(s.handle(e.as_ref()), SuperviseStep::Continue);
    let (_, e) = run(&mut h, &mut c, vec![Polled::Drained], true);
    assert_eq!(s.handle(e.as_ref()), SuperviseStep::Notify);
    let gone = event(EventType::Remove, bare("/sys/hub/"));
    let (log, e) = run(&mut h, &mut c, vec![gone], true);
    assert!(log.is_empty());
    assert_eq!(
        e.as_ref().unwrap().to_string(),
        "Unplugged root device   -:-   (Unknown) [/sys/hub]"
    );
    assert_eq!(s.handle(e.as_ref()), SuperviseStep::Kill);
    let mut other = Supervisor::new(vec![p("/sys/elsewhere")]);
    assert_eq!(other.handle(e.as_ref()), SuperviseStep::Continue);
}

#[test]
fn processing_a_removal_undoes_an_addition() {
    for (sysfs, sysfs_ok) in [(false, true), (true, false), (true, true)] {
        let mut h = HotPlug::new(vec![p("/sys/hub")], vec![], vec![board()], sysfs);
        let mut c = Inside::default();
        let device = || Device::from_udev(tty("/sys/hub/a", "/dev/ttyACM0", 0));
        for _ in 0..2 {
            let mut log = Vec::new();
            let mut step = h.process(DeviceEvent::Add(device()));
            while let Step::Perform(a) = step {
                log.push(shown(&a));
                step = h.resume(c.perform(&a, sysfs_ok));
            }
            assert!(matches!(step, Step::Emit(Event::Attach(_))));
            assert_eq!(log.contains(&"bind /sys/hub/a".to_string()), sysfs);
            assert_eq!(c.files.len(), 2);
            let mut log = Vec::new();
            step = h.process(DeviceEvent::Remove(Device::from_udev(bare("/sys/hub/a"))));
            while let Step::Perform(a) = step {
                log.push(shown(&a));
                step = h.resume(c.perform(&a, sysfs_ok));
            }
            assert!(matches!(step, Step::Emit(Event::Detach(_))));
            assert_eq!(log.contains(&"unbind /sys/hub/a".to_string()), sysfs && sysfs_ok);
            assert_eq!(c, Inside::default());
        }
        assert!(matches!(h.process(DeviceEvent::Remove(device())), Step::Skip));
    }
}

#[test]
fn access_is_exact_throughout() {
    let mut h = HotPlug::new(
        vec![p("/sys/hub")],
        vec![tty("/sys/hub/a", "/dev/ttyACM0", 0), tty("/sys/hub/b", "/dev/ttyACM1", 1)],
        vec![],
        true,
    );
    let mut c = Inside::default();
    run(&mut h, &mut c, vec![], true);
    run(&mut h, &mut c, vec![], true);
    run(&mut h, &mut c, vec![Polled::Drained], true);
    assert_eq!(c.access, BTreeMap::from([((166, 0), 7), ((166, 1), 7)]));
    run(&mut h, &mut c, vec![event(EventType::Remove, bare("/sys/hub/a"))], true);
    assert_eq!(c.access, BTreeMap::from([((166, 1), 7)]));
    let outside = event(EventType::Add, tty("/sys/other", "/dev/ttyACM2", 2));
    let inside = event(EventType::Add, tty("/sys/hub/c", "/dev/ttyACM3", 3));
    run(&mut h, &mut c, vec![outside, inside], true);
    assert_eq!(c.access, BTreeMap::from([((166, 1), 7), ((166, 3), 7)]));
    assert_eq!(
        c.writable,
        BTreeSet::from(["/sys/hub/b".to_string(), "/sys/hub/c".to_string()])
    );
}

#[test]
fn repeated_additions_are_logged() {
    let mut h = HotPlug::new(
        vec![p("/sys/hub")],
        vec![tty("/sys/hub/a", "/dev/ttyACM0", 0)],
        vec![],
        false,
    );
    let mut c = Inside::default();
    run(&mut h, &mut c, vec![], true);
    let before = c.clone();
    let again = event(EventType::Add, tty("/sys/hub/a/", "/dev/ttyACM9", 9));
    let (log, e) = run(&mut h, &mut c, vec![again, Polled::Drained], true);
    assert_eq!(log, vec!["Device already seen: /sys/hub/a"]);
    assert!(matches!(e, Some(Event::Initialized)));
    assert_eq!(c, before);
}

#[test]
fn devices_are_there_when_the_caller_is_told() {
    let mut h = HotPlug::new(
        vec![p("/sys/hub")],
        vec![
            bare("/sys/hub"),
            tty("/sys/hub/a", "/dev/ttyACM0", 0),
            tty("/sys/elsewhere", "/dev/ttyACM1", 1),
        ],
        vec![board()],
        false,
    );
    let mut s = Supervisor::new(vec![p("/sys/hub")]);
    let mut c = Inside::default();
    loop {
        let (_, e) = run(&mut h, &mut c, vec![Polled::Drained], true);
        if let Some(e) = e {
            if s.handle(Some(&e)) == SuperviseStep::Notify {
                break;
            }
        }
    }
    assert_eq!(c.access, BTreeMap::from([((166, 0), 7)]));
    assert_eq!(
        c.files,
        BTreeMap::from([
            ("/dev/board".to_string(), "/dev/ttyACM0".to_string()),
            ("/dev/ttyACM0".to_string(), "166:0".to_string()),
        ])
    );
}

#[test]
fn clones_are_alike() {
    let mut h = HotPlug::new(
        vec![p("/sys/hub")],
        vec![tty("/sys/hub/a", "/dev/ttyACM0", 0)],
        vec![board()],
        false,
    );
    let (_, e) = run(&mut h, &mut Inside::default(), vec![], true);
    let e = e.unwrap();
    assert_eq!(e.clone().to_string(), e.to_string());
    assert_eq!(Event::Initialized.clone().to_string(), "Container initialized");
    match e {
        Event::Attach(a) => {
            assert_eq!(a.syspath().display(), "/sys/hub/a");
            assert_eq!(
                Event::Unplugged(a.device.clone()).clone().to_string(),
                "Unplugged root device 166:000 (Unknown) [/dev/ttyACM0]"
            );
        }
        other => panic!("{other:?}"),
    }
    assert_eq!(board().clone().to_string(), board().to_string());
    for s in ["parent-of:usb:2b3e:c310:S1", "usb:2b3e", "syspath:/sys/x", "devnode:/dev/x"] {
        let r = DeviceRef::from_str(s).unwrap();
        assert_eq!(r.clone().to_string(), s);
        assert_eq!(r.kind.clone().to_string(), r.kind.to_string());
    }
}

#[test]
fn initialized_is_reported_once() {
    let mut h = HotPlug::new(vec![p("/sys/hub")], vec![], vec![], false);
    let mut c = Inside::default();
    let (_, e) = run(&mut h, &mut c, vec![Polled::Drained], true);
    assert!(matches!(e, Some(Event::Initialized)));
    let (log, e) = run(&mut h, &mut c, vec![Polled::Drained], true);
    assert_eq!(log, vec!["wait"]);
    assert!(e.is_none());
}

#[test]
fn events_are_shown() {
    assert_eq!(Event::Initialized.to_string(), "Container initialized");
    assert_eq!(Event::Stopped.to_string(), "Container stopped");
}

#[test]
fn supervisor_notifies_once() {
    let mut s = Supervisor::new(vec![p("/sys/hub")]);
    assert_eq!(s.handle(Some(&Event::Initialized)), SuperviseStep::Notify);
    assert_eq!(
        s.handle(Some(&Event::Initialized)),
        SuperviseStep::Fail(SuperviseError::InitializedTwice)
    );
    assert_eq!(SuperviseError::InitializedTwice.message(), "Initialized event seen twice");
    assert_eq!(s.handle(None), SuperviseStep::Fail(SuperviseError::NoMoreEvents));
    assert_eq!(SuperviseError::NoMoreEvents.message(), "No more events");
    assert_eq!(s.handle(Some(&Event::Stopped)), SuperviseStep::Stop);
}

#[test]
fn unplugging_the_root_stops_the_container() {
    let mut h = HotPlug::new(
        vec![p("/sys/hub")],
        vec![tty("/sys/hub", "/dev/bus/usb/001/002", 2), tty("/sys/hub/a", "/dev/ttyACM0", 0)],
        vec![],
        false,
    );
    let mut s = Supervisor::new(vec![p("/sys/hub/")]);
    let mut c = Inside::default();
    for _ in 0..2 {
        let (_, e) = run(&mut h, &mut c, vec![], true);
        assert_eq!(s.handle(e.as_ref()), SuperviseStep::Continue);
    }
    let (_, e) = run(&mut h, &mut c, vec![Polled::Drained], true);
    assert_eq!(s.handle(e.as_ref()), SuperviseStep::Notify);
    let gone = event(EventType::Remove, bare("/sys/hub/a"));
    let (_, e) = run(&mut h, &mut c, vec![gone], true);
    assert_eq!(s.handle(e.as_ref()), SuperviseStep::Continue);
    let gone = event(EventType::Remove, bare("/sys/hub"));
    let (_, e) = run(&mut h, &mut c, vec![gone], true);
    assert_eq!(s.handle(e.as_ref()), SuperviseStep::Kill);
    assert!(c.access.is_empty());
}

#[test]
fn empty_access_is_what_revokes() {
    assert!(Access::empty().is_empty());
    assert_eq!(Announcement::Add.name(), "add");
    assert_eq!(Announcement::Remove.name(), "remove");
}

#[test]
fn announcements_are_as_the_kernel_makes_them() {
    let mut u = bare("/sys/devices/usb1");
    assert_eq!(announce(&u, Announcement::Add), b"add@/devices/usb1\0ACTION=add\0");
    for (name, value) in [("ACTION", "bind"), ("SUBSYSTEM", "usb"), ("SEQNUM", "7")] {
        u.properties.push(Property {
            name: name.as_bytes().to_vec(),
            value: value.as_bytes().to_vec(),
        });
    }
    assert_eq!(
        announce(&u, Announcement::Remove),
        b"remove@/devices/usb1\0ACTION=remove\0SUBSYSTEM=usb\0SEQNUM=7\0"
    );
    let odd = announce(&bare("/x"), Announcement::Add);
    assert_eq!(odd, b"add@/x\0ACTION=add\0");
}

#[test]
fn files_are_there_for_each_attached_device() {
    let mut h = HotPlug::new(
        vec![p("/sys/hub")],
        vec![tty("/sys/hub/a", "/dev/ttyACM0", 0)],
        vec![board()],
        false,
    );
    let mut c = Inside::default();
    run(&mut h, &mut c, vec![], true);
    let mut other = tty("/sys/hub/b", "/dev/ttyACM1", 1);
    other.properties.clear();
    run(&mut h, &mut c, vec![event(EventType::Add, other)], true);
    let first = [("/dev/board", "/dev/ttyACM0"), ("/dev/ttyACM0", "166:0")];
    let second = [("/dev/ttyACM1", "166:1")];
    let files = |list: &[(&str, &str)]| {
        list.iter().map(|(k, v)| (k.to_string(), v.to_string())).collect::<BTreeMap<_, _>>()
    };
    assert_eq!(c.files, files(&[&first[..], &second[..]].concat()));
    run(&mut h, &mut c, vec![event(EventType::Remove, bare("/sys/hub/a"))], true);
    assert_eq!(c.files, files(&second));
}

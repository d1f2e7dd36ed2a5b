use container_hotplug::cgroup::DeviceType;
use container_hotplug::dev::device::Property;
use container_hotplug::dev::monitor::{EventType, Polled, ReadStep, UdevEvent};
use container_hotplug::dev::{Device, DeviceEvent, DeviceMonitor, UdevDevice};
use container_hotplug::path::PathBuf;

fn p(s: &str) -> PathBuf {
    PathBuf::from_text(s)
}

fn bare(syspath: &str) -> UdevDevice {
    UdevDevice {
        syspath: p(syspath),
        devnode: None,
        devnum: None,
        subsystem: None,
        properties: Vec::new(),
    }
}

fn node(syspath: &str, devnode: &str, devnum: u64, subsystem: &str) -> UdevDevice {
    UdevDevice {
        devnode: Some(p(devnode)),
        devnum: Some(devnum),
        subsystem: Some(subsystem.as_bytes().to_vec()),
        ..bare(syspath)
    }
}

fn property(name: &str, value: &[u8]) -> Property {
    Property { name: name.as_bytes().to_vec(), value: value.to_vec() }
}

fn named(properties: Vec<Property>) -> Option<String> {
    let mut u = bare("/sys/d");
    u.properties = properties;
    Device::from_udev(u).display_name()
}

fn event(event_type: EventType, device: UdevDevice) -> Polled {
    Polled::Event(UdevEvent { event_type, device })
}

/// The next event, with the socket giving `polls` one after the other.
fn read(m: &mut DeviceMonitor, polls: Vec<Polled>) -> String {
    let mut step = m.try_read(Polled::NotYet);
    for polled in polls {
        match step {
            ReadStep::Poll | ReadStep::Seen(_) => step = m.try_read(polled),
            _ => break,
        }
    }
    match step {
        ReadStep::Event(DeviceEvent::Add(d)) => format!("add {}", d.syspath().display()),
        ReadStep::Event(DeviceEvent::Remove(d)) => format!("remove {}", d.syspath().display()),
        ReadStep::Empty => "empty".to_string(),
        ReadStep::Poll => "poll".to_string(),
        ReadStep::Seen(path) => format!("seen {}", path.display()),
    }
}

#[test]
fn device_numbers_are_taken_apart() {
    let d = Device::from_udev(node("/sys/d", "/dev/ttyACM3", 0xa603, "tty"));
    let n = d.devnode().unwrap();
    assert_eq!(n.devnum, (166, 3));
    assert_eq!(n.ty, DeviceType::Character);
    assert_eq!(n.path.display(), "/dev/ttyACM3");
    let d = Device::from_udev(node("/sys/d", "/dev/sda", 0x1234_5678_9abc_def0, "block"));
    let n = d.devnode().unwrap();
    assert_eq!(n.devnum, (0x1234_5cde, 0x6789_abf0));
    assert_eq!(n.ty, DeviceType::Block);
}

#[test]
fn node_needs_path_number_and_subsystem() {
    let whole = || node("/sys/d", "/dev/x", 1, "tty");
    assert!(Device::from_udev(whole()).devnode().is_some());
    assert!(Device::from_udev(UdevDevice { devnode: None, ..whole() }).devnode().is_none());
    assert!(Device::from_udev(UdevDevice { devnum: None, ..whole() }).devnode().is_none());
    assert!(Device::from_udev(UdevDevice { subsystem: None, ..whole() }).devnode().is_none());
}

#[test]
fn names_come_from_the_database_first() {
    assert_eq!(
        named(vec![
            property("ID_VENDOR_FROM_DATABASE", b" NewAE Technology Inc. "),
            property("ID_VENDOR_ENC", b"other"),
            property("ID_MODEL_ENC", b"CW310\\x20Board"),
        ]),
        Some("NewAE Technology Inc. CW310 Board".to_string())
    );
    assert_eq!(
        named(vec![
            property("ID_VENDOR_FROM_DATABASE", &[255]),
            property("ID_VENDOR_ENC", b"a"),
            property("ID_MODEL_FROM_DATABASE", b"b"),
        ]),
        Some("a b".to_string())
    );
}

#[test]
fn names_may_be_missing() {
    assert_eq!(named(vec![]), None);
    assert_eq!(named(vec![property("ID_VENDOR_ENC", b"\\x")]), None);
}

#[test]
fn one_name_is_enough() {
    assert_eq!(named(vec![property("ID_VENDOR_ENC", b" a ")]), Some("a".to_string()));
    assert_eq!(
        named(vec![property("ID_VENDOR_ENC", b"\\x"), property("ID_MODEL_ENC", b"b")]),
        Some("b".to_string())
    );
}

#[test]
fn properties_are_looked_up() {
    let mut u = bare("/sys/d");
    u.properties = vec![property("A", b"1"), property("B", &[255]), property("A", b"2")];
    assert_eq!(u.property_value("A"), Some(&b"1".to_vec()));
    assert_eq!(u.property_value("C"), None);
    assert_eq!(u.text_property("A"), Some("1".to_string()));
    assert_eq!(u.text_property("B"), None);
}

#[test]
fn devices_are_shown() {
    let mut u = node("/sys/d", "/dev/ttyACM3", 0xa603, "tty");
    assert_eq!(Device::from_udev(u.clone()).to_string(), "166:003 (Unknown) [/dev/ttyACM3]");
    u.properties = vec![property("ID_VENDOR_ENC", b"a"), property("ID_MODEL_ENC", b"b")];
    assert_eq!(Device::from_udev(u).to_string(), "166:003 (a b) [/dev/ttyACM3]");
    assert_eq!(Device::from_udev(bare("/sys/d")).to_string(), "  -:-   (Unknown) [/sys/d]");
}

#[test]
fn present_devices_come_first() {
    let mut m = DeviceMonitor::new(
        vec![p("/sys/hub")],
        vec![bare("/sys/hub/a"), bare("/sys/hubble"), bare("/sys/hub"), bare("/sys/x")],
    );
    assert_eq!(read(&mut m, vec![]), "add /sys/hub/a");
    assert_eq!(read(&mut m, vec![]), "add /sys/hub");
    assert_eq!(read(&mut m, vec![]), "poll");
    assert_eq!(read(&mut m, vec![Polled::Drained]), "empty");
}

#[test]
fn present_devices_are_reported_once() {
    let mut m = DeviceMonitor::new(
        vec![p("/sys/hub"), p("/sys/hub/a")],
        vec![node("/sys/hub/a", "/dev/ttyACM0", 0xa600, "tty"), bare("/sys/hub/a/")],
    );
    assert!(m.is_root(&p("/sys/hub/a/")));
    assert!(!m.is_root(&p("/sys/hub/b")));
    match m.try_read(Polled::NotYet) {
        ReadStep::Event(DeviceEvent::Add(d)) => assert!(d.devnode().is_some()),
        other => panic!("{other:?}"),
    }
    assert_eq!(read(&mut m, vec![Polled::Drained]), "empty");
}

#[test]
fn other_events_are_skipped() {
    let mut m = DeviceMonitor::new(vec![p("/sys/hub")], vec![]);
    assert_eq!(
        read(
            &mut m,
            vec![
                event(EventType::Add, bare("/sys/other")),
                event(EventType::Other, bare("/sys/hub/a")),
                event(EventType::Remove, bare("/sys/hub/a")),
                event(EventType::Add, bare("/sys/hub/a")),
            ]
        ),
        "add /sys/hub/a"
    );
}

#[test]
fn devices_are_reported_in_order() {
    let mut m = DeviceMonitor::new(vec![p("/sys/hub")], vec![bare("/sys/hub/a")]);
    assert_eq!(read(&mut m, vec![]), "add /sys/hub/a");
    let again = || event(EventType::Add, bare("/sys/hub/a"));
    assert_eq!(read(&mut m, vec![again()]), "seen /sys/hub/a");
    assert_eq!(read(&mut m, vec![again(), Polled::Drained]), "empty");
    let gone = || event(EventType::Remove, bare("/sys/hub/a"));
    assert_eq!(read(&mut m, vec![gone()]), "remove /sys/hub/a");
    assert_eq!(read(&mut m, vec![gone(), Polled::Drained]), "empty");
    let back = event(EventType::Add, bare("/sys/hub/a"));
    assert_eq!(read(&mut m, vec![back]), "add /sys/hub/a");
}

#[test]
fn removed_devices_are_as_they_were_added() {
    let mut m = DeviceMonitor::new(vec![p("/sys/hub")], vec![]);
    let added = node("/sys/hub/a", "/dev/ttyACM0", 0xa600, "tty");
    m.try_read(Polled::NotYet);
    m.try_read(event(EventType::Add, added));
    match m.try_read(event(EventType::Remove, bare("/sys/hub/a"))) {
        ReadStep::Event(DeviceEvent::Remove(d)) => {
            assert_eq!(d.devnode().unwrap().devnum, (166, 0));
        }
        other => panic!("{other:?}"),
    }
}

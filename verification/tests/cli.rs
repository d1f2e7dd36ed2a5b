use container_hotplug::cli::device::{DeviceKind, DeviceRefFault};
use container_hotplug::cli::lookup::{Lookup, LookupError};
use container_hotplug::cli::symlink::{SymlinkDevice, SymlinkFault};
use container_hotplug::cli::{DeviceRef, Symlink};
use container_hotplug::dev::device::Property;
use container_hotplug::dev::{Device, UdevDevice};
use container_hotplug::path::PathBuf;

fn udev(syspath: &str, properties: &[(&str, &str)]) -> UdevDevice {
    UdevDevice {
        syspath: PathBuf::from_text(syspath),
        devnode: None,
        devnum: None,
        subsystem: None,
        properties: properties
            .iter()
            .map(|(n, v)| Property { name: n.as_bytes().to_vec(), value: v.as_bytes().to_vec() })
            .collect(),
    }
}

fn refused(s: &str) -> (DeviceRefFault, String) {
    let e = DeviceRef::from_str(s).unwrap_err();
    (e.fault, e.message())
}

fn link_refused(s: &str) -> (SymlinkFault, String) {
    let e = Symlink::from_str(s).unwrap_err();
    (e.fault, e.message())
}

#[test]
fn usb_references_are_parsed() {
    let r = DeviceRef::from_str("usb:2B3E:c310").unwrap();
    assert_eq!(r.parent_level, 0);
    match r.kind {
        DeviceKind::Usb { vid, pid, serial } => {
            assert_eq!(vid, "2b3e");
            assert_eq!(pid, Some("c310".to_string()));
            assert_eq!(serial, None);
        }
        _ => panic!(),
    }
    let r = DeviceRef::from_str("parent-of:parent-of:usb:2b3e:C310:Ab9").unwrap();
    assert_eq!(r.parent_level, 2);
    match r.kind {
        DeviceKind::Usb { pid, serial, .. } => {
            assert_eq!(pid, Some("c310".to_string()));
            assert_eq!(serial, Some("Ab9".to_string()));
        }
        _ => panic!(),
    }
}

#[test]
fn path_references_are_parsed() {
    match DeviceRef::from_str("syspath:/sys/bus/usb/devices/usb1").unwrap().kind {
        DeviceKind::Syspath(p) => assert_eq!(p.display(), "/sys/bus/usb/devices/usb1"),
        _ => panic!(),
    }
    match DeviceRef::from_str("devnode:/dev/ttyACM0").unwrap().kind {
        DeviceKind::Devnode(p) => assert_eq!(p.display(), "/dev/ttyACM0"),
        _ => panic!(),
    }
    assert!(DeviceRef::from_str("syspath:/sys").is_ok());
    assert!(DeviceRef::from_str("syspath:/sys/").is_ok());
    assert!(DeviceRef::from_str("devnode:/dev").is_ok());
}

#[test]
fn reference_faults_are_told() {
    assert_eq!(
        refused("parent-of:usb"),
        (
            DeviceRefFault::Format,
            "Device format should be `[[parent-of:]*]<PREFIX>:<DEVICE>`, found `usb`".to_string()
        )
    );
    assert_eq!(
        refused("usb:1234:5678:a:b"),
        (
            DeviceRefFault::UsbFormat,
            "Device format for usb should be `<VID>[:<PID>[:<SERIAL>]]`, found `1234:5678:a:b`."
                .to_string()
        )
    );
    assert_eq!(
        refused("usb:"),
        (
            DeviceRefFault::Vid,
            "USB device VID should be a 4 digit hex number, found ``".to_string()
        )
    );
    assert_eq!(
        refused("usb:1234:567"),
        (
            DeviceRefFault::Pid,
            "USB device PID should be a 4 digit hex number, found `567`".to_string()
        )
    );
    assert_eq!(
        refused("usb:1234:5678:a-b"),
        (
            DeviceRefFault::Serial,
            "USB device SERIAL should be alphanumeric, found `a-b`".to_string()
        )
    );
    assert_eq!(refused("usb:1234:5678:").0, DeviceRefFault::Serial);
    assert_eq!(
        refused("syspath:/sysfs/x"),
        (
            DeviceRefFault::Syspath,
            "Syspath device PATH should be a directory path in /sys/**, found `/sysfs/x`"
                .to_string()
        )
    );
    assert_eq!(refused("syspath:sys/x").0, DeviceRefFault::Syspath);
    assert_eq!(
        refused("devnode:/dev/"),
        (
            DeviceRefFault::Devnode,
            "Devnode device PATH should be a file path in /dev/**, found `/dev/`".to_string()
        )
    );
    assert_eq!(refused("devnode:dev/x").0, DeviceRefFault::Devnode);
    assert_eq!(
        refused("pci:1"),
        (
            DeviceRefFault::Prefix,
            "Device PREFIX should be one of `usb`, `syspath` or `devnode`, found `pci`".to_string()
        )
    );
}

#[test]
fn references_round_trip() {
    for s in [
        "usb:2b3e",
        "usb:2b3e:c310",
        "usb:2b3e:c310:Serial1",
        "parent-of:usb:2b3e:c310",
        "parent-of:parent-of:syspath:/sys/bus/usb/devices/usb1",
        "devnode:/dev/ttyACM0",
    ] {
        assert_eq!(DeviceRef::from_str(s).unwrap().to_string(), s);
    }
    assert_eq!(DeviceRef::from_str("usb:2B3E:C310").unwrap().to_string(), "usb:2b3e:c310");
    assert_eq!(
        DeviceRef::from_str("parent-of:usb:2B3e:C310:Serial1").unwrap().to_string(),
        "parent-of:usb:2b3e:c310:Serial1"
    );
}

#[test]
fn lookups_ask_for_one_thing_at_a_time() {
    let usb = DeviceRef::from_str("usb:2b3e:c310:S1").unwrap();
    match usb.kind.lookup() {
        Lookup::ByAttributes(a) => {
            let pairs: Vec<_> = a.iter().map(|a| (a.name.as_str(), a.value.as_str())).collect();
            assert_eq!(
                pairs,
                vec![("idVendor", "2b3e"), ("idProduct", "c310"), ("serial", "S1")]
            );
        }
        other => panic!("{other:?}"),
    }
    match DeviceRef::from_str("usb:2b3e").unwrap().kind.lookup() {
        Lookup::ByAttributes(a) => assert_eq!(a.len(), 1),
        other => panic!("{other:?}"),
    }
    let sys = DeviceRef::from_str("syspath:/sys/bus/usb/devices/usb1").unwrap().kind;
    match sys.lookup() {
        Lookup::Canonicalize(p) => assert_eq!(p.display(), "/sys/bus/usb/devices/usb1"),
        other => panic!("{other:?}"),
    }
    match sys.lookup_at(Some(PathBuf::from_text("/sys/devices/usb1"))).unwrap() {
        Lookup::BySyspath(p) => assert_eq!(p.display(), "/sys/devices/usb1"),
        other => panic!("{other:?}"),
    }
    let node = DeviceRef::from_str("devnode:/dev/board").unwrap().kind;
    match node.lookup_at(Some(PathBuf::from_text("/dev/ttyACM0"))).unwrap() {
        Lookup::ByDevname(p) => assert_eq!(p.display(), "/dev/ttyACM0"),
        other => panic!("{other:?}"),
    }
    let e = node.lookup_at(None).unwrap_err();
    assert!(matches!(e, LookupError::Path(_)));
    assert_eq!(e.message(), "Failed to resolve PATH for `devnode:/dev/board`");
    let e = node.device(None).unwrap_err();
    assert!(matches!(e, LookupError::NotFound(_)));
    assert_eq!(e.message(), "Failed to find device `devnode:/dev/board`");
    let d = node.device(Some(udev("/sys/devices/x", &[]))).unwrap();
    assert_eq!(d.syspath().display(), "/sys/devices/x");
}

#[test]
fn parents_are_walked_to() {
    let lineage = vec![udev("/sys/d/a/b", &[]), udev("/sys/d/a", &[]), udev("/sys/d", &[])];
    let at = |s: &str| DeviceRef::from_str(s).unwrap().device(&lineage);
    assert_eq!(at("usb:2b3e").unwrap().syspath().display(), "/sys/d/a/b");
    assert_eq!(at("parent-of:usb:2b3e").unwrap().syspath().display(), "/sys/d/a");
    assert_eq!(at("parent-of:parent-of:usb:2b3e").unwrap().syspath().display(), "/sys/d");
    let e = at("parent-of:parent-of:parent-of:usb:2b3e").unwrap_err();
    assert!(matches!(e, LookupError::NoParent(_)));
    assert_eq!(
        e.message(),
        "Failed to obtain parent device while resolving `parent-of:parent-of:parent-of:usb:2b3e`"
    );
    let none = DeviceRef::from_str("parent-of:usb:2b3e").unwrap().device(&vec![]).unwrap_err();
    assert_eq!(none.message(), "Failed to find device `usb:2b3e`");
}

#[test]
fn symlink_rules_are_parsed() {
    let l = Symlink::from_str("usb:2B3E:C310:1=/dev/ttyACM_CW310_0").unwrap();
    let SymlinkDevice::Usb { vid, pid, if_num } = &l.device;
    assert_eq!((vid.as_str(), pid.as_str(), if_num.as_str()), ("2b3e", "c310", "01"));
    assert_eq!(l.path.display(), "/dev/ttyACM_CW310_0");
    let SymlinkDevice::Usb { if_num, .. } = Symlink::from_str("usb:2b3e:c310:123=/x").unwrap().device;
    assert_eq!(if_num, "123");
}

#[test]
fn symlink_faults_are_told() {
    assert_eq!(
        link_refused("usb:2b3e:c310:1"),
        (
            SymlinkFault::Format,
            "Symlink format should be `<PREFIX>:<DEVICE>=<PATH>`, found `usb:2b3e:c310:1`"
                .to_string()
        )
    );
    assert_eq!(link_refused("a=b=c").0, SymlinkFault::Format);
    assert_eq!(
        link_refused("usb:2b3e:c310:1=dev/x"),
        (
            SymlinkFault::Path,
            "Symlink PATH should be an absolute file path, found `dev/x`.".to_string()
        )
    );
    assert_eq!(link_refused("usb:2b3e:c310:1=/dev/").0, SymlinkFault::Path);
    assert_eq!(
        link_refused("usb=/dev/x"),
        (
            SymlinkFault::DeviceFormat,
            "Symlink DEVICE format should be `<PREFIX>:<DEVICE>`, found `usb`".to_string()
        )
    );
    assert_eq!(
        link_refused("usb:2b3e:c310=/dev/x"),
        (
            SymlinkFault::UsbFormat,
            "Symlink DEVICE format for usb should be `<VID>:<PID>:<INTERFACE>`, found `2b3e:c310`."
                .to_string()
        )
    );
    assert_eq!(
        link_refused("usb:2b3:c310:1=/dev/x"),
        (
            SymlinkFault::Vid,
            "USB symlink VID should be a 4 digit hex number, found `2b3`".to_string()
        )
    );
    assert_eq!(
        link_refused("usb:2b3e:c31x:1=/dev/x"),
        (
            SymlinkFault::Pid,
            "USB symlink PID should be a 4 digit hex number, found `c31x`".to_string()
        )
    );
    assert_eq!(
        link_refused("usb:2b3e:c310:=/dev/x"),
        (
            SymlinkFault::Interface,
            "USB symlink INTERFACE should be a number, found ``".to_string()
        )
    );
    assert_eq!(
        link_refused("pci:1=/dev/x"),
        (SymlinkFault::Prefix, "Symlink PREFIX should be `usb`, found `pci`".to_string())
    );
}

#[test]
fn symlink_rules_round_trip() {
    let l = Symlink::from_str("usb:2B3E:C310:1=/dev/board").unwrap();
    assert_eq!(l.to_string(), "usb:2b3e:c310:01=/dev/board");
    assert_eq!(l.device.to_string(), "usb:2b3e:c310:01");
    assert_eq!(Symlink::from_str(&l.to_string()).unwrap().to_string(), l.to_string());
}

#[test]
fn symlink_rules_match_on_all_identifiers() {
    let l = Symlink::from_str("usb:2b3e:c310:1=/dev/board").unwrap();
    let device = |vid, pid, interface| {
        Device::from_udev(udev(
            "/sys/d",
            &[("ID_VENDOR_ID", vid), ("ID_MODEL_ID", pid), ("ID_USB_INTERFACE_NUM", interface)],
        ))
    };
    let found = l.matches(&device("2b3e", "c310", "01")).unwrap();
    assert_eq!(found.display(), "/dev/board");
    assert!(l.matches(&device("2b3f", "c310", "01")).is_none());
    assert!(l.matches(&device("2b3e", "c311", "01")).is_none());
    assert!(l.matches(&device("2b3e", "c310", "1")).is_none());
    let missing = udev("/sys/d", &[("ID_VENDOR_ID", "2b3e"), ("ID_MODEL_ID", "c310")]);
    assert!(!l.device.matches(&Device::from_udev(missing)));
    let mut odd = udev("/sys/d", &[("ID_VENDOR_ID", "2b3e"), ("ID_MODEL_ID", "c310")]);
    odd.properties.push(Property { name: b"ID_USB_INTERFACE_NUM".to_vec(), value: vec![255] });
    assert!(!l.device.matches(&Device::from_udev(odd)));
}

use container_hotplug::number::NumberError;
use container_hotplug::path::PathBuf;
use container_hotplug::util::log::{
    global_replace, Level, ProcessNameError, ReplaceableLogger, SyslogLogger,
};
use container_hotplug::util::namespace::{
    idmap_mount, make_mount_private, EnterStep, IdError, IdMap, IdMapError, MntNamespace,
    MountAttr, NetNamespace, ProcFile, UserNamespace,
};

fn ns(uid: &str, gid: &str) -> UserNamespace {
    UserNamespace { uid_map: IdMap::parse(uid).unwrap(), gid_map: IdMap::parse(gid).unwrap() }
}

const NONE: &str = "         0          0 4294967295\n";

#[test]
fn mount_attributes_are_the_kernels() {
    assert_eq!(
        idmap_mount(5),
        MountAttr { attr_set: 0x0010_0000, attr_clr: 0, propagation: 0, userns_fd: 5 }
    );
    assert_eq!(
        make_mount_private(),
        MountAttr { attr_set: 0, attr_clr: 0, propagation: 1 << 18, userns_fd: 0 }
    );
}

#[test]
fn id_maps_are_parsed() {
    assert_eq!(
        IdMap::parse("0 100000 65536\n 65536\t7 1 extra\n").unwrap().map,
        vec![(0, 100000, 65536), (65536, 7, 1)]
    );
    assert_eq!(IdMap::parse("").unwrap().map, vec![]);
}

#[test]
fn id_map_errors_are_told() {
    let e = IdMap::parse("0 0 1\n0 1\n").unwrap_err();
    assert_eq!(e, IdMapError::Unexpected);
    assert_eq!(e.message(), "unexpected id_map");
    assert_eq!(IdMap::parse("\n").unwrap_err(), IdMapError::Unexpected);
    let e = IdMap::parse("0 x").unwrap_err();
    assert_eq!(e, IdMapError::Number(NumberError::InvalidDigit));
    assert_eq!(e.message(), "invalid digit found in string");
    let e = IdMap::parse("0 0 4294967296").unwrap_err();
    assert_eq!(e, IdMapError::Number(NumberError::TooLarge));
    assert_eq!(e.message(), "number too large to fit in target type");
    assert_eq!(
        IdMapError::Number(NumberError::Empty).message(),
        "cannot parse integer from empty string"
    );
}

#[test]
fn ids_are_translated() {
    let m = IdMap::parse("0 100000 10\n10 5 1").unwrap();
    assert_eq!(m.translate(0), Some(100000));
    assert_eq!(m.translate(9), Some(100009));
    assert_eq!(m.translate(10), Some(5));
    assert_eq!(m.translate(11), None);
}

#[test]
fn ids_past_the_largest_are_not_mapped() {
    let m = IdMap::parse("0 4294967290 100").unwrap();
    assert_eq!(m.translate(5), Some(4294967295));
    assert_eq!(m.translate(6), None);
    let m = IdMap::parse("4294967295 7 1\n0 100000 10").unwrap();
    assert_eq!(m.translate(3), Some(100003));
    assert_eq!(m.translate(4294967295), Some(7));
    let m = IdMap::parse("1 1 4294967295\n0 0 1").unwrap();
    assert_eq!(m.translate(0), Some(0));
    assert_eq!(m.translate(4294967295), Some(4294967295));
}

#[test]
fn first_range_that_holds_an_id_counts() {
    let m = IdMap::parse("0 100 10\n5 500 10").unwrap();
    assert_eq!(m.translate(7), Some(107));
    assert_eq!(m.translate(12), Some(507));
}

#[test]
fn identity_in_several_ranges_is_no_namespace() {
    let split = "0 0 1000\n1000 1000 4294966295";
    assert!(!ns(split, split).in_user_ns());
    assert!(!ns("1000 1000 4294966295\n0 0 1000", NONE).in_user_ns());
    assert!(!ns("0 0 2000\n1000 7 10\n2000 2000 4294965295", NONE).in_user_ns());
    assert!(ns("1000 7 10\n0 0 4294967295", NONE).in_user_ns());
    assert!(ns("0 0 1000\n1001 1001 4294966294", NONE).in_user_ns());
    assert!(ns(split, "0 0 1000").in_user_ns());
    assert!(!ns("0 0 4294967295\n4294967295 5 1", NONE).in_user_ns());
}

#[test]
fn identity_is_no_namespace() {
    let plain = ns(NONE, NONE);
    assert!(!plain.in_user_ns());
    for id in [0, 1, 1000, 4294967294] {
        assert_eq!(plain.uid(id), Ok(id));
        assert_eq!(plain.gid(id), Ok(id));
    }
    assert_eq!(plain.uid(4294967295), Err(IdError::Uid));
    assert!(ns("0 100000 65536", NONE).in_user_ns());
    assert!(ns(NONE, "0 100000 65536").in_user_ns());
    assert!(ns("", NONE).in_user_ns());
}

#[test]
fn namespaces_are_entered_as_root() {
    let mapped = || ns("0 100000 65536", "0 200000 65536");
    let root = [
        EnterStep::KeepCapabilities,
        EnterStep::SetUid(100000),
        EnterStep::SetGid(200000),
    ];
    assert_eq!(mapped().enter(), root);
    assert_eq!(
        MntNamespace { user_ns: mapped() }.enter(),
        [&[EnterStep::UnshareFs, EnterStep::MountNamespace], &root[..]].concat()
    );
    assert_eq!(
        NetNamespace { user_ns: mapped() }.enter(),
        [&[EnterStep::NetworkNamespace], &root[..]].concat()
    );
}

#[test]
fn namespaces_without_root_are_not_entered() {
    assert_eq!(
        ns("1 1 1", "0 0 1").enter(),
        vec![EnterStep::KeepCapabilities, EnterStep::Fail(IdError::Uid)]
    );
    assert_eq!(
        ns("0 7 1", "1 1 1").enter(),
        vec![EnterStep::KeepCapabilities, EnterStep::SetUid(7), EnterStep::Fail(IdError::Gid)]
    );
    assert_eq!(IdError::Uid.message(), "UID overflows");
    assert_eq!(IdError::Gid.message(), "GID overflows");
}

#[test]
fn proc_has_files_for_each_process() {
    assert_eq!(ProcFile::UserNamespace.of_pid(42).display(), "/proc/42/ns/user");
    assert_eq!(ProcFile::MountNamespace.of_pid(42).display(), "/proc/42/ns/mnt");
    assert_eq!(ProcFile::NetworkNamespace.of_pid(42).display(), "/proc/42/ns/net");
    assert_eq!(ProcFile::UidMap.of_pid(1).display(), "/proc/1/uid_map");
    assert_eq!(ProcFile::GidMap.of_pid(2147483647).display(), "/proc/2147483647/gid_map");
}

#[test]
fn latest_logger_counts() {
    let mut slot: Option<ReplaceableLogger<&str>> = None;
    assert_eq!(global_replace(&mut slot, "stderr"), None);
    assert_eq!(slot.as_ref().unwrap().logger, "stderr");
    assert_eq!(global_replace(&mut slot, "json"), Some("stderr"));
    assert_eq!(global_replace(&mut slot, "syslog"), Some("json"));
    assert_eq!(slot.unwrap().logger, "syslog");
    let mut one = ReplaceableLogger::new(1);
    assert_eq!(one.replace(2), 1);
    assert_eq!(one.logger, 2);
}

#[test]
fn syslog_messages_have_priority_and_tag() {
    let exe = PathBuf::from_text("/usr/bin/container-hotplug");
    let l = SyslogLogger::new((), &exe, 4242).unwrap();
    assert_eq!(l.message(Level::Error, "x"), "<11>container-hotplug[4242]: x");
    assert_eq!(l.message(Level::Warn, "x"), "<12>container-hotplug[4242]: x");
    assert_eq!(l.message(Level::Info, "x"), "<13>container-hotplug[4242]: x");
    assert_eq!(l.message(Level::Debug, "x"), "<14>container-hotplug[4242]: x");
    assert_eq!(l.message(Level::Trace, ""), "<15>container-hotplug[4242]: ");
}

#[test]
fn process_needs_a_name() {
    let e = SyslogLogger::new((), &PathBuf::from_text("/"), 1).unwrap_err();
    assert_eq!(e, ProcessNameError::Missing);
    assert_eq!(e.message(), "cannot get process name");
    let e = SyslogLogger::new((), &PathBuf::from_bytes(vec![47, 254]), 1).unwrap_err();
    assert_eq!(e, ProcessNameError::NotUtf8);
    assert_eq!(e.message(), "process name is not UTF-8");
}

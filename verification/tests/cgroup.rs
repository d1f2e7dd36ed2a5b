use container_hotplug::cgroup::{
    Access, Device, DeviceAccessController, DeviceType, FilterStep, InvalidCgroupPath, MapUpdate,
    MKNOD, READ, WRITE,
};
use container_hotplug::path::PathBuf;
use std::collections::HashMap;

fn controller() -> DeviceAccessController {
    DeviceAccessController::new(&PathBuf::from_text(
        "/sys/fs/cgroup/system.slice/docker-0123.scope",
    ))
    .unwrap()
}

fn apply(map: &mut HashMap<(u32, u32, u32), u32>, update: MapUpdate) {
    match update {
        MapUpdate::Remove(d) => {
            map.remove(&(d.device_type, d.major, d.minor));
        }
        MapUpdate::Insert(d, bits) => {
            map.insert((d.device_type, d.major, d.minor), bits);
        }
    }
}

#[test]
fn constants_are_the_kernels() {
    assert_eq!(DeviceType::Block.code(), 1);
    assert_eq!(DeviceType::Character.code(), 2);
    assert_eq!((MKNOD, READ, WRITE), (1, 2, 4));
    assert_eq!(Access::all().bits(), 7);
    assert_eq!(Access::empty().bits(), 0);
    assert!(Access::empty().is_empty());
    assert!(!Access::all().is_empty());
}

#[test]
fn pin_is_named_after_the_cgroup() {
    assert_eq!(controller().pin.display(), "/sys/fs/bpf/docker-0123-device-filter");
    let plain = DeviceAccessController::new(&PathBuf::from_text("/sys/fs/cgroup/x")).unwrap();
    assert_eq!(plain.pin.display(), "/sys/fs/bpf/x-device-filter");
    let twice = DeviceAccessController::new(&PathBuf::from_text("/c/x.scope.scope/")).unwrap();
    assert_eq!(twice.pin.display(), "/sys/fs/bpf/x-device-filter");
    let only = DeviceAccessController::new(&PathBuf::from_text("/c/.scope")).unwrap();
    assert_eq!(only.pin.display(), "/sys/fs/bpf/-device-filter");
}

#[test]
fn cgroup_without_a_name_is_refused() {
    assert_eq!(InvalidCgroupPath.message(), "Invalid cgroup path");
    assert!(matches!(
        DeviceAccessController::new(&PathBuf::from_text("/")),
        Err(InvalidCgroupPath)
    ));
    assert!(matches!(
        DeviceAccessController::new(&PathBuf::from_text("/sys/..")),
        Err(InvalidCgroupPath)
    ));
    assert!(matches!(
        DeviceAccessController::new(&PathBuf::from_bytes(vec![47, 255])),
        Err(InvalidCgroupPath)
    ));
}

#[test]
fn new_filter_comes_before_the_old_ones_go() {
    assert_eq!(
        controller().takeover(2),
        vec![
            FilterStep::Attach,
            FilterStep::Unpin,
            FilterStep::Pin,
            FilterStep::Detach(0),
            FilterStep::Detach(1),
        ]
    );
    assert_eq!(
        controller().takeover(0),
        vec![FilterStep::Attach, FilterStep::Unpin, FilterStep::Pin]
    );
}

#[test]
fn permissions_become_map_updates() {
    let c = controller();
    let key = Device { device_type: 2, major: 166, minor: 3 };
    assert_eq!(
        c.set_permission(DeviceType::Character, 166, 3, Access::all()),
        MapUpdate::Insert(key, 7)
    );
    assert_eq!(
        c.set_permission(DeviceType::Character, 166, 3, Access { bits: READ }),
        MapUpdate::Insert(key, 2)
    );
    assert_eq!(
        c.set_permission(DeviceType::Character, 166, 3, Access::empty()),
        MapUpdate::Remove(key)
    );
}

#[test]
fn permissions_are_per_device() {
    let c = controller();
    let mut map = HashMap::new();
    apply(&mut map, c.set_permission(DeviceType::Character, 8, 1, Access::all()));
    apply(&mut map, c.set_permission(DeviceType::Block, 8, 1, Access { bits: READ }));
    assert_eq!(map.get(&(2, 8, 1)), Some(&7));
    assert_eq!(map.get(&(1, 8, 1)), Some(&2));
    apply(&mut map, c.set_permission(DeviceType::Character, 8, 1, Access::empty()));
    assert_eq!(map.get(&(2, 8, 1)), None);
    assert_eq!(map.get(&(1, 8, 1)), Some(&2));
}

#[test]
fn revoking_undoes_what_granting_did() {
    let c = controller();
    let mut map = HashMap::new();
    apply(&mut map, c.set_permission(DeviceType::Block, 8, 0, Access::all()));
    let before = map.clone();
    apply(&mut map, c.set_permission(DeviceType::Block, 8, 16, Access::all()));
    apply(&mut map, c.set_permission(DeviceType::Block, 8, 16, Access::empty()));
    assert_eq!(map, before);
}

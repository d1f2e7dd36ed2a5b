use container_hotplug::path::PathBuf;
use container_hotplug::path_map::PathMap;
use std::path::Path;

fn p(s: &str) -> PathBuf {
    PathBuf::from_text(s)
}

const SAMPLES: [&str; 18] = [
    "", "/", ".", "..", "/sys", "/sys/", "/sys/devices", "//sys//devices/", "/sys/./devices",
    "sys", "./sys", "sys/.", "/sysfs", "/sys/devices/usb1/..", "a/b/c", "/a", "./.", "/..",
];

#[test]
fn paths_compare_as_in_std() {
    for a in SAMPLES {
        for b in SAMPLES {
            assert_eq!(p(a).same(&p(b)), Path::new(a) == Path::new(b), "{a} {b}");
            assert_eq!(
                p(a).starts_with(&p(b)),
                Path::new(a).starts_with(b),
                "{a} {b}"
            );
        }
    }
}

#[test]
fn paths_join_as_in_std() {
    for a in SAMPLES {
        for b in SAMPLES {
            let joined = Path::new(a).join(b);
            assert_eq!(p(a).join(&p(b)).bytes, joined.to_str().unwrap().as_bytes());
        }
    }
}

#[test]
fn names_and_parents_are_as_in_std() {
    for a in SAMPLES {
        let path = Path::new(a);
        let name = path.file_name().map(|n| n.to_str().unwrap().as_bytes().to_vec());
        assert_eq!(p(a).file_name(), name, "{a}");
        match (p(a).parent(), path.parent()) {
            (Some(x), Some(y)) => {
                let text = String::from_utf8(x.bytes).unwrap();
                assert_eq!(Path::new(&text), y, "{a}");
            }
            (None, None) => {}
            (x, y) => panic!("{a}: {x:?} {y:?}"),
        }
    }
}

#[test]
fn absolute_paths_start_at_the_root() {
    assert!(p("/dev").is_absolute());
    assert!(!p("dev").is_absolute());
    assert!(!p("").is_absolute());
}

#[test]
fn paths_are_shown() {
    assert_eq!(p("/dev/ttyACM0").display(), "/dev/ttyACM0");
    assert_eq!(PathBuf::from_bytes(vec![47, 255, 97]).display(), "/\u{fffd}a");
}

#[test]
fn being_under_is_an_order() {
    let (a, b, c) = (p("/sys/a/b/c"), p("/sys//a/b"), p("/sys/a"));
    assert!(a.starts_with(&a));
    assert!(a.starts_with(&b) && b.starts_with(&c) && a.starts_with(&c));
    assert!(!c.starts_with(&a));
}

#[test]
fn maps_are_keyed_by_components() {
    let mut m: PathMap<u32> = PathMap::new();
    assert!(!m.contains(&p("/sys/a")));
    m.insert(p("/sys/a"), 1);
    m.insert(p("/sys/b"), 2);
    m.insert(p("/sys//a/"), 3);
    assert_eq!(m.get(&p("/sys/a")), Some(&3));
    assert_eq!(m.get(&p("/sys/b")), Some(&2));
    assert_eq!(m.get(&p("/sys")), None);
    assert_eq!(m.remove(&p("/sys/./a")), Some(3));
    assert_eq!(m.remove(&p("/sys/a")), None);
    assert!(m.contains(&p("/sys/b")));
}

#[test]
fn joining_appends_and_parents_drop() {
    let base = p("/sys/a");
    let below = base.join(&p("b/./c"));
    assert!(below.starts_with(&base));
    assert!(below.same(&p("/sys/a/b/c")));
    let up = below.parent().unwrap();
    assert!(up.same(&p("/sys/a/b")));
    assert!(below.starts_with(&up));
    assert!(p("/").parent().is_none());
}

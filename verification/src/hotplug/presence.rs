//! The device nodes and symlinks that a container has for the attached devices.
use crate::cli::symlink;
use crate::dev::device;
use crate::dev::monitor;
use crate::hotplug;
use crate::hotplug::attached_device;
use crate::hotplug::effects;
use crate::hotplug::exactness;
use crate::path;
use crate::path::PathKey;
use vstd::prelude::*;

verus! {

/// Whether `p` is the path of the node, or of a symlink, of a device.
pub open spec fn owns(a: attached_device::AttachedDeviceView, p: PathKey) -> bool {
    p == path::components((a.device.devnode->0).path) || effects::among(a.symlinks, p)
}

/// Whether two devices have no path in common.
pub open spec fn apart(
    a: attached_device::AttachedDeviceView,
    b: attached_device::AttachedDeviceView,
) -> bool {
    forall|p: PathKey| !(#[trigger] owns(a, p) && owns(b, p))
}

/// Whether the files of a container have the node and the symlinks of a device.
pub open spec fn furnished(
    files: Map<PathKey, effects::FileView>,
    a: attached_device::AttachedDeviceView,
) -> bool {
    let node = a.device.devnode->0;
    &&& files.contains_key(path::components(node.path))
    &&& files[path::components(node.path)] == effects::FileView::Node(node.ty, node.devnum)
    &&& forall|p: PathKey| #[trigger]
        effects::among(a.symlinks, p) ==> files.contains_key(p) && files[p]
            == effects::FileView::Link(node.path)
}

/// Whether the container has the node and the symlinks of each attached device, the symlinks are
/// those that the rules ask for, and no two attached devices have a path in common.
pub open spec fn present(h: hotplug::HotPlugView, c: effects::Inside) -> bool {
    &&& forall|k: PathKey| #[trigger]
        h.devices.contains_key(k) ==> h.devices[k].symlinks == hotplug::links_for(
            h.symlinks,
            h.devices[k].device.udev,
        )
    &&& forall|k: PathKey| #[trigger] h.devices.contains_key(k) ==> furnished(c.files, h.devices[k])
    &&& forall|k: PathKey, l: PathKey|
        #![trigger h.devices.contains_key(k), h.devices.contains_key(l)]
        h.devices.contains_key(k) && h.devices.contains_key(l) && k != l ==> apart(
            h.devices[k],
            h.devices[l],
        )
}

/// Whether a device that is about to be attached has no path in common with the attached ones, and
/// its node is not where one of its symlinks goes.
pub open spec fn has_room(h: hotplug::HotPlugView, d: device::DeviceView) -> bool {
    let a = attached_device::AttachedDeviceView {
        device: d,
        symlinks: hotplug::links_for(h.symlinks, d.udev),
    };
    &&& !effects::among(a.symlinks, path::components((d.devnode->0).path))
    &&& forall|k: PathKey| #[trigger]
        h.devices.contains_key(k) ==> apart(a, h.devices[k]) && apart(h.devices[k], a)
}

proof fn lemma_attached_furnished(
    c: effects::Inside,
    d: device::DeviceView,
    links: Seq<Seq<u8>>,
    bind: bool,
)
    requires
        !effects::among(links, path::components((d.devnode->0).path)),
    ensures
        furnished(
            effects::attached(c, d, d.devnode->0, links, bind).files,
            attached_device::AttachedDeviceView { device: d, symlinks: links },
        ),
{
    let node = d.devnode->0;
    let base = c.files.insert(
        path::components(node.path),
        effects::FileView::Node(node.ty, node.devnum),
    );
    let files = effects::attached(c, d, node, links, bind).files;
    effects::lemma_linked(base, node.path, links, path::components(node.path));
    assert forall|p: PathKey| #[trigger] effects::among(links, p) implies files.contains_key(p)
        && files[p] == effects::FileView::Link(node.path) by {
        effects::lemma_linked(base, node.path, links, p);
    }
}

proof fn lemma_attached_keeps(
    c: effects::Inside,
    a: attached_device::AttachedDeviceView,
    bind: bool,
    other: attached_device::AttachedDeviceView,
)
    requires
        furnished(c.files, other),
        apart(a, other),
    ensures
        furnished(
            effects::attached(c, a.device, a.device.devnode->0, a.symlinks, bind).files,
            other,
        ),
{
    let node = a.device.devnode->0;
    let base = c.files.insert(
        path::components(node.path),
        effects::FileView::Node(node.ty, node.devnum),
    );
    let files = effects::attached(c, a.device, node, a.symlinks, bind).files;
    assert forall|p: PathKey| #[trigger] owns(other, p) implies files.contains_key(p)
        == c.files.contains_key(p) && files[p] == c.files[p] by {
        assert(!owns(a, p));
        effects::lemma_linked(base, node.path, a.symlinks, p);
        assert(c.files.contains_key(p));
    }
    assert(owns(other, path::components((other.device.devnode->0).path)));
    assert forall|p: PathKey| #[trigger] effects::among(other.symlinks, p) implies files.contains_key(
        p) && files[p] == effects::FileView::Link((other.device.devnode->0).path) by {
        assert(owns(other, p));
    }
}

proof fn lemma_detached_keeps(
    c: effects::Inside,
    a: attached_device::AttachedDeviceView,
    bound: bool,
    other: attached_device::AttachedDeviceView,
)
    requires
        furnished(c.files, other),
        apart(a, other),
    ensures
        furnished(
            effects::detached(c, a.device, a.device.devnode->0, a.symlinks, bound).files,
            other,
        ),
{
    let node = a.device.devnode->0;
    let base = c.files.remove(path::components(node.path));
    let files = effects::detached(c, a.device, node, a.symlinks, bound).files;
    assert forall|p: PathKey| #[trigger] owns(other, p) implies files.contains_key(p)
        == c.files.contains_key(p) && files[p] == c.files[p] by {
        assert(!owns(a, p));
        effects::lemma_unlinked(base, a.symlinks, p);
        assert(c.files.contains_key(p));
    }
    assert(owns(other, path::components((other.device.devnode->0).path)));
    assert forall|p: PathKey| #[trigger] effects::among(other.symlinks, p) implies files.contains_key(
        p) && files[p] == effects::FileView::Link((other.device.devnode->0).path) by {
        assert(owns(other, p));
    }
}

/// Whether a read comes up with no device that has no room.
pub open spec fn roomy(h: hotplug::HotPlugView, polled: monitor::PolledView) -> bool {
    exactness::event_of(h, polled) matches Some(monitor::DeviceEventView::Add(d))
        ==> d.devnode is Some ==> has_room(h, d)
}

/// From one device event to the next the container has the node and the symlinks of each attached
/// device, so long as no two devices have a path in common.
pub proof fn events_keep_present(
    h: hotplug::HotPlugView,
    c: effects::Inside,
    polled: monitor::PolledView,
    bind_ok: bool,
)
    requires
        h.task is None,
        h.wf(),
        present(h, c),
        roomy(h, polled),
    ensures
        present(
            exactness::settled(h, c, polled, bind_ok).0,
            exactness::settled(h, c, polled, bind_ok).1,
        ),
{
    let (m, step) = monitor::read(h.monitor, polled);
    let g = hotplug::HotPlugView { monitor: m, ..h };
    let (s, inside) = exactness::settled(h, c, polled, bind_ok);
    match step {
        monitor::ReadStepView::Event(monitor::DeviceEventView::Add(d)) => {
            if d.devnode is Some {
                let links = hotplug::links_for(h.symlinks, d.udev);
                let a = attached_device::AttachedDeviceView { device: d, symlinks: links };
                exactness::attaching_ends_in_attach(g, d, bind_ok);
                effects::attaching_grants(c, d, d.devnode->0, links, h.sysfs, bind_ok);
                lemma_attached_furnished(c, d, links, h.sysfs && bind_ok);
                assert forall|k: PathKey| #[trigger] s.devices.contains_key(k) implies furnished(
                    inside.files,
                    s.devices[k],
                ) by {
                    if k != d.key() {
                        assert(h.devices.contains_key(k));
                        lemma_attached_keeps(c, a, h.sysfs && bind_ok, h.devices[k]);
                    }
                }
            }
        },
        monitor::ReadStepView::Event(monitor::DeviceEventView::Remove(d)) => {
            if g.devices.contains_key(d.key()) {
                let a = h.devices[d.key()];
                let bound = h.bound.contains(a.device.key());
                exactness::detaching_ends_in_detach(g, d, bind_ok);
                effects::detaching_revokes(
                    c,
                    a.device,
                    a.device.devnode->0,
                    a.symlinks,
                    bound,
                    bind_ok,
                );
                assert forall|k: PathKey| #[trigger] s.devices.contains_key(k) implies furnished(
                    inside.files,
                    s.devices[k],
                ) by {
                    assert(h.devices.contains_key(k) && h.devices.contains_key(d.key()));
                    lemma_detached_keeps(c, a, bound, h.devices[k]);
                }
            }
        },
        _ => {},
    }
}

/// Whether reads are made as they should be: the socket is only looked at when no devices are left
/// from the start, and each device that is added has room.
pub open spec fn fitting(
    h: hotplug::HotPlugView,
    c: effects::Inside,
    reads: Seq<(monitor::PolledView, bool)>,
) -> bool
    decreases reads.len(),
{
    reads.len() > 0 ==> {
        let (next, inside) = exactness::settled(h, c, reads[0].0, reads[0].1);
        &&& !(reads[0].0 is NotYet) ==> h.monitor.enumerated.len() == 0
        &&& roomy(h, reads[0].0)
        &&& fitting(next, inside, reads.drop_first())
    }
}

proof fn lemma_lived_present(
    h: hotplug::HotPlugView,
    c: effects::Inside,
    reads: Seq<(monitor::PolledView, bool)>,
)
    requires
        h.task is None,
        h.wf(),
        exactness::in_line(h),
        present(h, c),
        fitting(h, c, reads),
    ensures
        exactness::in_line(exactness::lived(h, c, reads).0),
        present(exactness::lived(h, c, reads).0, exactness::lived(h, c, reads).1),
        exactness::lived(h, c, reads).0.symlinks == h.symlinks,
    decreases reads.len(),
{
    if reads.len() > 0 {
        let (polled, bind_ok) = reads[0];
        let (next, inside) = exactness::settled(h, c, polled, bind_ok);
        exactness::events_keep_in_line(h, c, polled, bind_ok);
        exactness::events_keep_rules(h, c, polled, bind_ok);
        events_keep_present(h, c, polled, bind_ok);
        lemma_lived_present(next, inside, reads.drop_first());
    }
}

/// At any time in the life of a container, it has the node and the symlinks of each attached device,
/// so long as each device has room when it is added. This holds whatever else the container has, and
/// whether or not making sysfs writable works.
pub proof fn container_is_furnished_throughout(
    roots: Seq<Seq<u8>>,
    scanned: Seq<device::UdevDeviceView>,
    symlinks: Seq<symlink::SymlinkView>,
    sysfs: bool,
    c: effects::Inside,
    reads: Seq<(monitor::PolledView, bool)>,
)
    requires
        fitting(hotplug::started(roots, scanned, symlinks, sysfs), c, reads),
    ensures
        ({
            let (h, inside) = exactness::lived(
                hotplug::started(roots, scanned, symlinks, sysfs),
                c,
                reads,
            );
            present(h, inside) && exactness::in_line(h) && h.symlinks == symlinks
        }),
{
    let h = hotplug::started(roots, scanned, symlinks, sysfs);
    exactness::start_is_in_line(roots, scanned, symlinks, sysfs);
    lemma_lived_present(h, c, reads);
}

} // verus!

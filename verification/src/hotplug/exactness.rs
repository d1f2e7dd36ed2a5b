//! What holds of a container, and of what is known of it, from one device event to the next.
use crate::cgroup;
use crate::cgroup::{Access, DeviceType};
use crate::cli::symlink;
use crate::dev::device;
use crate::dev::monitor;
use crate::event;
use crate::hotplug;
use crate::hotplug::attached_device;
use crate::hotplug::effects;
use crate::path;
use crate::path::PathKey;
use vstd::prelude::*;

verus! {

/// The filter key of an attached device.
pub open spec fn node_key(a: attached_device::AttachedDeviceView) -> cgroup::Device {
    (a.device.devnode->0).key()
}

/// The access that a container is to have: every operation on each attached device, and nothing
/// else.
pub open spec fn granted(
    devices: Map<PathKey, attached_device::AttachedDeviceView>,
    access: Map<cgroup::Device, u32>,
) -> bool {
    &&& forall|d: cgroup::Device| #[trigger]
        access.contains_key(d) ==> access[d] == cgroup::all_access().bits && exists|k: PathKey|
            devices.contains_key(k) && #[trigger] node_key(devices[k]) == d
    &&& forall|k: PathKey| #[trigger]
        devices.contains_key(k) ==> access.contains_key(node_key(devices[k]))
}

/// Whether no attached device has the node `key`.
pub open spec fn unused(
    devices: Map<PathKey, attached_device::AttachedDeviceView>,
    key: cgroup::Device,
) -> bool {
    forall|k: PathKey| #[trigger] devices.contains_key(k) ==> node_key(devices[k]) != key
}

/// Whether the container has access to exactly the attached devices, and writable sysfs directories
/// for exactly those that are known to be.
pub open spec fn exact(h: hotplug::HotPlugView, c: effects::Inside) -> bool {
    &&& h.task is None
    &&& h.wf()
    &&& forall|k: PathKey| #[trigger]
        h.devices.contains_key(k) ==> h.devices[k].device.key() == k
    &&& forall|k: PathKey, l: PathKey|
        #![trigger h.devices.contains_key(k), h.devices.contains_key(l)]
        h.devices.contains_key(k) && h.devices.contains_key(l) && k != l ==> node_key(h.devices[k])
            != node_key(h.devices[l])
    &&& granted(h.devices, c.access)
    &&& c.writable == h.bound
    &&& forall|k: PathKey| #[trigger] h.bound.contains(k) ==> h.devices.contains_key(k)
}

/// Whether `k` is a device that is yet to be taken up at the start.
pub open spec fn awaited(m: monitor::MonitorView, k: PathKey) -> bool {
    exists|i: int| 0 <= i < m.enumerated.len() && (#[trigger] m.enumerated[i]).key() == k
}

/// Whether the attached devices are those that have been seen and have a node, apart from those
/// that are yet to be taken up.
pub open spec fn in_line(h: hotplug::HotPlugView) -> bool {
    let m = h.monitor;
    &&& forall|k: PathKey| #[trigger]
        m.seen.contains_key(k) ==> {
            &&& m.seen[k].key() == k
            &&& monitor::monitored(m.roots, m.seen[k].syspath())
            &&& m.seen[k].devnode is Some ==> h.devices.contains_key(k) || awaited(m, k)
        }
    &&& forall|k: PathKey| #[trigger]
        h.devices.contains_key(k) ==> m.seen.contains_key(k) && h.devices[k].device == m.seen[k]
    &&& forall|i: int|
        0 <= i < m.enumerated.len() ==> {
            let k = (#[trigger] m.enumerated[i]).key();
            m.seen.contains_key(k) && m.seen[k] == m.enumerated[i] && !h.devices.contains_key(k)
        }
    &&& monitor::distinct(m.enumerated)
}

/// The state and the container once everything that a read leads to is done.
pub open spec fn settled(
    h: hotplug::HotPlugView,
    c: effects::Inside,
    polled: monitor::PolledView,
    bind_ok: bool,
) -> (hotplug::HotPlugView, effects::Inside) {
    let (next, step) = hotplug::ran(h, polled);
    if step is Perform {
        (
            effects::finished(next, bind_ok).0,
            effects::carried_out(c, next.task->0.actions, bind_ok),
        )
    } else {
        (next, c)
    }
}

/// At the start no device is attached, and those that are present are yet to be taken up.
pub proof fn start_is_in_line(
    roots: Seq<Seq<u8>>,
    scanned: Seq<device::UdevDeviceView>,
    symlinks: Seq<symlink::SymlinkView>,
    sysfs: bool,
)
    ensures
        in_line(hotplug::started(roots, scanned, symlinks, sysfs)),
{
    let h = hotplug::started(roots, scanned, symlinks, sysfs);
    monitor::started_has_seen_enumerated(roots, scanned);
    assert forall|k: PathKey| #[trigger] h.monitor.seen.contains_key(k) implies awaited(
        h.monitor,
        k,
    ) by {
        let i = choose|i: int|
            0 <= i < h.monitor.enumerated.len() && h.monitor.enumerated[i] == h.monitor.seen[k];
        assert(h.monitor.enumerated[i].key() == k);
    }
}

/// At the start the container has access to none of the devices, and none is attached.
pub proof fn start_is_exact(
    roots: Seq<Seq<u8>>,
    scanned: Seq<device::UdevDeviceView>,
    symlinks: Seq<symlink::SymlinkView>,
    sysfs: bool,
    c: effects::Inside,
)
    requires
        c.access == Map::<cgroup::Device, u32>::empty(),
        c.writable == Set::<PathKey>::empty(),
    ensures
        exact(hotplug::started(roots, scanned, symlinks, sysfs), c),
        in_line(hotplug::started(roots, scanned, symlinks, sysfs)),
{
    start_is_in_line(roots, scanned, symlinks, sysfs);
}

/// Attaching and finishing: what [`hotplug::HotPlug`] knows afterwards.
pub proof fn attaching_ends_in_attach(
    h: hotplug::HotPlugView,
    d: device::DeviceView,
    bind_ok: bool,
)
    requires
        h.task is None,
        d.devnode is Some,
    ensures
        ({
            let a = attached_device::AttachedDeviceView {
                device: d,
                symlinks: hotplug::links_for(h.symlinks, d.udev),
            };
            effects::finished(
                hotplug::processed(h, monitor::DeviceEventView::Add(d)).0,
                bind_ok,
            ) == (
                hotplug::HotPlugView {
                    devices: h.devices.insert(d.key(), a),
                    bound: if h.sysfs && bind_ok {
                        h.bound.insert(d.key())
                    } else {
                        h.bound
                    },
                    ..h
                },
                hotplug::StepView::Emit(event::EventView::Attach(a)),
            )
        }),
{
    let next = hotplug::processed(h, monitor::DeviceEventView::Add(d)).0;
    effects::lemma_finished(next, bind_ok);
    let t = next.task->0;
    assert(t.actions.skip(0) =~= t.actions);
    effects::lemma_bound_attached(h.bound, d, d.devnode->0, t.device.symlinks, h.sysfs, bind_ok);
}

/// Detaching and finishing: what [`hotplug::HotPlug`] knows afterwards.
pub proof fn detaching_ends_in_detach(
    h: hotplug::HotPlugView,
    d: device::DeviceView,
    bind_ok: bool,
)
    requires
        h.task is None,
        h.devices.contains_key(d.key()),
        h.devices[d.key()].device.devnode is Some,
    ensures
        ({
            let a = h.devices[d.key()];
            effects::finished(
                hotplug::processed(h, monitor::DeviceEventView::Remove(d)).0,
                bind_ok,
            ) == (
                hotplug::HotPlugView {
                    devices: h.devices.remove(d.key()),
                    bound: h.bound.remove(a.device.key()),
                    ..h
                },
                hotplug::StepView::Emit(event::EventView::Detach(a)),
            )
        }),
{
    let next = hotplug::processed(h, monitor::DeviceEventView::Remove(d)).0;
    let a = h.devices[d.key()];
    effects::lemma_finished(next, bind_ok);
    let t = next.task->0;
    assert(t.actions.skip(0) =~= t.actions);
    effects::lemma_bound_detached(
        next.bound,
        a.device,
        a.device.devnode->0,
        a.symlinks,
        h.bound.contains(a.device.key()),
        bind_ok,
    );
}

/// What detaching a device does about each action of attaching it: every file that is created is
/// removed, all access is granted and then none, and sysfs is made read-only exactly if it was made
/// writable.
pub open spec fn undone(
    attach: Seq<hotplug::ActionView>,
    detach: Seq<hotplug::ActionView>,
    bind_ok: bool,
) -> bool {
    &&& forall|p: Seq<u8>, ty: DeviceType, devnum: (u32, u32)| #[trigger]
        attach.contains(hotplug::ActionView::Mknod(p, ty, devnum)) ==> detach.contains(
            hotplug::ActionView::Rm(p),
        )
    &&& forall|target: Seq<u8>, p: Seq<u8>| #[trigger]
        attach.contains(hotplug::ActionView::Symlink(target, p)) ==> detach.contains(
            hotplug::ActionView::Rm(p),
        )
    &&& forall|ty: DeviceType, devnum: (u32, u32), access: Access| #[trigger]
        attach.contains(hotplug::ActionView::Device(ty, devnum, access)) ==> access
            == cgroup::all_access() && detach.contains(
            hotplug::ActionView::Device(ty, devnum, Access { bits: 0 }),
        )
    &&& forall|p: Seq<u8>| #[trigger]
        detach.contains(hotplug::ActionView::UnbindSysfs(p)) <==> bind_ok && attach.contains(
            hotplug::ActionView::BindSysfs(p),
        )
}

proof fn lemma_undone(
    d: device::DeviceView,
    node: device::DevNodeView,
    links: Seq<Seq<u8>>,
    sysfs: bool,
    bind_ok: bool,
)
    ensures
        undone(
            hotplug::attach_actions(d, node, links, sysfs),
            hotplug::detach_actions(d, node, links, sysfs && bind_ok),
            bind_ok,
        ),
{
    let attach = hotplug::attach_actions(d, node, links, sysfs);
    let detach = hotplug::detach_actions(d, node, links, sysfs && bind_ok);
    let first: int = if sysfs && bind_ok {
        1
    } else {
        0
    };
    assert(detach[first] == hotplug::ActionView::Device(node.ty, node.devnum, Access { bits: 0 }));
    assert(detach[first + 1] == hotplug::ActionView::Rm(node.path));
    assert forall|target: Seq<u8>, p: Seq<u8>| #[trigger]
        attach.contains(hotplug::ActionView::Symlink(target, p)) implies detach.contains(
        hotplug::ActionView::Rm(p),
    ) by {
        let i = choose|i: int|
            0 <= i < attach.len() && attach[i] == hotplug::ActionView::Symlink(target, p);
        assert(links[i - 2] == p);
        assert(detach[first + i] == hotplug::ActionView::Rm(p));
    }
    if sysfs {
        assert(attach[2 + links.len() as int] == hotplug::ActionView::BindSysfs(d.syspath()));
        if bind_ok {
            assert(detach[0] == hotplug::ActionView::UnbindSysfs(d.syspath()));
        }
    }
}

/// Removing a device undoes adding it: what [`hotplug::HotPlug`] knows is as it was before, and what
/// was done to the container is undone. The removal may bring another description of the device, so
/// long as it is for the same directory.
pub proof fn removing_undoes_adding(
    h: hotplug::HotPlugView,
    d: device::DeviceView,
    e: device::DeviceView,
    bind_ok: bool,
)
    requires
        h.task is None,
        d.devnode is Some,
        e.key() == d.key(),
        !h.devices.contains_key(d.key()),
        !h.bound.contains(d.key()),
    ensures
        ({
            let a = attached_device::AttachedDeviceView {
                device: d,
                symlinks: hotplug::links_for(h.symlinks, d.udev),
            };
            let adding = hotplug::processed(h, monitor::DeviceEventView::Add(d)).0;
            let (between, added) = effects::finished(adding, bind_ok);
            let removing = hotplug::processed(between, monitor::DeviceEventView::Remove(e)).0;
            let (end, removed) = effects::finished(removing, bind_ok);
            &&& added == hotplug::StepView::Emit(event::EventView::Attach(a))
            &&& removed == hotplug::StepView::Emit(event::EventView::Detach(a))
            &&& end == h
            &&& undone(adding.task->0.actions, removing.task->0.actions, bind_ok)
        }),
{
    let adding = hotplug::processed(h, monitor::DeviceEventView::Add(d)).0;
    let between = effects::finished(adding, bind_ok).0;
    attaching_ends_in_attach(h, d, bind_ok);
    let removing = hotplug::processed(between, monitor::DeviceEventView::Remove(e)).0;
    detaching_ends_in_detach(between, e, bind_ok);
    let end = effects::finished(removing, bind_ok).0;
    assert(end.devices =~= h.devices);
    assert(end.bound =~= h.bound);
    lemma_undone(
        d,
        d.devnode->0,
        hotplug::links_for(h.symlinks, d.udev),
        h.sysfs,
        bind_ok,
    );
}

/// Adding a device and removing it leaves the container as it was, where nothing was in the way.
pub proof fn container_is_as_before(
    h: hotplug::HotPlugView,
    c: effects::Inside,
    d: device::DeviceView,
    e: device::DeviceView,
    bind_ok: bool,
)
    requires
        h.task is None,
        d.devnode is Some,
        e.key() == d.key(),
        !h.bound.contains(d.key()),
        !c.access.contains_key((d.devnode->0).key()),
        !c.files.contains_key(path::components((d.devnode->0).path)),
        forall|p: PathKey| #[trigger]
            effects::among(hotplug::links_for(h.symlinks, d.udev), p) ==> !c.files.contains_key(p),
        !c.writable.contains(d.key()),
    ensures
        ({
            let adding = hotplug::processed(h, monitor::DeviceEventView::Add(d)).0;
            let between = effects::finished(adding, bind_ok).0;
            let removing = hotplug::processed(between, monitor::DeviceEventView::Remove(e)).0;
            effects::carried_out(
                effects::carried_out(c, adding.task->0.actions, bind_ok),
                removing.task->0.actions,
                bind_ok,
            ) == c
        }),
{
    let links = hotplug::links_for(h.symlinks, d.udev);
    attaching_ends_in_attach(h, d, bind_ok);
    assert forall|i: int| 0 <= i < links.len() implies !c.files.contains_key(
        path::components(#[trigger] links[i]),
    ) by {
        assert(effects::among(links, path::components(links[i])));
    }
    effects::detaching_undoes_attaching(c, d, d.devnode->0, links, h.sysfs, bind_ok);
}

proof fn lemma_add_keeps_exact(
    h: hotplug::HotPlugView,
    c: effects::Inside,
    d: device::DeviceView,
    bind_ok: bool,
)
    requires
        exact(h, c),
        d.devnode is Some,
        !h.devices.contains_key(d.key()),
        unused(h.devices, (d.devnode->0).key()),
    ensures
        ({
            let next = hotplug::processed(h, monitor::DeviceEventView::Add(d)).0;
            exact(
                effects::finished(next, bind_ok).0,
                effects::carried_out(c, next.task->0.actions, bind_ok),
            )
        }),
{
    let next = hotplug::processed(h, monitor::DeviceEventView::Add(d)).0;
    let node = d.devnode->0;
    let links = hotplug::links_for(h.symlinks, d.udev);
    attaching_ends_in_attach(h, d, bind_ok);
    effects::attaching_grants(c, d, node, links, h.sysfs, bind_ok);
    let after = effects::finished(next, bind_ok).0;
    let inside = effects::carried_out(c, next.task->0.actions, bind_ok);
    assert(after.devices[d.key()].device == d);
    assert forall|x: cgroup::Device| #[trigger] inside.access.contains_key(x) implies inside.access[x]
        == cgroup::all_access().bits && exists|k: PathKey|
        after.devices.contains_key(k) && #[trigger] node_key(after.devices[k]) == x by {
        if x == node.key() {
            assert(node_key(after.devices[d.key()]) == x);
        } else {
            assert(c.access.contains_key(x));
            let k = choose|k: PathKey|
                h.devices.contains_key(k) && #[trigger] node_key(h.devices[k]) == x;
            assert(after.devices[k] == h.devices[k]);
            assert(after.devices.contains_key(k) && node_key(after.devices[k]) == x);
        }
    }
}

proof fn lemma_remove_keeps_exact(
    h: hotplug::HotPlugView,
    c: effects::Inside,
    d: device::DeviceView,
    bind_ok: bool,
)
    requires
        exact(h, c),
        h.devices.contains_key(d.key()),
    ensures
        ({
            let next = hotplug::processed(h, monitor::DeviceEventView::Remove(d)).0;
            exact(
                effects::finished(next, bind_ok).0,
                effects::carried_out(c, next.task->0.actions, bind_ok),
            )
        }),
{
    let next = hotplug::processed(h, monitor::DeviceEventView::Remove(d)).0;
    let a = h.devices[d.key()];
    let node = a.device.devnode->0;
    detaching_ends_in_detach(h, d, bind_ok);
    effects::detaching_revokes(
        c,
        a.device,
        node,
        a.symlinks,
        h.bound.contains(a.device.key()),
        bind_ok,
    );
    let after = effects::finished(next, bind_ok).0;
    let inside = effects::carried_out(c, next.task->0.actions, bind_ok);
    assert forall|x: cgroup::Device| #[trigger] inside.access.contains_key(x) implies inside.access[x]
        == cgroup::all_access().bits && exists|k: PathKey|
        after.devices.contains_key(k) && #[trigger] node_key(after.devices[k]) == x by {
        assert(c.access.contains_key(x));
        let k = choose|k: PathKey|
            h.devices.contains_key(k) && #[trigger] node_key(h.devices[k]) == x;
        assert(k != d.key());
        assert(after.devices[k] == h.devices[k]);
        assert(after.devices.contains_key(k) && node_key(after.devices[k]) == x);
    }
    assert forall|k: PathKey| #[trigger] after.devices.contains_key(k) implies inside.access.contains_key(
        node_key(after.devices[k])) by {
        assert(h.devices.contains_key(k));
        assert(node_key(h.devices[k]) != node_key(h.devices[d.key()]));
    }
    assert(inside.writable =~= after.bound);
}

/// The device event that a read comes up with, if any.
pub open spec fn event_of(h: hotplug::HotPlugView, polled: monitor::PolledView) -> Option<
    monitor::DeviceEventView,
> {
    match monitor::read(h.monitor, polled).1 {
        monitor::ReadStepView::Event(e) => Some(e),
        _ => None,
    }
}

proof fn lemma_add_in_line(
    h: hotplug::HotPlugView,
    m: monitor::MonitorView,
    polled: monitor::PolledView,
    d: device::DeviceView,
)
    requires
        in_line(h),
        !(polled is NotYet) ==> h.monitor.enumerated.len() == 0,
        monitor::read(h.monitor, polled) == (
            m,
            monitor::ReadStepView::Event(monitor::DeviceEventView::Add(d)),
        ),
    ensures
        !h.devices.contains_key(d.key()),
        m.seen.contains_key(d.key()),
        m.seen[d.key()] == d,
        !awaited(m, d.key()),
        monitor::distinct(m.enumerated),
        m.roots == h.monitor.roots,
        forall|k: PathKey| #[trigger]
            m.seen.contains_key(k) ==> {
                &&& m.seen[k].key() == k
                &&& monitor::monitored(m.roots, m.seen[k].syspath())
                &&& k == d.key() || {
                    &&& h.monitor.seen.contains_key(k)
                    &&& h.monitor.seen[k] == m.seen[k]
                    &&& awaited(h.monitor, k) ==> awaited(m, k)
                }
            },
        forall|k: PathKey| #[trigger]
            h.monitor.seen.contains_key(k) ==> m.seen.contains_key(k) && m.seen[k]
                == h.monitor.seen[k],
        forall|i: int|
            0 <= i < m.enumerated.len() ==> exists|j: int|
                0 <= j < h.monitor.enumerated.len() && h.monitor.enumerated[j]
                    == #[trigger] m.enumerated[i],
{
    let was = h.monitor.enumerated;
    match polled {
        monitor::PolledView::NotYet => {
            assert(m.enumerated == was.drop_first());
            assert(d == was[0]);
            assert forall|i: int| 0 <= i < m.enumerated.len() implies m.enumerated[i] == #[trigger] was[i
                + 1] by {}
            assert forall|i: int, j: int| 0 <= i < j < m.enumerated.len() implies (
            #[trigger] m.enumerated[i]).key() != (#[trigger] m.enumerated[j]).key() by {
                assert(was[i + 1].key() != was[j + 1].key());
            }
            if awaited(m, d.key()) {
                let i = choose|i: int|
                    0 <= i < m.enumerated.len() && (#[trigger] m.enumerated[i]).key() == d.key();
                assert(was[0].key() != was[i + 1].key());
            }
            assert forall|k: PathKey| k != d.key() && #[trigger] awaited(h.monitor, k) implies awaited(
                m,
                k,
            ) by {
                let i = choose|i: int| 0 <= i < was.len() && (#[trigger] was[i]).key() == k;
                assert(m.enumerated[i - 1] == was[i]);
            }
            assert forall|i: int| 0 <= i < m.enumerated.len() implies exists|j: int|
                0 <= j < was.len() && was[j] == #[trigger] m.enumerated[i] by {
                assert(was[i + 1] == m.enumerated[i]);
            }
        },
        monitor::PolledView::Event(e) => {
            assert(m.enumerated.len() == 0);
            assert(!awaited(m, d.key()));
        },
        monitor::PolledView::Drained => {},
    }
}

/// From one device event to the next the attached devices are those that have been seen and have a
/// node, apart from those that are yet to be taken up. This holds whether or not making sysfs
/// writable works.
pub proof fn events_keep_in_line(
    h: hotplug::HotPlugView,
    c: effects::Inside,
    polled: monitor::PolledView,
    bind_ok: bool,
)
    requires
        h.task is None,
        h.wf(),
        in_line(h),
        !(polled is NotYet) ==> h.monitor.enumerated.len() == 0,
    ensures
        settled(h, c, polled, bind_ok).0.task is None,
        settled(h, c, polled, bind_ok).0.wf(),
        in_line(settled(h, c, polled, bind_ok).0),
{
    let (m, step) = monitor::read(h.monitor, polled);
    let g = hotplug::HotPlugView { monitor: m, ..h };
    let s = settled(h, c, polled, bind_ok).0;
    match step {
        monitor::ReadStepView::Event(monitor::DeviceEventView::Add(d)) => {
            lemma_add_in_line(h, m, polled, d);
            if d.devnode is Some {
                attaching_ends_in_attach(g, d, bind_ok);
            }
            assert forall|i: int| 0 <= i < m.enumerated.len() implies {
                let k = (#[trigger] m.enumerated[i]).key();
                m.seen.contains_key(k) && m.seen[k] == m.enumerated[i] && !s.devices.contains_key(k)
            } by {
                let j = choose|j: int|
                    0 <= j < h.monitor.enumerated.len() && h.monitor.enumerated[j]
                        == m.enumerated[i];
                assert(h.monitor.seen.contains_key(h.monitor.enumerated[j].key()));
                if m.enumerated[i].key() == d.key() {
                    assert(awaited(m, d.key()));
                }
            }
        },
        monitor::ReadStepView::Event(monitor::DeviceEventView::Remove(d)) => {
            assert(h.monitor.seen.contains_key(d.key()));
            if g.devices.contains_key(d.key()) {
                detaching_ends_in_detach(g, d, bind_ok);
            }
            assert forall|k: PathKey| #[trigger] m.seen.contains_key(k)
                && m.seen[k].devnode is Some implies s.devices.contains_key(k) by {
                assert(h.monitor.seen.contains_key(k));
                assert(!awaited(h.monitor, k));
            }
        },
        _ => {},
    }
}

/// The symlink rules, the roots and whether sysfs is to be writable never change.
pub proof fn events_keep_rules(
    h: hotplug::HotPlugView,
    c: effects::Inside,
    polled: monitor::PolledView,
    bind_ok: bool,
)
    requires
        h.task is None,
        h.wf(),
    ensures
        settled(h, c, polled, bind_ok).0.symlinks == h.symlinks,
        settled(h, c, polled, bind_ok).0.sysfs == h.sysfs,
        settled(h, c, polled, bind_ok).0.monitor.roots == h.monitor.roots,
{
    let (m, step) = monitor::read(h.monitor, polled);
    let g = hotplug::HotPlugView { monitor: m, ..h };
    match step {
        monitor::ReadStepView::Event(monitor::DeviceEventView::Add(d)) => {
            if d.devnode is Some {
                attaching_ends_in_attach(g, d, bind_ok);
            }
        },
        monitor::ReadStepView::Event(monitor::DeviceEventView::Remove(d)) => {
            if g.devices.contains_key(d.key()) {
                detaching_ends_in_detach(g, d, bind_ok);
            }
        },
        _ => {},
    }
}

/// Whether a read comes up with no device whose number an attached device has already.
pub open spec fn unambiguous(h: hotplug::HotPlugView, polled: monitor::PolledView) -> bool {
    event_of(h, polled) matches Some(monitor::DeviceEventView::Add(d)) ==> d.devnode is Some
        ==> unused(h.devices, (d.devnode->0).key())
}

/// From one device event to the next the container has access to exactly the attached devices, so
/// long as no two devices with the same device number are there at the same time. This holds whether
/// or not making sysfs writable works.
pub proof fn events_keep_exact(
    h: hotplug::HotPlugView,
    c: effects::Inside,
    polled: monitor::PolledView,
    bind_ok: bool,
)
    requires
        exact(h, c),
        in_line(h),
        !(polled is NotYet) ==> h.monitor.enumerated.len() == 0,
        unambiguous(h, polled),
    ensures
        exact(settled(h, c, polled, bind_ok).0, settled(h, c, polled, bind_ok).1),
{
    let (m, step) = monitor::read(h.monitor, polled);
    let g = hotplug::HotPlugView { monitor: m, ..h };
    assert(exact(g, c));
    match step {
        monitor::ReadStepView::Event(monitor::DeviceEventView::Add(d)) => {
            lemma_add_in_line(h, m, polled, d);
            if d.devnode is Some {
                lemma_add_keeps_exact(g, c, d, bind_ok);
            }
        },
        monitor::ReadStepView::Event(monitor::DeviceEventView::Remove(d)) => {
            if g.devices.contains_key(d.key()) {
                lemma_remove_keeps_exact(g, c, d, bind_ok);
            }
        },
        _ => {},
    }
}

/// The state and the container after some reads, each with whether making sysfs writable works.
pub open spec fn lived(
    h: hotplug::HotPlugView,
    c: effects::Inside,
    reads: Seq<(monitor::PolledView, bool)>,
) -> (hotplug::HotPlugView, effects::Inside)
    decreases reads.len(),
{
    if reads.len() == 0 {
        (h, c)
    } else {
        let (next, inside) = settled(h, c, reads[0].0, reads[0].1);
        lived(next, inside, reads.drop_first())
    }
}

/// Whether reads are made as they should be: the socket is only looked at when no devices are left
/// from the start, and no two devices with the same number are there at the same time.
pub open spec fn proper(
    h: hotplug::HotPlugView,
    c: effects::Inside,
    reads: Seq<(monitor::PolledView, bool)>,
) -> bool
    decreases reads.len(),
{
    reads.len() > 0 ==> {
        let (next, inside) = settled(h, c, reads[0].0, reads[0].1);
        &&& !(reads[0].0 is NotYet) ==> h.monitor.enumerated.len() == 0
        &&& unambiguous(h, reads[0].0)
        &&& proper(next, inside, reads.drop_first())
    }
}

proof fn lemma_lived(
    h: hotplug::HotPlugView,
    c: effects::Inside,
    reads: Seq<(monitor::PolledView, bool)>,
)
    requires
        exact(h, c),
        in_line(h),
        proper(h, c, reads),
    ensures
        exact(lived(h, c, reads).0, lived(h, c, reads).1),
        in_line(lived(h, c, reads).0),
    decreases reads.len(),
{
    if reads.len() > 0 {
        let (next, inside) = settled(h, c, reads[0].0, reads[0].1);
        events_keep_exact(h, c, reads[0].0, reads[0].1);
        events_keep_in_line(h, c, reads[0].0, reads[0].1);
        lemma_lived(next, inside, reads.drop_first());
    }
}

/// At any time in the life of a container, it has access to exactly the attached devices, and the
/// attached devices are those that have been seen below a root and have a node, apart from those
/// that are yet to be taken up.
pub proof fn container_is_exact_throughout(
    roots: Seq<Seq<u8>>,
    scanned: Seq<device::UdevDeviceView>,
    symlinks: Seq<symlink::SymlinkView>,
    sysfs: bool,
    c: effects::Inside,
    reads: Seq<(monitor::PolledView, bool)>,
)
    requires
        c.access == Map::<cgroup::Device, u32>::empty(),
        c.writable == Set::<PathKey>::empty(),
        proper(hotplug::started(roots, scanned, symlinks, sysfs), c, reads),
    ensures
        ({
            let (h, inside) = lived(hotplug::started(roots, scanned, symlinks, sysfs), c, reads);
            exact(h, inside) && in_line(h)
        }),
{
    let h = hotplug::started(roots, scanned, symlinks, sysfs);
    start_is_exact(roots, scanned, symlinks, sysfs, c);
    lemma_lived(h, c, reads);
}

/// Once no device is left from the start, the container has access to a device exactly if it has
/// been seen, and every device that it has access to is, or is below, one of the roots.
pub proof fn access_is_to_what_was_seen(
    h: hotplug::HotPlugView,
    c: effects::Inside,
    key: cgroup::Device,
)
    requires
        exact(h, c),
        in_line(h),
        h.monitor.enumerated.len() == 0,
    ensures
        c.access.contains_key(key) <==> exists|k: PathKey|
            h.monitor.seen.contains_key(k) && (#[trigger] h.monitor.seen[k]).devnode is Some && (
            h.monitor.seen[k].devnode->0).key() == key && monitor::monitored(
                h.monitor.roots,
                h.monitor.seen[k].syspath(),
            ),
{
    let m = h.monitor;
    if c.access.contains_key(key) {
        let k = choose|k: PathKey|
            h.devices.contains_key(k) && #[trigger] node_key(h.devices[k]) == key;
        assert(m.seen.contains_key(k) && h.devices[k].device == m.seen[k]);
    }
    if exists|k: PathKey|
        m.seen.contains_key(k) && (#[trigger] m.seen[k]).devnode is Some && (
        m.seen[k].devnode->0).key() == key && monitor::monitored(m.roots, m.seen[k].syspath()) {
        let k = choose|k: PathKey|
            m.seen.contains_key(k) && (#[trigger] m.seen[k]).devnode is Some && (
            m.seen[k].devnode->0).key() == key && monitor::monitored(m.roots, m.seen[k].syspath());
        assert(!awaited(m, k));
        assert(h.devices.contains_key(k));
    }
}

/// When the container is reported to be initialized, every device that has been seen and has a node
/// is attached. In particular all the devices that were present at the start have been taken up.
pub proof fn initialized_means_attached(h: hotplug::HotPlugView, polled: monitor::PolledView)
    requires
        in_line(h),
        !(polled is NotYet) ==> h.monitor.enumerated.len() == 0,
        hotplug::ran(h, polled).1 == hotplug::StepView::Emit(event::EventView::Initialized),
    ensures
        h.monitor.enumerated.len() == 0,
        forall|k: PathKey| #[trigger]
            h.monitor.seen.contains_key(k) && h.monitor.seen[k].devnode is Some
                ==> h.devices.contains_key(k),
{
    assert(h.monitor.enumerated.len() == 0) by {
        if polled is NotYet && h.monitor.enumerated.len() > 0 {
            let d = h.monitor.enumerated[0];
            assert(monitor::read(h.monitor, polled).1 == monitor::ReadStepView::Event(
                monitor::DeviceEventView::Add(d),
            ));
        }
    }
    assert forall|k: PathKey| #[trigger]
        h.monitor.seen.contains_key(k) && h.monitor.seen[k].devnode is Some implies h.devices.contains_key(
        k) by {
        assert(!awaited(h.monitor, k));
    }
}

/// What [`hotplug::HotPlug`] is told: what is known of the socket, or how an action went.
pub enum Input {
    Run(monitor::PolledView),
    Resume(bool),
}

/// What an input leads to.
pub open spec fn advanced(h: hotplug::HotPlugView, input: Input) -> (
    hotplug::HotPlugView,
    hotplug::StepView,
) {
    match input {
        Input::Run(polled) => hotplug::ran(h, polled),
        Input::Resume(ok) => hotplug::resumed(h, h.task->0, ok),
    }
}

/// The events that come of a list of inputs.
pub open spec fn emitted(h: hotplug::HotPlugView, inputs: Seq<Input>) -> Seq<event::EventView>
    decreases inputs.len(),
{
    if inputs.len() == 0 {
        seq![]
    } else {
        let (next, step) = advanced(h, inputs[0]);
        let rest = emitted(next, inputs.drop_first());
        match step {
            hotplug::StepView::Emit(e) => seq![e] + rest,
            _ => rest,
        }
    }
}

/// That the container is initialized is reported at most once, whatever happens.
pub proof fn initialized_at_most_once(h: hotplug::HotPlugView, inputs: Seq<Input>)
    ensures
        h.initialized ==> forall|i: int|
            0 <= i < emitted(h, inputs).len() ==> !(#[trigger] emitted(h, inputs)[i] is Initialized),
        forall|i: int, j: int|
            0 <= i < j < emitted(h, inputs).len() ==> !(#[trigger] emitted(h, inputs)[i] is Initialized
                && #[trigger] emitted(h, inputs)[j] is Initialized),
    decreases inputs.len(),
{
    if inputs.len() > 0 {
        let (next, step) = advanced(h, inputs[0]);
        let rest = emitted(next, inputs.drop_first());
        let all = emitted(h, inputs);
        initialized_at_most_once(next, inputs.drop_first());
        if let hotplug::StepView::Emit(e) = step {
            assert(all == seq![e] + rest);
            assert forall|i: int| 1 <= i < all.len() implies #[trigger] all[i] == rest[i - 1] by {}
            assert(all[0] == e);
            if e is Initialized {
                assert(next.initialized);
                assert forall|j: int| 1 <= j < all.len() implies !(#[trigger] all[j] is Initialized) by {
                    assert(!(rest[j - 1] is Initialized));
                }
            }
            assert forall|i: int, j: int| 0 <= i < j < all.len() implies !(#[trigger] all[i] is Initialized
                && #[trigger] all[j] is Initialized) by {
                if i > 0 {
                    assert(!(rest[i - 1] is Initialized && rest[j - 1] is Initialized));
                }
            }
            if h.initialized {
                assert forall|i: int| 0 <= i < all.len() implies !(#[trigger] all[i] is Initialized) by {
                    if i > 0 {
                        assert(!(rest[i - 1] is Initialized));
                    }
                }
            }
        }
    }
}

} // verus!

//! Supervising a container until it stops.
use crate::cgroup;
use crate::cli::symlink;
use crate::dev::device;
use crate::dev::monitor;
use crate::event;
use crate::event::Event;
use crate::hotplug;
use crate::hotplug::attached_device::AttachedDeviceView;
use crate::hotplug::effects;
use crate::hotplug::exactness;
use crate::hotplug::presence;
use crate::path;
use crate::path::{PathBuf, PathKey};
use vstd::prelude::*;

verus! {

/// Why supervision ends in an error.
#[derive(Debug, Clone, Copy, PartialEq, Eq, Structural)]
pub enum SuperviseError {
    NoMoreEvents,
    InitializedTwice,
}

impl SuperviseError {
    pub open spec fn spec_message(self) -> Seq<char> {
        match self {
            SuperviseError::NoMoreEvents => "No more events"@,
            SuperviseError::InitializedTwice => "Initialized event seen twice"@,
        }
    }

    /// What is said of the error.
    pub fn message(&self) -> (r: &'static str)
        ensures
            r@ == self.spec_message(),
    {
        match self {
            SuperviseError::NoMoreEvents => "No more events",
            SuperviseError::InitializedTwice => "Initialized event seen twice",
        }
    }
}

/// What to do about an event.
#[derive(Debug, Clone, Copy, PartialEq, Eq, Structural)]
pub enum SuperviseStep {
    /// Tell the caller that the container is ready to be started.
    Notify,
    /// Nothing; take the next event.
    Continue,
    /// Kill the container, wait until it has stopped, and end.
    Kill,
    /// End.
    Stop,
    Fail(SuperviseError),
}

/// Supervises a container for its whole lifetime.
///
/// The caller is told once that all the devices present at the start are there, which is what lets
/// it start the container; ending without telling it signals failure. This is what guarantees that
/// devices are present before the entrypoint runs: see [`notified_means_attached`].
#[derive(Debug)]
pub struct Supervisor {
    /// The sysfs directories of the root devices.
    pub devices: Vec<PathBuf>,
    /// Whether the caller has been told.
    pub notified: bool,
}

pub struct SupervisorView {
    pub devices: Seq<Seq<u8>>,
    pub notified: bool,
}

impl View for Supervisor {
    type V = SupervisorView;

    open spec fn view(&self) -> SupervisorView {
        SupervisorView { devices: self.devices.deep_view(), notified: self.notified }
    }
}

/// What to do when a device is gone: the container is killed if it is a root device.
pub open spec fn unplugged(s: SupervisorView, k: PathKey) -> SuperviseStep {
    if monitor::is_root(s.devices, k) {
        SuperviseStep::Kill
    } else {
        SuperviseStep::Continue
    }
}

/// What an event leads to, where there is one.
pub open spec fn handled(s: SupervisorView, e: Option<event::EventView>) -> (
    SupervisorView,
    SuperviseStep,
) {
    match e {
        None => (s, SuperviseStep::Fail(SuperviseError::NoMoreEvents)),
        Some(event::EventView::Initialized) => if s.notified {
            (s, SuperviseStep::Fail(SuperviseError::InitializedTwice))
        } else {
            (SupervisorView { notified: true, ..s }, SuperviseStep::Notify)
        },
        Some(event::EventView::Detach(a)) => (s, unplugged(s, a.device.key())),
        Some(event::EventView::Unplugged(d)) => (s, unplugged(s, d.key())),
        Some(event::EventView::Attach(_)) => (s, SuperviseStep::Continue),
        Some(event::EventView::Stopped) => (s, SuperviseStep::Stop),
    }
}

/// A supervisor as it starts.
pub open spec fn supervising(devices: Seq<Seq<u8>>) -> SupervisorView {
    SupervisorView { devices, notified: false }
}

pub open spec fn event_view(e: Option<&Event>) -> Option<event::EventView> {
    match e {
        Some(e) => Some(e@),
        None => None,
    }
}

impl Supervisor {
    /// A supervisor for the given root devices.
    pub fn new(devices: Vec<PathBuf>) -> (r: Supervisor)
        ensures
            r@ == (SupervisorView { devices: devices.deep_view(), notified: false }),
            r@ == supervising(devices.deep_view()),
    {
        Supervisor { devices, notified: false }
    }

    /// What to do when the device with the given directory is gone.
    fn unplugged(&self, p: &PathBuf) -> (r: SuperviseStep)
        ensures
            r == unplugged(self@, path::components(p@)),
    {
        if monitor::has_root(&self.devices, p) {
            SuperviseStep::Kill
        } else {
            SuperviseStep::Continue
        }
    }

    /// What to do about the next event, if there is one.
    pub fn handle(&mut self, event: Option<&Event>) -> (r: SuperviseStep)
        ensures
            (final(self)@, r) == handled(old(self)@, event_view(event)),
    {
        match event {
            None => SuperviseStep::Fail(SuperviseError::NoMoreEvents),
            Some(event) => match event {
                Event::Initialized => if self.notified {
                    SuperviseStep::Fail(SuperviseError::InitializedTwice)
                } else {
                    self.notified = true;
                    SuperviseStep::Notify
                },
                Event::Detach(a) => self.unplugged(a.device.syspath()),
                Event::Unplugged(d) => self.unplugged(d.syspath()),
                Event::Attach(_) => SuperviseStep::Continue,
                Event::Stopped => SuperviseStep::Stop,
            },
        }
    }
}

/// What a list of events leads to, one step for each.
pub open spec fn steps_of(s: SupervisorView, events: Seq<event::EventView>) -> Seq<SuperviseStep>
    decreases events.len(),
{
    if events.len() == 0 {
        seq![]
    } else {
        let (next, step) = handled(s, Some(events[0]));
        seq![step] + steps_of(next, events.drop_first())
    }
}

proof fn lemma_steps(s: SupervisorView, events: Seq<event::EventView>, i: int)
    requires
        0 <= i < events.len(),
    ensures
        steps_of(s, events).len() == events.len(),
        steps_of(s, events)[i] is Notify ==> events[i] is Initialized && !s.notified,
        steps_of(s, events)[i] is Fail ==> events[i] is Initialized && (s.notified || exists|j: int|
            0 <= j < i && #[trigger] events[j] is Initialized),
        steps_of(s, events)[i] is Notify ==> forall|j: int|
            0 <= j < i ==> !(#[trigger] events[j] is Initialized),
    decreases events.len(),
{
    let (next, step) = handled(s, Some(events[0]));
    let rest = events.drop_first();
    assert(steps_of(s, events)[0] == step);
    if rest.len() == 0 {
        assert(steps_of(next, rest).len() == 0);
    }
    if i > 0 {
        lemma_steps(next, rest, i - 1);
        assert(steps_of(s, events)[i] == steps_of(next, rest)[i - 1]);
        assert(rest[i - 1] == events[i]);
        if steps_of(s, events)[i] is Fail && !s.notified {
            if next.notified {
                assert(events[0] is Initialized);
            } else {
                let j = choose|j: int| 0 <= j < i - 1 && #[trigger] rest[j] is Initialized;
                assert(events[j + 1] == rest[j]);
            }
        }
        if steps_of(s, events)[i] is Notify {
            assert forall|j: int| 0 <= j < i implies !(#[trigger] events[j] is Initialized) by {
                if j > 0 {
                    assert(rest[j - 1] == events[j]);
                }
            }
        }
    } else {
        if rest.len() > 0 {
            lemma_steps(next, rest, 0);
        }
    }
}

/// The caller is told at most once that the container is ready, whatever happens.
pub proof fn notified_at_most_once(
    s: SupervisorView,
    events: Seq<event::EventView>,
    i: int,
    j: int,
)
    requires
        0 <= i < j < events.len(),
    ensures
        steps_of(s, events).len() == events.len(),
        !(steps_of(s, events)[i] is Notify && steps_of(s, events)[j] is Notify),
{
    lemma_steps(s, events, i);
    lemma_steps(s, events, j);
}

/// Supervising what [`hotplug::HotPlug`] reports never fails: the container is not reported to be
/// initialized twice.
pub proof fn hotplug_events_never_fail(
    h: hotplug::HotPlugView,
    inputs: Seq<exactness::Input>,
    s: SupervisorView,
    i: int,
)
    requires
        !s.notified,
        0 <= i < exactness::emitted(h, inputs).len(),
    ensures
        steps_of(s, exactness::emitted(h, inputs)).len() == exactness::emitted(h, inputs).len(),
        !(steps_of(s, exactness::emitted(h, inputs))[i] is Fail),
{
    let events = exactness::emitted(h, inputs);
    exactness::initialized_at_most_once(h, inputs);
    lemma_steps(s, events, i);
    if steps_of(s, events)[i] is Fail {
        let j = choose|j: int| 0 <= j < i && #[trigger] events[j] is Initialized;
        assert(events[i] is Initialized);
        assert(events[j] is Initialized);
    }
}

/// When the caller is told that the container is ready, every device that has been seen and has a
/// node is attached. So the devices are there before the entrypoint runs.
pub proof fn notified_means_attached(
    h: hotplug::HotPlugView,
    polled: monitor::PolledView,
    e: event::EventView,
    s: SupervisorView,
)
    requires
        exactness::in_line(h),
        !(polled is NotYet) ==> h.monitor.enumerated.len() == 0,
        hotplug::ran(h, polled).1 == hotplug::StepView::Emit(e),
        handled(s, Some(e)).1 is Notify,
    ensures
        h.monitor.enumerated.len() == 0,
        forall|k: PathKey| #[trigger]
            h.monitor.seen.contains_key(k) && h.monitor.seen[k].devnode is Some
                ==> h.devices.contains_key(k),
{
    exactness::initialized_means_attached(h, polled);
}

/// When the caller is told that the container is ready, the container has the node of every device
/// that has been seen and has one, and the symlinks that the rules ask for, so long as each device
/// had room when it was added.
pub proof fn notified_means_furnished(
    roots: Seq<Seq<u8>>,
    scanned: Seq<device::UdevDeviceView>,
    symlinks: Seq<symlink::SymlinkView>,
    sysfs: bool,
    c: effects::Inside,
    reads: Seq<(monitor::PolledView, bool)>,
    polled: monitor::PolledView,
    e: event::EventView,
    s: SupervisorView,
)
    requires
        presence::fitting(hotplug::started(roots, scanned, symlinks, sysfs), c, reads),
        ({
            let start = hotplug::started(roots, scanned, symlinks, sysfs);
            let h = exactness::lived(start, c, reads).0;
            &&& !(polled is NotYet) ==> h.monitor.enumerated.len() == 0
            &&& hotplug::ran(h, polled).1 == hotplug::StepView::Emit(e)
        }),
        handled(s, Some(e)).1 is Notify,
    ensures
        ({
            let start = hotplug::started(roots, scanned, symlinks, sysfs);
            let (h, inside) = exactness::lived(start, c, reads);
            forall|k: PathKey| #[trigger]
                h.monitor.seen.contains_key(k) && h.monitor.seen[k].devnode is Some
                    ==> presence::furnished(
                    inside.files,
                    AttachedDeviceView {
                        device: h.monitor.seen[k],
                        symlinks: hotplug::links_for(symlinks, h.monitor.seen[k].udev),
                    },
                )
        }),
{
    let start = hotplug::started(roots, scanned, symlinks, sysfs);
    let (h, inside) = exactness::lived(start, c, reads);
    presence::container_is_furnished_throughout(roots, scanned, symlinks, sysfs, c, reads);
    notified_means_attached(h, polled, e, s);
    assert forall|k: PathKey| #[trigger]
        h.monitor.seen.contains_key(k) && h.monitor.seen[k].devnode is Some implies presence::furnished(
        inside.files,
        AttachedDeviceView {
            device: h.monitor.seen[k],
            symlinks: hotplug::links_for(symlinks, h.monitor.seen[k].udev),
        },
    ) by {
        assert(h.devices.contains_key(k));
        assert(h.devices[k] == AttachedDeviceView {
            device: h.monitor.seen[k],
            symlinks: hotplug::links_for(symlinks, h.monitor.seen[k].udev),
        });
    }
}

/// When the caller is told that the container is ready, the container may do everything with every
/// device that has been seen and has a node, so long as no two devices with the same device number
/// are there at the same time.
pub proof fn notified_means_granted(
    roots: Seq<Seq<u8>>,
    scanned: Seq<device::UdevDeviceView>,
    symlinks: Seq<symlink::SymlinkView>,
    sysfs: bool,
    c: effects::Inside,
    reads: Seq<(monitor::PolledView, bool)>,
    polled: monitor::PolledView,
    e: event::EventView,
    s: SupervisorView,
)
    requires
        c.access == Map::<cgroup::Device, u32>::empty(),
        c.writable == Set::<PathKey>::empty(),
        exactness::proper(hotplug::started(roots, scanned, symlinks, sysfs), c, reads),
        ({
            let start = hotplug::started(roots, scanned, symlinks, sysfs);
            let h = exactness::lived(start, c, reads).0;
            &&& !(polled is NotYet) ==> h.monitor.enumerated.len() == 0
            &&& hotplug::ran(h, polled).1 == hotplug::StepView::Emit(e)
        }),
        handled(s, Some(e)).1 is Notify,
    ensures
        ({
            let start = hotplug::started(roots, scanned, symlinks, sysfs);
            let (h, inside) = exactness::lived(start, c, reads);
            forall|k: PathKey| #[trigger]
                h.monitor.seen.contains_key(k) && h.monitor.seen[k].devnode is Some ==> {
                    let key = (h.monitor.seen[k].devnode->0).key();
                    inside.access.contains_key(key) && inside.access[key]
                        == cgroup::all_access().bits
                }
        }),
{
    let start = hotplug::started(roots, scanned, symlinks, sysfs);
    let (h, inside) = exactness::lived(start, c, reads);
    exactness::container_is_exact_throughout(roots, scanned, symlinks, sysfs, c, reads);
    notified_means_attached(h, polled, e, s);
    assert forall|k: PathKey| #[trigger]
        h.monitor.seen.contains_key(k) && h.monitor.seen[k].devnode is Some implies {
        let key = (h.monitor.seen[k].devnode->0).key();
        inside.access.contains_key(key) && inside.access[key] == cgroup::all_access().bits
    } by {
        assert(h.devices.contains_key(k));
        assert(inside.access.contains_key(exactness::node_key(h.devices[k])));
    }
}

/// Unplugging a root device stops the container. If it is attached, it is detached first.
pub proof fn unplugging_a_root_stops(
    h: hotplug::HotPlugView,
    s: SupervisorView,
    u: monitor::UdevEventView,
    bind_ok: bool,
)
    requires
        h.task is None,
        h.wf(),
        exactness::in_line(h),
        h.monitor.enumerated.len() == 0,
        u.event_type == monitor::EventType::Remove,
        s.devices == h.monitor.roots,
        monitor::is_root(s.devices, path::components(u.device.syspath)),
        h.monitor.seen.contains_key(path::components(u.device.syspath)),
    ensures
        ({
            let k = path::components(u.device.syspath);
            let (next, step) = hotplug::ran(h, monitor::PolledView::Event(u));
            let end = if step is Perform {
                effects::finished(next, bind_ok).1
            } else {
                step
            };
            &&& step is Perform <==> h.devices.contains_key(k)
            &&& end matches hotplug::StepView::Emit(e) && (h.devices.contains_key(k)
                ==> e is Detach) && handled(s, Some(e)).1 == SuperviseStep::Kill
        }),
{
    let k = path::components(u.device.syspath);
    let (m, step) = monitor::read(h.monitor, monitor::PolledView::Event(u));
    let d = h.monitor.seen[k];
    assert(d.key() == k);
    let g = hotplug::HotPlugView { monitor: m, ..h };
    if h.devices.contains_key(k) {
        exactness::detaching_ends_in_detach(g, d, bind_ok);
    }
}

/// Whether a device is one of the root devices: its directory is that of one of them.
pub open spec fn supervised_root(s: SupervisorView, d: device::DeviceView) -> bool {
    exists|i: int|
        0 <= i < s.devices.len() && path::components(#[trigger] s.devices[i]) == path::components(
            d.udev.syspath,
        )
}

/// Devices come and go without ending supervision, at any time: a device that is attached, or one that
/// goes and is not a root, leaves everything as it is, and the next event is taken.
pub proof fn devices_come_and_go(
    s: SupervisorView,
    a: AttachedDeviceView,
    d: device::DeviceView,
)
    ensures
        handled(s, Some(event::EventView::Attach(a))) == (s, SuperviseStep::Continue),
        !supervised_root(s, a.device) ==> handled(s, Some(event::EventView::Detach(a))) == (
            s,
            SuperviseStep::Continue,
        ),
        !supervised_root(s, d) ==> handled(s, Some(event::EventView::Unplugged(d))) == (
            s,
            SuperviseStep::Continue,
        ),
{
}

/// Supervision ends without an error just if the container has stopped by itself or a root device is
/// gone, in which case it is killed. Whichever of the roots it is, and whether or not it was attached.
pub proof fn supervision_ends_with_the_container_or_a_root(
    s: SupervisorView,
    e: event::EventView,
)
    ensures
        handled(s, Some(e)).1 is Stop <==> e is Stopped,
        handled(s, Some(e)).1 is Kill <==> match e {
            event::EventView::Detach(a) => supervised_root(s, a.device),
            event::EventView::Unplugged(d) => supervised_root(s, d),
            _ => false,
        },
        !(e is Initialized) ==> handled(s, Some(e)).0 == s && !(handled(s, Some(e)).1 is Fail)
            && !(handled(s, Some(e)).1 is Notify),
{
}

/// The caller is told when the container is initialized, the first time that it is said to be. It is an
/// error to say it twice, and to have no more events. The root devices never change.
pub proof fn caller_is_told_the_first_time(s: SupervisorView, e: Option<event::EventView>)
    ensures
        handled(s, None) == (s, SuperviseStep::Fail(SuperviseError::NoMoreEvents)),
        !s.notified ==> handled(s, Some(event::EventView::Initialized)) == (
            (SupervisorView { notified: true, ..s }),
            SuperviseStep::Notify,
        ),
        s.notified ==> handled(s, Some(event::EventView::Initialized)) == (
            s,
            SuperviseStep::Fail(SuperviseError::InitializedTwice),
        ),
        handled(s, e).0.devices == s.devices,
        s.notified ==> handled(s, e).0.notified,
        handled(s, e).0.notified && !s.notified ==> handled(s, e).1 is Notify,
        handled(supervising(s.devices), Some(event::EventView::Initialized)).1 is Notify,
        supervising(s.devices).devices == s.devices,
{
}

} // verus!

//! Monitoring the devices below a set of root devices.
use crate::dev::device;
use crate::dev::device::{Device, UdevDevice};
use crate::path;
use crate::path::{PathBuf, PathKey};
use crate::path_map::PathMap;
use crate::text;
use std::collections::VecDeque;
use vstd::prelude::*;

verus! {

/// A device appearing or disappearing below one of the monitored roots.
///
/// Each device produces at most one `Add` and, after that, at most one `Remove`; a device that was
/// never reported as added is never reported as removed. See [`reports_are_orderly`].
#[derive(Debug)]
pub enum DeviceEvent {
    Add(Device),
    Remove(Device),
}

pub enum DeviceEventView {
    Add(device::DeviceView),
    Remove(device::DeviceView),
}

impl View for DeviceEvent {
    type V = DeviceEventView;

    open spec fn view(&self) -> DeviceEventView {
        match self {
            DeviceEvent::Add(d) => DeviceEventView::Add(d@),
            DeviceEvent::Remove(d) => DeviceEventView::Remove(d@),
        }
    }
}

impl DeviceEventView {
    pub open spec fn device(self) -> device::DeviceView {
        match self {
            DeviceEventView::Add(d) => d,
            DeviceEventView::Remove(d) => d,
        }
    }
}

/// What udev says has happened to a device.
#[derive(Debug, Clone, Copy, PartialEq, Eq, Structural)]
pub enum EventType {
    Add,
    Remove,
    /// Anything that is neither of the above, such as a change of the device.
    Other,
}

/// An event that udev reports.
#[derive(Debug)]
pub struct UdevEvent {
    pub event_type: EventType,
    pub device: UdevDevice,
}

pub struct UdevEventView {
    pub event_type: EventType,
    pub device: device::UdevDeviceView,
}

impl View for UdevEvent {
    type V = UdevEventView;

    open spec fn view(&self) -> UdevEventView {
        UdevEventView { event_type: self.event_type, device: self.device@ }
    }
}

/// What is known of the udev socket when a monitor is read.
#[derive(Debug)]
pub enum Polled {
    /// The socket has not been looked at.
    NotYet,
    /// The socket has nothing pending.
    Drained,
    /// An event was taken from the socket.
    Event(UdevEvent),
}

pub enum PolledView {
    NotYet,
    Drained,
    Event(UdevEventView),
}

impl View for Polled {
    type V = PolledView;

    open spec fn view(&self) -> PolledView {
        match self {
            Polled::NotYet => PolledView::NotYet,
            Polled::Drained => PolledView::Drained,
            Polled::Event(e) => PolledView::Event(e@),
        }
    }
}

/// What comes of reading a monitor.
#[derive(Debug)]
pub enum ReadStep {
    /// The next event.
    Event(DeviceEvent),
    /// No event is available.
    Empty,
    /// Take the next event from the udev socket and read again with it.
    Poll,
    /// The device with the given directory was added once more. Log that, see [`seen_message`], and
    /// carry on as for `Poll`.
    Seen(PathBuf),
}

pub enum ReadStepView {
    Event(DeviceEventView),
    Empty,
    Poll,
    Seen(Seq<u8>),
}

impl View for ReadStep {
    type V = ReadStepView;

    open spec fn view(&self) -> ReadStepView {
        match self {
            ReadStep::Event(e) => ReadStepView::Event(e@),
            ReadStep::Empty => ReadStepView::Empty,
            ReadStep::Poll => ReadStepView::Poll,
            ReadStep::Seen(p) => ReadStepView::Seen(p@),
        }
    }
}

/// A source of [`DeviceEvent`]s for the devices below a set of root devices.
///
/// There is no end to the events: unplugging the root device itself is reported as an ordinary
/// `Remove`, and deciding what that means is the caller's business.
#[derive(Debug)]
pub struct DeviceMonitor {
    /// Root paths for devices to monitor. This is usually a USB hub.
    roots: Vec<PathBuf>,
    /// All devices seen so far. This stores the device node and number, which may not be available
    /// when the device is removed.
    seen: PathMap<Device>,
    /// Devices that are available when the monitor is started. Initial reads are from this list.
    enumerated: VecDeque<Device>,
}

pub struct MonitorView {
    pub roots: Seq<Seq<u8>>,
    pub seen: Map<PathKey, device::DeviceView>,
    pub enumerated: Seq<device::DeviceView>,
}

impl View for DeviceMonitor {
    type V = MonitorView;

    closed spec fn view(&self) -> MonitorView {
        MonitorView {
            roots: self.roots.deep_view(),
            seen: self.seen@,
            enumerated: self.enumerated@.map_values(|d: Device| d@),
        }
    }
}

/// Whether a path is, or is below, one of the roots.
pub open spec fn monitored(roots: Seq<Seq<u8>>, p: Seq<u8>) -> bool {
    exists|i: int| 0 <= i < roots.len() && path::under(p, #[trigger] roots[i])
}

/// Whether `k` is one of the roots.
pub open spec fn is_root(roots: Seq<Seq<u8>>, k: PathKey) -> bool {
    exists|i: int| 0 <= i < roots.len() && path::components(#[trigger] roots[i]) == k
}

/// The monitored ones among the devices that a scan finds, as they are at the start. Each of them is
/// there once.
pub open spec fn initial(roots: Seq<Seq<u8>>, scanned: Seq<device::UdevDeviceView>) -> Seq<
    device::DeviceView,
>
    decreases scanned.len(),
{
    if scanned.len() == 0 {
        seq![]
    } else {
        let before = initial(roots, scanned.drop_last());
        let d = device::device_of(scanned.last());
        if monitored(roots, d.syspath()) && !by_path(before).contains_key(d.key()) {
            before.push(d)
        } else {
            before
        }
    }
}

/// The devices in `s`, by their sysfs directory.
pub open spec fn by_path(s: Seq<device::DeviceView>) -> Map<PathKey, device::DeviceView>
    decreases s.len(),
{
    if s.len() == 0 {
        Map::empty()
    } else {
        by_path(s.drop_last()).insert(s.last().key(), s.last())
    }
}

/// A monitor as it starts.
pub open spec fn started(roots: Seq<Seq<u8>>, scanned: Seq<device::UdevDeviceView>) -> MonitorView {
    MonitorView {
        roots,
        seen: by_path(initial(roots, scanned)),
        enumerated: initial(roots, scanned),
    }
}

/// What a monitor makes of a udev event: its next state and the event to report, if any.
///
/// A device below a root is reported when it is added, unless it has been seen already, and any
/// device that has been seen is reported when it is removed.
pub open spec fn noticed(m: MonitorView, e: UdevEventView) -> (MonitorView, Option<DeviceEventView>) {
    let d = device::device_of(e.device);
    let k = d.key();
    if e.event_type == EventType::Add && monitored(m.roots, e.device.syspath)
        && !m.seen.contains_key(k) {
        (
            MonitorView { seen: m.seen.insert(k, d), ..m },
            Some(DeviceEventView::Add(d)),
        )
    } else if e.event_type == EventType::Remove && m.seen.contains_key(k) {
        (
            MonitorView { seen: m.seen.remove(k), ..m },
            Some(DeviceEventView::Remove(m.seen[k])),
        )
    } else {
        (m, None)
    }
}

/// Whether a monitored device that has been seen is added once more.
pub open spec fn already_seen(m: MonitorView, e: UdevEventView) -> bool {
    e.event_type == EventType::Add && monitored(m.roots, e.device.syspath) && m.seen.contains_key(
        path::components(e.device.syspath),
    )
}

/// What is said of a device that is added once more.
pub open spec fn seen_shown(p: Seq<u8>) -> Seq<char> {
    "Device already seen: "@ + text::displayed(p)
}

/// What reading a monitor gives: its next state and the step to take.
pub open spec fn read(m: MonitorView, polled: PolledView) -> (MonitorView, ReadStepView) {
    match polled {
        PolledView::NotYet => if m.enumerated.len() > 0 {
            (
                MonitorView { enumerated: m.enumerated.drop_first(), ..m },
                ReadStepView::Event(DeviceEventView::Add(m.enumerated[0])),
            )
        } else {
            (m, ReadStepView::Poll)
        },
        PolledView::Drained => (m, ReadStepView::Empty),
        PolledView::Event(e) => {
            let (next, report) = noticed(m, e);
            match report {
                Some(event) => (next, ReadStepView::Event(event)),
                None => if already_seen(m, e) {
                    (next, ReadStepView::Seen(m.seen[path::components(e.device.syspath)].syspath()))
                } else {
                    (next, ReadStepView::Poll)
                },
            }
        },
    }
}

/// Whether `p` is, or is below, one of the roots.
pub fn is_monitored(roots: &Vec<PathBuf>, p: &PathBuf) -> (r: bool)
    ensures
        r == monitored(roots.deep_view(), p@),
{
    let mut i: usize = 0;
    while i < roots.len()
        invariant
            i <= roots@.len(),
            forall|j: int| 0 <= j < i ==> !path::under(p@, #[trigger] roots.deep_view()[j]),
        decreases roots@.len() - i,
    {
        assert(roots.deep_view()[i as int] == roots@[i as int]@);
        if p.starts_with(&roots[i]) {
            return true;
        }
        i = i + 1;
    }
    assert(roots.deep_view().len() == roots@.len());
    false
}

/// What is said of a device with the given directory that is added once more, for logging.
pub fn seen_message(p: &PathBuf) -> (r: String)
    ensures
        r@ == seen_shown(p@),
{
    let mut r = String::new();
    text::push_str(&mut r, "Device already seen: ");
    text::push_str(&mut r, p.display().as_str());
    assert(r@ =~= seen_shown(p@));
    r
}

/// Whether `p` is one of the roots.
pub fn has_root(roots: &Vec<PathBuf>, p: &PathBuf) -> (r: bool)
    ensures
        r == is_root(roots.deep_view(), path::components(p@)),
{
    let mut i: usize = 0;
    while i < roots.len()
        invariant
            i <= roots@.len(),
            forall|j: int|
                0 <= j < i ==> path::components(#[trigger] roots.deep_view()[j])
                    != path::components(p@),
        decreases roots@.len() - i,
    {
        assert(roots.deep_view()[i as int] == roots@[i as int]@);
        if p.same(&roots[i]) {
            return true;
        }
        i = i + 1;
    }
    assert(roots.deep_view().len() == roots@.len());
    false
}

impl DeviceMonitor {
    /// Create a new device monitor.
    ///
    /// `roots` are the syspaths of the root devices; a device is monitored if its syspath is, or is
    /// below, one of them. `scanned` are the devices present, of which the monitored ones each
    /// generate one `Add` event immediately.
    pub fn new(roots: Vec<PathBuf>, scanned: Vec<UdevDevice>) -> (r: DeviceMonitor)
        ensures
            r@ == started(roots.deep_view(), scanned@.map_values(|u: UdevDevice| u@)),
    {
        let ghost all = scanned@.map_values(|u: UdevDevice| u@);
        let ghost rs = roots.deep_view();
        let mut seen: PathMap<Device> = PathMap::new();
        let mut enumerated: VecDeque<Device> = VecDeque::new();
        let mut i: usize = 0;
        proof {
            assert(all.take(0) =~= seq![]);
            assert(enumerated@.map_values(|d: Device| d@) =~= seq![]);
        }
        while i < scanned.len()
            invariant
                i <= scanned@.len(),
                all == scanned@.map_values(|u: UdevDevice| u@),
                rs == roots.deep_view(),
                enumerated@.map_values(|d: Device| d@) == initial(rs, all.take(i as int)),
                seen@ == by_path(initial(rs, all.take(i as int))),
            decreases scanned@.len() - i,
        {
            let ghost before = initial(rs, all.take(i as int));
            let ghost u = all[i as int];
            proof {
                let now = all.take(i + 1);
                assert(now.drop_last() =~= all.take(i as int));
                assert(now.last() == u);
            }
            if is_monitored(&roots, &scanned[i].syspath) && !seen.contains(&scanned[i].syspath) {
                let d = Device::from_udev(scanned[i].clone());
                seen.insert(d.syspath().clone(), d.clone());
                enumerated.push_back(d);
                proof {
                    let w = device::device_of(u);
                    assert(before.push(w).drop_last() =~= before);
                    assert(enumerated@.map_values(|d: Device| d@) =~= before.push(w));
                }
            }
            i = i + 1;
        }
        assert(all.take(i as int) =~= all);
        DeviceMonitor { roots, seen, enumerated }
    }

    /// Whether `p` is the directory of a root device.
    pub fn is_root(&self, p: &PathBuf) -> (r: bool)
        ensures
            r == is_root(self@.roots, path::components(p@)),
    {
        has_root(&self.roots, p)
    }

    /// Take the next event if one is already available, without awaiting.
    ///
    /// Start with [`Polled::NotYet`]; as long as the answer is [`ReadStep::Poll`] or
    /// [`ReadStep::Seen`], take the next event from the udev socket and read again with what came of
    /// it. Events for devices outside the monitored roots are consumed and skipped.
    pub fn try_read(&mut self, polled: Polled) -> (r: ReadStep)
        requires
            !(polled is NotYet) ==> old(self)@.enumerated.len() == 0,
        ensures
            (final(self)@, r@) == read(old(self)@, polled@),
    {
        let ghost m = self@;
        match polled {
            Polled::NotYet => {
                let ghost q = self.enumerated@;
                match self.enumerated.pop_front() {
                    Some(d) => {
                        assert(self.enumerated@.map_values(|d: Device| d@)
                            =~= m.enumerated.drop_first());
                        assert(m.enumerated[0] == d@);
                        ReadStep::Event(DeviceEvent::Add(d))
                    },
                    None => ReadStep::Poll,
                }
            },
            Polled::Drained => ReadStep::Empty,
            Polled::Event(e) => {
                match e.event_type {
                    EventType::Add => {
                        if !is_monitored(&self.roots, &e.device.syspath) {
                            return ReadStep::Poll;
                        }
                        if let Some(d) = self.seen.get(&e.device.syspath) {
                            return ReadStep::Seen(d.syspath().clone());
                        }
                        let d = Device::from_udev(e.device);
                        self.seen.insert(d.syspath().clone(), d.clone());
                        ReadStep::Event(DeviceEvent::Add(d))
                    },
                    EventType::Remove => match self.seen.remove(&e.device.syspath) {
                        Some(d) => ReadStep::Event(DeviceEvent::Remove(d)),
                        None => {
                            assert(self.seen@ =~= m.seen);
                            ReadStep::Poll
                        },
                    },
                    EventType::Other => ReadStep::Poll,
                }
            },
        }
    }
}

/// The events that come of reading a monitor over and over, with `polls` being what is known of
/// the udev socket each time.
pub open spec fn heard(m: MonitorView, polls: Seq<PolledView>) -> Seq<DeviceEventView>
    decreases polls.len(),
{
    if polls.len() == 0 {
        seq![]
    } else {
        let (next, step) = read(m, polls[0]);
        let rest = heard(next, polls.drop_first());
        match step {
            ReadStepView::Event(event) => seq![event] + rest,
            _ => rest,
        }
    }
}

/// Whether the socket is only looked at when no devices are left from the start.
pub open spec fn in_turn(m: MonitorView, polls: Seq<PolledView>) -> bool
    decreases polls.len(),
{
    polls.len() > 0 ==> {
        &&& !(polls[0] is NotYet) ==> m.enumerated.len() == 0
        &&& in_turn(read(m, polls[0]).0, polls.drop_first())
    }
}

/// The devices that are plugged in after `reports`, each as it was reported.
pub open spec fn plugged(reports: Seq<DeviceEventView>) -> Map<PathKey, device::DeviceView>
    decreases reports.len(),
{
    if reports.len() == 0 {
        Map::empty()
    } else {
        match reports.last() {
            DeviceEventView::Add(d) => plugged(reports.drop_last()).insert(d.key(), d),
            DeviceEventView::Remove(d) => plugged(reports.drop_last()).remove(d.key()),
        }
    }
}

/// Whether each report makes sense after those in front of it: only a device that is not plugged in
/// is added, and only one that is plugged in is removed, and with what was reported of it.
#[verifier::opaque]
pub open spec fn orderly(reports: Seq<DeviceEventView>) -> bool {
    forall|i: int|
        0 <= i < reports.len() ==> match #[trigger] reports[i] {
            DeviceEventView::Add(d) => !plugged(reports.take(i)).contains_key(d.key()),
            DeviceEventView::Remove(d) => {
                &&& plugged(reports.take(i)).contains_key(d.key())
                &&& plugged(reports.take(i))[d.key()] == d
            },
        }
}

/// Whether no two of some devices have the same directory.
pub open spec fn distinct(s: Seq<device::DeviceView>) -> bool {
    forall|i: int, j: int| 0 <= i < j < s.len() ==> (#[trigger] s[i]).key() != (#[trigger] s[j]).key()
}

proof fn lemma_orderly_push(reports: Seq<DeviceEventView>, e: DeviceEventView)
    requires
        orderly(reports),
        match e {
            DeviceEventView::Add(d) => !plugged(reports).contains_key(d.key()),
            DeviceEventView::Remove(d) => plugged(reports).contains_key(d.key())
                && plugged(reports)[d.key()] == d,
        },
    ensures
        orderly(reports.push(e)),
{
    reveal(orderly);
    let all = reports.push(e);
    assert forall|i: int| 0 <= i < all.len() implies match #[trigger] all[i] {
        DeviceEventView::Add(d) => !plugged(all.take(i)).contains_key(d.key()),
        DeviceEventView::Remove(d) => plugged(all.take(i)).contains_key(d.key()) && plugged(
            all.take(i),
        )[d.key()] == d,
    } by {
        if i < reports.len() {
            assert(all.take(i) =~= reports.take(i));
            assert(all[i] == reports[i]);
        } else {
            assert(all.take(i) =~= reports);
        }
    }
}

proof fn lemma_initial_orderly(s: Seq<device::DeviceView>)
    requires
        distinct(s),
    ensures
        orderly(s.map_values(|d: device::DeviceView| DeviceEventView::Add(d))),
        plugged(s.map_values(|d: device::DeviceView| DeviceEventView::Add(d))) == by_path(s),
        forall|k: PathKey| #[trigger]
            by_path(s).contains_key(k) ==> by_path(s)[k].key() == k && s.contains(by_path(s)[k]),
    decreases s.len(),
{
    let f = |d: device::DeviceView| DeviceEventView::Add(d);
    if s.len() == 0 {
        reveal(orderly);
        assert(s.map_values(f) =~= seq![]);
    } else {
        let t = s.drop_last();
        assert(distinct(t)) by {
            assert forall|i: int, j: int| 0 <= i < j < t.len() implies (#[trigger] t[i]).key() != (
            #[trigger] t[j]).key() by {
                assert(s[i].key() != s[j].key());
            }
        }
        lemma_initial_orderly(t);
        let d = s.last();
        if by_path(t).contains_key(d.key()) {
            let o = by_path(t)[d.key()];
            let i = choose|i: int| 0 <= i < t.len() && t[i] == o;
            assert(s[i].key() != s[s.len() - 1].key());
        }
        lemma_orderly_push(t.map_values(f), f(d));
        assert(s.map_values(f) =~= t.map_values(f).push(f(d)));
        assert(s.map_values(f).drop_last() =~= t.map_values(f));
        assert forall|k: PathKey| #[trigger] by_path(s).contains_key(k) implies by_path(s)[k].key()
            == k && s.contains(by_path(s)[k]) by {
            if k == d.key() {
                assert(s[s.len() - 1] == d);
            } else {
                assert(by_path(t).contains_key(k));
                let i = choose|i: int| 0 <= i < t.len() && t[i] == by_path(t)[k];
                assert(s[i] == by_path(t)[k]);
            }
        }
    }
}

/// The reports that are still to come of the devices present at the start.
spec fn pending(m: MonitorView) -> Seq<DeviceEventView> {
    m.enumerated.map_values(|d: device::DeviceView| DeviceEventView::Add(d))
}

proof fn lemma_orderly_prefix(a: Seq<DeviceEventView>, b: Seq<DeviceEventView>)
    requires
        orderly(a + b),
    ensures
        orderly(a),
{
    reveal(orderly);
    let all = a + b;
    assert forall|i: int| 0 <= i < a.len() implies match #[trigger] a[i] {
        DeviceEventView::Add(d) => !plugged(a.take(i)).contains_key(d.key()),
        DeviceEventView::Remove(d) => plugged(a.take(i)).contains_key(d.key()) && plugged(
            a.take(i),
        )[d.key()] == d,
    } by {
        assert(all[i] == a[i]);
        assert(all.take(i) =~= a.take(i));
    }
}

/// What `m` knows after it has reported `before`.
#[verifier::opaque]
spec fn in_step(before: Seq<DeviceEventView>, m: MonitorView) -> bool {
    &&& orderly(before + pending(m))
    &&& m.seen == plugged(before + pending(m))
    &&& forall|k: PathKey| #[trigger] m.seen.contains_key(k) ==> m.seen[k].key() == k
}

proof fn lemma_noticed_in_step(before: Seq<DeviceEventView>, m: MonitorView, e: UdevEventView)
    requires
        in_step(before, m),
        m.enumerated.len() == 0,
    ensures
        noticed(m, e).1 matches Some(report) ==> in_step(before.push(report), noticed(m, e).0),
        noticed(m, e).1 is None ==> noticed(m, e).0 == m,
{
    reveal(in_step);
    assert(pending(m) =~= seq![]);
    assert(before + pending(m) =~= before);
    let (next, report) = noticed(m, e);
    if let Some(r) = report {
        let now = before.push(r);
        assert(pending(next) =~= seq![]);
        assert(now + pending(next) =~= now);
        lemma_orderly_push(before, r);
        assert(now.drop_last() =~= before);
        assert(now.last() == r);
    }
}

/// Reporting the first device of those present at the start moves it from what is to come to what
/// has been.
proof fn lemma_pending_shift(before: Seq<DeviceEventView>, m: MonitorView, next: MonitorView)
    requires
        m.enumerated.len() > 0,
        next.enumerated == m.enumerated.drop_first(),
    ensures
        before.push(DeviceEventView::Add(m.enumerated[0])) + pending(next) == before + pending(m),
{
    let a = before.push(DeviceEventView::Add(m.enumerated[0])) + pending(next);
    let b = before + pending(m);
    assert(a.len() == b.len());
    assert forall|i: int| 0 <= i < a.len() implies a[i] == b[i] by {
        if i > before.len() {
            assert(next.enumerated[i - before.len() - 1] == m.enumerated[i - before.len()]);
        }
    }
    assert(a =~= b);
}

proof fn lemma_enumerated_in_step(before: Seq<DeviceEventView>, m: MonitorView, next: MonitorView)
    requires
        in_step(before, m),
        m.enumerated.len() > 0,
        next == (MonitorView { enumerated: m.enumerated.drop_first(), ..m }),
    ensures
        in_step(before.push(DeviceEventView::Add(m.enumerated[0])), next),
{
    reveal(in_step);
    lemma_pending_shift(before, m, next);
}

proof fn lemma_in_step_orderly(before: Seq<DeviceEventView>, m: MonitorView)
    requires
        in_step(before, m),
    ensures
        orderly(before),
{
    reveal(in_step);
    lemma_orderly_prefix(before, pending(m));
}

proof fn lemma_heard_orderly(before: Seq<DeviceEventView>, m: MonitorView, polls: Seq<PolledView>)
    requires
        in_step(before, m),
        in_turn(m, polls),
    ensures
        orderly(before + heard(m, polls)),
    decreases polls.len(),
{
    if polls.len() == 0 {
        lemma_in_step_orderly(before, m);
        assert(before + heard(m, polls) =~= before);
    } else {
        let (next, step) = read(m, polls[0]);
        let rest = heard(next, polls.drop_first());
        match polls[0] {
            PolledView::NotYet => {
                if m.enumerated.len() > 0 {
                    lemma_enumerated_in_step(before, m, next);
                }
            },
            PolledView::Drained => {},
            PolledView::Event(e) => {
                lemma_noticed_in_step(before, m, e);
            },
        }
        match step {
            ReadStepView::Event(e) => {
                lemma_heard_orderly(before.push(e), next, polls.drop_first());
                assert(before.push(e) + rest =~= before + (seq![e] + rest));
            },
            _ => {
                lemma_heard_orderly(before, next, polls.drop_first());
            },
        }
    }
}

/// A device is reported as added at most once before it is reported as removed, and as removed only
/// after it was reported as added, with what was reported of it then. This holds for all the devices
/// present at the start and for whatever udev reports after that.
pub proof fn reports_are_orderly(
    roots: Seq<Seq<u8>>,
    scanned: Seq<device::UdevDeviceView>,
    polls: Seq<PolledView>,
)
    requires
        in_turn(started(roots, scanned), polls),
    ensures
        orderly(heard(started(roots, scanned), polls)),
{
    let m = started(roots, scanned);
    let none = Seq::<DeviceEventView>::empty();
    lemma_initial(roots, scanned);
    lemma_initial_orderly(m.enumerated);
    assert(none + pending(m) =~= pending(m));
    assert(in_step(none, m)) by {
        reveal(in_step);
    }
    lemma_heard_orderly(none, m, polls);
    assert(none + heard(m, polls) =~= heard(m, polls));
}

proof fn lemma_by_path_has(s: Seq<device::DeviceView>, i: int)
    requires
        distinct(s),
        0 <= i < s.len(),
    ensures
        by_path(s).contains_key(s[i].key()),
        by_path(s)[s[i].key()] == s[i],
    decreases s.len(),
{
    if i < s.len() - 1 {
        let t = s.drop_last();
        assert(distinct(t)) by {
            assert forall|i: int, j: int| 0 <= i < j < t.len() implies (#[trigger] t[i]).key() != (
            #[trigger] t[j]).key() by {
                assert(s[i].key() != s[j].key());
            }
        }
        lemma_by_path_has(t, i);
        assert(t[i] == s[i]);
        assert(s[i].key() != s[s.len() - 1].key());
    }
}

proof fn lemma_initial(roots: Seq<Seq<u8>>, scanned: Seq<device::UdevDeviceView>)
    ensures
        distinct(initial(roots, scanned)),
        forall|i: int|
            0 <= i < initial(roots, scanned).len() ==> monitored(
                roots,
                (#[trigger] initial(roots, scanned)[i]).syspath(),
            ),
    decreases scanned.len(),
{
    if scanned.len() > 0 {
        let t = scanned.drop_last();
        let before = initial(roots, t);
        let s = initial(roots, scanned);
        lemma_initial(roots, t);
        assert forall|i: int, j: int| 0 <= i < j < s.len() implies (#[trigger] s[i]).key() != (
        #[trigger] s[j]).key() by {
            if j < before.len() {
                assert(before[i].key() != before[j].key());
            } else {
                lemma_by_path_has(before, i);
            }
        }
        assert forall|i: int| 0 <= i < s.len() implies monitored(
            roots,
            (#[trigger] s[i]).syspath(),
        ) by {
            if i < before.len() {
                assert(s[i] == before[i]);
            }
        }
    }
}

/// At the start a monitor has seen just the devices that it is about to report, all of them
/// monitored.
pub proof fn started_has_seen_enumerated(
    roots: Seq<Seq<u8>>,
    scanned: Seq<device::UdevDeviceView>,
)
    ensures
        distinct(started(roots, scanned).enumerated),
        ({
            let m = started(roots, scanned);
            &&& forall|k: PathKey| #[trigger]
                m.seen.contains_key(k) ==> {
                    &&& m.seen[k].key() == k
                    &&& m.enumerated.contains(m.seen[k])
                    &&& monitored(roots, m.seen[k].syspath())
                }
            &&& forall|i: int|
                0 <= i < m.enumerated.len() ==> m.seen.contains_key((#[trigger] m.enumerated[i]).key())
                    && m.seen[m.enumerated[i].key()] == m.enumerated[i]
        }),
{
    let m = started(roots, scanned);
    lemma_initial(roots, scanned);
    lemma_initial_orderly(m.enumerated);
    assert forall|k: PathKey| #[trigger] m.seen.contains_key(k) implies monitored(
        roots,
        m.seen[k].syspath(),
    ) by {
        let i = choose|i: int| 0 <= i < m.enumerated.len() && m.enumerated[i] == m.seen[k];
        assert(monitored(roots, m.enumerated[i].syspath()));
    }
    assert forall|i: int| 0 <= i < m.enumerated.len() implies m.seen.contains_key(
        (#[trigger] m.enumerated[i]).key(),
    ) && m.seen[m.enumerated[i].key()] == m.enumerated[i] by {
        lemma_by_path_has(m.enumerated, i);
    }
}

proof fn lemma_initial_has(
    roots: Seq<Seq<u8>>,
    scanned: Seq<device::UdevDeviceView>,
    i: int,
)
    requires
        0 <= i < scanned.len(),
        monitored(roots, scanned[i].syspath),
    ensures
        by_path(initial(roots, scanned)).contains_key(path::components(scanned[i].syspath)),
    decreases scanned.len(),
{
    let t = scanned.drop_last();
    let d = device::device_of(scanned.last());
    if i < t.len() {
        lemma_initial_has(roots, t, i);
    }
    assert(initial(roots, t).push(d).drop_last() =~= initial(roots, t));
}

/// Every monitored device that a scan finds is about to be reported at the start.
pub proof fn present_devices_are_reported(
    roots: Seq<Seq<u8>>,
    scanned: Seq<device::UdevDeviceView>,
    i: int,
)
    requires
        0 <= i < scanned.len(),
        monitored(roots, scanned[i].syspath),
    ensures
        exists|j: int|
            0 <= j < started(roots, scanned).enumerated.len() && (
            #[trigger] started(roots, scanned).enumerated[j]).key() == path::components(
                scanned[i].syspath,
            ),
{
    let m = started(roots, scanned);
    let k = path::components(scanned[i].syspath);
    lemma_initial_has(roots, scanned, i);
    started_has_seen_enumerated(roots, scanned);
    let j = choose|j: int| 0 <= j < m.enumerated.len() && m.enumerated[j] == m.seen[k];
    assert(m.enumerated[j].key() == k);
}

/// A monitored device that is added once more is not reported again: nothing changes but that it is
/// named.
pub proof fn repeated_additions_change_nothing(m: MonitorView, e: UdevEventView)
    requires
        already_seen(m, e),
    ensures
        read(m, PolledView::Event(e)) == (
            m,
            ReadStepView::Seen(m.seen[path::components(e.device.syspath)].syspath()),
        ),
{
}

/// Only devices that are, or are below, one of the roots are ever reported as added.
pub proof fn only_monitored_devices_are_added(m: MonitorView, e: UdevEventView)
    ensures
        noticed(m, e).1 matches Some(DeviceEventView::Add(d)) ==> monitored(m.roots, d.syspath()),
        noticed(m, e).0.roots == m.roots,
{
}

/// A path is monitored just if it is, or is below, any one of the roots, by whole components:
/// whichever of the roots it is.
pub proof fn every_root_counts(roots: Seq<Seq<u8>>, i: int, p: Seq<u8>, rest: PathKey)
    ensures
        0 <= i < roots.len() && path::components(p) == path::components(roots[i]) + rest
            ==> monitored(roots, p),
        monitored(roots, p) ==> exists|j: int|
            0 <= j < roots.len() && path::components(p) == path::components(#[trigger] roots[j])
                + path::components(p).skip(path::components(roots[j]).len() as int),
{
    if 0 <= i < roots.len() {
        path::under_goes_by_whole_components(p, roots[i], rest);
    }
    if monitored(roots, p) {
        let j = choose|j: int| 0 <= j < roots.len() && path::under(p, #[trigger] roots[j]);
        path::under_goes_by_whole_components(p, roots[j], rest);
        assert(path::components(p) == path::components(roots[j]) + path::components(p).skip(
            path::components(roots[j]).len() as int,
        ));
    }
}

/// What is monitored under some roots stays so under more of them, and nothing is under none.
pub proof fn more_roots_monitor_more(a: Seq<Seq<u8>>, b: Seq<Seq<u8>>, p: Seq<u8>)
    ensures
        monitored(a + b, p) <==> monitored(a, p) || monitored(b, p),
        !monitored(Seq::<Seq<u8>>::empty(), p),
        forall|k: PathKey| #[trigger] is_root(a + b, k) <==> is_root(a, k) || is_root(b, k),
        is_root(seq![p], path::components(p)),
        forall|k: PathKey| #[trigger] is_root(seq![p], k) ==> k == path::components(p),
{
    let all = a + b;
    if monitored(all, p) {
        let i = choose|i: int| 0 <= i < all.len() && path::under(p, #[trigger] all[i]);
        if i < a.len() {
            assert(path::under(p, a[i]));
        } else {
            assert(path::under(p, b[i - a.len()]));
        }
    }
    if monitored(a, p) {
        let i = choose|i: int| 0 <= i < a.len() && path::under(p, #[trigger] a[i]);
        assert(all[i] == a[i]);
    }
    if monitored(b, p) {
        let i = choose|i: int| 0 <= i < b.len() && path::under(p, #[trigger] b[i]);
        assert(all[a.len() + i] == b[i]);
    }
    assert forall|k: PathKey| #[trigger] is_root(all, k) <==> is_root(a, k) || is_root(b, k) by {
        if is_root(all, k) {
            let i = choose|i: int| 0 <= i < all.len() && path::components(#[trigger] all[i]) == k;
            if i < a.len() {
                assert(path::components(a[i]) == k);
            } else {
                assert(path::components(b[i - a.len()]) == k);
            }
        }
        if is_root(a, k) {
            let i = choose|i: int| 0 <= i < a.len() && path::components(#[trigger] a[i]) == k;
            assert(all[i] == a[i]);
        }
        if is_root(b, k) {
            let i = choose|i: int| 0 <= i < b.len() && path::components(#[trigger] b[i]) == k;
            assert(all[a.len() + i] == b[i]);
        }
    }
    assert(path::components(seq![p][0]) == path::components(p));
}

/// Each root is monitored itself, and so is each directory in it.
pub proof fn roots_and_what_is_in_them(roots: Seq<Seq<u8>>, i: int, name: Seq<u8>)
    requires
        0 <= i < roots.len(),
        roots[i].len() > 0,
        path::is_name(name),
    ensures
        monitored(roots, roots[i]),
        monitored(roots, path::joined(roots[i], name)),
        is_root(roots, path::components(roots[i])),
{
    let none = Seq::<Seq<u8>>::empty();
    assert(path::components(roots[i]) + none =~= path::components(roots[i]));
    every_root_counts(roots, i, roots[i], none);
    path::joined_name(roots[i], name);
    assert(path::components(roots[i]) + seq![name] =~= path::components(roots[i]).push(name));
    every_root_counts(roots, i, path::joined(roots[i], name), seq![name]);
}

/// Whatever a scan finds at or below any of the roots is reported as added: there is a report for its
/// directory among those to come.
pub proof fn what_is_below_any_root_is_reported(
    roots: Seq<Seq<u8>>,
    scanned: Seq<device::UdevDeviceView>,
    r: int,
    i: int,
    rest: PathKey,
)
    requires
        0 <= r < roots.len(),
        0 <= i < scanned.len(),
        path::components(scanned[i].syspath) == path::components(roots[r]) + rest,
    ensures
        exists|j: int|
            0 <= j < started(roots, scanned).enumerated.len() && path::components(
                (#[trigger] started(roots, scanned).enumerated[j]).udev.syspath,
            ) == path::components(scanned[i].syspath),
{
    every_root_counts(roots, r, scanned[i].syspath, rest);
    present_devices_are_reported(roots, scanned, i);
    let m = started(roots, scanned);
    let k = path::components(scanned[i].syspath);
    let j = choose|j: int| 0 <= j < m.enumerated.len() && (#[trigger] m.enumerated[j]).key() == k;
    assert(path::components(m.enumerated[j].udev.syspath) == k);
}

/// What is to be reported at the start is what a scan found, as it was found and in the order in which
/// it was found: a longer scan only adds to it.
pub proof fn scans_are_reported_in_order(
    roots: Seq<Seq<u8>>,
    scanned: Seq<device::UdevDeviceView>,
    u: device::UdevDeviceView,
)
    ensures
        ({
            let m = started(roots, scanned);
            let n = started(roots, scanned.push(u));
            &&& m.roots == roots
            &&& n.enumerated == m.enumerated || n.enumerated == m.enumerated.push(
                device::device_of(u),
            )
            &&& monitored(roots, u.syspath) && !m.seen.contains_key(path::components(u.syspath))
                ==> n.enumerated == m.enumerated.push(device::device_of(u)) && n.seen
                == m.seen.insert(path::components(u.syspath), device::device_of(u))
            &&& !monitored(roots, u.syspath) || m.seen.contains_key(path::components(u.syspath))
                ==> n.enumerated == m.enumerated && n.seen == m.seen
            &&& started(roots, Seq::<device::UdevDeviceView>::empty()).enumerated.len() == 0
        }),
{
    let all = scanned.push(u);
    assert(all.drop_last() =~= scanned);
    let before = initial(roots, scanned);
    assert(before.push(device::device_of(u)).drop_last() =~= before);
}

/// Adding a device that is not there yet, at or below any of the roots, is reported as such, with all
/// that udev says of it, and from then on the device has been seen.
pub proof fn additions_below_any_root_are_reported(
    m: MonitorView,
    e: UdevEventView,
    r: int,
    rest: PathKey,
)
    requires
        e.event_type == EventType::Add,
        0 <= r < m.roots.len(),
        path::components(e.device.syspath) == path::components(m.roots[r]) + rest,
        !m.seen.contains_key(path::components(e.device.syspath)),
    ensures
        ({
            let (next, step) = read(m, PolledView::Event(e));
            &&& step matches ReadStepView::Event(DeviceEventView::Add(d)) && d == device::device_of(
                e.device,
            )
            &&& next.seen == m.seen.insert(
                path::components(e.device.syspath),
                device::device_of(e.device),
            )
            &&& next.roots == m.roots
            &&& next.enumerated == m.enumerated
        }),
{
    every_root_counts(m.roots, r, e.device.syspath, rest);
}

/// Removing a device that has been seen is reported with what was known of it, and it is forgotten.
/// No other event is reported or changes anything: not the removal of a device that has not been
/// seen, nor an addition outside of the roots, nor anything else that udev says.
pub proof fn nothing_but_additions_and_removals_is_reported(m: MonitorView, e: UdevEventView)
    ensures
        ({
            let (next, step) = read(m, PolledView::Event(e));
            let k = path::components(e.device.syspath);
            &&& e.event_type == EventType::Remove && m.seen.contains_key(k) ==> step
                == ReadStepView::Event(DeviceEventView::Remove(m.seen[k])) && next.seen
                == m.seen.remove(k)
            &&& e.event_type == EventType::Remove && !m.seen.contains_key(k) ==> step
                == ReadStepView::Poll && next == m
            &&& e.event_type == EventType::Other ==> step == ReadStepView::Poll && next == m
            &&& e.event_type == EventType::Add && (forall|r: int|
                0 <= r < m.roots.len() ==> !path::under(e.device.syspath, #[trigger] m.roots[r]))
                ==> step == ReadStepView::Poll && next == m
            &&& next.roots == m.roots
            &&& next.enumerated == m.enumerated
        }),
{
}

/// The devices that are there at the start are reported first, one by one and in order, and then the
/// socket is looked at. Once that has nothing, there is nothing to report.
pub proof fn present_devices_are_reported_in_order(m: MonitorView)
    ensures
        m.enumerated.len() == 0 ==> read(m, PolledView::NotYet) == (m, ReadStepView::Poll),
        m.enumerated.len() > 0 ==> {
            let (next, step) = read(m, PolledView::NotYet);
            &&& step == ReadStepView::Event(DeviceEventView::Add(m.enumerated[0]))
            &&& seq![m.enumerated[0]] + next.enumerated == m.enumerated
            &&& next.seen == m.seen
            &&& next.roots == m.roots
        },
        read(m, PolledView::Drained) == (m, ReadStepView::Empty),
{
    if m.enumerated.len() > 0 {
        assert(seq![m.enumerated[0]] + m.enumerated.drop_first() =~= m.enumerated);
    }
}

/// What is said of a device that is added once more ends with its directory.
pub proof fn repeated_additions_are_named(p: Seq<u8>)
    ensures
        seen_shown(p).len() > text::displayed(p).len(),
        seen_shown(p).skip(seen_shown(p).len() - text::displayed(p).len()) == text::displayed(p),
{
    reveal_strlit("Device already seen: ");
    assert(seen_shown(p).skip(seen_shown(p).len() - text::displayed(p).len())
        =~= text::displayed(p));
}

/// Adding a device at or below any of the roots that is there already changes nothing, and names the
/// directory under which it is known.
pub proof fn devices_that_are_there_are_not_added_again(
    m: MonitorView,
    e: UdevEventView,
    r: int,
    rest: PathKey,
)
    requires
        e.event_type == EventType::Add,
        0 <= r < m.roots.len(),
        path::components(e.device.syspath) == path::components(m.roots[r]) + rest,
        m.seen.contains_key(path::components(e.device.syspath)),
    ensures
        read(m, PolledView::Event(e)) == (
            m,
            ReadStepView::Seen(m.seen[path::components(e.device.syspath)].udev.syspath),
        ),
{
    every_root_counts(m.roots, r, e.device.syspath, rest);
}

/// Before anything is scanned nothing is known.
pub proof fn nothing_is_known_without_a_scan(roots: Seq<Seq<u8>>, k: PathKey)
    ensures
        !started(roots, Seq::<device::UdevDeviceView>::empty()).seen.contains_key(k),
        !is_root(Seq::<Seq<u8>>::empty(), k),
{
}

} // verus!

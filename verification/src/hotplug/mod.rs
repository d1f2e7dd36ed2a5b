//! Turning device events into changes inside the container.
pub mod attached_device;
pub mod effects;
pub mod exactness;
pub mod kobject_uevent;
pub mod presence;
pub mod tasks;

pub use attached_device::AttachedDevice;

use crate::cgroup;
use crate::cgroup::{Access, DeviceType};
use crate::cli::symlink;
use crate::cli::Symlink;
use crate::dev::device;
use crate::dev::device::{Device, UdevDevice};
use crate::dev::monitor;
use crate::dev::monitor::{DeviceEvent, DeviceMonitor, Polled, ReadStep};
use crate::event;
use crate::event::Event;
use crate::path;
use crate::path::{PathBuf, PathKey};
use crate::path_map::PathMap;
use vstd::prelude::*;

verus! {

/// What programs inside the container are told of a device.
#[derive(Debug, Clone, Copy, PartialEq, Eq, Structural)]
pub enum Announcement {
    Add,
    Remove,
}

impl Announcement {
    /// The name by which udev knows the announcement.
    pub open spec fn spec_name(self) -> Seq<char> {
        match self {
            Announcement::Add => "add"@,
            Announcement::Remove => "remove"@,
        }
    }

    /// The name by which udev knows the announcement.
    pub fn name(self) -> (r: &'static str)
        ensures
            r@ == self.spec_name(),
    {
        match self {
            Announcement::Add => "add",
            Announcement::Remove => "remove",
        }
    }
}

/// A change to make inside the container.
#[derive(Debug)]
pub enum Action {
    /// Set the access to a device.
    Device(DeviceType, (u32, u32), Access),
    /// Create a device node.
    Mknod(PathBuf, DeviceType, (u32, u32)),
    /// Create a symlink to the first path at the second one.
    Symlink(PathBuf, PathBuf),
    /// Make a sysfs directory writable.
    BindSysfs(PathBuf),
    /// Undo making a sysfs directory writable.
    UnbindSysfs(PathBuf),
    /// Remove a file.
    Rm(PathBuf),
    /// Announce a device as udev would.
    Send(UdevDevice, Announcement),
}

#[verifier::ext_equal]
pub enum ActionView {
    Device(DeviceType, (u32, u32), Access),
    Mknod(Seq<u8>, DeviceType, (u32, u32)),
    Symlink(Seq<u8>, Seq<u8>),
    BindSysfs(Seq<u8>),
    UnbindSysfs(Seq<u8>),
    Rm(Seq<u8>),
    Send(device::UdevDeviceView, Announcement),
}

impl View for Action {
    type V = ActionView;

    open spec fn view(&self) -> ActionView {
        match self {
            Action::Device(ty, devnum, access) => ActionView::Device(*ty, *devnum, *access),
            Action::Mknod(node, ty, devnum) => ActionView::Mknod(node@, *ty, *devnum),
            Action::Symlink(source, link) => ActionView::Symlink(source@, link@),
            Action::BindSysfs(path) => ActionView::BindSysfs(path@),
            Action::UnbindSysfs(path) => ActionView::UnbindSysfs(path@),
            Action::Rm(path) => ActionView::Rm(path@),
            Action::Send(device, announcement) => ActionView::Send(device@, *announcement),
        }
    }
}

impl Clone for Action {
    fn clone(&self) -> (r: Self)
        ensures
            r@ == self@,
    {
        match self {
            Action::Device(ty, devnum, access) => Action::Device(*ty, *devnum, *access),
            Action::Mknod(node, ty, devnum) => Action::Mknod(node.clone(), *ty, *devnum),
            Action::Symlink(source, link) => Action::Symlink(source.clone(), link.clone()),
            Action::BindSysfs(path) => Action::BindSysfs(path.clone()),
            Action::UnbindSysfs(path) => Action::UnbindSysfs(path.clone()),
            Action::Rm(path) => Action::Rm(path.clone()),
            Action::Send(device, announcement) => Action::Send(device.clone(), *announcement),
        }
    }
}

/// A device that is being attached or detached.
#[derive(Debug)]
pub struct Task {
    pub device: AttachedDevice,
    pub attaching: bool,
    /// What there is to do, in order.
    pub actions: Vec<Action>,
    /// How many of the actions are done.
    pub done: usize,
}

pub struct TaskView {
    pub device: attached_device::AttachedDeviceView,
    pub attaching: bool,
    pub actions: Seq<ActionView>,
    pub done: int,
}

impl View for Task {
    type V = TaskView;

    open spec fn view(&self) -> TaskView {
        TaskView {
            device: self.device@,
            attaching: self.attaching,
            actions: self.actions@.map_values(|a: Action| a@),
            done: self.done as int,
        }
    }
}

/// What to do next.
#[derive(Debug)]
pub enum Step {
    /// Take the next event from the udev socket, and run with what came of it.
    Poll,
    /// The device with the given directory was added once more. Log that, see
    /// [`monitor::seen_message`], and carry on as for `Poll`.
    Seen(PathBuf),
    /// Wait for the udev socket to have something pending, then run again.
    Wait,
    /// Perform an action, and resume with whether it succeeded.
    Perform(Action),
    /// Report an event, then run again.
    Emit(Event),
    /// Nothing is to be done about the device event; run again.
    Skip,
    /// The action that was performed had to succeed; give up with its error.
    Fail,
}

pub enum StepView {
    Poll,
    Seen(Seq<u8>),
    Wait,
    Perform(ActionView),
    Emit(event::EventView),
    Skip,
    Fail,
}

impl View for Step {
    type V = StepView;

    open spec fn view(&self) -> StepView {
        match self {
            Step::Poll => StepView::Poll,
            Step::Seen(p) => StepView::Seen(p@),
            Step::Wait => StepView::Wait,
            Step::Perform(a) => StepView::Perform(a@),
            Step::Emit(e) => StepView::Emit(e@),
            Step::Skip => StepView::Skip,
            Step::Fail => StepView::Fail,
        }
    }
}

/// Keeps the devices inside a container in line with those below a set of root devices.
///
/// Start with [`HotPlug::run`] and do what each [`Step`] says.
#[derive(Debug)]
pub struct HotPlug {
    symlinks: Vec<Symlink>,
    /// Whether the sysfs directory of attached devices should be made writable.
    sysfs: bool,
    monitor: DeviceMonitor,
    devices: PathMap<AttachedDevice>,
    /// Devices whose sysfs directory is writable, so that it is known what to undo.
    sysfs_bound: PathMap<()>,
    /// Whether all the devices present at the start have been attached.
    initialized: bool,
    /// What is being done.
    task: Option<Task>,
}

#[verifier::ext_equal]
pub struct HotPlugView {
    pub symlinks: Seq<symlink::SymlinkView>,
    pub sysfs: bool,
    pub monitor: monitor::MonitorView,
    pub devices: Map<PathKey, attached_device::AttachedDeviceView>,
    pub bound: Set<PathKey>,
    pub initialized: bool,
    pub task: Option<TaskView>,
}

pub open spec fn task_view(t: Option<Task>) -> Option<TaskView> {
    match t {
        Some(t) => Some(t@),
        None => None,
    }
}

impl View for HotPlug {
    type V = HotPlugView;

    closed spec fn view(&self) -> HotPlugView {
        HotPlugView {
            symlinks: self.symlinks@.map_values(|l: Symlink| l@),
            sysfs: self.sysfs,
            monitor: self.monitor@,
            devices: self.devices@,
            bound: self.sysfs_bound@.dom(),
            initialized: self.initialized,
            task: task_view(self.task),
        }
    }
}

/// The paths inside the container that are to be symlinked to a device.
pub open spec fn links_for(rules: Seq<symlink::SymlinkView>, u: device::UdevDeviceView) -> Seq<
    Seq<u8>,
> {
    rules.filter(|l: symlink::SymlinkView| symlink::applies(l.device, u)).map_values(
        |l: symlink::SymlinkView| l.path,
    )
}

/// What it takes to attach a device.
pub open spec fn attach_actions(
    d: device::DeviceView,
    node: device::DevNodeView,
    links: Seq<Seq<u8>>,
    sysfs: bool,
) -> Seq<ActionView> {
    seq![
        ActionView::Device(node.ty, node.devnum, cgroup::all_access()),
        ActionView::Mknod(node.path, node.ty, node.devnum),
    ] + links.map_values(|l: Seq<u8>| ActionView::Symlink(node.path, l)) + (if sysfs {
        seq![ActionView::BindSysfs(d.syspath())]
    } else {
        seq![]
    }) + seq![ActionView::Send(d.udev, Announcement::Add)]
}

/// What it takes to detach a device.
pub open spec fn detach_actions(
    d: device::DeviceView,
    node: device::DevNodeView,
    links: Seq<Seq<u8>>,
    bound: bool,
) -> Seq<ActionView> {
    (if bound {
        seq![ActionView::UnbindSysfs(d.syspath())]
    } else {
        seq![]
    }) + seq![
        ActionView::Device(node.ty, node.devnum, Access { bits: 0 }),
        ActionView::Rm(node.path),
    ] + links.map_values(|l: Seq<u8>| ActionView::Rm(l)) + seq![
        ActionView::Send(d.udev, Announcement::Remove),
    ]
}

/// The task of attaching a device.
pub open spec fn attach_task(h: HotPlugView, d: device::DeviceView, node: device::DevNodeView) -> TaskView {
    let links = links_for(h.symlinks, d.udev);
    TaskView {
        device: attached_device::AttachedDeviceView { device: d, symlinks: links },
        attaching: true,
        actions: attach_actions(d, node, links, h.sysfs),
        done: 0,
    }
}

/// The task of detaching an attached device.
pub open spec fn detach_task(
    h: HotPlugView,
    a: attached_device::AttachedDeviceView,
    node: device::DevNodeView,
) -> TaskView {
    TaskView {
        device: a,
        attaching: false,
        actions: detach_actions(a.device, node, a.symlinks, h.bound.contains(a.device.key())),
        done: 0,
    }
}

/// What a device event leads to: a device with a node is attached when it is added, and an attached
/// device is detached when it is removed. The removal of a root device is reported even where it is
/// not attached.
pub open spec fn processed(h: HotPlugView, e: monitor::DeviceEventView) -> (HotPlugView, StepView) {
    match e {
        monitor::DeviceEventView::Add(d) => match d.devnode {
            Some(node) => {
                let t = attach_task(h, d, node);
                (HotPlugView { task: Some(t), ..h }, StepView::Perform(t.actions[0]))
            },
            None => (h, StepView::Skip),
        },
        monitor::DeviceEventView::Remove(d) => if h.devices.contains_key(d.key()) {
            let a = h.devices[d.key()];
            let t = detach_task(h, a, a.device.devnode->0);
            (
                HotPlugView {
                    devices: h.devices.remove(d.key()),
                    bound: h.bound.remove(a.device.key()),
                    task: Some(t),
                    ..h
                },
                StepView::Perform(t.actions[0]),
            )
        } else if monitor::is_root(h.monitor.roots, d.key()) {
            (h, StepView::Emit(event::EventView::Unplugged(d)))
        } else {
            (h, StepView::Skip)
        },
    }
}

/// What running leads to.
pub open spec fn ran(h: HotPlugView, polled: monitor::PolledView) -> (HotPlugView, StepView) {
    let (m, step) = monitor::read(h.monitor, polled);
    let h = HotPlugView { monitor: m, ..h };
    match step {
        monitor::ReadStepView::Event(e) => processed(h, e),
        monitor::ReadStepView::Poll => (h, StepView::Poll),
        monitor::ReadStepView::Seen(p) => (h, StepView::Seen(p)),
        monitor::ReadStepView::Empty => if h.initialized {
            (h, StepView::Wait)
        } else {
            (
                HotPlugView { initialized: true, ..h },
                StepView::Emit(event::EventView::Initialized),
            )
        },
    }
}

/// What the outcome of an action leads to. Only making sysfs writable may fail.
pub open spec fn resumed(h: HotPlugView, t: TaskView, ok: bool) -> (HotPlugView, StepView) {
    let action = t.actions[t.done];
    if !ok && !(action is BindSysfs) {
        (HotPlugView { task: None, ..h }, StepView::Fail)
    } else {
        let bound = match action {
            ActionView::BindSysfs(p) => if ok {
                h.bound.insert(path::components(p))
            } else {
                h.bound
            },
            _ => h.bound,
        };
        if t.done + 1 < t.actions.len() {
            (
                HotPlugView { bound, task: Some(TaskView { done: t.done + 1, ..t }), ..h },
                StepView::Perform(t.actions[t.done + 1]),
            )
        } else if t.attaching {
            (
                HotPlugView {
                    devices: h.devices.insert(t.device.device.key(), t.device),
                    bound,
                    task: None,
                    ..h
                },
                StepView::Emit(event::EventView::Attach(t.device)),
            )
        } else {
            (
                HotPlugView { bound, task: None, ..h },
                StepView::Emit(event::EventView::Detach(t.device)),
            )
        }
    }
}

/// Whether a task is one of those that [`processed`] gives.
pub open spec fn valid_task(t: TaskView) -> bool {
    &&& 0 <= t.done < t.actions.len()
    &&& t.attaching ==> t.device.device.devnode is Some
}

impl HotPlugView {
    /// Every attached device has a device node, and what is being done is not finished.
    pub open spec fn wf(self) -> bool {
        &&& forall|k: PathKey| #[trigger]
            self.devices.contains_key(k) ==> self.devices[k].device.devnode is Some
        &&& self.task matches Some(t) ==> valid_task(t)
    }
}

/// How [`HotPlug`] starts.
pub open spec fn started(
    roots: Seq<Seq<u8>>,
    scanned: Seq<device::UdevDeviceView>,
    symlinks: Seq<symlink::SymlinkView>,
    sysfs: bool,
) -> HotPlugView {
    HotPlugView {
        symlinks,
        sysfs,
        monitor: monitor::started(roots, scanned),
        devices: Map::empty(),
        bound: Set::empty(),
        initialized: false,
        task: None,
    }
}

/// The symlinks that are to be created for `device`.
fn matching(rules: &Vec<Symlink>, device: &Device) -> (r: Vec<PathBuf>)
    ensures
        r.deep_view() == links_for(rules@.map_values(|l: Symlink| l@), device@.udev),
{
    let ghost all = rules@.map_values(|l: Symlink| l@);
    let ghost u = device@.udev;
    let mut r: Vec<PathBuf> = Vec::new();
    let mut i: usize = 0;
    proof {
        reveal(Seq::filter);
        assert(all.take(0) =~= seq![]);
        assert(links_for(all.take(0), u) =~= seq![]);
        assert(r.deep_view() =~= seq![]);
    }
    while i < rules.len()
        invariant
            i <= rules@.len(),
            all == rules@.map_values(|l: Symlink| l@),
            u == device@.udev,
            r.deep_view() == links_for(all.take(i as int), u),
        decreases rules@.len() - i,
    {
        let ghost before = links_for(all.take(i as int), u);
        proof {
            reveal(Seq::filter);
            let now = all.take(i + 1);
            assert(now.drop_last() =~= all.take(i as int));
            assert(now.last() == all[i as int]);
            if symlink::applies(all[i as int].device, u) {
                assert(links_for(now, u) =~= before.push(all[i as int].path));
            } else {
                assert(links_for(now, u) =~= before);
            }
        }
        if let Some(link) = rules[i].matches(device) {
            let ghost l = link@;
            r.push(link);
            assert(r.deep_view() =~= before.push(l));
        }
        i = i + 1;
    }
    assert(all.take(i as int) =~= all);
    r
}

/// The views of some actions.
pub open spec fn views(actions: Seq<Action>) -> Seq<ActionView> {
    actions.map_values(|a: Action| a@)
}

/// What it takes to attach a device, as [`attach_actions`].
fn attaching(device: &Device, node: &device::DevNode, links: &Vec<PathBuf>, sysfs: bool) -> (r: Vec<
    Action,
>)
    ensures
        views(r@) == attach_actions(device@, node@, links.deep_view(), sysfs),
{
    let ghost f = |l: Seq<u8>| ActionView::Symlink(node@.path, l);
    let ghost all = links.deep_view();
    let mut r: Vec<Action> = Vec::new();
    r.push(Action::Device(node.ty, node.devnum, Access::all()));
    r.push(Action::Mknod(node.path.clone(), node.ty, node.devnum));
    let ghost head = views(r@);
    let mut i: usize = 0;
    assert(head =~= head + all.take(0).map_values(f));
    while i < links.len()
        invariant
            i <= links@.len(),
            all == links.deep_view(),
            f == (|l: Seq<u8>| ActionView::Symlink(node@.path, l)),
            views(r@) == head + all.take(i as int).map_values(f),
        decreases links@.len() - i,
    {
        let ghost before = r@;
        r.push(Action::Symlink(node.path.clone(), links[i].clone()));
        assert(all[i as int] == links@[i as int]@);
        assert(views(r@) =~= views(before).push(f(all[i as int])));
        assert(all.take(i + 1).map_values(f) =~= all.take(i as int).map_values(f).push(
            f(all[i as int]),
        ));
        assert(views(r@) =~= head + all.take(i + 1).map_values(f));
        i = i + 1;
    }
    assert(all.take(i as int) =~= all);
    if sysfs {
        r.push(Action::BindSysfs(device.syspath().clone()));
    }
    r.push(Action::Send(device.udev().clone(), Announcement::Add));
    assert(head =~= seq![
        ActionView::Device(node@.ty, node@.devnum, cgroup::all_access()),
        ActionView::Mknod(node@.path, node@.ty, node@.devnum),
    ]);
    assert(views(r@) =~= attach_actions(device@, node@, all, sysfs));
    r
}

/// What it takes to detach a device, as [`detach_actions`].
fn detaching(device: &Device, node: &device::DevNode, links: &Vec<PathBuf>, bound: bool) -> (r: Vec<
    Action,
>)
    ensures
        views(r@) == detach_actions(device@, node@, links.deep_view(), bound),
{
    let ghost f = |l: Seq<u8>| ActionView::Rm(l);
    let ghost all = links.deep_view();
    let mut r: Vec<Action> = Vec::new();
    if bound {
        r.push(Action::UnbindSysfs(device.syspath().clone()));
    }
    r.push(Action::Device(node.ty, node.devnum, Access::empty()));
    r.push(Action::Rm(node.path.clone()));
    let ghost head = views(r@);
    let mut i: usize = 0;
    assert(head =~= head + all.take(0).map_values(f));
    while i < links.len()
        invariant
            i <= links@.len(),
            all == links.deep_view(),
            f == (|l: Seq<u8>| ActionView::Rm(l)),
            views(r@) == head + all.take(i as int).map_values(f),
        decreases links@.len() - i,
    {
        let ghost before = r@;
        r.push(Action::Rm(links[i].clone()));
        assert(all[i as int] == links@[i as int]@);
        assert(views(r@) =~= views(before).push(f(all[i as int])));
        assert(all.take(i + 1).map_values(f) =~= all.take(i as int).map_values(f).push(
            f(all[i as int]),
        ));
        assert(views(r@) =~= head + all.take(i + 1).map_values(f));
        i = i + 1;
    }
    assert(all.take(i as int) =~= all);
    r.push(Action::Send(device.udev().clone(), Announcement::Remove));
    assert(head =~= (if bound {
        seq![ActionView::UnbindSysfs(device@.syspath())]
    } else {
        seq![]
    }) + seq![
        ActionView::Device(node@.ty, node@.devnum, Access { bits: 0 }),
        ActionView::Rm(node@.path),
    ]);
    assert(views(r@) =~= detach_actions(device@, node@, all, bound));
    r
}

impl HotPlug {
    /// Prepare to keep a container in line with the devices below `hub_path`.
    ///
    /// `scanned` are the devices that are present now.
    pub fn new(
        hub_path: Vec<PathBuf>,
        scanned: Vec<UdevDevice>,
        symlinks: Vec<Symlink>,
        sysfs: bool,
    ) -> (r: HotPlug)
        ensures
            r@ == started(
                hub_path.deep_view(),
                scanned@.map_values(|u: UdevDevice| u@),
                symlinks@.map_values(|l: Symlink| l@),
                sysfs,
            ),
            r@.wf(),
    {
        let r = HotPlug {
            symlinks,
            sysfs,
            monitor: DeviceMonitor::new(hub_path, scanned),
            devices: PathMap::new(),
            sysfs_bound: PathMap::new(),
            initialized: false,
            task: None,
        };
        assert(r@.bound =~= Set::empty());
        r
    }

    /// The step that comes first for the task at hand.
    fn first(&self) -> (r: Step)
        requires
            self@.task matches Some(t) && valid_task(t),
        ensures
            r@ == StepView::Perform(self@.task->0.actions[self@.task->0.done]),
    {
        match &self.task {
            Some(t) => {
                let a = t.actions[t.done].clone();
                assert(views(t.actions@)[t.done as int] == a@);
                Step::Perform(a)
            },
            None => Step::Fail,
        }
    }

    /// What to do about a device event.
    pub fn process(&mut self, event: DeviceEvent) -> (r: Step)
        requires
            old(self)@.wf(),
            old(self)@.task is None,
        ensures
            (final(self)@, r@) == processed(old(self)@, event@),
            final(self)@.wf(),
    {
        let ghost h = self@;
        match event {
            DeviceEvent::Add(device) => {
                let (links, actions) = match device.devnode() {
                    None => {
                        return Step::Skip;
                    },
                    Some(node) => {
                        let links = matching(&self.symlinks, &device);
                        let actions = attaching(&device, node, &links, self.sysfs);
                        (links, actions)
                    },
                };
                self.task = Some(
                    Task {
                        device: AttachedDevice { device, symlinks: links },
                        attaching: true,
                        actions,
                        done: 0,
                    },
                );
                proof {
                    let t = self@.task->0;
                    assert(t.actions == views(actions@));
                    assert(t.actions[0] is Device);
                }
                self.first()
            },
            DeviceEvent::Remove(device) => {
                let a = match self.devices.remove(device.syspath()) {
                    None => {
                        assert(self@.devices =~= h.devices);
                        if self.monitor.is_root(device.syspath()) {
                            return Step::Emit(Event::Unplugged(device));
                        }
                        return Step::Skip;
                    },
                    Some(a) => a,
                };
                assert(h.devices.contains_key(device@.key()));
                let ghost bound = self.sysfs_bound@;
                let was_bound = self.sysfs_bound.remove(a.device.syspath()).is_some();
                assert(bound.remove(a@.device.key()).dom() =~= h.bound.remove(a@.device.key()));
                let actions = match a.device.devnode() {
                    None => Vec::new(),
                    Some(node) => detaching(&a.device, node, &a.symlinks, was_bound),
                };
                self.task = Some(Task { device: a, attaching: false, actions, done: 0 });
                proof {
                    let t = self@.task->0;
                    assert(t.actions == views(actions@));
                    assert(t.actions.len() > 0);
                }
                self.first()
            },
        }
    }

    /// Take up the next device event.
    ///
    /// Start with [`Polled::NotYet`]; where the answer is [`Step::Poll`] or [`Step::Seen`], take the
    /// next event from the udev socket and run with what came of it.
    pub fn run(&mut self, polled: Polled) -> (r: Step)
        requires
            old(self)@.wf(),
            old(self)@.task is None,
            !(polled is NotYet) ==> old(self)@.monitor.enumerated.len() == 0,
        ensures
            (final(self)@, r@) == ran(old(self)@, polled@),
            final(self)@.wf(),
    {
        match self.monitor.try_read(polled) {
            ReadStep::Event(event) => self.process(event),
            ReadStep::Poll => Step::Poll,
            ReadStep::Seen(p) => Step::Seen(p),
            ReadStep::Empty => if self.initialized {
                Step::Wait
            } else {
                self.initialized = true;
                Step::Emit(Event::Initialized)
            },
        }
    }

    /// Carry on after an action was performed. `ok` says whether it succeeded.
    pub fn resume(&mut self, ok: bool) -> (r: Step)
        requires
            old(self)@.wf(),
            old(self)@.task is Some,
        ensures
            (final(self)@, r@) == resumed(old(self)@, old(self)@.task->0, ok),
            final(self)@.wf(),
    {
        let ghost h = self@;
        let ghost t = self@.task->0;
        let mut task = match self.task.take() {
            Some(task) => task,
            None => {
                return Step::Fail;
            },
        };
        assert(task@ == t);
        assert(views(task.actions@)[task.done as int] == task.actions@[task.done as int]@);
        match &task.actions[task.done] {
            Action::BindSysfs(p) => {
                if ok {
                    let ghost bound = self.sysfs_bound@;
                    self.sysfs_bound.insert(p.clone(), ());
                    assert(bound.insert(path::components(p@), ()).dom() =~= h.bound.insert(
                        path::components(p@),
                    ));
                }
            },
            _ => {
                if !ok {
                    return Step::Fail;
                }
            },
        }
        let count = task.actions.len();
        task.done = task.done + 1;
        if task.done < count {
            self.task = Some(task);
            self.first()
        } else if task.attaching {
            self.devices.insert(task.device.device.syspath().clone(), task.device.clone());
            Step::Emit(Event::Attach(task.device))
        } else {
            Step::Emit(Event::Detach(task.device))
        }
    }
}

} // verus!

//! What device events lead to, action by action.
use crate::cgroup::Access;
use crate::cli::symlink;
use crate::dev::device;
use crate::dev::monitor;
use crate::event;
use crate::hotplug;
use crate::hotplug::attached_device;
use crate::path;
use crate::path::PathKey;
use crate::text;
use vstd::prelude::*;

verus! {

/// Rules are tried one after the other, each on its own: what some rules and then some more give is
/// what the first ones give and then what the others give. A rule that applies gives its path.
pub proof fn rules_are_tried_one_by_one(
    a: Seq<symlink::SymlinkView>,
    b: Seq<symlink::SymlinkView>,
    rule: symlink::SymlinkView,
    u: device::UdevDeviceView,
)
    ensures
        hotplug::links_for(a + b, u) == hotplug::links_for(a, u) + hotplug::links_for(b, u),
        hotplug::links_for(seq![rule], u) == if symlink::applies(rule.device, u) {
            seq![rule.path]
        } else {
            Seq::<Seq<u8>>::empty()
        },
        hotplug::links_for(Seq::<symlink::SymlinkView>::empty(), u).len() == 0,
    decreases b.len(),
{
    reveal(Seq::filter);
    let f = |l: symlink::SymlinkView| symlink::applies(l.device, u);
    let none = Seq::<symlink::SymlinkView>::empty();
    let one = seq![rule];
    assert(none.filter(f) =~= none);
    assert(one.drop_last() =~= none);
    assert(one.last() == rule);
    if f(rule) {
        assert(one.filter(f) =~= seq![rule]);
        assert(hotplug::links_for(one, u) =~= seq![rule.path]);
    } else {
        assert(hotplug::links_for(one, u) =~= Seq::<Seq<u8>>::empty());
    }
    if b.len() == 0 {
        assert(a + b =~= a);
        assert(b =~= none);
        assert(hotplug::links_for(a, u) + hotplug::links_for(b, u) =~= hotplug::links_for(a, u));
    } else {
        let c = b.drop_last();
        rules_are_tried_one_by_one(a, c, rule, u);
        assert((a + b).drop_last() =~= a + c);
        assert((a + b).last() == b.last());
        assert(hotplug::links_for(a + b, u) =~= hotplug::links_for(a, u) + hotplug::links_for(b, u));
    }
}

/// Every rule that applies to a device gives it a link, wherever the rule stands among the others.
pub proof fn every_matching_rule_gives_a_link(
    rules: Seq<symlink::SymlinkView>,
    u: device::UdevDeviceView,
    i: int,
)
    requires
        0 <= i < rules.len(),
        symlink::applies(rules[i].device, u),
    ensures
        hotplug::links_for(rules, u).contains(rules[i].path),
{
    let a = rules.take(i);
    let b = seq![rules[i]];
    let c = rules.skip(i + 1);
    assert(rules =~= a + b + c);
    rules_are_tried_one_by_one(a + b, c, rules[i], u);
    rules_are_tried_one_by_one(a, b, rules[i], u);
    let n = hotplug::links_for(a, u).len() as int;
    assert(hotplug::links_for(rules, u)[n] == rules[i].path);
}

/// Every link of a device is the path of a rule that applies to it.
pub proof fn every_link_is_of_a_matching_rule(
    rules: Seq<symlink::SymlinkView>,
    u: device::UdevDeviceView,
    link: Seq<u8>,
)
    requires
        hotplug::links_for(rules, u).contains(link),
    ensures
        exists|i: int|
            0 <= i < rules.len() && (#[trigger] rules[i]).path == link && symlink::applies(
                rules[i].device,
                u,
            ),
    decreases rules.len(),
{
    let all = hotplug::links_for(rules, u);
    if rules.len() == 0 {
        assert(rules =~= Seq::empty());
        rules_are_tried_one_by_one(rules, rules, rules[0], u);
        assert(all.len() == 0);
    } else {
        let a = rules.drop_last();
        let last = rules.last();
        assert(rules =~= a + seq![last]);
        rules_are_tried_one_by_one(a, seq![last], last, u);
        let j = choose|j: int| 0 <= j < all.len() && all[j] == link;
        if j < hotplug::links_for(a, u).len() {
            assert(hotplug::links_for(a, u)[j] == link);
            every_link_is_of_a_matching_rule(a, u, link);
            let i = choose|i: int|
                0 <= i < a.len() && (#[trigger] a[i]).path == link && symlink::applies(
                    a[i].device,
                    u,
                );
            assert(rules[i] == a[i]);
        } else {
            assert(rules[rules.len() - 1] == last);
        }
    }
}

/// Adding a device that has a node attaches it: all access to its number is granted, its node is
/// created with its type and number, each of its links is made to lead to the node, its directory is
/// made writable if that is asked for, and programs are told. That is all, and it is done in that
/// order.
pub proof fn additions_are_attached(
    h: hotplug::HotPlugView,
    d: device::DeviceView,
    node: device::DevNodeView,
)
    requires
        d.devnode == Some(node),
    ensures
        ({
            let (next, step) = hotplug::processed(h, monitor::DeviceEventView::Add(d));
            let links = hotplug::links_for(h.symlinks, d.udev);
            &&& next.task is Some
            &&& {
                let t = next.task->0;
                let n = links.len() as int;
                &&& t.attaching
                &&& t.done == 0
                &&& t.device.device == d
                &&& t.device.symlinks == links
                &&& step == hotplug::StepView::Perform(t.actions[0])
                &&& t.actions.len() == 3 + n + (if h.sysfs {
                    1int
                } else {
                    0
                })
                &&& t.actions[0] == hotplug::ActionView::Device(
                    node.ty,
                    node.devnum,
                    Access { bits: 7 },
                )
                &&& t.actions[1] == hotplug::ActionView::Mknod(node.path, node.ty, node.devnum)
                &&& forall|i: int|
                    0 <= i < n ==> t.actions[2 + i] == hotplug::ActionView::Symlink(
                        node.path,
                        #[trigger] links[i],
                    )
                &&& h.sysfs ==> t.actions[2 + n] == hotplug::ActionView::BindSysfs(d.udev.syspath)
                &&& t.actions.last() == hotplug::ActionView::Send(
                    d.udev,
                    hotplug::Announcement::Add,
                )
            }
            &&& next == hotplug::HotPlugView { task: next.task, ..h }
        }),
{
}

/// Whatever rule of the annotations applies to a device that is added, there is an action that links
/// its path to the node.
pub proof fn matching_rules_are_linked(
    h: hotplug::HotPlugView,
    d: device::DeviceView,
    i: int,
)
    requires
        d.devnode is Some,
        0 <= i < h.symlinks.len(),
        symlink::applies(h.symlinks[i].device, d.udev),
    ensures
        ({
            let t = hotplug::processed(h, monitor::DeviceEventView::Add(d)).0.task->0;
            &&& t.device.symlinks.contains(h.symlinks[i].path)
            &&& t.actions.contains(
                hotplug::ActionView::Symlink((d.devnode->0).path, h.symlinks[i].path),
            )
        }),
{
    let node = d.devnode->0;
    let links = hotplug::links_for(h.symlinks, d.udev);
    let t = hotplug::processed(h, monitor::DeviceEventView::Add(d)).0.task->0;
    every_matching_rule_gives_a_link(h.symlinks, d.udev, i);
    additions_are_attached(h, d, node);
    let j = choose|j: int| 0 <= j < links.len() && links[j] == h.symlinks[i].path;
    assert(t.actions[2 + j] == hotplug::ActionView::Symlink(node.path, links[j]));
}

/// Removing an attached device detaches it: its directory is no longer writable if it was, all access
/// to its number is revoked, its node and each of its links are removed, and programs are told. That
/// is all, and it is done in that order, with what was known of the device when it was attached.
pub proof fn removals_are_detached(h: hotplug::HotPlugView, d: device::DeviceView)
    requires
        h.devices.contains_key(path::components(d.udev.syspath)),
    ensures
        ({
            let k = path::components(d.udev.syspath);
            let a = h.devices[k];
            let own = path::components(a.device.udev.syspath);
            let node = a.device.devnode->0;
            let (next, step) = hotplug::processed(h, monitor::DeviceEventView::Remove(d));
            &&& next.task is Some
            &&& {
                let t = next.task->0;
                let n = a.symlinks.len() as int;
                let b: int = if h.bound.contains(own) {
                    1
                } else {
                    0
                };
                &&& !t.attaching
                &&& t.done == 0
                &&& t.device == a
                &&& step == hotplug::StepView::Perform(t.actions[0])
                &&& t.actions.len() == b + 3 + n
                &&& h.bound.contains(own) ==> t.actions[0] == hotplug::ActionView::UnbindSysfs(
                    a.device.udev.syspath,
                )
                &&& t.actions[b] == hotplug::ActionView::Device(
                    node.ty,
                    node.devnum,
                    Access { bits: 0 },
                )
                &&& t.actions[b + 1] == hotplug::ActionView::Rm(node.path)
                &&& forall|i: int|
                    0 <= i < n ==> t.actions[b + 2 + i] == hotplug::ActionView::Rm(
                        #[trigger] a.symlinks[i],
                    )
                &&& t.actions.last() == hotplug::ActionView::Send(
                    a.device.udev,
                    hotplug::Announcement::Remove,
                )
            }
            &&& next == hotplug::HotPlugView {
                task: next.task,
                devices: h.devices.remove(k),
                bound: h.bound.remove(own),
                ..h
            }
        }),
{
}

/// A device without a node is passed over, and so is the removal of a device that is not attached,
/// unless it is a root, of which that is reported. Nothing changes.
pub proof fn other_events_change_nothing(h: hotplug::HotPlugView, d: device::DeviceView)
    ensures
        d.devnode is None ==> hotplug::processed(h, monitor::DeviceEventView::Add(d)) == (
            h,
            hotplug::StepView::Skip,
        ),
        !h.devices.contains_key(path::components(d.udev.syspath)) ==> {
            let (next, step) = hotplug::processed(h, monitor::DeviceEventView::Remove(d));
            let root = exists|i: int|
                0 <= i < h.monitor.roots.len() && path::components(#[trigger] h.monitor.roots[i])
                    == path::components(d.udev.syspath);
            &&& next == h
            &&& root ==> step == hotplug::StepView::Emit(event::EventView::Unplugged(d))
            &&& !root ==> step == hotplug::StepView::Skip
        },
{
}

/// Once an action is done the next one comes, in the order in which they are listed.
pub proof fn actions_come_in_order(h: hotplug::HotPlugView, t: hotplug::TaskView, ok: bool)
    requires
        0 <= t.done,
        t.done + 1 < t.actions.len(),
        ok || t.actions[t.done] is BindSysfs,
    ensures
        ({
            let (next, step) = hotplug::resumed(h, t, ok);
            &&& step == hotplug::StepView::Perform(t.actions[t.done + 1])
            &&& next.task is Some
            &&& (next.task->0).done == t.done + 1
            &&& (next.task->0).actions == t.actions
            &&& (next.task->0).device == t.device
            &&& (next.task->0).attaching == t.attaching
            &&& next.devices == h.devices
            &&& next.monitor == h.monitor
            &&& next.symlinks == h.symlinks
            &&& next.sysfs == h.sysfs
            &&& next.initialized == h.initialized
        }),
{
}

/// Once the last action is done the device is attached, or no longer is, and that is reported.
pub proof fn last_action_is_reported(h: hotplug::HotPlugView, t: hotplug::TaskView, ok: bool)
    requires
        0 <= t.done,
        t.done + 1 == t.actions.len(),
        ok || t.actions[t.done] is BindSysfs,
    ensures
        ({
            let (next, step) = hotplug::resumed(h, t, ok);
            &&& next.task is None
            &&& t.attaching ==> step == hotplug::StepView::Emit(event::EventView::Attach(t.device))
                && next.devices == h.devices.insert(
                path::components(t.device.device.udev.syspath),
                t.device,
            )
            &&& !t.attaching ==> step == hotplug::StepView::Emit(event::EventView::Detach(t.device))
                && next.devices == h.devices
            &&& next.monitor == h.monitor
            &&& next.symlinks == h.symlinks
            &&& next.sysfs == h.sysfs
            &&& next.initialized == h.initialized
        }),
{
}

/// A directory counts as writable just if making it so worked, and no other action changes that.
pub proof fn writable_directories_are_kept_track_of(
    h: hotplug::HotPlugView,
    t: hotplug::TaskView,
    ok: bool,
    k: PathKey,
)
    requires
        0 <= t.done < t.actions.len(),
    ensures
        hotplug::resumed(h, t, ok).0.bound.contains(k) <==> h.bound.contains(k) || (ok && (
        t.actions[t.done] matches hotplug::ActionView::BindSysfs(p) && path::components(p) == k)),
{
}

/// An action that fails ends everything, but for making sysfs writable.
pub proof fn failures_are_fatal_but_for_sysfs(h: hotplug::HotPlugView, t: hotplug::TaskView)
    requires
        0 <= t.done < t.actions.len(),
    ensures
        hotplug::resumed(h, t, false).1 is Fail <==> !(t.actions[t.done] is BindSysfs),
        !(hotplug::resumed(h, t, true).1 is Fail),
        hotplug::resumed(h, t, false).1 is Fail ==> hotplug::resumed(h, t, false).0
            == (hotplug::HotPlugView { task: None, ..h }),
{
}

/// The container is reported to be initialized the first time that nothing is left to be read, and
/// after that there is only waiting. What the monitor reports is acted on.
pub proof fn initialized_when_nothing_is_left(h: hotplug::HotPlugView, polled: monitor::PolledView)
    ensures
        ({
            let (m, read) = monitor::read(h.monitor, polled);
            let g = hotplug::HotPlugView { monitor: m, ..h };
            let (next, step) = hotplug::ran(h, polled);
            &&& read is Empty && !h.initialized ==> step == hotplug::StepView::Emit(
                event::EventView::Initialized,
            ) && next == hotplug::HotPlugView { initialized: true, ..g }
            &&& read is Empty && h.initialized ==> step is Wait && next == g
            &&& read is Poll ==> step is Poll && next == g
            &&& read matches monitor::ReadStepView::Seen(p) ==> step == hotplug::StepView::Seen(p)
                && next == g
            &&& read matches monitor::ReadStepView::Event(e) ==> (next, step) == hotplug::processed(
                g,
                e,
            )
        }),
{
}

/// Nothing is attached or known at the start, and nothing is under way.
pub proof fn nothing_is_attached_at_the_start(
    roots: Seq<Seq<u8>>,
    scanned: Seq<device::UdevDeviceView>,
    symlinks: Seq<symlink::SymlinkView>,
    sysfs: bool,
    k: PathKey,
)
    ensures
        ({
            let h = hotplug::started(roots, scanned, symlinks, sysfs);
            &&& !h.devices.contains_key(k)
            &&& !h.bound.contains(k)
            &&& !h.initialized
            &&& h.task is None
            &&& h.symlinks == symlinks
            &&& h.sysfs == sysfs
            &&& h.monitor.roots == roots
        }),
{
}

/// The announcements go by the names that udev has for them.
pub proof fn announcements_are_named()
    ensures
        hotplug::Announcement::Add.spec_name() == seq!['a', 'd', 'd'],
        hotplug::Announcement::Remove.spec_name() == seq!['r', 'e', 'm', 'o', 'v', 'e'],
{
    reveal_strlit("add");
    reveal_strlit("remove");
    assert("add"@ =~= seq!['a', 'd', 'd']);
    assert("remove"@ =~= seq!['r', 'e', 'm', 'o', 'v', 'e']);
}

/// The text for an attached device is that for the device, with each of its links in it behind a
/// comma.
pub proof fn links_are_shown_behind_the_node(
    d: device::DeviceView,
    links: Seq<Seq<u8>>,
    link: Seq<u8>,
)
    ensures
        attached_device::shown(
            attached_device::AttachedDeviceView { device: d, symlinks: seq![] },
        ) == device::heading(d).push(']'),
        ({
            let a = attached_device::shown(
                attached_device::AttachedDeviceView { device: d, symlinks: links },
            );
            let b = attached_device::shown(
                attached_device::AttachedDeviceView { device: d, symlinks: links.push(link) },
            );
            b == a.drop_last() + seq![',', ' '] + text::displayed(link) + seq![']']
        }),
{
    reveal_strlit("]");
    reveal_strlit(", ");
    assert("]"@ =~= seq![']']);
    assert(", "@ =~= seq![',', ' ']);
    let none = Seq::<Seq<u8>>::empty();
    assert(attached_device::shown(
        attached_device::AttachedDeviceView { device: d, symlinks: none },
    ) =~= device::heading(d).push(']'));
    assert(links.push(link).drop_last() =~= links);
    let a = attached_device::shown(
        attached_device::AttachedDeviceView { device: d, symlinks: links },
    );
    let b = attached_device::shown(
        attached_device::AttachedDeviceView { device: d, symlinks: links.push(link) },
    );
    assert(a.drop_last() =~= device::heading(d) + attached_device::links_shown(links));
    assert(b =~= a.drop_last() + seq![',', ' '] + text::displayed(link) + seq![']']);
}

/// What is said of an event names the device, and tells the events apart.
pub proof fn events_are_shown_with_their_device(
    a: attached_device::AttachedDeviceView,
    d: device::DeviceView,
)
    ensures
        event::shown(event::EventView::Attach(a)) == "Attaching device "@ + attached_device::shown(a),
        event::shown(event::EventView::Detach(a)) == "Detaching device "@ + attached_device::shown(a),
        event::shown(event::EventView::Unplugged(d)) == "Unplugged root device "@
            + attached_device::shown(
            attached_device::AttachedDeviceView { device: d, symlinks: seq![] },
        ),
        event::shown(event::EventView::Initialized) == "Container initialized"@,
        event::shown(event::EventView::Stopped) == "Container stopped"@,
{
    links_are_shown_behind_the_node(d, seq![], seq![]);
    reveal_strlit("]");
    assert(event::shown(event::EventView::Unplugged(d)) =~= "Unplugged root device "@
        + attached_device::shown(
        attached_device::AttachedDeviceView { device: d, symlinks: seq![] },
    ));
}

} // verus!

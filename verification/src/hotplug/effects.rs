//! What attaching and detaching devices does to a container, and what holds of it throughout.
use crate::cgroup;
use crate::cgroup::{Access, DeviceType};
use crate::dev::device;
use crate::event;
use crate::hotplug;
use crate::path;
use crate::path::PathKey;
use crate::runc::container;
use crate::util::namespace;
use vstd::prelude::*;

verus! {

/// A file inside the container.
pub enum FileView {
    Node(DeviceType, (u32, u32)),
    Link(Seq<u8>),
    /// Anything that the actions do not create.
    Other,
}

/// What of a container the actions change.
#[verifier::ext_equal]
pub struct Inside {
    /// The operations that are permitted on each device.
    pub access: Map<cgroup::Device, u32>,
    /// The device nodes and symlinks.
    pub files: Map<PathKey, FileView>,
    /// The sysfs directories that are writable.
    pub writable: Set<PathKey>,
}

/// The container after an action that succeeds.
pub open spec fn after(c: Inside, action: hotplug::ActionView) -> Inside {
    match action {
        hotplug::ActionView::Device(ty, devnum, access) => Inside {
            access: cgroup::updated(c.access, cgroup::permission(ty, devnum, access)),
            ..c
        },
        hotplug::ActionView::Mknod(node, ty, devnum) => Inside {
            files: c.files.insert(path::components(node), FileView::Node(ty, devnum)),
            ..c
        },
        hotplug::ActionView::Symlink(source, link) => Inside {
            files: c.files.insert(path::components(link), FileView::Link(source)),
            ..c
        },
        hotplug::ActionView::BindSysfs(p) => Inside {
            writable: c.writable.insert(path::components(p)),
            ..c
        },
        hotplug::ActionView::UnbindSysfs(p) => Inside {
            writable: c.writable.remove(path::components(p)),
            ..c
        },
        hotplug::ActionView::Rm(p) => Inside { files: c.files.remove(path::components(p)), ..c },
        hotplug::ActionView::Send(_, _) => c,
    }
}

/// Whether an action succeeds where `bind_ok` says whether making sysfs writable does, and all else
/// succeeds.
pub open spec fn succeeds(action: hotplug::ActionView, bind_ok: bool) -> bool {
    !(action is BindSysfs) || bind_ok
}

/// The container after a list of actions.
pub open spec fn carried_out(c: Inside, actions: Seq<hotplug::ActionView>, bind_ok: bool) -> Inside
    decreases actions.len(),
{
    if actions.len() == 0 {
        c
    } else {
        carried_out(
            if succeeds(actions[0], bind_ok) {
                after(c, actions[0])
            } else {
                c
            },
            actions.drop_first(),
            bind_ok,
        )
    }
}

/// Where resuming until the task at hand is done leads.
pub open spec fn finished(h: hotplug::HotPlugView, bind_ok: bool) -> (
    hotplug::HotPlugView,
    hotplug::StepView,
)
    decreases
            match h.task {
                Some(t) => t.actions.len() - t.done,
                None => 0,
            },
{
    match h.task {
        Some(t) => if hotplug::valid_task(t) {
            let (next, step) = hotplug::resumed(h, t, succeeds(t.actions[t.done], bind_ok));
            if step is Perform {
                finished(next, bind_ok)
            } else {
                (next, step)
            }
        } else {
            (h, hotplug::StepView::Skip)
        },
        None => (h, hotplug::StepView::Skip),
    }
}

/// The directories bound after a list of actions.
pub open spec fn bound_after(bound: Set<PathKey>, actions: Seq<hotplug::ActionView>, bind_ok: bool) -> Set<
    PathKey,
>
    decreases actions.len(),
{
    if actions.len() == 0 {
        bound
    } else {
        bound_after(
            match actions[0] {
                hotplug::ActionView::BindSysfs(p) => if bind_ok {
                    bound.insert(path::components(p))
                } else {
                    bound
                },
                _ => bound,
            },
            actions.drop_first(),
            bind_ok,
        )
    }
}

pub proof fn lemma_finished(h: hotplug::HotPlugView, bind_ok: bool)
    requires
        h.task matches Some(t) && hotplug::valid_task(t),
    ensures
        ({
            let t = h.task->0;
            finished(h, bind_ok) == (
                hotplug::HotPlugView {
                    devices: if t.attaching {
                        h.devices.insert(t.device.device.key(), t.device)
                    } else {
                        h.devices
                    },
                    bound: bound_after(h.bound, t.actions.skip(t.done), bind_ok),
                    task: None,
                    ..h
                },
                hotplug::StepView::Emit(
                    if t.attaching {
                        event::EventView::Attach(t.device)
                    } else {
                        event::EventView::Detach(t.device)
                    },
                ),
            )
        }),
    decreases h.task->0.actions.len() - h.task->0.done,
{
    let t = h.task->0;
    let (next, step) = hotplug::resumed(h, t, succeeds(t.actions[t.done], bind_ok));
    let rest = t.actions.skip(t.done);
    assert(rest[0] == t.actions[t.done]);
    assert(rest.drop_first() =~= t.actions.skip(t.done + 1));
    if t.done + 1 < t.actions.len() {
        lemma_finished(next, bind_ok);
    } else {
        assert(rest.drop_first() =~= seq![]);
        assert(bound_after(next.bound, rest.drop_first(), bind_ok) == next.bound);
    }
    assert(bound_after(h.bound, rest, bind_ok) == bound_after(
        next.bound,
        rest.drop_first(),
        bind_ok,
    ));
}

proof fn lemma_carried_out_add(
    c: Inside,
    a: Seq<hotplug::ActionView>,
    b: Seq<hotplug::ActionView>,
    bind_ok: bool,
)
    ensures
        carried_out(c, a + b, bind_ok) == carried_out(carried_out(c, a, bind_ok), b, bind_ok),
    decreases a.len(),
{
    if a.len() == 0 {
        assert(a + b =~= b);
    } else {
        assert((a + b)[0] == a[0]);
        assert((a + b).drop_first() =~= a.drop_first() + b);
        lemma_carried_out_add(
            if succeeds(a[0], bind_ok) {
                after(c, a[0])
            } else {
                c
            },
            a.drop_first(),
            b,
            bind_ok,
        );
    }
}

proof fn lemma_bound_after_add(
    bound: Set<PathKey>,
    a: Seq<hotplug::ActionView>,
    b: Seq<hotplug::ActionView>,
    bind_ok: bool,
)
    ensures
        bound_after(bound, a + b, bind_ok) == bound_after(
            bound_after(bound, a, bind_ok),
            b,
            bind_ok,
        ),
    decreases a.len(),
{
    if a.len() == 0 {
        assert(a + b =~= b);
    } else {
        assert((a + b)[0] == a[0]);
        assert((a + b).drop_first() =~= a.drop_first() + b);
        lemma_bound_after_add(
            match a[0] {
                hotplug::ActionView::BindSysfs(p) => if bind_ok {
                    bound.insert(path::components(p))
                } else {
                    bound
                },
                _ => bound,
            },
            a.drop_first(),
            b,
            bind_ok,
        );
    }
}

proof fn lemma_bound_unchanged(
    bound: Set<PathKey>,
    actions: Seq<hotplug::ActionView>,
    bind_ok: bool,
)
    requires
        forall|i: int| 0 <= i < actions.len() ==> !(#[trigger] actions[i] is BindSysfs),
    ensures
        bound_after(bound, actions, bind_ok) == bound,
    decreases actions.len(),
{
    if actions.len() > 0 {
        assert(!(actions[0] is BindSysfs));
        assert forall|i: int| 0 <= i < actions.drop_first().len() implies !(
        #[trigger] actions.drop_first()[i] is BindSysfs) by {
            assert(!(actions[i + 1] is BindSysfs));
        }
        lemma_bound_unchanged(bound, actions.drop_first(), bind_ok);
    }
}

pub proof fn lemma_bound_attached(
    bound: Set<PathKey>,
    d: device::DeviceView,
    node: device::DevNodeView,
    links: Seq<Seq<u8>>,
    sysfs: bool,
    bind_ok: bool,
)
    ensures
        bound_after(bound, hotplug::attach_actions(d, node, links, sysfs), bind_ok) == if sysfs
            && bind_ok {
            bound.insert(d.key())
        } else {
            bound
        },
{
    let f = |l: Seq<u8>| hotplug::ActionView::Symlink(node.path, l);
    let a = seq![
        hotplug::ActionView::Device(node.ty, node.devnum, cgroup::all_access()),
        hotplug::ActionView::Mknod(node.path, node.ty, node.devnum),
    ] + links.map_values(f);
    let bind = if sysfs {
        seq![hotplug::ActionView::BindSysfs(d.syspath())]
    } else {
        seq![]
    };
    let send = seq![hotplug::ActionView::Send(d.udev, hotplug::Announcement::Add)];
    lemma_bound_after_add(bound, a + bind, send, bind_ok);
    lemma_bound_after_add(bound, a, bind, bind_ok);
    lemma_bound_unchanged(bound, a, bind_ok);
    let b = bound_after(bound, bind, bind_ok);
    reveal_with_fuel(bound_after, 2);
    lemma_bound_unchanged(b, send, bind_ok);
    if sysfs {
        assert(bind.drop_first() =~= seq![]);
    }
}

pub proof fn lemma_bound_detached(
    bound: Set<PathKey>,
    d: device::DeviceView,
    node: device::DevNodeView,
    links: Seq<Seq<u8>>,
    unbind: bool,
    bind_ok: bool,
)
    ensures
        bound_after(bound, hotplug::detach_actions(d, node, links, unbind), bind_ok) == bound,
{
    lemma_bound_unchanged(bound, hotplug::detach_actions(d, node, links, unbind), bind_ok);
}

/// Files with symlinks to `target` added.
pub open spec fn linked(
    files: Map<PathKey, FileView>,
    target: Seq<u8>,
    links: Seq<Seq<u8>>,
) -> Map<PathKey, FileView>
    decreases links.len(),
{
    if links.len() == 0 {
        files
    } else {
        linked(
            files.insert(path::components(links[0]), FileView::Link(target)),
            target,
            links.drop_first(),
        )
    }
}

/// Files with those at `links` removed.
pub open spec fn unlinked(files: Map<PathKey, FileView>, links: Seq<Seq<u8>>) -> Map<
    PathKey,
    FileView,
>
    decreases links.len(),
{
    if links.len() == 0 {
        files
    } else {
        unlinked(files.remove(path::components(links[0])), links.drop_first())
    }
}

/// Whether `k` is one of the paths in `links`.
pub open spec fn among(links: Seq<Seq<u8>>, k: PathKey) -> bool {
    exists|i: int| 0 <= i < links.len() && path::components(#[trigger] links[i]) == k
}

proof fn lemma_among_first(links: Seq<Seq<u8>>, k: PathKey)
    requires
        links.len() > 0,
    ensures
        among(links, k) == (path::components(links[0]) == k || among(links.drop_first(), k)),
{
    let rest = links.drop_first();
    if among(rest, k) {
        let i = choose|i: int| 0 <= i < rest.len() && path::components(#[trigger] rest[i]) == k;
        assert(links[i + 1] == rest[i]);
    }
    if among(links, k) {
        let i = choose|i: int| 0 <= i < links.len() && path::components(#[trigger] links[i]) == k;
        if i > 0 {
            assert(rest[i - 1] == links[i]);
        }
    }
}

pub proof fn lemma_linked(
    files: Map<PathKey, FileView>,
    target: Seq<u8>,
    links: Seq<Seq<u8>>,
    k: PathKey,
)
    ensures
        among(links, k) ==> linked(files, target, links).contains_key(k) && linked(
            files,
            target,
            links,
        )[k] == FileView::Link(target),
        !among(links, k) ==> {
            &&& linked(files, target, links).contains_key(k) == files.contains_key(k)
            &&& files.contains_key(k) ==> linked(files, target, links)[k] == files[k]
        },
    decreases links.len(),
{
    if links.len() > 0 {
        lemma_among_first(links, k);
        lemma_linked(
            files.insert(path::components(links[0]), FileView::Link(target)),
            target,
            links.drop_first(),
            k,
        );
    }
}

pub proof fn lemma_unlinked(files: Map<PathKey, FileView>, links: Seq<Seq<u8>>, k: PathKey)
    ensures
        unlinked(files, links).contains_key(k) == (files.contains_key(k) && !among(links, k)),
        unlinked(files, links).contains_key(k) ==> unlinked(files, links)[k] == files[k],
    decreases links.len(),
{
    if links.len() > 0 {
        lemma_among_first(links, k);
        lemma_unlinked(files.remove(path::components(links[0])), links.drop_first(), k);
    }
}

proof fn lemma_links_carried_out(c: Inside, target: Seq<u8>, links: Seq<Seq<u8>>, bind_ok: bool)
    ensures
        carried_out(
            c,
            links.map_values(|l: Seq<u8>| hotplug::ActionView::Symlink(target, l)),
            bind_ok,
        ) == (Inside { files: linked(c.files, target, links), ..c }),
    decreases links.len(),
{
    let f = |l: Seq<u8>| hotplug::ActionView::Symlink(target, l);
    if links.len() > 0 {
        assert(links.map_values(f)[0] == f(links[0]));
        assert(links.map_values(f).drop_first() =~= links.drop_first().map_values(f));
        lemma_links_carried_out(after(c, f(links[0])), target, links.drop_first(), bind_ok);
    }
}

proof fn lemma_unlinks_carried_out(c: Inside, links: Seq<Seq<u8>>, bind_ok: bool)
    ensures
        carried_out(c, links.map_values(|l: Seq<u8>| hotplug::ActionView::Rm(l)), bind_ok) == (
        Inside { files: unlinked(c.files, links), ..c }),
    decreases links.len(),
{
    let f = |l: Seq<u8>| hotplug::ActionView::Rm(l);
    if links.len() > 0 {
        assert(links.map_values(f)[0] == f(links[0]));
        assert(links.map_values(f).drop_first() =~= links.drop_first().map_values(f));
        lemma_unlinks_carried_out(after(c, f(links[0])), links.drop_first(), bind_ok);
    }
}

/// The container once a device has been attached.
pub open spec fn attached(
    c: Inside,
    d: device::DeviceView,
    node: device::DevNodeView,
    links: Seq<Seq<u8>>,
    bind: bool,
) -> Inside {
    Inside {
        access: c.access.insert(node.key(), cgroup::all_access().bits),
        files: linked(
            c.files.insert(path::components(node.path), FileView::Node(node.ty, node.devnum)),
            node.path,
            links,
        ),
        writable: if bind {
            c.writable.insert(d.key())
        } else {
            c.writable
        },
    }
}

/// The container once a device has been detached.
pub open spec fn detached(
    c: Inside,
    d: device::DeviceView,
    node: device::DevNodeView,
    links: Seq<Seq<u8>>,
    bound: bool,
) -> Inside {
    Inside {
        access: c.access.remove(node.key()),
        files: unlinked(c.files.remove(path::components(node.path)), links),
        writable: if bound {
            c.writable.remove(d.key())
        } else {
            c.writable
        },
    }
}

/// Attaching a device grants every access to it, and no other; creates its node; creates each of
/// its symlinks; and makes its sysfs directory writable where that is asked for and works.
pub proof fn attaching_grants(
    c: Inside,
    d: device::DeviceView,
    node: device::DevNodeView,
    links: Seq<Seq<u8>>,
    sysfs: bool,
    bind_ok: bool,
)
    ensures
        carried_out(c, hotplug::attach_actions(d, node, links, sysfs), bind_ok) == attached(
            c,
            d,
            node,
            links,
            sysfs && bind_ok,
        ),
{
    let f = |l: Seq<u8>| hotplug::ActionView::Symlink(node.path, l);
    let a = seq![
        hotplug::ActionView::Device(node.ty, node.devnum, cgroup::all_access()),
        hotplug::ActionView::Mknod(node.path, node.ty, node.devnum),
    ];
    let b = links.map_values(f);
    let bind = if sysfs {
        seq![hotplug::ActionView::BindSysfs(d.syspath())]
    } else {
        seq![]
    };
    let send = seq![hotplug::ActionView::Send(d.udev, hotplug::Announcement::Add)];
    lemma_carried_out_add(c, a + b + bind, send, bind_ok);
    lemma_carried_out_add(c, a + b, bind, bind_ok);
    lemma_carried_out_add(c, a, b, bind_ok);
    reveal_with_fuel(carried_out, 3);
    let after_a = carried_out(c, a, bind_ok);
    assert(a.drop_first().drop_first() =~= seq![]);
    assert(after_a == after(after(c, a[0]), a[1]));
    lemma_links_carried_out(after_a, node.path, links, bind_ok);
    let after_b = carried_out(after_a, b, bind_ok);
    let after_bind = carried_out(after_b, bind, bind_ok);
    if sysfs {
        assert(bind.drop_first() =~= seq![]);
    }
    assert(send.drop_first() =~= seq![]);
    assert(carried_out(after_bind, send, bind_ok) == after_bind);
}

/// Detaching a device revokes every access to it, and to no other, and removes its node and its
/// symlinks. If its sysfs directory was writable, it no longer is.
pub proof fn detaching_revokes(
    c: Inside,
    d: device::DeviceView,
    node: device::DevNodeView,
    links: Seq<Seq<u8>>,
    bound: bool,
    bind_ok: bool,
)
    ensures
        carried_out(c, hotplug::detach_actions(d, node, links, bound), bind_ok) == detached(
            c,
            d,
            node,
            links,
            bound,
        ),
{
    let f = |l: Seq<u8>| hotplug::ActionView::Rm(l);
    let unbind = if bound {
        seq![hotplug::ActionView::UnbindSysfs(d.syspath())]
    } else {
        seq![]
    };
    let a = seq![
        hotplug::ActionView::Device(node.ty, node.devnum, Access { bits: 0 }),
        hotplug::ActionView::Rm(node.path),
    ];
    let b = links.map_values(f);
    let send = seq![hotplug::ActionView::Send(d.udev, hotplug::Announcement::Remove)];
    lemma_carried_out_add(c, unbind + a + b, send, bind_ok);
    lemma_carried_out_add(c, unbind + a, b, bind_ok);
    lemma_carried_out_add(c, unbind, a, bind_ok);
    reveal_with_fuel(carried_out, 3);
    let after_unbind = carried_out(c, unbind, bind_ok);
    if bound {
        assert(unbind.drop_first() =~= seq![]);
    }
    let after_a = carried_out(after_unbind, a, bind_ok);
    assert(a.drop_first().drop_first() =~= seq![]);
    assert(after_a == after(after(after_unbind, a[0]), a[1]));
    lemma_unlinks_carried_out(after_a, links, bind_ok);
    let after_b = carried_out(after_a, b, bind_ok);
    assert(send.drop_first() =~= seq![]);
    assert(carried_out(after_b, send, bind_ok) == after_b);
}

/// Detaching a device undoes attaching it: where nothing was in the way, the container is left as it
/// was before.
pub proof fn detaching_undoes_attaching(
    c: Inside,
    d: device::DeviceView,
    node: device::DevNodeView,
    links: Seq<Seq<u8>>,
    sysfs: bool,
    bind_ok: bool,
)
    requires
        !c.access.contains_key(node.key()),
        !c.files.contains_key(path::components(node.path)),
        forall|i: int|
            0 <= i < links.len() ==> !c.files.contains_key(path::components(#[trigger] links[i])),
        !c.writable.contains(d.key()),
    ensures
        carried_out(
            carried_out(c, hotplug::attach_actions(d, node, links, sysfs), bind_ok),
            hotplug::detach_actions(d, node, links, sysfs && bind_ok),
            bind_ok,
        ) == c,
{
    attaching_grants(c, d, node, links, sysfs, bind_ok);
    let m = attached(c, d, node, links, sysfs && bind_ok);
    detaching_revokes(m, d, node, links, sysfs && bind_ok, bind_ok);
    let e = detached(m, d, node, links, sysfs && bind_ok);
    assert(e.access =~= c.access);
    assert(e.writable =~= c.writable);
    let base = c.files.insert(path::components(node.path), FileView::Node(node.ty, node.devnum));
    assert forall|k: PathKey|
        #![trigger e.files.contains_key(k)]
        #![trigger c.files.contains_key(k)]
        e.files.contains_key(k) == c.files.contains_key(k) && (c.files.contains_key(k)
            ==> e.files[k] == c.files[k]) by {
        lemma_linked(base, node.path, links, k);
        lemma_unlinked(m.files.remove(path::components(node.path)), links, k);
    }
    assert(e.files =~= c.files);
}

/// A file inside the container, with what the actions say of it.
pub open spec fn known_file(f: container::FileView) -> FileView {
    match f {
        container::FileView::Node(ty, _, dev, _) => FileView::Node(
            ty,
            (device::major_of(dev), device::minor_of(dev)),
        ),
        container::FileView::Link(target) => FileView::Link(target),
        _ => FileView::Other,
    }
}

/// The files inside the container, with what the actions say of them.
pub open spec fn known_files(files: Map<PathKey, container::FileView>) -> Map<PathKey, FileView> {
    Map::new(|k: PathKey| files.contains_key(k), |k: PathKey| known_file(files[k]))
}

/// The steps inside the container's filesystem that an action takes.
pub open spec fn steps_for(
    c: container::ContainerView,
    ns: namespace::UserNamespaceView,
    action: hotplug::ActionView,
) -> Seq<container::FsStepView> {
    match action {
        hotplug::ActionView::Mknod(node, ty, devnum) => container::mknod_steps(
            ns,
            c.uid,
            c.gid,
            node,
            ty,
            devnum,
        ),
        hotplug::ActionView::Symlink(source, link) => container::symlink_steps(source, link),
        hotplug::ActionView::Rm(p) => container::rm_steps(p),
        _ => seq![],
    }
}

/// The steps that [`container::Container`] gives for an action do to the files what the action
/// stands for, so long as the container's user is mapped in its namespace.
pub proof fn steps_do_what_actions_say(
    c: Inside,
    files: Map<PathKey, container::FileView>,
    user: container::ContainerView,
    ns: namespace::UserNamespaceView,
    action: hotplug::ActionView,
)
    requires
        c.files == known_files(files),
        namespace::translated(ns.uid_map, user.uid) is Some,
        namespace::translated(ns.gid_map, user.gid) is Some,
    ensures
        known_files(container::files_at_end(files, steps_for(user, ns, action))) == after(
            c,
            action,
        ).files,
{
    let end = container::files_at_end(files, steps_for(user, ns, action));
    match action {
        hotplug::ActionView::Mknod(node, ty, devnum) => {
            container::mknod_replaces(files, ns, user.uid, user.gid, node, ty, devnum);
            device::devnum_round_trip(devnum.0, devnum.1, 0);
            assert(devnum == (devnum.0, devnum.1));
        },
        hotplug::ActionView::Symlink(source, link) => {
            container::symlink_replaces(files, source, link);
        },
        hotplug::ActionView::Rm(p) => {
            container::rm_removes(files, p);
        },
        _ => {},
    }
    assert(known_files(end) =~= after(c, action).files);
}

} // verus!

//! What remounting `/dev` does: everything in the old `/dev` is there in the new one.
use crate::cgroup::DeviceType;
use crate::path;
use crate::path::PathKey;
use crate::runc::container;
use crate::runc::container::{EntryKind, FileView, FsOpView, FsStepView};
use crate::util::namespace;
use vstd::prelude::*;

verus! {

/// The new `/dev`.
pub open spec fn dev() -> Seq<u8> {
    vstd::utf8::encode_utf8("/dev"@)
}

/// Where the old `/dev` is in the meantime.
pub open spec fn olddev() -> Seq<u8> {
    vstd::utf8::encode_utf8("/olddev"@)
}

/// Where a file of the given name is in the new `/dev`.
pub open spec fn place(name: Seq<u8>) -> PathKey {
    path::components(path::joined(dev(), name))
}

/// The steps that are taken in all, with `entries` being what the old `/dev` holds.
pub open spec fn unfolded(steps: Seq<FsStepView>, entries: Seq<(Seq<u8>, EntryKind)>) -> Seq<
    FsStepView,
>
    decreases steps.len(),
{
    if steps.len() == 0 {
        seq![]
    } else {
        unfolded(steps.drop_last(), entries) + match steps.last() {
            FsStepView::MoveEntries(_) => container::moved_steps(entries),
            step => seq![step],
        }
    }
}

/// Whether a file of the old `/dev` can be moved: the console, or anything of a known kind.
pub open spec fn movable(name: Seq<u8>, kind: EntryKind) -> bool {
    name == vstd::utf8::encode_utf8("console"@) || !(kind is Other)
}

/// What becomes of a file of the old `/dev`: the console and directories are the mounts that were
/// there, symlinks lead where they led, and device nodes have the same type, mode and number.
pub open spec fn moved(name: Seq<u8>, kind: EntryKind) -> FileView {
    let from = path::joined(olddev(), name);
    if name == vstd::utf8::encode_utf8("console"@) {
        FileView::Moved(from)
    } else {
        match kind {
            EntryKind::Directory => FileView::Moved(from),
            EntryKind::Symlink => FileView::CopiedLink(from),
            EntryKind::CharDevice(mode, number) => FileView::Node(
                DeviceType::Character,
                mode,
                number,
                None,
            ),
            EntryKind::BlockDevice(mode, number) => FileView::Node(
                DeviceType::Block,
                mode,
                number,
                None,
            ),
            EntryKind::Other => FileView::Fresh,
        }
    }
}

/// Whether `entries` are what a directory may hold: names, each of them once.
pub open spec fn is_listing(entries: Seq<(Seq<u8>, EntryKind)>) -> bool {
    &&& forall|i: int| 0 <= i < entries.len() ==> path::is_name((#[trigger] entries[i]).0)
    &&& forall|i: int, j: int|
        0 <= i < j < entries.len() ==> (#[trigger] entries[i]).0 != (#[trigger] entries[j]).0
}

/// No step is to give up.
pub open spec fn never_fails(steps: Seq<FsStepView>) -> bool {
    forall|i: int| 0 <= i < steps.len() ==> !(#[trigger] steps[i] is Fail)
}

/// A file of the old `/dev` ends up in the new one under the same name, as [`moved`] says, and no
/// other file changes.
pub proof fn entry_is_recreated(
    files: Map<PathKey, FileView>,
    name: Seq<u8>,
    kind: EntryKind,
)
    requires
        movable(name, kind),
    ensures
        never_fails(container::entry_steps(name, kind)),
        container::files_at_end(files, container::entry_steps(name, kind)) == files.insert(
            place(name),
            moved(name, kind),
        ),
{
    let none = Seq::<FsStepView>::empty();
    let steps = container::entry_steps(name, kind);
    let a = steps[0];
    assert(container::files_at_end(files, none) == files);
    container::lemma_files_push(files, none, a);
    if steps.len() == 1 {
        assert(steps =~= none.push(a));
    } else {
        let b = steps[1];
        container::lemma_files_push(files, none.push(a), b);
        assert(steps =~= none.push(a).push(b));
    }
    assert(container::files_at_end(files, steps) =~= files.insert(place(name), moved(name, kind)));
}

/// A device node of the old `/dev` is there in the new one with the same type, mode and device
/// number.
pub proof fn devices_are_recreated(
    files: Map<PathKey, FileView>,
    name: Seq<u8>,
    ty: DeviceType,
    mode: u32,
    number: u64,
)
    requires
        name != vstd::utf8::encode_utf8("console"@),
    ensures
        ({
            let kind = match ty {
                DeviceType::Character => EntryKind::CharDevice(mode, number),
                DeviceType::Block => EntryKind::BlockDevice(mode, number),
            };
            container::files_at_end(files, container::entry_steps(name, kind)) == files.insert(
                place(name),
                FileView::Node(ty, mode, number, None),
            )
        }),
{
    let kind = match ty {
        DeviceType::Character => EntryKind::CharDevice(mode, number),
        DeviceType::Block => EntryKind::BlockDevice(mode, number),
    };
    entry_is_recreated(files, name, kind);
}

/// What is moved out of the old `/dev` ends up in the new one: every path that is touched lies below
/// one of the two.
pub proof fn entries_stay_below_dev(name: Seq<u8>)
    requires
        !path::is_absolute(name),
    ensures
        path::under(path::joined(olddev(), name), olddev()),
        path::under(path::joined(dev(), name), dev()),
{
    lemma_places();
    path::joined_is_under(olddev(), name);
    path::joined_is_under(dev(), name);
}

proof fn lemma_places()
    ensures
        dev().len() > 0,
        olddev().len() > 0,
        path::components(dev()).len() == 2,
        path::components(olddev()).len() == 2,
        path::components(dev()) != path::components(olddev()),
{
    reveal_strlit("/dev");
    reveal_strlit("/olddev");
    reveal_strlit("dev");
    reveal_strlit("olddev");
    vstd::utf8::is_ascii_chars_encode_utf8("/dev"@);
    vstd::utf8::is_ascii_chars_encode_utf8("/olddev"@);
    let a = seq![100u8, 101u8, 118u8];
    let b = seq![111u8, 108u8, 100u8, 100u8, 101u8, 118u8];
    let root = seq![path::SLASH];
    assert(dev() =~= root + a) by {
        assert("/dev"@[0] == '/' && "/dev"@[1] == 'd' && "/dev"@[2] == 'e' && "/dev"@[3] == 'v');
    }
    assert(olddev() =~= root + b) by {
        assert("/olddev"@[0] == '/' && "/olddev"@[1] == 'o' && "/olddev"@[2] == 'l'
            && "/olddev"@[3] == 'd' && "/olddev"@[4] == 'd' && "/olddev"@[5] == 'e'
            && "/olddev"@[6] == 'v');
    }
    assert(a != seq![path::DOT]) by {
        assert(a.len() == 3);
    }
    assert(b != seq![path::DOT]) by {
        assert(b.len() == 6);
    }
    path::root_and_name(a);
    path::root_and_name(b);
    assert(path::components(dev())[1] == a);
    assert(path::components(olddev())[1] == b);
    assert(a.len() != b.len());
}

proof fn lemma_files_add(files: Map<PathKey, FileView>, a: Seq<FsStepView>, b: Seq<FsStepView>)
    ensures
        container::files_at_end(files, a + b) == container::files_at_end(
            container::files_at_end(files, a),
            b,
        ),
    decreases b.len(),
{
    if b.len() == 0 {
        assert(a + b =~= a);
    } else {
        assert((a + b).drop_last() =~= a + b.drop_last());
        assert((a + b).last() == b.last());
        lemma_files_add(files, a, b.drop_last());
    }
}

/// Whether `k` is where one of the files goes.
spec fn taken(entries: Seq<(Seq<u8>, EntryKind)>, k: PathKey) -> bool {
    exists|i: int| 0 <= i < entries.len() && place((#[trigger] entries[i]).0) == k
}

proof fn lemma_moved(files: Map<PathKey, FileView>, entries: Seq<(Seq<u8>, EntryKind)>)
    requires
        is_listing(entries),
        forall|i: int|
            0 <= i < entries.len() ==> movable((#[trigger] entries[i]).0, entries[i].1),
    ensures
        ({
            let end = container::files_at_end(files, container::moved_steps(entries));
            &&& never_fails(container::moved_steps(entries))
            &&& forall|i: int|
                0 <= i < entries.len() ==> end.contains_key(place((#[trigger] entries[i]).0))
                    && end[place(entries[i].0)] == moved(entries[i].0, entries[i].1)
            &&& forall|k: PathKey|
                !(#[trigger] taken(entries, k)) ==> end.contains_key(k) == files.contains_key(k)
                    && (files.contains_key(k) ==> end[k] == files[k])
        }),
    decreases entries.len(),
{
    if entries.len() > 0 {
        let rest = entries.drop_last();
        let (name, kind) = entries.last();
        assert(entries[entries.len() - 1] == (name, kind));
        assert forall|i: int| 0 <= i < rest.len() implies path::is_name((#[trigger] rest[i]).0)
            && movable(rest[i].0, rest[i].1) by {
            assert(rest[i] == entries[i]);
        }
        assert forall|i: int, j: int| 0 <= i < j < rest.len() implies (#[trigger] rest[i]).0 != (
        #[trigger] rest[j]).0 by {
            assert(rest[i] == entries[i] && rest[j] == entries[j]);
        }
        lemma_moved(files, rest);
        let mid = container::files_at_end(files, container::moved_steps(rest));
        let end = container::files_at_end(files, container::moved_steps(entries));
        lemma_files_add(
            files,
            container::moved_steps(rest),
            container::entry_steps(name, kind),
        );
        entry_is_recreated(mid, name, kind);
        assert(end == mid.insert(place(name), moved(name, kind)));
        lemma_places();
        assert forall|i: int| 0 <= i < entries.len() implies end.contains_key(
            place((#[trigger] entries[i]).0),
        ) && end[place(entries[i].0)] == moved(entries[i].0, entries[i].1) by {
            if i < rest.len() {
                assert(rest[i] == entries[i]);
                assert(entries[i].0 != entries[entries.len() - 1].0);
                path::joined_name(dev(), entries[i].0);
                path::joined_name(dev(), name);
                assert(place(entries[i].0).last() == entries[i].0);
                assert(place(name).last() == name);
            }
        }
        assert forall|k: PathKey| !(#[trigger] taken(entries, k)) implies end.contains_key(k)
            == files.contains_key(k) && (files.contains_key(k) ==> end[k] == files[k]) by {
            assert(place(entries[entries.len() - 1].0) != k);
            if taken(rest, k) {
                let i = choose|i: int| 0 <= i < rest.len() && place((#[trigger] rest[i]).0) == k;
                assert(place(entries[i].0) == k);
            }
        }
    }
}

proof fn lemma_unfolded_add(
    a: Seq<FsStepView>,
    b: Seq<FsStepView>,
    entries: Seq<(Seq<u8>, EntryKind)>,
)
    ensures
        unfolded(a + b, entries) == unfolded(a, entries) + unfolded(b, entries),
    decreases b.len(),
{
    if b.len() == 0 {
        assert(a + b =~= a);
        assert(unfolded(a, entries) + unfolded(b, entries) =~= unfolded(a, entries));
    } else {
        assert((a + b).drop_last() =~= a + b.drop_last());
        assert((a + b).last() == b.last());
        lemma_unfolded_add(a, b.drop_last(), entries);
        let last = match b.last() {
            FsStepView::MoveEntries(_) => container::moved_steps(entries),
            step => seq![step],
        };
        assert((unfolded(a, entries) + unfolded(b.drop_last(), entries)) + last =~= unfolded(
            a,
            entries,
        ) + (unfolded(b.drop_last(), entries) + last));
    }
}

proof fn lemma_unfolded_plain(steps: Seq<FsStepView>, entries: Seq<(Seq<u8>, EntryKind)>)
    requires
        forall|i: int| 0 <= i < steps.len() ==> !(#[trigger] steps[i] is MoveEntries),
    ensures
        unfolded(steps, entries) == steps,
    decreases steps.len(),
{
    if steps.len() > 0 {
        let rest = steps.drop_last();
        assert forall|i: int| 0 <= i < rest.len() implies !(#[trigger] rest[i] is MoveEntries) by {
            assert(rest[i] == steps[i]);
        }
        lemma_unfolded_plain(rest, entries);
        assert(!(steps[steps.len() - 1] is MoveEntries));
        assert(rest + seq![steps.last()] =~= steps);
    }
}

/// The steps that come before anything is moved.
spec fn opening(root: (u32, u32)) -> Seq<FsStepView> {
    seq![
        FsStepView::Must(FsOpView::ClearUmask),
        FsStepView::Must(FsOpView::CreateDir(olddev())),
        FsStepView::Must(FsOpView::MoveMount(dev(), olddev())),
        FsStepView::Must(FsOpView::AttachMount(dev())),
        FsStepView::Must(FsOpView::Chown(dev(), root.0, root.1)),
        FsStepView::Must(FsOpView::SetMode(dev(), container::DEV_MODE)),
    ]
}

proof fn lemma_opening(files: Map<PathKey, FileView>, root: (u32, u32))
    ensures
        container::files_at_end(files, opening(root)).contains_key(path::components(dev())),
        container::files_at_end(files, opening(root))[path::components(dev())]
            == FileView::Prepared(Some(root)),
{
    let s = opening(root);
    let none = Seq::<FsStepView>::empty();
    assert(container::files_at_end(files, none) == files);
    container::lemma_files_push(files, none, s[0]);
    container::lemma_files_push(files, none.push(s[0]), s[1]);
    container::lemma_files_push(files, none.push(s[0]).push(s[1]), s[2]);
    container::lemma_files_push(files, none.push(s[0]).push(s[1]).push(s[2]), s[3]);
    container::lemma_files_push(files, none.push(s[0]).push(s[1]).push(s[2]).push(s[3]), s[4]);
    let five = none.push(s[0]).push(s[1]).push(s[2]).push(s[3]).push(s[4]);
    container::lemma_files_push(files, five, s[5]);
    assert(s =~= five.push(s[5]));
    assert(root == (root.0, root.1));
}

proof fn lemma_cleanup(files: Map<PathKey, FileView>)
    ensures
        container::files_at_end(files, container::cleanup_steps()) == files.remove(
            path::components(olddev()),
        ),
{
    let s = container::cleanup_steps();
    let none = Seq::<FsStepView>::empty();
    assert(container::files_at_end(files, none) == files);
    container::lemma_files_push(files, none, s[0]);
    container::lemma_files_push(files, none.push(s[0]), s[1]);
    assert(s =~= none.push(s[0]).push(s[1]));
}

/// Remounting `/dev` moves everything: with the container's root mapped, and nothing of an unknown
/// kind in the old `/dev`, no step is to give up, the new `/dev` belongs to the container's root,
/// every file of the old `/dev` is there in the new one under the same name as [`moved`] says, and
/// nothing is left of the place where the old one was in the meantime.
pub proof fn remounting_moves_everything(
    files: Map<PathKey, FileView>,
    ns: namespace::UserNamespaceView,
    entries: Seq<(Seq<u8>, EntryKind)>,
)
    requires
        namespace::translated(ns.uid_map, 0) is Some,
        namespace::translated(ns.gid_map, 0) is Some,
        is_listing(entries),
        forall|i: int|
            0 <= i < entries.len() ==> movable((#[trigger] entries[i]).0, entries[i].1),
    ensures
        ({
            let steps = unfolded(container::remount_steps(ns), entries);
            let end = container::files_at_end(files, steps);
            &&& never_fails(steps)
            &&& end.contains_key(path::components(dev()))
            &&& end[path::components(dev())] == FileView::Prepared(
                Some(
                    (
                        namespace::translated(ns.uid_map, 0)->0,
                        namespace::translated(ns.gid_map, 0)->0,
                    ),
                ),
            )
            &&& forall|i: int|
                0 <= i < entries.len() ==> end.contains_key(place((#[trigger] entries[i]).0))
                    && end[place(entries[i].0)] == moved(entries[i].0, entries[i].1)
            &&& !end.contains_key(path::components(olddev()))
        }),
{
    let root = (
        namespace::translated(ns.uid_map, 0)->0,
        namespace::translated(ns.gid_map, 0)->0,
    );
    let open = opening(root);
    let middle = seq![FsStepView::MoveEntries(olddev())];
    let close = container::cleanup_steps();
    let moves = container::moved_steps(entries);
    assert(container::remount_steps(ns) =~= open + middle + close);
    lemma_unfolded_add(open + middle, close, entries);
    lemma_unfolded_add(open, middle, entries);
    lemma_unfolded_plain(open, entries);
    lemma_unfolded_plain(close, entries);
    assert(unfolded(middle, entries) == moves) by {
        let none = Seq::<FsStepView>::empty();
        assert(middle.drop_last() =~= none);
        assert(unfolded(none, entries) == none);
        assert(none + moves =~= moves);
    }
    let steps = open + moves + close;
    assert(unfolded(container::remount_steps(ns), entries) == steps);
    let first = container::files_at_end(files, open);
    let second = container::files_at_end(first, moves);
    let end = container::files_at_end(second, close);
    lemma_files_add(files, open + moves, close);
    lemma_files_add(files, open, moves);
    lemma_opening(files, root);
    lemma_moved(first, entries);
    lemma_cleanup(second);
    lemma_places();
    assert forall|i: int| 0 <= i < entries.len() implies place((#[trigger] entries[i]).0).len()
        == 3 by {
        path::joined_name(dev(), entries[i].0);
    }
    assert(!taken(entries, path::components(dev())));
    assert(never_fails(steps)) by {
        assert forall|i: int| 0 <= i < steps.len() implies !(#[trigger] steps[i] is Fail) by {
            if i < open.len() {
                assert(steps[i] == open[i]);
            } else if i < open.len() + moves.len() {
                assert(steps[i] == moves[i - open.len()]);
            } else {
                assert(steps[i] == close[i - open.len() - moves.len()]);
            }
        }
    }
}

/// The mask is cleared before anything is created, and the new `/dev` is opened to everyone before
/// anything is moved into it. Each of these has to work.
pub proof fn dev_is_open_before_it_is_filled(ns: namespace::UserNamespaceView)
    ensures
        ({
            let steps = container::remount_steps(ns);
            let uid = namespace::translated(ns.uid_map, 0);
            let gid = namespace::translated(ns.gid_map, 0);
            &&& steps[0] == FsStepView::Must(FsOpView::ClearUmask)
            &&& steps[1] == FsStepView::Must(FsOpView::CreateDir(olddev()))
            &&& steps[2] == FsStepView::Must(FsOpView::MoveMount(dev(), olddev()))
            &&& steps[3] == FsStepView::Must(FsOpView::AttachMount(dev()))
            &&& uid is None ==> steps.len() == 5 && steps[4] == FsStepView::Fail(
                container::FsError::Id(namespace::IdError::Uid),
            )
            &&& uid is Some && gid is None ==> steps.len() == 5 && steps[4] == FsStepView::Fail(
                container::FsError::Id(namespace::IdError::Gid),
            )
            &&& uid is Some && gid is Some ==> {
                &&& steps.len() == 9
                &&& steps[4] == FsStepView::Must(FsOpView::Chown(dev(), uid->0, gid->0))
                &&& steps[5] == FsStepView::Must(FsOpView::SetMode(dev(), 0o755))
                &&& steps[6] == FsStepView::MoveEntries(olddev())
                &&& steps[7] == FsStepView::Must(FsOpView::Unmount(olddev()))
                &&& steps[8] == FsStepView::Must(FsOpView::RemoveDir(olddev()))
            }
        }),
{
}

/// What is moved has to be moved. Only the mount that an old device node may have been need not be
/// there, and it is detached only once the node is there anew.
pub proof fn moving_has_to_work(name: Seq<u8>, kind: EntryKind, i: int)
    requires
        0 <= i < container::entry_steps(name, kind).len(),
    ensures
        match container::entry_steps(name, kind)[i] {
            FsStepView::Must(_) => true,
            FsStepView::Try(op) => op == FsOpView::Unmount(path::joined(olddev(), name)) && i > 0 && (
            container::entry_steps(name, kind)[i - 1] matches FsStepView::Must(
                FsOpView::Mknod(_, _, _, _),
            )),
            FsStepView::Fail(e) => e is UnknownFile && !movable(name, kind),
            FsStepView::MoveEntries(_) => false,
        },
        !movable(name, kind) ==> container::entry_steps(name, kind).last() is Fail,
        kind is CharDevice || kind is BlockDevice ==> movable(name, kind),
        kind is Directory || kind is Symlink ==> movable(name, kind),
        movable(name, kind) ==> container::entry_steps(name, kind)[0] is Must,
{
}

/// Files are moved one after the other, and each on its own.
pub proof fn files_are_moved_one_by_one(
    a: Seq<(Seq<u8>, EntryKind)>,
    b: Seq<(Seq<u8>, EntryKind)>,
    name: Seq<u8>,
    kind: EntryKind,
)
    ensures
        container::moved_steps(a + b) == container::moved_steps(a) + container::moved_steps(b),
        container::moved_steps(seq![(name, kind)]) == container::entry_steps(name, kind),
    decreases b.len(),
{
    let one = seq![(name, kind)];
    assert(one.drop_last() =~= Seq::<(Seq<u8>, EntryKind)>::empty());
    assert(one.last() == (name, kind));
    assert(container::moved_steps(one.drop_last()) =~= Seq::<FsStepView>::empty());
    assert(Seq::<FsStepView>::empty() + container::entry_steps(name, kind)
        =~= container::entry_steps(name, kind));
    if b.len() == 0 {
        assert(a + b =~= a);
        assert(container::moved_steps(a) + container::moved_steps(b) =~= container::moved_steps(a));
    } else {
        assert((a + b).drop_last() =~= a + b.drop_last());
        assert((a + b).last() == b.last());
        files_are_moved_one_by_one(a, b.drop_last(), name, kind);
        assert(container::moved_steps(a + b) =~= container::moved_steps(a)
            + container::moved_steps(b));
    }
}

/// What becomes of a file goes by what it is: the console and directories are moved as the mounts that
/// they are, symlinks lead where they led, and device nodes keep their type, mode and number. It keeps
/// its name in any case.
pub proof fn files_stay_what_they_are(
    files: Map<PathKey, FileView>,
    name: Seq<u8>,
    mode: u32,
    number: u64,
)
    requires
        name != vstd::utf8::encode_utf8("console"@),
    ensures
        ({
            let from = path::joined(vstd::utf8::encode_utf8("/olddev"@), name);
            let to = path::joined(vstd::utf8::encode_utf8("/dev"@), name);
            let k = path::components(to);
            let console = vstd::utf8::encode_utf8("console"@);
            let end = |n: Seq<u8>, kind: EntryKind|
                container::files_at_end(files, container::entry_steps(n, kind));
            &&& end(name, EntryKind::Directory) == files.insert(k, FileView::Moved(from))
            &&& end(name, EntryKind::Symlink) == files.insert(k, FileView::CopiedLink(from))
            &&& end(name, EntryKind::CharDevice(mode, number)) == files.insert(
                k,
                FileView::Node(DeviceType::Character, mode, number, None),
            )
            &&& end(name, EntryKind::BlockDevice(mode, number)) == files.insert(
                k,
                FileView::Node(DeviceType::Block, mode, number, None),
            )
            &&& forall|kind: EntryKind| #[trigger]
                end(console, kind) == files.insert(
                    path::components(path::joined(vstd::utf8::encode_utf8("/dev"@), console)),
                    FileView::Moved(path::joined(vstd::utf8::encode_utf8("/olddev"@), console)),
                )
        }),
{
    let console = vstd::utf8::encode_utf8("console"@);
    entry_is_recreated(files, name, EntryKind::Directory);
    entry_is_recreated(files, name, EntryKind::Symlink);
    entry_is_recreated(files, name, EntryKind::CharDevice(mode, number));
    entry_is_recreated(files, name, EntryKind::BlockDevice(mode, number));
    let end = |n: Seq<u8>, kind: EntryKind|
        container::files_at_end(files, container::entry_steps(n, kind));
    assert forall|kind: EntryKind| #[trigger]
        end(console, kind) == files.insert(
            path::components(path::joined(vstd::utf8::encode_utf8("/dev"@), console)),
            FileView::Moved(path::joined(vstd::utf8::encode_utf8("/olddev"@), console)),
        ) by {
        entry_is_recreated(files, console, kind);
    }
}

} // verus!

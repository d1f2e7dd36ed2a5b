//! What the annotations of a container ask for.
use crate::cli::device;
use crate::cli::device::DeviceRefError;
use crate::cli::symlink;
use crate::cli::symlink::SymlinkError;
use crate::cli::{DeviceRef, Symlink};
use crate::runc::config::Config;
use crate::text;
use vstd::prelude::*;

verus! {

/// What is wrong with the annotations of a container.
#[derive(Debug)]
pub enum AnnotationError {
    /// There is no list of root devices.
    NoDevices,
    /// The value for sysfs is not one of those allowed.
    Sysfs(String),
}

pub enum AnnotationErrorView {
    NoDevices,
    Sysfs(Seq<char>),
}

impl View for AnnotationError {
    type V = AnnotationErrorView;

    open spec fn view(&self) -> AnnotationErrorView {
        match self {
            AnnotationError::NoDevices => AnnotationErrorView::NoDevices,
            AnnotationError::Sysfs(value) => AnnotationErrorView::Sysfs(value@),
        }
    }
}

/// What is said of an error.
pub open spec fn error_message(e: AnnotationErrorView) -> Seq<char> {
    match e {
        AnnotationErrorView::NoDevices =>
            "Cannot find annotation `org.lowrisc.hotplug.devices`. Please use normal runc instead."@,
        AnnotationErrorView::Sysfs(value) =>
            "Annotation `org.lowrisc.hotplug.sysfs` should be one of `rw` or `ro`, found `"@ + value
            + "`"@,
    }
}

impl AnnotationError {
    /// The message for the user.
    pub fn message(&self) -> (r: String)
        ensures
            r@ == error_message(self@),
    {
        match self {
            AnnotationError::NoDevices => {
                let mut r = String::new();
                text::push_str(
                    &mut r,
                    "Cannot find annotation `org.lowrisc.hotplug.devices`. Please use normal runc instead.",
                );
                assert(r@
                    =~= "Cannot find annotation `org.lowrisc.hotplug.devices`. Please use normal runc instead."@);
                r
            },
            AnnotationError::Sysfs(value) => text::concat3(
                "Annotation `org.lowrisc.hotplug.sysfs` should be one of `rw` or `ro`, found `",
                value.as_str(),
                "`",
            ),
        }
    }
}

/// The value of an annotation.
pub open spec fn annotation(a: Map<Seq<char>, Seq<char>>, name: Seq<char>) -> Option<Seq<char>> {
    if a.contains_key(name) {
        Some(a[name])
    } else {
        None
    }
}

/// The list of root devices, which may also be called `device`.
pub open spec fn device_list(a: Map<Seq<char>, Seq<char>>) -> Option<Seq<char>> {
    match annotation(a, "org.lowrisc.hotplug.devices"@) {
        Some(list) => Some(list),
        None => annotation(a, "org.lowrisc.hotplug.device"@),
    }
}

/// What the pieces of a list of root devices stand for.
pub open spec fn devices_parsed(list: Seq<char>) -> Seq<
    Result<device::DeviceRefView, device::DeviceRefErrorView>,
> {
    text::split(list, ',').map_values(|piece: Seq<char>| device::parsed(piece))
}

/// The symlinks that some pieces stand for. The first piece that cannot be parsed decides the error.
pub open spec fn symlinks_parsed(pieces: Seq<Seq<char>>) -> Result<
    Seq<symlink::SymlinkView>,
    symlink::SymlinkErrorView,
>
    decreases pieces.len(),
{
    if pieces.len() == 0 {
        Ok(seq![])
    } else {
        match symlinks_parsed(pieces.drop_last()) {
            Err(e) => Err(e),
            Ok(links) => match symlink::parsed(pieces.last()) {
                Err(e) => Err(e),
                Ok(link) => Ok(links.push(link)),
            },
        }
    }
}

/// The symlinks that the annotations ask for.
pub open spec fn symlinks_of(a: Map<Seq<char>, Seq<char>>) -> Result<
    Seq<symlink::SymlinkView>,
    symlink::SymlinkErrorView,
> {
    match annotation(a, "org.lowrisc.hotplug.symlinks"@) {
        None => Ok(seq![]),
        Some(list) => symlinks_parsed(text::split(list, ',')),
    }
}

/// Whether sysfs is to be writable.
pub open spec fn sysfs_of(a: Map<Seq<char>, Seq<char>>) -> Result<bool, AnnotationErrorView> {
    match annotation(a, "org.lowrisc.hotplug.sysfs"@) {
        None => Ok(false),
        Some(value) => if value == "false"@ || value == "0"@ || value == "ro"@ {
            Ok(false)
        } else if value == "true"@ || value == "1"@ || value == "rw"@ {
            Ok(true)
        } else {
            Err(AnnotationErrorView::Sysfs(value))
        },
    }
}

pub open spec fn device_view(r: Result<DeviceRef, DeviceRefError>) -> Result<
    device::DeviceRefView,
    device::DeviceRefErrorView,
> {
    match r {
        Ok(d) => Ok(d@),
        Err(e) => Err(e@),
    }
}

/// The root devices that are configured, in order.
///
/// Each is to be resolved before it matters whether the next could be parsed.
pub fn root_devices(config: &Config) -> (r: Result<
    Vec<Result<DeviceRef, DeviceRefError>>,
    AnnotationError,
>)
    ensures
        match r {
            Ok(refs) => device_list(config.annotations@) is Some && refs@.map_values(
                |d: Result<DeviceRef, DeviceRefError>| device_view(d),
            ) == devices_parsed(device_list(config.annotations@)->0),
            Err(e) => device_list(config.annotations@) is None && e@
                == AnnotationErrorView::NoDevices,
        },
{
    let list = match config.annotations.get("org.lowrisc.hotplug.devices") {
        Some(list) => list,
        None => match config.annotations.get("org.lowrisc.hotplug.device") {
            Some(list) => list,
            None => {
                return Err(AnnotationError::NoDevices);
            },
        },
    };
    let pieces = text::split_str(list.as_str(), ',');
    let ghost all = pieces.deep_view();
    let ghost f = |piece: Seq<char>| device::parsed(piece);
    let ghost g = |d: Result<DeviceRef, DeviceRefError>| device_view(d);
    let mut refs: Vec<Result<DeviceRef, DeviceRefError>> = Vec::new();
    let mut i: usize = 0;
    assert(refs@.map_values(g) =~= all.take(0).map_values(f));
    while i < pieces.len()
        invariant
            i <= pieces@.len(),
            all == pieces.deep_view(),
            f == (|piece: Seq<char>| device::parsed(piece)),
            g == (|d: Result<DeviceRef, DeviceRefError>| device_view(d)),
            refs@.map_values(g) == all.take(i as int).map_values(f),
        decreases pieces@.len() - i,
    {
        assert(all[i as int] == pieces@[i as int]@);
        let ghost before = refs@.map_values(g);
        let d = DeviceRef::from_str(pieces[i].as_str());
        assert(g(d) == f(all[i as int]));
        refs.push(d);
        assert(refs@.map_values(g) =~= before.push(f(all[i as int])));
        assert(all.take(i + 1).map_values(f) =~= before.push(f(all[i as int])));
        i = i + 1;
    }
    assert(all.take(i as int) =~= all);
    Ok(refs)
}

proof fn lemma_symlinks_error(pieces: Seq<Seq<char>>, n: int)
    requires
        0 <= n <= pieces.len(),
        symlinks_parsed(pieces.take(n)) is Err,
    ensures
        symlinks_parsed(pieces) == symlinks_parsed(pieces.take(n)),
    decreases pieces.len() - n,
{
    if n == pieces.len() {
        assert(pieces.take(n) =~= pieces);
    } else {
        assert(pieces.take(n + 1).drop_last() =~= pieces.take(n));
        lemma_symlinks_error(pieces, n + 1);
    }
}

/// The symlinks that are configured, in order.
pub fn symlinks(config: &Config) -> (r: Result<Vec<Symlink>, SymlinkError>)
    ensures
        match r {
            Ok(links) => symlinks_of(config.annotations@) == Ok::<
                Seq<symlink::SymlinkView>,
                symlink::SymlinkErrorView,
            >(links@.map_values(|l: Symlink| l@)),
            Err(e) => symlinks_of(config.annotations@) == Err::<
                Seq<symlink::SymlinkView>,
                symlink::SymlinkErrorView,
            >(e@),
        },
{
    let ghost g = |l: Symlink| l@;
    let mut links: Vec<Symlink> = Vec::new();
    assert(links@.map_values(g) =~= seq![]);
    let list = match config.annotations.get("org.lowrisc.hotplug.symlinks") {
        None => {
            return Ok(links);
        },
        Some(list) => list,
    };
    let pieces = text::split_str(list.as_str(), ',');
    let ghost all = pieces.deep_view();
    let mut i: usize = 0;
    while i < pieces.len()
        invariant
            i <= pieces@.len(),
            all == pieces.deep_view(),
            symlinks_of(config.annotations@) == symlinks_parsed(all),
            g == (|l: Symlink| l@),
            symlinks_parsed(all.take(i as int)) == Ok::<
                Seq<symlink::SymlinkView>,
                symlink::SymlinkErrorView,
            >(links@.map_values(g)),
        decreases pieces@.len() - i,
    {
        assert(all[i as int] == pieces@[i as int]@);
        assert(all.take(i + 1).drop_last() =~= all.take(i as int));
        assert(all.take(i + 1).last() == all[i as int]);
        let ghost before = links@.map_values(g);
        match Symlink::from_str(pieces[i].as_str()) {
            Ok(link) => {
                let ghost l = link@;
                links.push(link);
                assert(links@.map_values(g) =~= before.push(l));
            },
            Err(e) => {
                proof {
                    lemma_symlinks_error(all, i + 1);
                }
                return Err(e);
            },
        }
        i = i + 1;
    }
    assert(all.take(i as int) =~= all);
    Ok(links)
}

/// Whether sysfs is to be writable.
///
/// Writable sysfs is opt-in: writes to sysfs attributes act on the host's device state, not just on
/// the container's view of it.
pub fn sysfs(config: &Config) -> (r: Result<bool, AnnotationError>)
    ensures
        match r {
            Ok(rw) => sysfs_of(config.annotations@) == Ok::<bool, AnnotationErrorView>(rw),
            Err(e) => sysfs_of(config.annotations@) == Err::<bool, AnnotationErrorView>(e@),
        },
{
    match config.annotations.get("org.lowrisc.hotplug.sysfs") {
        None => Ok(false),
        Some(value) => {
            let v = value.as_str();
            if text::same(v, "false") || text::same(v, "0") || text::same(v, "ro") {
                Ok(false)
            } else if text::same(v, "true") || text::same(v, "1") || text::same(v, "rw") {
                Ok(true)
            } else {
                Err(AnnotationError::Sysfs(value.clone()))
            }
        },
    }
}

/// The root devices are listed under `devices`, or else under `device`. Without either there is no
/// list.
pub proof fn devices_are_listed_under_either_name(a: Map<Seq<char>, Seq<char>>)
    ensures
        a.contains_key("org.lowrisc.hotplug.devices"@) ==> device_list(a) == Some(
            a["org.lowrisc.hotplug.devices"@],
        ),
        !a.contains_key("org.lowrisc.hotplug.devices"@) && a.contains_key(
            "org.lowrisc.hotplug.device"@,
        ) ==> device_list(a) == Some(a["org.lowrisc.hotplug.device"@]),
        !a.contains_key("org.lowrisc.hotplug.devices"@) && !a.contains_key(
            "org.lowrisc.hotplug.device"@,
        ) ==> device_list(a) is None,
{
}

/// Each piece of a list between commas is a root device of its own, in order.
pub proof fn commas_separate_root_devices(pieces: Seq<Seq<char>>, i: int)
    requires
        pieces.len() >= 1,
        forall|j: int| 0 <= j < pieces.len() ==> !(#[trigger] pieces[j]).contains(','),
        0 <= i < pieces.len(),
    ensures
        devices_parsed(text::unsplit(pieces, ',')).len() == pieces.len(),
        devices_parsed(text::unsplit(pieces, ','))[i] == device::parsed(pieces[i]),
{
    text::pieces_come_apart_again(pieces, ',');
}

proof fn lemma_symlinks_parsed(pieces: Seq<Seq<char>>)
    ensures
        symlinks_parsed(pieces) matches Ok(links) ==> links.len() == pieces.len() && forall|i: int|
            0 <= i < pieces.len() ==> symlink::parsed(#[trigger] pieces[i]) == Ok::<
                symlink::SymlinkView,
                symlink::SymlinkErrorView,
            >(links[i]),
        symlinks_parsed(pieces) matches Err(e) ==> exists|n: int|
            0 <= n < pieces.len() && symlink::parsed(#[trigger] pieces[n]) == Err::<
                symlink::SymlinkView,
                symlink::SymlinkErrorView,
            >(e) && forall|i: int| 0 <= i < n ==> symlink::parsed(#[trigger] pieces[i]) is Ok,
    decreases pieces.len(),
{
    if pieces.len() > 0 {
        let front = pieces.drop_last();
        lemma_symlinks_parsed(front);
        match symlinks_parsed(front) {
            Err(e) => {
                let n = choose|n: int|
                    0 <= n < front.len() && symlink::parsed(#[trigger] front[n]) == Err::<
                        symlink::SymlinkView,
                        symlink::SymlinkErrorView,
                    >(e) && forall|i: int| 0 <= i < n ==> symlink::parsed(#[trigger] front[i]) is Ok;
                assert(pieces[n] == front[n]);
                assert forall|i: int| 0 <= i < n implies symlink::parsed(
                    #[trigger] pieces[i],
                ) is Ok by {
                    assert(pieces[i] == front[i]);
                }
            },
            Ok(links) => {
                assert forall|i: int| 0 <= i < front.len() implies symlink::parsed(
                    #[trigger] pieces[i],
                ) == Ok::<symlink::SymlinkView, symlink::SymlinkErrorView>(links[i]) by {
                    assert(pieces[i] == front[i]);
                }
                let n = pieces.len() - 1;
                assert(pieces[n] == pieces.last());
                if let Ok(link) = symlink::parsed(pieces.last()) {
                    let all = links.push(link);
                    assert forall|i: int| 0 <= i < pieces.len() implies symlink::parsed(
                        #[trigger] pieces[i],
                    ) == Ok::<symlink::SymlinkView, symlink::SymlinkErrorView>(all[i]) by {}
                }
            },
        }
    }
}

/// Each piece of the list of symlinks between commas is a rule of its own, in order. All of them have
/// to be rules: the first that is not decides the error.
pub proof fn commas_separate_rules(a: Map<Seq<char>, Seq<char>>, pieces: Seq<Seq<char>>)
    requires
        pieces.len() >= 1,
        forall|j: int| 0 <= j < pieces.len() ==> !(#[trigger] pieces[j]).contains(','),
        a.contains_key("org.lowrisc.hotplug.symlinks"@),
        a["org.lowrisc.hotplug.symlinks"@] == text::unsplit(pieces, ','),
    ensures
        symlinks_of(a) is Ok <==> forall|i: int|
            0 <= i < pieces.len() ==> symlink::parsed(#[trigger] pieces[i]) is Ok,
        symlinks_of(a) matches Ok(links) ==> links.len() == pieces.len() && forall|i: int|
            0 <= i < pieces.len() ==> symlink::parsed(#[trigger] pieces[i]) == Ok::<
                symlink::SymlinkView,
                symlink::SymlinkErrorView,
            >(links[i]),
        symlinks_of(a) matches Err(e) ==> exists|n: int|
            0 <= n < pieces.len() && symlink::parsed(#[trigger] pieces[n]) == Err::<
                symlink::SymlinkView,
                symlink::SymlinkErrorView,
            >(e) && forall|i: int| 0 <= i < n ==> symlink::parsed(#[trigger] pieces[i]) is Ok,
{
    text::pieces_come_apart_again(pieces, ',');
    lemma_symlinks_parsed(pieces);
}

/// Without the annotation there are no symlinks, and sysfs is not writable.
pub proof fn symlinks_and_sysfs_are_optional(a: Map<Seq<char>, Seq<char>>)
    ensures
        !a.contains_key("org.lowrisc.hotplug.symlinks"@) ==> (symlinks_of(a) matches Ok(links)
            && links.len() == 0),
        !a.contains_key("org.lowrisc.hotplug.sysfs"@) ==> (sysfs_of(a) matches Ok(rw) && !rw),
{
}

/// sysfs is writable just if the annotation says so, in one of three ways, and it may say that it is
/// not in another three. Any other value is an error, which names the value.
pub proof fn writable_sysfs_is_asked_for(a: Map<Seq<char>, Seq<char>>)
    requires
        a.contains_key("org.lowrisc.hotplug.sysfs"@),
    ensures
        ({
            let value = a["org.lowrisc.hotplug.sysfs"@];
            let yes = value == seq!['r', 'w'] || value == seq!['t', 'r', 'u', 'e'] || value == seq![
                '1',
            ];
            let no = value == seq!['r', 'o'] || value == seq!['f', 'a', 'l', 's', 'e'] || value
                == seq!['0'];
            &&& (sysfs_of(a) matches Ok(rw) && rw) <==> yes
            &&& (sysfs_of(a) matches Ok(rw) && !rw) <==> no
            &&& !yes && !no ==> sysfs_of(a) == Err::<bool, AnnotationErrorView>(
                AnnotationErrorView::Sysfs(value),
            )
        }),
{
    reveal_strlit("rw");
    reveal_strlit("true");
    reveal_strlit("1");
    reveal_strlit("ro");
    reveal_strlit("false");
    reveal_strlit("0");
    assert("rw"@ =~= seq!['r', 'w']);
    assert("true"@ =~= seq!['t', 'r', 'u', 'e']);
    assert("1"@ =~= seq!['1']);
    assert("ro"@ =~= seq!['r', 'o']);
    assert("false"@ =~= seq!['f', 'a', 'l', 's', 'e']);
    assert("0"@ =~= seq!['0']);
    assert(seq!['r', 'w'][1] != seq!['r', 'o'][1]);
    assert(seq!['1'][0] != seq!['0'][0]);
    assert(seq!['r', 'w'].len() == 2 && seq!['r', 'o'].len() == 2 && seq!['1'].len() == 1);
    assert(seq!['t', 'r', 'u', 'e'].len() == 4 && seq!['f', 'a', 'l', 's', 'e'].len() == 5);
    assert(seq!['0'].len() == 1);
}

/// What is said of a value for sysfs ends with that value in backquotes.
pub proof fn values_for_sysfs_are_quoted(value: Seq<char>)
    ensures
        ({
            let m = error_message(AnnotationErrorView::Sysfs(value));
            let quoted = seq!['`'] + value + seq!['`'];
            &&& m.len() > quoted.len()
            &&& m.skip(m.len() - quoted.len()) == quoted
        }),
{
    reveal_strlit("`");
    reveal_strlit("Annotation `org.lowrisc.hotplug.sysfs` should be one of `rw` or `ro`, found `");
    let m = error_message(AnnotationErrorView::Sysfs(value));
    let quoted = seq!['`'] + value + seq!['`'];
    assert(m.skip(m.len() - quoted.len()) =~= quoted);
}

} // verus!

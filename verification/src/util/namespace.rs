//! Acting on behalf of a container that has namespaces of its own.
//!
//! To create a device node or a mount that the container can see, a thread must be in its mount
//! namespace; to send it a netlink message that it trusts, a thread must be in its network
//! namespace with a credential it recognises. When the container has a user namespace, IDs must
//! additionally be translated through it, since the container's root is some other UID on the host.
use crate::number;
use crate::number::NumberError;
use crate::path::PathBuf;
use crate::text;
use vstd::prelude::*;

verus! {

/// `struct mount_attr`, the argument of `mount_setattr(2)`.
#[derive(Debug, Clone, Copy, PartialEq, Eq, Structural)]
pub struct MountAttr {
    pub attr_set: u64,
    pub attr_clr: u64,
    pub propagation: u64,
    pub userns_fd: u64,
}

/// Map the owners of files through a user namespace.
pub const MOUNT_ATTR_IDMAP: u64 = 0x0010_0000;

/// Take a mount out of its propagation group.
pub const MS_PRIVATE: u64 = 0x0004_0000;

/// The attributes of [`idmap_mount`].
pub open spec fn idmap_attributes(user_ns: u64) -> MountAttr {
    MountAttr { attr_set: MOUNT_ATTR_IDMAP, attr_clr: 0, propagation: 0, userns_fd: user_ns }
}

/// The attributes of [`make_mount_private`].
pub open spec fn private_attributes() -> MountAttr {
    MountAttr { attr_set: 0, attr_clr: 0, propagation: MS_PRIVATE, userns_fd: 0 }
}

/// The attributes that make a detached mount idmapped with respect to the user namespace behind the
/// file descriptor `user_ns`.
///
/// This makes files owned by UID/GID X on the host appear as owned by the ID that X maps to inside
/// the namespace. Not all filesystems support idmapped mounts.
pub fn idmap_mount(user_ns: u64) -> (r: MountAttr)
    ensures
        r == (MountAttr {
            attr_set: MOUNT_ATTR_IDMAP,
            attr_clr: 0,
            propagation: 0,
            userns_fd: user_ns,
        }),
        r == idmap_attributes(user_ns),
{
    MountAttr { attr_set: MOUNT_ATTR_IDMAP, attr_clr: 0, propagation: 0, userns_fd: user_ns }
}

/// The attributes that remove a mount from the propagation group it was cloned into.
///
/// Cloning a shared mount makes the clone a peer of the source rather than a private mount: any
/// mount later made underneath the clone would then propagate to every peer, including back into
/// the mount namespace it was cloned from. Set these on the detached mount, before attaching it.
pub fn make_mount_private() -> (r: MountAttr)
    ensures
        r == (MountAttr { attr_set: 0, attr_clr: 0, propagation: MS_PRIVATE, userns_fd: 0 }),
        r == private_attributes(),
{
    MountAttr { attr_set: 0, attr_clr: 0, propagation: MS_PRIVATE, userns_fd: 0 }
}

/// A range of IDs: the first ID inside the namespace, the first ID outside, and how many there are.
pub type IdRange = (u32, u32, u32);

/// A parsed `/proc/<pid>/{uid,gid}_map`.
#[derive(Debug)]
pub struct IdMap {
    /// Ranges of `(id inside the namespace, id outside, length)`.
    pub map: Vec<IdRange>,
}

impl View for IdMap {
    type V = Seq<IdRange>;

    open spec fn view(&self) -> Seq<IdRange> {
        self.map@
    }
}

/// Why a map file cannot be parsed.
#[derive(Debug, Clone, Copy, PartialEq, Eq, Structural)]
pub enum IdMapError {
    /// A line has fewer than three words.
    Unexpected,
    /// A word is not a number.
    Number(NumberError),
}

/// What is said of an error.
pub open spec fn id_map_error(e: IdMapError) -> Seq<char> {
    match e {
        IdMapError::Unexpected => "unexpected id_map"@,
        IdMapError::Number(NumberError::Empty) => "cannot parse integer from empty string"@,
        IdMapError::Number(NumberError::InvalidDigit) => "invalid digit found in string"@,
        IdMapError::Number(
            NumberError::TooLarge,
        ) => "number too large to fit in target type"@,
    }
}

impl IdMapError {
    /// What is said of the error.
    pub fn message(&self) -> (r: &'static str)
        ensures
            r@ == id_map_error(*self),
    {
        match self {
            IdMapError::Unexpected => "unexpected id_map",
            IdMapError::Number(e) => match e {
                NumberError::Empty => "cannot parse integer from empty string",
                NumberError::InvalidDigit => "invalid digit found in string",
                NumberError::TooLarge => "number too large to fit in target type",
            },
        }
    }
}

/// The number that is the `i`th word of a line.
pub open spec fn field(words: Seq<Seq<char>>, i: int) -> Result<nat, IdMapError> {
    if i < words.len() {
        match number::number(words[i]) {
            Ok(n) => Ok(n),
            Err(e) => Err(IdMapError::Number(e)),
        }
    } else {
        Err(IdMapError::Unexpected)
    }
}

/// The range that a line gives: its first three words.
pub open spec fn range_parsed(line: Seq<char>) -> Result<IdRange, IdMapError> {
    let words = text::words(line);
    match (field(words, 0), field(words, 1), field(words, 2)) {
        (Ok(inside), Ok(outside), Ok(count)) => Ok((inside as u32, outside as u32, count as u32)),
        (Err(e), _, _) => Err(e),
        (Ok(_), Err(e), _) => Err(e),
        (Ok(_), Ok(_), Err(e)) => Err(e),
    }
}

/// The ranges that some lines give. The first line that cannot be parsed decides the error.
pub open spec fn ranges_parsed(lines: Seq<Seq<char>>) -> Result<Seq<IdRange>, IdMapError>
    decreases lines.len(),
{
    if lines.len() == 0 {
        Ok(seq![])
    } else {
        match ranges_parsed(lines.drop_last()) {
            Err(e) => Err(e),
            Ok(ranges) => match range_parsed(lines.last()) {
                Err(e) => Err(e),
                Ok(range) => Ok(ranges.push(range)),
            },
        }
    }
}

/// Whether a range holds `id`, as an ID inside the namespace.
pub open spec fn holds(range: IdRange, id: u32) -> bool {
    range.0 <= id < range.0 + range.2
}

/// The ID outside the namespace for `id` inside it: `id` lies as far into the range outside as it
/// does into the first range inside that holds it.
///
/// An ID outside that would be past the largest is none.
pub open spec fn translated(map: Seq<IdRange>, id: u32) -> Option<u32>
    decreases map.len(),
{
    if map.len() == 0 {
        None
    } else if holds(map[0], id) {
        let (inside, outside, _) = map[0];
        if id - inside + outside > u32::MAX {
            None
        } else {
            Some((id - inside + outside) as u32)
        }
    } else {
        translated(map.drop_first(), id)
    }
}

/// The `i`th word as a number.
fn parse_field(words: &Vec<String>, i: usize) -> (r: Result<u32, IdMapError>)
    ensures
        match r {
            Ok(n) => field(words.deep_view(), i as int) == Ok::<nat, IdMapError>(n as nat),
            Err(e) => field(words.deep_view(), i as int) == Err::<nat, IdMapError>(e),
        },
{
    if i < words.len() {
        assert(words.deep_view()[i as int] == words@[i as int]@);
        match number::parse_number(words[i].as_str()) {
            Ok(n) => Ok(n),
            Err(e) => Err(IdMapError::Number(e)),
        }
    } else {
        Err(IdMapError::Unexpected)
    }
}

fn parse_range(line: &str) -> (r: Result<IdRange, IdMapError>)
    ensures
        r == range_parsed(line@),
{
    let words = text::to_words(line);
    let inside = match parse_field(&words, 0) {
        Ok(n) => n,
        Err(e) => {
            return Err(e);
        },
    };
    let outside = match parse_field(&words, 1) {
        Ok(n) => n,
        Err(e) => {
            return Err(e);
        },
    };
    match parse_field(&words, 2) {
        Ok(count) => Ok((inside, outside, count)),
        Err(e) => Err(e),
    }
}

proof fn lemma_ranges_error(lines: Seq<Seq<char>>, n: int)
    requires
        0 <= n <= lines.len(),
        ranges_parsed(lines.take(n)) is Err,
    ensures
        ranges_parsed(lines) == ranges_parsed(lines.take(n)),
    decreases lines.len() - n,
{
    if n == lines.len() {
        assert(lines.take(n) =~= lines);
    } else {
        assert(lines.take(n + 1).drop_last() =~= lines.take(n));
        lemma_ranges_error(lines, n + 1);
    }
}

impl IdMap {
    /// Parse the contents of a map file: one `inside outside count` triple per line.
    pub fn parse(content: &str) -> (r: Result<IdMap, IdMapError>)
        ensures
            match r {
                Ok(m) => ranges_parsed(text::lines(content@)) == Ok::<Seq<IdRange>, IdMapError>(m@),
                Err(e) => ranges_parsed(text::lines(content@)) == Err::<Seq<IdRange>, IdMapError>(
                    e,
                ),
            },
    {
        let lines = text::to_lines(content);
        let ghost all = lines.deep_view();
        let mut map: Vec<IdRange> = Vec::new();
        let mut i: usize = 0;
        assert(map@ =~= seq![]);
        while i < lines.len()
            invariant
                i <= lines@.len(),
                all == lines.deep_view(),
                all == text::lines(content@),
                ranges_parsed(all.take(i as int)) == Ok::<Seq<IdRange>, IdMapError>(map@),
            decreases lines@.len() - i,
        {
            assert(all[i as int] == lines@[i as int]@);
            assert(all.take(i + 1).drop_last() =~= all.take(i as int));
            assert(all.take(i + 1).last() == all[i as int]);
            match parse_range(lines[i].as_str()) {
                Ok(range) => map.push(range),
                Err(e) => {
                    proof {
                        lemma_ranges_error(all, i + 1);
                    }
                    return Err(e);
                },
            }
            i = i + 1;
        }
        assert(all.take(i as int) =~= all);
        Ok(IdMap { map })
    }

    /// Translate an ID inside the namespace to the corresponding ID outside it.
    ///
    /// Returns [`None`] if the ID is not mapped.
    pub fn translate(&self, id: u32) -> (r: Option<u32>)
        ensures
            r == translated(self@, id),
    {
        let mut i: usize = 0;
        assert(self@.skip(0) =~= self@);
        while i < self.map.len()
            invariant
                i <= self.map@.len(),
                translated(self@, id) == translated(self@.skip(i as int), id),
            decreases self.map@.len() - i,
        {
            let ghost rest = self@.skip(i as int);
            assert(rest[0] == self@[i as int]);
            assert(rest.drop_first() =~= self@.skip(i + 1));
            let (inside, outside, count) = self.map[i];
            if inside <= id && (id as u64) < inside as u64 + count as u64 {
                return (id - inside).checked_add(outside);
            }
            i = i + 1;
        }
        None
    }
}

/// The ID mappings of a process's user namespace.
///
/// A container may well not have one, in which case the mappings are the identity and
/// [`UserNamespace::in_user_ns`] is false.
#[derive(Debug)]
pub struct UserNamespace {
    pub uid_map: IdMap,
    pub gid_map: IdMap,
}

pub struct UserNamespaceView {
    pub uid_map: Seq<IdRange>,
    pub gid_map: Seq<IdRange>,
}

impl View for UserNamespace {
    type V = UserNamespaceView;

    open spec fn view(&self) -> UserNamespaceView {
        UserNamespaceView { uid_map: self.uid_map@, gid_map: self.gid_map@ }
    }
}

/// The mapping of a process that has no user namespace.
pub open spec fn identity() -> Seq<IdRange> {
    seq![(0u32, 0u32, u32::MAX)]
}

/// Whether every ID is mapped to itself. The largest ID is never in use.
pub open spec fn keeps(map: Seq<IdRange>) -> bool {
    forall|id: u32| id < u32::MAX ==> #[trigger] translated(map, id) == Some(id)
}

impl UserNamespaceView {
    /// Whether there is a user namespace that matters: one that does not map every ID to itself.
    pub open spec fn in_user_ns(self) -> bool {
        !(keeps(self.uid_map) && keeps(self.gid_map))
    }
}

/// Which ID is not mapped.
#[derive(Debug, Clone, Copy, PartialEq, Eq, Structural)]
pub enum IdError {
    Uid,
    Gid,
}

impl IdError {
    pub open spec fn spec_message(self) -> Seq<char> {
        match self {
            IdError::Uid => "UID overflows"@,
            IdError::Gid => "GID overflows"@,
        }
    }

    /// What is said of the error.
    pub fn message(&self) -> (r: &'static str)
        ensures
            r@ == self.spec_message(),
    {
        match self {
            IdError::Uid => "UID overflows",
            IdError::Gid => "GID overflows",
        }
    }
}

/// One step of a thread's way into a namespace. None of them can be undone.
#[derive(Debug, Clone, Copy, PartialEq, Eq, Structural)]
pub enum EnterStep {
    /// Detach the filesystem context from that of the other threads.
    UnshareFs,
    /// Move into the mount namespace.
    MountNamespace,
    /// Move into the network namespace.
    NetworkNamespace,
    /// Keep capabilities when the user changes.
    KeepCapabilities,
    SetUid(u32),
    SetGid(u32),
    /// Give up.
    Fail(IdError),
}

/// The steps that become the root user of a user namespace.
pub open spec fn root_steps(ns: UserNamespaceView) -> Seq<EnterStep> {
    seq![EnterStep::KeepCapabilities] + match translated(ns.uid_map, 0) {
        None => seq![EnterStep::Fail(IdError::Uid)],
        Some(uid) => seq![EnterStep::SetUid(uid)] + match translated(ns.gid_map, 0) {
            None => seq![EnterStep::Fail(IdError::Gid)],
            Some(gid) => seq![EnterStep::SetGid(gid)],
        },
    }
}

/// The steps into a mount namespace.
pub open spec fn mount_steps(ns: UserNamespaceView) -> Seq<EnterStep> {
    seq![EnterStep::UnshareFs, EnterStep::MountNamespace] + root_steps(ns)
}

/// The steps into a network namespace.
pub open spec fn network_steps(ns: UserNamespaceView) -> Seq<EnterStep> {
    seq![EnterStep::NetworkNamespace] + root_steps(ns)
}

/// Whether no range starts or ends after `from` and up to `to`.
spec fn unbroken(map: Seq<IdRange>, from: int, to: int) -> bool {
    forall|i: int|
        0 <= i < map.len() ==> {
            let start = (#[trigger] map[i]).0 as int;
            let end = map[i].0 + map[i].2;
            !(from < start <= to) && !(from < end <= to)
        }
}

/// Where no range starts or ends, an ID is mapped to itself if the first one is.
proof fn lemma_unbroken(map: Seq<IdRange>, from: u32, id: u32)
    requires
        from <= id,
        unbroken(map, from as int, id as int),
        translated(map, from) == Some(from),
    ensures
        translated(map, id) == Some(id),
    decreases map.len(),
{
    if map.len() > 0 {
        let (inside, outside, count) = map[0];
        assert(!(from < inside <= id) && !(from < inside + count <= id));
        assert(holds(map[0], from) == holds(map[0], id));
        if !holds(map[0], from) {
            let rest = map.drop_first();
            assert forall|i: int| 0 <= i < rest.len() implies {
                let start = (#[trigger] rest[i]).0 as int;
                let end = rest[i].0 + rest[i].2;
                !(from < start <= id) && !(from < end <= id)
            } by {
                assert(rest[i] == map[i + 1]);
            }
            lemma_unbroken(rest, from, id);
        }
    }
}

/// The first ID after `from` at which a range starts or ends, or the largest ID.
fn next_bound(map: &IdMap, from: u32) -> (r: u32)
    requires
        from < u32::MAX,
    ensures
        from < r,
        unbroken(map@, from as int, r - 1),
{
    let mut next: u32 = u32::MAX;
    let mut i: usize = 0;
    while i < map.map.len()
        invariant
            i <= map.map@.len(),
            from < next,
            unbroken(map@.take(i as int), from as int, next - 1),
        decreases map.map@.len() - i,
    {
        let ghost before = next;
        let (inside, _, count) = map.map[i];
        let end: u64 = inside as u64 + count as u64;
        if from < inside && inside < next {
            next = inside;
        }
        if (from as u64) < end && end < next as u64 {
            next = end as u32;
        }
        proof {
            let now = map@.take(i + 1);
            assert forall|j: int| 0 <= j < now.len() implies {
                let start = (#[trigger] now[j]).0 as int;
                let end = now[j].0 + now[j].2;
                !(from < start <= next - 1) && !(from < end <= next - 1)
            } by {
                if j < i {
                    assert(now[j] == map@.take(i as int)[j]);
                }
            }
        }
        i = i + 1;
    }
    assert(map@.take(i as int) =~= map@);
    next
}

/// Whether every ID is mapped to itself: it is enough to look where a range starts or ends.
fn keeps_ids(map: &IdMap) -> (r: bool)
    ensures
        r == keeps(map@),
{
    let mut from: u32 = 0;
    while from < u32::MAX
        invariant
            forall|id: u32| id < from ==> #[trigger] translated(map@, id) == Some(id),
        decreases u32::MAX - from,
    {
        let kept = match map.translate(from) {
            Some(id) => id == from,
            None => false,
        };
        if !kept {
            assert(translated(map@, from) != Some(from));
            return false;
        }
        let next = next_bound(map, from);
        assert forall|id: u32| id < next implies #[trigger] translated(map@, id) == Some(id) by {
            if from <= id {
                assert(unbroken(map@, from as int, id as int)) by {
                    assert forall|i: int| 0 <= i < map@.len() implies {
                        let start = (#[trigger] map@[i]).0 as int;
                        let end = map@[i].0 + map@[i].2;
                        !(from < start <= id) && !(from < end <= id)
                    } by {
                        assert(!(from < map@[i].0 <= next - 1));
                    }
                }
                lemma_unbroken(map@, from, id);
            }
        }
        from = next;
    }
    true
}

/// The user on the host that a user is.
pub open spec fn host_uid(ns: UserNamespaceView, uid: u32) -> Result<u32, IdError> {
    match translated(ns.uid_map, uid) {
        Some(id) => Ok(id),
        None => Err(IdError::Uid),
    }
}

/// The group on the host that a group is.
pub open spec fn host_gid(ns: UserNamespaceView, gid: u32) -> Result<u32, IdError> {
    match translated(ns.gid_map, gid) {
        Some(id) => Ok(id),
        None => Err(IdError::Gid),
    }
}

impl UserNamespace {
    /// Whether there is a user namespace.
    ///
    /// Determined from the mappings rather than the namespace itself: a namespace that maps every
    /// ID to itself is indistinguishable from none, in however many ranges it does so.
    pub fn in_user_ns(&self) -> (r: bool)
        ensures
            r == self@.in_user_ns(),
    {
        !(keeps_ids(&self.uid_map) && keeps_ids(&self.gid_map))
    }

    /// Translate a UID inside the namespace to the corresponding UID on the host.
    ///
    /// So `uid(0)` is the host UID that the container's root user is mapped to.
    pub fn uid(&self, uid: u32) -> (r: Result<u32, IdError>)
        ensures
            r == match translated(self@.uid_map, uid) {
                Some(id) => Ok::<u32, IdError>(id),
                None => Err(IdError::Uid),
            },
            r == host_uid(self@, uid),
    {
        match self.uid_map.translate(uid) {
            Some(id) => Ok(id),
            None => Err(IdError::Uid),
        }
    }

    /// Translate a GID inside the namespace to the corresponding GID on the host.
    pub fn gid(&self, gid: u32) -> (r: Result<u32, IdError>)
        ensures
            r == match translated(self@.gid_map, gid) {
                Some(id) => Ok::<u32, IdError>(id),
                None => Err(IdError::Gid),
            },
            r == host_gid(self@, gid),
    {
        match self.gid_map.translate(gid) {
            Some(id) => Ok(id),
            None => Err(IdError::Gid),
        }
    }

    /// The steps that "enter" the user namespace.
    ///
    /// This does not actually enter the user namespace, but becomes its root user, since creating
    /// device nodes takes a capability of the initial namespace. Changing the user would drop it,
    /// so capabilities are kept first.
    pub fn enter(&self) -> (r: Vec<EnterStep>)
        ensures
            r@ == root_steps(self@),
    {
        let mut r: Vec<EnterStep> = Vec::new();
        r.push(EnterStep::KeepCapabilities);
        match self.uid(0) {
            Err(e) => r.push(EnterStep::Fail(e)),
            Ok(uid) => {
                r.push(EnterStep::SetUid(uid));
                match self.gid(0) {
                    Err(e) => r.push(EnterStep::Fail(e)),
                    Ok(gid) => r.push(EnterStep::SetGid(gid)),
                }
            },
        }
        assert(r@ =~= root_steps(self@));
        r
    }
}

/// A process's mount namespace, with the [`UserNamespace`] of the same process, since acting inside
/// a mount namespace generally also needs its ID mappings.
#[derive(Debug)]
pub struct MntNamespace {
    pub user_ns: UserNamespace,
}

impl MntNamespace {
    /// The steps that enter the mount namespace, as the container's root user.
    ///
    /// The filesystem context must not be shared with other threads to switch to another namespace.
    /// Files can only be created properly as the root user inside the namespace.
    pub fn enter(&self) -> (r: Vec<EnterStep>)
        ensures
            r@ == mount_steps(self.user_ns@),
    {
        let mut r: Vec<EnterStep> = Vec::new();
        r.push(EnterStep::UnshareFs);
        r.push(EnterStep::MountNamespace);
        let mut rest = self.user_ns.enter();
        r.append(&mut rest);
        assert(r@ =~= mount_steps(self.user_ns@));
        r
    }
}

/// A process's network namespace, with the [`UserNamespace`] of the same process.
#[derive(Debug)]
pub struct NetNamespace {
    pub user_ns: UserNamespace,
}

impl NetNamespace {
    /// The steps that enter the network namespace, as the container's root user.
    ///
    /// Being the container's root user matters as much as the namespace itself: it is what makes
    /// libudev in the container accept the credentials on messages.
    pub fn enter(&self) -> (r: Vec<EnterStep>)
        ensures
            r@ == network_steps(self.user_ns@),
    {
        let mut r: Vec<EnterStep> = Vec::new();
        r.push(EnterStep::NetworkNamespace);
        let mut rest = self.user_ns.enter();
        r.append(&mut rest);
        assert(r@ =~= network_steps(self.user_ns@));
        r
    }
}

/// A file that `/proc` has for each process.
#[derive(Debug, Clone, Copy, PartialEq, Eq, Structural)]
pub enum ProcFile {
    UserNamespace,
    MountNamespace,
    NetworkNamespace,
    UidMap,
    GidMap,
}

impl ProcFile {
    /// The name of the file inside the directory of the process.
    pub open spec fn name(self) -> Seq<char> {
        match self {
            ProcFile::UserNamespace => "/ns/user"@,
            ProcFile::MountNamespace => "/ns/mnt"@,
            ProcFile::NetworkNamespace => "/ns/net"@,
            ProcFile::UidMap => "/uid_map"@,
            ProcFile::GidMap => "/gid_map"@,
        }
    }

    /// The path of the file for the process `pid`.
    pub open spec fn path(self, pid: u32) -> Seq<char> {
        "/proc/"@ + number::decimal(pid as nat) + self.name()
    }

    /// The path of the file for the process `pid`.
    pub fn of_pid(self, pid: u32) -> (r: PathBuf)
        ensures
            r@ == vstd::utf8::encode_utf8("/proc/"@ + number::decimal(pid as nat) + self.name()),
            r@ == vstd::utf8::encode_utf8(self.path(pid)),
    {
        let name = match self {
            ProcFile::UserNamespace => "/ns/user",
            ProcFile::MountNamespace => "/ns/mnt",
            ProcFile::NetworkNamespace => "/ns/net",
            ProcFile::UidMap => "/uid_map",
            ProcFile::GidMap => "/gid_map",
        };
        let path = text::concat3("/proc/", number::to_decimal(pid).as_str(), name);
        PathBuf::from_text(path.as_str())
    }
}

/// An ID is mapped just if a range holds it and there is an ID for it outside: the first such range
/// decides, and the ID lies just as far into it outside the namespace as inside.
pub proof fn translation_keeps_offsets(map: Seq<IdRange>, id: u32, i: int)
    requires
        0 <= i < map.len(),
        holds(map[i], id),
        forall|j: int| 0 <= j < i ==> !holds(#[trigger] map[j], id),
    ensures
        translated(map, id) is Some <==> id - map[i].0 + map[i].1 <= u32::MAX,
        translated(map, id) matches Some(host) ==> host - map[i].1 == id - map[i].0,
    decreases map.len(),
{
    if i > 0 {
        let rest = map.drop_first();
        assert(!holds(map[0], id));
        assert forall|j: int| 0 <= j < i - 1 implies !holds(#[trigger] rest[j], id) by {
            assert(rest[j] == map[j + 1]);
        }
        translation_keeps_offsets(rest, id, i - 1);
    }
}

/// An ID that no range holds is not mapped.
pub proof fn other_ids_are_not_mapped(map: Seq<IdRange>, id: u32)
    requires
        forall|j: int| 0 <= j < map.len() ==> !holds(#[trigger] map[j], id),
    ensures
        translated(map, id) is None,
    decreases map.len(),
{
    if map.len() > 0 {
        let rest = map.drop_first();
        assert(!holds(map[0], id));
        assert forall|j: int| 0 <= j < rest.len() implies !holds(#[trigger] rest[j], id) by {
            assert(rest[j] == map[j + 1]);
        }
        other_ids_are_not_mapped(rest, id);
    }
}

/// A process without a user namespace of its own, whose mappings are the identity, is not in one.
pub proof fn identity_is_no_user_ns(ns: UserNamespaceView)
    requires
        ns.uid_map == identity(),
        ns.gid_map == identity(),
    ensures
        !ns.in_user_ns(),
{
    assert(identity()[0] == (0u32, 0u32, u32::MAX));
}

/// Without a user namespace every ID but the largest stands for itself.
pub proof fn without_user_ns_ids_are_kept(ns: UserNamespaceView, id: u32)
    requires
        !ns.in_user_ns(),
        id < u32::MAX,
    ensures
        translated(ns.uid_map, id) == Some(id),
        translated(ns.gid_map, id) == Some(id),
{
}

/// A thread becomes root of the namespace only after it was told to keep its capabilities, and the
/// last thing it does on its way in is to become that root, or to give up because there is none.
pub proof fn capabilities_are_kept_first(ns: UserNamespaceView, i: int)
    requires
        0 <= i < root_steps(ns).len(),
        root_steps(ns)[i] is SetUid || root_steps(ns)[i] is SetGid,
    ensures
        i > 0,
        root_steps(ns)[0] is KeepCapabilities,
        root_steps(ns).last() is SetGid || root_steps(ns).last() is Fail,
{
}

/// An ID is translated by the first range that it lies in, to the ID that is as far from the start of
/// the range outside as it is inside. There is none if that is more than 32 bits hold.
pub proof fn first_range_translates(map: Seq<IdRange>, id: u32, i: int)
    requires
        0 <= i < map.len(),
        map[i].0 <= id,
        id < map[i].0 + map[i].2,
        forall|j: int|
            0 <= j < i ==> id < (#[trigger] map[j]).0 || map[j].0 + map[j].2 <= id,
    ensures
        translated(map, id) == if map[i].1 + (id - map[i].0) <= u32::MAX {
            Some((map[i].1 + (id - map[i].0)) as u32)
        } else {
            None
        },
{
    assert forall|j: int| 0 <= j < i implies !holds(#[trigger] map[j], id) by {}
    translation_keeps_offsets(map, id, i);
}

/// An ID that lies in no range is not translated.
pub proof fn ids_outside_all_ranges(map: Seq<IdRange>, id: u32)
    requires
        forall|j: int|
            0 <= j < map.len() ==> id < (#[trigger] map[j]).0 || map[j].0 + map[j].2 <= id,
    ensures
        translated(map, id) is None,
{
    assert forall|j: int| 0 <= j < map.len() implies !holds(#[trigger] map[j], id) by {}
    other_ids_are_not_mapped(map, id);
}

/// There is a user namespace just if some user or some group is not translated to itself.
pub proof fn a_single_id_makes_a_user_ns(ns: UserNamespaceView, id: u32)
    ensures
        id < u32::MAX && translated(ns.uid_map, id) != Some(id) ==> ns.in_user_ns(),
        id < u32::MAX && translated(ns.gid_map, id) != Some(id) ==> ns.in_user_ns(),
        ns.in_user_ns() ==> exists|other: u32|
            other < u32::MAX && (#[trigger] translated(ns.uid_map, other) != Some(other)
                || translated(ns.gid_map, other) != Some(other)),
{
    if ns.in_user_ns() {
        if !keeps(ns.uid_map) {
            let other = choose|other: u32|
                other < u32::MAX && #[trigger] translated(ns.uid_map, other) != Some(other);
            assert(translated(ns.uid_map, other) != Some(other));
        } else {
            let other = choose|other: u32|
                other < u32::MAX && #[trigger] translated(ns.gid_map, other) != Some(other);
            assert(translated(ns.uid_map, other) == Some(other));
        }
    }
}

/// Becoming root of a namespace is becoming the user, and then the group, that root is outside of it,
/// with all capabilities kept. It is given up where there is no such user or group.
pub proof fn root_is_user_and_group_of_the_host(ns: UserNamespaceView)
    ensures
        ({
            let steps = root_steps(ns);
            let uid = translated(ns.uid_map, 0);
            let gid = translated(ns.gid_map, 0);
            &&& steps[0] is KeepCapabilities
            &&& uid is None ==> steps.len() == 2 && steps[1] == EnterStep::Fail(IdError::Uid)
            &&& uid is Some ==> steps.len() == 3 && steps[1] == EnterStep::SetUid(uid->0)
            &&& uid is Some && gid is None ==> steps[2] == EnterStep::Fail(IdError::Gid)
            &&& uid is Some && gid is Some ==> steps[2] == EnterStep::SetGid(gid->0)
        }),
{
}

/// A thread moves into a namespace before it becomes root there. Into a mount namespace it moves only
/// with a filesystem context of its own.
pub proof fn namespaces_are_entered_before_becoming_root(ns: UserNamespaceView)
    ensures
        mount_steps(ns).len() == 2 + root_steps(ns).len(),
        mount_steps(ns)[0] is UnshareFs,
        mount_steps(ns)[1] is MountNamespace,
        mount_steps(ns).skip(2) == root_steps(ns),
        network_steps(ns).len() == 1 + root_steps(ns).len(),
        network_steps(ns)[0] is NetworkNamespace,
        network_steps(ns).skip(1) == root_steps(ns),
{
    assert(mount_steps(ns).skip(2) =~= root_steps(ns));
    assert(network_steps(ns).skip(1) =~= root_steps(ns));
}

/// A mount is idmapped with the namespace that is given, and made private, by the numbers that the
/// kernel has for that. Nothing else about it is changed.
pub proof fn attributes_are_those_of_the_kernel(user_ns: u64)
    ensures
        idmap_attributes(user_ns).attr_set == 1048576,
        idmap_attributes(user_ns).userns_fd == user_ns,
        idmap_attributes(user_ns).propagation == 0,
        idmap_attributes(user_ns).attr_clr == 0,
        private_attributes().propagation == 262144,
        private_attributes().attr_set == 0,
        private_attributes().attr_clr == 0,
{
}

/// How a range is written in a map file.
pub open spec fn range_shown(range: IdRange) -> Seq<char> {
    number::decimal(range.0 as nat).push(' ') + (number::decimal(range.1 as nat).push(' ')
        + number::decimal(range.2 as nat))
}

/// How a map file is written: a line for each range.
pub open spec fn map_shown(map: Seq<IdRange>) -> Seq<char>
    decreases map.len(),
{
    if map.len() == 0 {
        seq![]
    } else {
        range_shown(map[0]).push('\n') + map_shown(map.drop_first())
    }
}

proof fn lemma_decimal_chars(n: nat)
    ensures
        number::decimal(n).len() > 0,
        forall|i: int|
            0 <= i < number::decimal(n).len() ==> '0' <= #[trigger] number::decimal(n)[i] <= '9',
    decreases n,
{
    if n >= 10 {
        lemma_decimal_chars(n / 10);
    }
}

/// A line of a map file gives the range that it was written for, whatever comes behind the third
/// number.
pub proof fn lines_give_their_range(range: IdRange, more: Seq<char>)
    ensures
        range_parsed(range_shown(range)) == Ok::<IdRange, IdMapError>(range),
        range_parsed(range_shown(range).push(' ') + more) == Ok::<IdRange, IdMapError>(range),
{
    let a = number::decimal(range.0 as nat);
    let b = number::decimal(range.1 as nat);
    let c = number::decimal(range.2 as nat);
    lemma_decimal_chars(range.0 as nat);
    lemma_decimal_chars(range.1 as nat);
    lemma_decimal_chars(range.2 as nat);
    number::number_of_decimal(range.0);
    number::number_of_decimal(range.1);
    number::number_of_decimal(range.2);
    let line = range_shown(range);
    text::words_stand_between_white_space(a, ' ', b.push(' ') + c);
    text::words_stand_between_white_space(b, ' ', c);
    text::words_stand_between_white_space(c, ' ', more);
    assert(text::words(line) =~= seq![a, b, c]);
    let long = line.push(' ') + more;
    let tail = c.push(' ') + more;
    assert(long =~= a.push(' ') + (b.push(' ') + tail));
    text::words_stand_between_white_space(a, ' ', b.push(' ') + tail);
    text::words_stand_between_white_space(b, ' ', tail);
    assert(text::words(long) =~= seq![a, b, c] + text::words(more));
    assert(text::words(long)[0] == a && text::words(long)[1] == b && text::words(long)[2] == c);
}

proof fn lemma_ranges_first(lines: Seq<Seq<char>>)
    requires
        lines.len() > 0,
    ensures
        ranges_parsed(lines) == match range_parsed(lines[0]) {
            Err(e) => Err(e),
            Ok(range) => match ranges_parsed(lines.drop_first()) {
                Err(e) => Err(e),
                Ok(ranges) => Ok(seq![range] + ranges),
            },
        },
    decreases lines.len(),
{
    let rest = lines.drop_first();
    if lines.len() == 1 {
        assert(lines.drop_last() =~= rest);
        assert(rest =~= Seq::empty());
        assert(lines.last() == lines[0]);
        if let Ok(range) = range_parsed(lines[0]) {
            assert(Seq::<IdRange>::empty().push(range) =~= seq![range] + Seq::<IdRange>::empty());
        }
    } else {
        let front = lines.drop_last();
        lemma_ranges_first(front);
        assert(front.drop_first() =~= rest.drop_last());
        assert(rest.last() == lines.last());
        assert(front[0] == lines[0]);
        if let (Ok(range), Ok(ranges), Ok(last)) = (
            range_parsed(lines[0]),
            ranges_parsed(rest.drop_last()),
            range_parsed(lines.last()),
        ) {
            assert((seq![range] + ranges).push(last) =~= seq![range] + ranges.push(last));
        }
    }
}

/// A map file gives the ranges that it was written for, all of them and in order.
pub proof fn map_files_give_their_ranges(map: Seq<IdRange>)
    ensures
        ranges_parsed(text::lines(map_shown(map))) == Ok::<Seq<IdRange>, IdMapError>(map),
    decreases map.len(),
{
    let content = map_shown(map);
    if map.len() == 0 {
        text::line_feeds_end_lines(content, content);
        assert(text::lines(content) =~= Seq::<Seq<char>>::empty());
        assert(map =~= Seq::empty());
    } else {
        let line = range_shown(map[0]);
        let rest = map.drop_first();
        lemma_decimal_chars(map[0].0 as nat);
        lemma_decimal_chars(map[0].1 as nat);
        lemma_decimal_chars(map[0].2 as nat);
        assert forall|i: int| 0 <= i < line.len() implies line[i] == ' ' || '0' <= line[i] <= '9' by {
            let a = number::decimal(map[0].0 as nat);
            let b = number::decimal(map[0].1 as nat);
            let c = number::decimal(map[0].2 as nat);
            if i < a.len() {
                assert(line[i] == a[i]);
            } else if i > a.len() {
                let j = i - a.len() - 1;
                if j < b.len() {
                    assert(line[i] == b[j]);
                } else if j > b.len() {
                    assert(line[i] == c[j - b.len() - 1]);
                }
            }
        }
        assert(!line.contains('\n')) by {
            if line.contains('\n') {
                let i = choose|i: int| 0 <= i < line.len() && line[i] == '\n';
                assert(line[i] == ' ' || '0' <= line[i] <= '9');
            }
        }
        assert(line.last() == ' ' || '0' <= line.last() <= '9') by {
            assert(line.last() == line[line.len() - 1]);
        }
        text::line_feeds_end_lines(line, map_shown(rest));
        map_files_give_their_ranges(rest);
        lines_give_their_range(map[0], Seq::empty());
        let lines = text::lines(content);
        assert(lines =~= seq![line] + text::lines(map_shown(rest)));
        assert(lines.drop_first() =~= text::lines(map_shown(rest)));
        lemma_ranges_first(lines);
        assert(seq![map[0]] + rest =~= map);
    }
}

/// A line needs three numbers, and the first line that does not have them decides the error: the first
/// of its words that is missing, or is no number, does.
pub proof fn lines_need_three_numbers(lines: Seq<Seq<char>>, i: int)
    requires
        lines.len() > 0,
        0 <= i < 3,
        forall|j: int|
            0 <= j < i ==> j < text::words(lines[0]).len() && number::number(
                #[trigger] text::words(lines[0])[j],
            ) is Ok,
    ensures
        i >= text::words(lines[0]).len() ==> ranges_parsed(lines) == Err::<Seq<IdRange>, IdMapError>(
            IdMapError::Unexpected,
        ),
        i < text::words(lines[0]).len() ==> (number::number(text::words(lines[0])[i]) matches Err(e)
            ==> ranges_parsed(lines) == Err::<Seq<IdRange>, IdMapError>(IdMapError::Number(e))),
        range_parsed(lines[0]) is Ok && ranges_parsed(lines.drop_first()) is Err ==> ranges_parsed(
            lines,
        ) == ranges_parsed(lines.drop_first()),
{
    lemma_ranges_first(lines);
    let w = text::words(lines[0]);
    if i >= 1 {
        assert(number::number(w[0]) is Ok);
    }
    if i >= 2 {
        assert(number::number(w[1]) is Ok);
    }
}

/// Users are translated by the map of users and groups by that of groups, and it is said which of them
/// has no translation.
pub proof fn users_and_groups_have_maps_of_their_own(ns: UserNamespaceView, id: u32, host: u32)
    ensures
        host_uid(ns, id) == Ok::<u32, IdError>(host) <==> translated(ns.uid_map, id) == Some(host),
        host_gid(ns, id) == Ok::<u32, IdError>(host) <==> translated(ns.gid_map, id) == Some(host),
        translated(ns.uid_map, id) is None ==> host_uid(ns, id) == Err::<u32, IdError>(IdError::Uid),
        translated(ns.gid_map, id) is None ==> host_gid(ns, id) == Err::<u32, IdError>(IdError::Gid),
{
}

/// The files of a process are in its own directory below `/proc`.
pub proof fn files_of_a_process_are_below_proc(pid: u32)
    ensures
        ({
            let dir = "/proc/"@ + number::decimal(pid as nat);
            &&& ProcFile::UserNamespace.path(pid) == dir + "/ns/user"@
            &&& ProcFile::MountNamespace.path(pid) == dir + "/ns/mnt"@
            &&& ProcFile::NetworkNamespace.path(pid) == dir + "/ns/net"@
            &&& ProcFile::UidMap.path(pid) == dir + "/uid_map"@
            &&& ProcFile::GidMap.path(pid) == dir + "/gid_map"@
        }),
{
}

} // verus!

//! Manipulating a running container from the outside.
use crate::cgroup;
use crate::cgroup::{Access, DeviceAccessController, DeviceType, MapUpdate};
use crate::dev::device;
use crate::path;
use crate::path::{PathBuf, PathKey};
use crate::runc::config::{Config, ConfigView};
use crate::runc::state::State;
use crate::text;
use crate::util::namespace;
use crate::util::namespace::{IdError, UserNamespace};
use vstd::prelude::*;

verus! {

/// The file of a cgroup that tells whether it is populated.
pub open spec fn events_path(cgroup: Seq<u8>) -> Seq<u8> {
    path::joined(cgroup, vstd::utf8::encode_utf8("cgroup.events"@))
}

/// The `cgroup.events` file has no `populated` field.
#[derive(Debug, Clone, Copy, PartialEq, Eq, Structural)]
pub struct NoPopulatedField;

impl NoPopulatedField {
    /// What is said of the error.
    pub fn message(&self) -> (r: &'static str)
        ensures
            r@ == "Cannot find populated field"@,
    {
        "Cannot find populated field"
    }
}

/// Whether a line of `cgroup.events` is the `populated` field.
pub open spec fn is_populated_field(line: Seq<char>) -> bool {
    "populated "@.is_prefix_of(line)
}

/// Whether a cgroup contains any process, with `lines` being what could be read of its
/// `cgroup.events` and `failed` whether reading ended in an error.
///
/// The first `populated` field counts. An error means that the cgroup has been deleted, so it is no
/// longer populated.
pub open spec fn is_populated(lines: Seq<Seq<char>>, failed: bool) -> Result<bool, NoPopulatedField>
    decreases lines.len(),
{
    if lines.len() == 0 {
        if failed {
            Ok(false)
        } else {
            Err(NoPopulatedField)
        }
    } else if is_populated_field(lines[0]) {
        Ok(lines[0].len() > 0 && lines[0].last() == '1')
    } else {
        is_populated(lines.drop_first(), failed)
    }
}

/// Whether a cgroup contains any process, as [`is_populated`].
pub fn populated(lines: &Vec<String>, failed: bool) -> (r: Result<bool, NoPopulatedField>)
    ensures
        r == is_populated(lines.deep_view(), failed),
{
    let ghost all = lines.deep_view();
    let mut i: usize = 0;
    assert(all.skip(0) =~= all);
    while i < lines.len()
        invariant
            i <= lines@.len(),
            all == lines.deep_view(),
            is_populated(all, failed) == is_populated(all.skip(i as int), failed),
        decreases lines@.len() - i,
    {
        assert(all[i as int] == lines@[i as int]@);
        assert(all.skip(i as int)[0] == all[i as int]);
        assert(all.skip(i as int).drop_first() =~= all.skip(i + 1));
        if text::starts_with(lines[i].as_str(), "populated ") {
            return Ok(text::ends_with(lines[i].as_str(), '1'));
        }
        i = i + 1;
    }
    if failed {
        Ok(false)
    } else {
        Err(NoPopulatedField)
    }
}

/// What to do while waiting for a cgroup to be no longer populated.
#[derive(Debug, Clone, Copy, PartialEq, Eq, Structural)]
pub enum WaitStep {
    /// The cgroup is not populated.
    Done,
    /// Wait for a change of `cgroup.events`, then read it again.
    AwaitChange,
    Fail(NoPopulatedField),
}

/// What to do after `cgroup.events` was read.
pub open spec fn waiting(lines: Seq<Seq<char>>, failed: bool) -> WaitStep {
    match is_populated(lines, failed) {
        Ok(true) => WaitStep::AwaitChange,
        Ok(false) => WaitStep::Done,
        Err(e) => WaitStep::Fail(e),
    }
}

/// What to do after `cgroup.events` was read.
pub fn wait_step(lines: &Vec<String>, failed: bool) -> (r: WaitStep)
    ensures
        r == match is_populated(lines.deep_view(), failed) {
            Ok(true) => WaitStep::AwaitChange,
            Ok(false) => WaitStep::Done,
            Err(e) => WaitStep::Fail(e),
        },
        r == waiting(lines.deep_view(), failed),
{
    match populated(lines, failed) {
        Ok(p) => if p {
            WaitStep::AwaitChange
        } else {
            WaitStep::Done
        },
        Err(e) => WaitStep::Fail(e),
    }
}

/// A deleted cgroup is never waited for: unless it was found to be populated before reading failed,
/// it counts as unpopulated, and it is no error that its field is missing.
pub proof fn deleted_cgroup_is_unpopulated(lines: Seq<Seq<char>>)
    ensures
        is_populated(lines, true) is Ok,
        (forall|i: int| 0 <= i < lines.len() ==> !is_populated_field(#[trigger] lines[i]))
            ==> is_populated(lines, true) == Ok::<bool, NoPopulatedField>(false),
    decreases lines.len(),
{
    if lines.len() > 0 {
        let rest = lines.drop_first();
        deleted_cgroup_is_unpopulated(rest);
        if forall|i: int| 0 <= i < lines.len() ==> !is_populated_field(#[trigger] lines[i]) {
            assert(!is_populated_field(lines[0]));
            assert forall|i: int| 0 <= i < rest.len() implies !is_populated_field(
                #[trigger] rest[i],
            ) by {
                assert(rest[i] == lines[i + 1]);
            }
        }
    }
}

/// Why a container cannot be taken control of.
#[derive(Debug, Clone, Copy, PartialEq, Eq, Structural)]
pub enum ContainerError {
    NoCgroupName,
    CgroupNameNotUtf8,
    CgroupV1,
    PidOutOfRange,
    InvalidPid,
}

impl ContainerError {
    pub open spec fn spec_message(self) -> Seq<char> {
        match self {
            ContainerError::NoCgroupName => "cgroup doesn't have file name"@,
            ContainerError::CgroupNameNotUtf8 => "cgroup name is not UTF-8"@,
            ContainerError::CgroupV1 => "cgroupv1 is no longer supported"@,
            ContainerError::PidOutOfRange => "out of range integral type conversion attempted"@,
            ContainerError::InvalidPid => "Invalid PID"@,
        }
    }

    /// What is said of the error.
    pub fn message(&self) -> (r: &'static str)
        ensures
            r@ == self.spec_message(),
    {
        match self {
            ContainerError::NoCgroupName => "cgroup doesn't have file name",
            ContainerError::CgroupNameNotUtf8 => "cgroup name is not UTF-8",
            ContainerError::CgroupV1 => "cgroupv1 is no longer supported",
            ContainerError::PidOutOfRange => "out of range integral type conversion attempted",
            ContainerError::InvalidPid => "Invalid PID",
        }
    }
}

/// A step of taking control of a container.
#[derive(Debug)]
pub enum SetupStep {
    /// Watch the given `cgroup.events` file.
    Watch(PathBuf),
    /// Remove a file. Failing to is no error, since the cgroup might be handled by runc directly.
    Remove(PathBuf),
    /// Take over device filtering. See [`DeviceAccessController::takeover`].
    TakeOver(DeviceAccessController),
    /// Remount `/dev`. See [`Container::remount_dev`].
    RemountDev,
    /// Give up.
    Fail(ContainerError),
}

pub enum SetupStepView {
    Watch(Seq<u8>),
    Remove(Seq<u8>),
    TakeOver(Seq<u8>),
    RemountDev,
    Fail(ContainerError),
}

impl View for SetupStep {
    type V = SetupStepView;

    open spec fn view(&self) -> SetupStepView {
        match self {
            SetupStep::Watch(p) => SetupStepView::Watch(p@),
            SetupStep::Remove(p) => SetupStepView::Remove(p@),
            SetupStep::TakeOver(c) => SetupStepView::TakeOver(c.pin@),
            SetupStep::RemountDev => SetupStepView::RemountDev,
            SetupStep::Fail(e) => SetupStepView::Fail(*e),
        }
    }
}

/// The views of some steps.
pub open spec fn setup_views(steps: Seq<SetupStep>) -> Seq<SetupStepView> {
    steps.map_values(|s: SetupStep| s@)
}

/// The name of a cgroup.
pub open spec fn cgroup_name(cgroup: Seq<u8>) -> Result<Seq<char>, ContainerError> {
    match path::final_name(cgroup) {
        None => Err(ContainerError::NoCgroupName),
        Some(name) => if vstd::utf8::valid_utf8(name) {
            Ok(vstd::utf8::decode_utf8(name))
        } else {
            Err(ContainerError::CgroupNameNotUtf8)
        },
    }
}

/// The file by which systemd is told to filter devices of a cgroup.
pub open spec fn transient_file(name: Seq<char>, file: Seq<char>) -> Seq<u8> {
    vstd::utf8::encode_utf8("/run/systemd/transient/"@ + name + file)
}

/// Whether the PID can be used, which goes for the positive signed 32-bit numbers.
pub open spec fn pid_checked(pid: u32) -> Result<u32, ContainerError> {
    if pid > i32::MAX {
        Err(ContainerError::PidOutOfRange)
    } else if pid == 0 {
        Err(ContainerError::InvalidPid)
    } else {
        Ok(pid)
    }
}

/// The steps that take control of a container.
pub open spec fn setup_steps(state: State) -> Seq<SetupStepView> {
    let unified = state.cgroup_paths.unified@;
    seq![SetupStepView::Watch(events_path(unified))] + match cgroup_name(unified) {
        Err(e) => seq![SetupStepView::Fail(e)],
        Ok(name) => seq![
            SetupStepView::Remove(transient_file(name, ".d/50-DeviceAllow.conf"@)),
            SetupStepView::Remove(transient_file(name, ".d/50-DevicePolicy.conf"@)),
        ] + if state.cgroup_paths.devices is Some {
            seq![SetupStepView::Fail(ContainerError::CgroupV1)]
        } else {
            seq![SetupStepView::TakeOver(cgroup::pin_of(unified)->0)] + match pid_checked(
                state.init_process_pid,
            ) {
                Err(e) => seq![SetupStepView::Fail(e)],
                Ok(_) => seq![SetupStepView::RemountDev],
            }
        },
    }
}

/// Whether control of a container can be taken.
pub open spec fn can_set_up(state: State) -> bool {
    &&& cgroup_name(state.cgroup_paths.unified@) is Ok
    &&& state.cgroup_paths.devices is None
    &&& pid_checked(state.init_process_pid) is Ok
}

/// A handle on a container that `runc` has created.
///
/// The methods here are the operations [`crate::hotplug::HotPlug`] needs: granting and revoking
/// device access via the cgroup filter, and creating and removing device nodes, symlinks and sysfs
/// mounts inside the container's namespaces. Those that touch the container's filesystem give the
/// steps to take inside its mount namespace.
#[derive(Debug)]
pub struct Container {
    /// UID of the primary container user, inside the user namespace (if any).
    pub uid: u32,
    /// GID of the primary container user, inside the user namespace (if any).
    pub gid: u32,
    /// PID of the container's init process on the host, used to reach its namespaces.
    pub pid: u32,
    pub cgroup_device_filter: DeviceAccessController,
    /// Whether there has been a warning about sysfs not supporting idmapped mounts. Used to warn
    /// once instead of once per device.
    pub sysfs_idmap_warned: bool,
}

pub struct ContainerView {
    pub uid: u32,
    pub gid: u32,
    pub pid: u32,
    /// The pin of the device filter.
    pub pin: Seq<u8>,
    pub sysfs_idmap_warned: bool,
}

impl View for Container {
    type V = ContainerView;

    open spec fn view(&self) -> ContainerView {
        ContainerView {
            uid: self.uid,
            gid: self.gid,
            pid: self.pid,
            pin: self.cgroup_device_filter.pin@,
            sysfs_idmap_warned: self.sysfs_idmap_warned,
        }
    }
}

/// The container that is taken control of.
pub open spec fn container_of(config: ConfigView, state: State) -> Option<ContainerView> {
    if can_set_up(state) {
        Some(
            ContainerView {
                uid: config.uid,
                gid: config.gid,
                pid: state.init_process_pid,
                pin: cgroup::pin_of(state.cgroup_paths.unified@)->0,
                sysfs_idmap_warned: false,
            },
        )
    } else {
        None
    }
}

pub open spec fn container_view(c: Option<Container>) -> Option<ContainerView> {
    match c {
        Some(c) => Some(c@),
        None => None,
    }
}

/// An operation on the filesystem that the container sees.
#[derive(Debug)]
pub enum FsOp {
    /// Have every permission that is asked for be granted.
    ClearUmask,
    CreateDir(PathBuf),
    /// Create a directory and those above it.
    CreateDirAll(PathBuf),
    RemoveDir(PathBuf),
    CreateFile(PathBuf),
    RemoveFile(PathBuf),
    /// Create a device node with a mode and a device number.
    Mknod(PathBuf, DeviceType, u32, u64),
    /// Set the owner and group.
    Chown(PathBuf, u32, u32),
    SetMode(PathBuf, u32),
    /// Create a symlink to the first path at the second one.
    Symlink(PathBuf, PathBuf),
    /// Create a symlink at the second path to where the first one leads.
    CopyLink(PathBuf, PathBuf),
    /// Move a mount from the first path to the second one.
    MoveMount(PathBuf, PathBuf),
    /// Attach the mount that was prepared.
    AttachMount(PathBuf),
    /// Detach the mount.
    Unmount(PathBuf),
    /// Fail unless there is a directory.
    RequireDir(PathBuf),
}

pub enum FsOpView {
    ClearUmask,
    CreateDir(Seq<u8>),
    CreateDirAll(Seq<u8>),
    RemoveDir(Seq<u8>),
    CreateFile(Seq<u8>),
    RemoveFile(Seq<u8>),
    Mknod(Seq<u8>, DeviceType, u32, u64),
    Chown(Seq<u8>, u32, u32),
    SetMode(Seq<u8>, u32),
    Symlink(Seq<u8>, Seq<u8>),
    CopyLink(Seq<u8>, Seq<u8>),
    MoveMount(Seq<u8>, Seq<u8>),
    AttachMount(Seq<u8>),
    Unmount(Seq<u8>),
    RequireDir(Seq<u8>),
}

impl View for FsOp {
    type V = FsOpView;

    open spec fn view(&self) -> FsOpView {
        match self {
            FsOp::ClearUmask => FsOpView::ClearUmask,
            FsOp::CreateDir(p) => FsOpView::CreateDir(p@),
            FsOp::CreateDirAll(p) => FsOpView::CreateDirAll(p@),
            FsOp::RemoveDir(p) => FsOpView::RemoveDir(p@),
            FsOp::CreateFile(p) => FsOpView::CreateFile(p@),
            FsOp::RemoveFile(p) => FsOpView::RemoveFile(p@),
            FsOp::Mknod(p, ty, mode, dev) => FsOpView::Mknod(p@, *ty, *mode, *dev),
            FsOp::Chown(p, uid, gid) => FsOpView::Chown(p@, *uid, *gid),
            FsOp::SetMode(p, mode) => FsOpView::SetMode(p@, *mode),
            FsOp::Symlink(p, q) => FsOpView::Symlink(p@, q@),
            FsOp::CopyLink(p, q) => FsOpView::CopyLink(p@, q@),
            FsOp::MoveMount(p, q) => FsOpView::MoveMount(p@, q@),
            FsOp::AttachMount(p) => FsOpView::AttachMount(p@),
            FsOp::Unmount(p) => FsOpView::Unmount(p@),
            FsOp::RequireDir(p) => FsOpView::RequireDir(p@),
        }
    }
}

/// Why no further operation is taken.
#[derive(Debug, Clone, Copy, PartialEq, Eq, Structural)]
pub enum FsError {
    Id(IdError),
    UnknownFile,
}

impl FsError {
    pub open spec fn spec_message(self) -> Seq<char> {
        match self {
            FsError::Id(e) => e.spec_message(),
            FsError::UnknownFile => "Unknown file present in /dev"@,
        }
    }

    /// What is said of the error.
    pub fn message(&self) -> (r: &'static str)
        ensures
            r@ == self.spec_message(),
    {
        match self {
            FsError::Id(e) => e.message(),
            FsError::UnknownFile => "Unknown file present in /dev",
        }
    }
}

/// An operation and what its failure means.
#[derive(Debug)]
pub enum FsStep {
    /// A failure ends everything.
    Must(FsOp),
    /// A failure does not matter.
    Try(FsOp),
    /// Take the steps of [`Container::move_entries`] for the files that the directory holds by then.
    MoveEntries(PathBuf),
    /// Give up.
    Fail(FsError),
}

pub enum FsStepView {
    Must(FsOpView),
    Try(FsOpView),
    MoveEntries(Seq<u8>),
    Fail(FsError),
}

impl View for FsStep {
    type V = FsStepView;

    open spec fn view(&self) -> FsStepView {
        match self {
            FsStep::Must(op) => FsStepView::Must(op@),
            FsStep::Try(op) => FsStepView::Try(op@),
            FsStep::MoveEntries(p) => FsStepView::MoveEntries(p@),
            FsStep::Fail(e) => FsStepView::Fail(*e),
        }
    }
}

/// The views of some steps.
pub open spec fn fs_views(steps: Seq<FsStep>) -> Seq<FsStepView> {
    steps.map_values(|s: FsStep| s@)
}

/// Make sure there is a directory for `p`.
pub open spec fn parent_steps(p: Seq<u8>) -> Seq<FsStepView> {
    match path::parent_of(p) {
        Some(dir) => seq![FsStepView::Try(FsOpView::CreateDirAll(dir))],
        None => seq![],
    }
}

/// Give `p` to a user and group inside the namespace, and go on from there.
pub open spec fn chown_steps(
    p: Seq<u8>,
    ns: namespace::UserNamespaceView,
    uid: u32,
    gid: u32,
    rest: Seq<FsStepView>,
) -> Seq<FsStepView> {
    match namespace::translated(ns.uid_map, uid) {
        None => seq![FsStepView::Fail(FsError::Id(IdError::Uid))],
        Some(host_uid) => match namespace::translated(ns.gid_map, gid) {
            None => seq![FsStepView::Fail(FsError::Id(IdError::Gid))],
            Some(host_gid) => seq![FsStepView::Must(FsOpView::Chown(p, host_uid, host_gid))] + rest,
        },
    }
}

/// The mode of a device node: readable by all, and writable by its owner.
pub const NODE_MODE: u32 = 0o644;

/// The mode of `/dev`.
pub const DEV_MODE: u32 = 0o755;

/// The steps that create a device node.
pub open spec fn mknod_steps(
    ns: namespace::UserNamespaceView,
    uid: u32,
    gid: u32,
    node: Seq<u8>,
    ty: DeviceType,
    devnum: (u32, u32),
) -> Seq<FsStepView> {
    parent_steps(node) + seq![
        FsStepView::Try(FsOpView::RemoveFile(node)),
        FsStepView::Must(
            FsOpView::Mknod(node, ty, NODE_MODE, device::devnum_of(devnum.0, devnum.1)),
        ),
    ] + chown_steps(node, ns, uid, gid, seq![])
}

/// The steps that create a symlink.
pub open spec fn symlink_steps(source: Seq<u8>, link: Seq<u8>) -> Seq<FsStepView> {
    parent_steps(link) + seq![
        FsStepView::Try(FsOpView::RemoveFile(link)),
        FsStepView::Must(FsOpView::Symlink(source, link)),
    ]
}

/// The steps that remove a file.
pub open spec fn rm_steps(node: Seq<u8>) -> Seq<FsStepView> {
    seq![FsStepView::Try(FsOpView::RemoveFile(node))]
}

/// The steps that put an end to a sysfs directory being writable.
pub open spec fn unbind_steps(syspath: Seq<u8>) -> Seq<FsStepView> {
    seq![FsStepView::Try(FsOpView::Unmount(syspath))]
}

/// What is known of a file in the old `/dev`.
#[derive(Debug, Clone, Copy, PartialEq, Eq, Structural)]
pub enum EntryKind {
    Directory,
    Symlink,
    /// A character device with its mode and device number.
    CharDevice(u32, u64),
    /// A block device with its mode and device number.
    BlockDevice(u32, u64),
    Other,
}

/// A file in the old `/dev`.
#[derive(Debug)]
pub struct DevEntry {
    pub name: PathBuf,
    pub kind: EntryKind,
}

impl View for DevEntry {
    type V = (Seq<u8>, EntryKind);

    open spec fn view(&self) -> (Seq<u8>, EntryKind) {
        (self.name@, self.kind)
    }
}

/// The views of some files.
pub open spec fn entry_views(entries: Seq<DevEntry>) -> Seq<(Seq<u8>, EntryKind)> {
    entries.map_values(|e: DevEntry| e@)
}

/// The steps that get rid of the old `/dev`.
pub open spec fn cleanup_steps() -> Seq<FsStepView> {
    let olddev = vstd::utf8::encode_utf8("/olddev"@);
    seq![
        FsStepView::Must(FsOpView::Unmount(olddev)),
        FsStepView::Must(FsOpView::RemoveDir(olddev)),
    ]
}

/// The steps that fill the new `/dev`, once it belongs to the container's root, and get rid of the
/// old one.
pub open spec fn refill_steps() -> Seq<FsStepView> {
    seq![
        FsStepView::Must(FsOpView::SetMode(vstd::utf8::encode_utf8("/dev"@), DEV_MODE)),
        FsStepView::MoveEntries(vstd::utf8::encode_utf8("/olddev"@)),
    ] + cleanup_steps()
}

/// The steps that replace `/dev` by the mount that was prepared.
pub open spec fn remount_steps(ns: namespace::UserNamespaceView) -> Seq<FsStepView> {
    let dev = vstd::utf8::encode_utf8("/dev"@);
    let olddev = vstd::utf8::encode_utf8("/olddev"@);
    seq![
        FsStepView::Must(FsOpView::ClearUmask),
        FsStepView::Must(FsOpView::CreateDir(olddev)),
        FsStepView::Must(FsOpView::MoveMount(dev, olddev)),
        FsStepView::Must(FsOpView::AttachMount(dev)),
    ] + chown_steps(dev, ns, 0, 0, refill_steps())
}

/// What there is to do about `/dev`: nothing without a user namespace.
pub open spec fn remounting(ns: namespace::UserNamespaceView) -> Option<Seq<FsStepView>> {
    if ns.in_user_ns() {
        Some(remount_steps(ns))
    } else {
        None
    }
}

/// The steps that move one file from the old `/dev` to the new one.
pub open spec fn entry_steps(name: Seq<u8>, kind: EntryKind) -> Seq<FsStepView> {
    let from = path::joined(vstd::utf8::encode_utf8("/olddev"@), name);
    let to = path::joined(vstd::utf8::encode_utf8("/dev"@), name);
    if name == vstd::utf8::encode_utf8("console"@) {
        seq![
            FsStepView::Must(FsOpView::CreateFile(to)),
            FsStepView::Must(FsOpView::MoveMount(from, to)),
        ]
    } else {
        match kind {
            EntryKind::Directory => seq![
                FsStepView::Must(FsOpView::CreateDir(to)),
                FsStepView::Must(FsOpView::MoveMount(from, to)),
            ],
            EntryKind::Symlink => seq![FsStepView::Must(FsOpView::CopyLink(from, to))],
            EntryKind::CharDevice(mode, dev) => seq![
                FsStepView::Must(FsOpView::Mknod(to, DeviceType::Character, mode, dev)),
                FsStepView::Try(FsOpView::Unmount(from)),
            ],
            EntryKind::BlockDevice(mode, dev) => seq![
                FsStepView::Must(FsOpView::Mknod(to, DeviceType::Block, mode, dev)),
                FsStepView::Try(FsOpView::Unmount(from)),
            ],
            EntryKind::Other => seq![FsStepView::Fail(FsError::UnknownFile)],
        }
    }
}

/// The steps that move some files from the old `/dev` to the new one, one after the other.
pub open spec fn moved_steps(entries: Seq<(Seq<u8>, EntryKind)>) -> Seq<FsStepView>
    decreases entries.len(),
{
    if entries.len() == 0 {
        seq![]
    } else {
        moved_steps(entries.drop_last()) + entry_steps(entries.last().0, entries.last().1)
    }
}

/// A step of making a sysfs directory writable.
#[derive(Debug)]
pub enum SysfsStep {
    /// Clone the host's mount of the given directory, as one that is attached nowhere.
    Clone(PathBuf),
    /// Take the clone out of its propagation group.
    MakePrivate,
    /// Map the owners of the files in the clone. See [`Container::idmap_failed`].
    Idmap,
    /// Attach the clone inside the container, at the given directory.
    Attach(PathBuf),
}

pub enum SysfsStepView {
    Clone(Seq<u8>),
    MakePrivate,
    Idmap,
    Attach(Seq<u8>),
}

impl View for SysfsStep {
    type V = SysfsStepView;

    open spec fn view(&self) -> SysfsStepView {
        match self {
            SysfsStep::Clone(p) => SysfsStepView::Clone(p@),
            SysfsStep::MakePrivate => SysfsStepView::MakePrivate,
            SysfsStep::Idmap => SysfsStepView::Idmap,
            SysfsStep::Attach(p) => SysfsStepView::Attach(p@),
        }
    }
}

/// The views of some steps.
pub open spec fn sysfs_views(steps: Seq<SysfsStep>) -> Seq<SysfsStepView> {
    steps.map_values(|s: SysfsStep| s@)
}

/// The steps that make a sysfs directory writable.
pub open spec fn sysfs_steps(syspath: Seq<u8>, in_user_ns: bool) -> Seq<SysfsStepView> {
    seq![SysfsStepView::Clone(syspath), SysfsStepView::MakePrivate] + (if in_user_ns {
        seq![SysfsStepView::Idmap]
    } else {
        seq![]
    }) + seq![SysfsStepView::Attach(syspath)]
}

/// The steps that attach a clone inside the container.
pub open spec fn attach_steps(syspath: Seq<u8>) -> Seq<FsStepView> {
    seq![
        FsStepView::Must(FsOpView::RequireDir(syspath)),
        FsStepView::Must(FsOpView::AttachMount(syspath)),
    ]
}

/// Whether a failure of a step of making a sysfs directory writable ends everything.
pub open spec fn is_fatal(step: SysfsStepView) -> bool {
    !(step is Idmap)
}

/// What is said when a step of making a sysfs directory writable fails, in front of the reason.
pub open spec fn sysfs_context(step: SysfsStepView, syspath: Seq<u8>) -> Seq<char> {
    let what = match step {
        SysfsStepView::Clone(_) => "Cannot clone sysfs mount for "@,
        SysfsStepView::MakePrivate => "Cannot make sysfs mount private for "@,
        SysfsStepView::Idmap => "Cannot idmap sysfs mount for "@,
        SysfsStepView::Attach(_) => "Cannot mount sysfs directory "@,
    };
    what + text::displayed(syspath)
}

/// The warning about sysfs not supporting idmapped mounts.
pub open spec fn idmap_warning(syspath: Seq<u8>, reason: Seq<char>) -> Seq<char> {
    sysfs_context(SysfsStepView::Idmap, syspath) + ": "@ + reason
        + ". Writing to sysfs attributes requires a container user that maps to host root."@
}

/// The warning about a mount that could not be idmapped, unless there has been one already.
pub open spec fn first_warning(warned: bool, syspath: Seq<u8>, reason: Seq<char>) -> Option<Seq<char>> {
    if warned {
        None
    } else {
        Some(idmap_warning(syspath, reason))
    }
}

fn name_of_cgroup(cgroup: &PathBuf) -> (r: Result<String, ContainerError>)
    ensures
        match r {
            Ok(name) => cgroup_name(cgroup@) == Ok::<Seq<char>, ContainerError>(name@),
            Err(e) => cgroup_name(cgroup@) == Err::<Seq<char>, ContainerError>(e),
        },
{
    match cgroup.file_name() {
        None => Err(ContainerError::NoCgroupName),
        Some(name) => match text::from_utf8(name) {
            None => Err(ContainerError::CgroupNameNotUtf8),
            Some(name) => Ok(name),
        },
    }
}

fn checked_pid(pid: u32) -> (r: Result<u32, ContainerError>)
    ensures
        r == pid_checked(pid),
{
    if pid > 0x7fff_ffff {
        Err(ContainerError::PidOutOfRange)
    } else if pid == 0 {
        Err(ContainerError::InvalidPid)
    } else {
        Ok(pid)
    }
}

/// Add the steps of [`parent_steps`].
fn push_parent(r: &mut Vec<FsStep>, p: &PathBuf)
    ensures
        fs_views(final(r)@) == fs_views(old(r)@) + parent_steps(p@),
{
    let ghost before = fs_views(r@);
    if let Some(dir) = p.parent() {
        r.push(FsStep::Try(FsOp::CreateDirAll(dir)));
    }
    assert(fs_views(r@) =~= before + parent_steps(p@));
}

/// Add the steps of [`chown_steps`], without any to go on with.
fn push_chown(r: &mut Vec<FsStep>, p: &PathBuf, ns: &UserNamespace, uid: u32, gid: u32) -> (ok: bool)
    ensures
        fs_views(final(r)@) == fs_views(old(r)@) + chown_steps(p@, ns@, uid, gid, seq![]),
        ok == (namespace::translated(ns@.uid_map, uid) is Some && namespace::translated(
            ns@.gid_map,
            gid,
        ) is Some),
{
    let ghost before = fs_views(r@);
    let ok = match ns.uid(uid) {
        Err(e) => {
            r.push(FsStep::Fail(FsError::Id(e)));
            false
        },
        Ok(host_uid) => match ns.gid(gid) {
            Err(e) => {
                r.push(FsStep::Fail(FsError::Id(e)));
                false
            },
            Ok(host_gid) => {
                r.push(FsStep::Must(FsOp::Chown(p.clone(), host_uid, host_gid)));
                true
            },
        },
    };
    assert(fs_views(r@) =~= before + chown_steps(p@, ns@, uid, gid, seq![]));
    ok
}

impl SysfsStep {
    /// Whether a failure of this step ends everything. A mount that is not idmapped is still
    /// read-write, so failing to idmap it is no error.
    pub fn must_succeed(&self) -> (r: bool)
        ensures
            r == !(self@ is Idmap),
            r == is_fatal(self@),
    {
        match self {
            SysfsStep::Idmap => false,
            _ => true,
        }
    }

    /// What is said when this step fails, in front of the reason.
    pub fn context(&self, syspath: &PathBuf) -> (r: String)
        ensures
            r@ == sysfs_context(self@, syspath@),
    {
        let what = match self {
            SysfsStep::Clone(_) => "Cannot clone sysfs mount for ",
            SysfsStep::MakePrivate => "Cannot make sysfs mount private for ",
            SysfsStep::Idmap => "Cannot idmap sysfs mount for ",
            SysfsStep::Attach(_) => "Cannot mount sysfs directory ",
        };
        let mut r = String::new();
        text::push_str(&mut r, what);
        text::push_str(&mut r, syspath.display().as_str());
        assert(r@ =~= sysfs_context(self@, syspath@));
        r
    }
}

/// What is said where the container has no directory to mount a sysfs directory at.
pub fn missing_dir(syspath: &PathBuf) -> (r: String)
    ensures
        r@ == text::displayed(syspath@) + " does not exist in the container"@,
{
    let mut r = syspath.display();
    text::push_str(&mut r, " does not exist in the container");
    r
}

impl Container {
    /// Take control of the container described by `config` and `state`.
    ///
    /// The steps have side effects on the live container, so they must be taken after `runc create`
    /// has returned and before the container is started:
    ///
    /// * a watcher is started for the container's cgroup;
    /// * systemd's transient `DeviceAllow` drop-ins are deleted, which systemd would otherwise
    ///   reconcile back on a `daemon-reload` and undo the filter;
    /// * device filtering is taken over from the container manager;
    /// * `/dev` is remounted if the container uses a user namespace.
    ///
    /// There is no container if a step is to give up, which goes for cgroup v1 among others.
    pub fn new(config: &Config, state: &State) -> (r: (Vec<SetupStep>, Option<Container>))
        ensures
            setup_views(r.0@) == setup_steps(*state),
            container_view(r.1) == container_of(config@, *state),
    {
        let unified = &state.cgroup_paths.unified;
        let mut r: Vec<SetupStep> = Vec::new();
        r.push(SetupStep::Watch(unified.join(&PathBuf::from_text("cgroup.events"))));
        let name = match name_of_cgroup(unified) {
            Err(e) => {
                r.push(SetupStep::Fail(e));
                assert(setup_views(r@) =~= setup_steps(*state));
                return (r, None);
            },
            Ok(name) => name,
        };
        let allow = text::concat3(
            "/run/systemd/transient/",
            name.as_str(),
            ".d/50-DeviceAllow.conf",
        );
        r.push(SetupStep::Remove(PathBuf::from_text(allow.as_str())));
        let policy = text::concat3(
            "/run/systemd/transient/",
            name.as_str(),
            ".d/50-DevicePolicy.conf",
        );
        r.push(SetupStep::Remove(PathBuf::from_text(policy.as_str())));
        if state.cgroup_paths.devices.is_some() {
            r.push(SetupStep::Fail(ContainerError::CgroupV1));
            assert(setup_views(r@) =~= setup_steps(*state));
            return (r, None);
        }
        let filter = match DeviceAccessController::new(unified) {
            Ok(filter) => filter,
            Err(_) => {
                assert(false);
                return (r, None);
            },
        };
        let pin = filter.pin.clone();
        r.push(SetupStep::TakeOver(filter));
        match checked_pid(state.init_process_pid) {
            Err(e) => {
                r.push(SetupStep::Fail(e));
                assert(setup_views(r@) =~= setup_steps(*state));
                (r, None)
            },
            Ok(pid) => {
                r.push(SetupStep::RemountDev);
                assert(setup_views(r@) =~= setup_steps(*state));
                let container = Container {
                    uid: config.process.user.uid,
                    gid: config.process.user.gid,
                    pid,
                    cgroup_device_filter: DeviceAccessController { pin },
                    sysfs_idmap_warned: false,
                };
                (r, Some(container))
            },
        }
    }

    /// PID of the container's init process, on the host.
    pub fn pid(&self) -> (r: u32)
        ensures
            r == self.pid,
    {
        self.pid
    }

    /// Remount `/dev` inside the init namespace.
    ///
    /// When a user namespace is used, the `/dev` created by runc is mounted inside the user
    /// namespace, and the kernel keeps device nodes within it from being opened. The replacement is
    /// a fresh tmpfs created in the initial namespace, into which everything from the old `/dev` is
    /// moved. It is owned by the container's root user, so the container can create entries under
    /// it.
    ///
    /// Submounts (`pts`, `shm`, `mqueue`, and the bind-mounted `console`) are moved across, symlinks
    /// recreated, and device nodes created anew: see [`crate::runc::remount`]. Nothing is to be done
    /// if the container does not use a user namespace.
    pub fn remount_dev(&self, ns: &UserNamespace) -> (r: Option<Vec<FsStep>>)
        ensures
            match r {
                Some(steps) => ns@.in_user_ns() && fs_views(steps@) == remount_steps(ns@),
                None => !ns@.in_user_ns(),
            },
            match r {
                Some(steps) => remounting(ns@) == Some(fs_views(steps@)),
                None => remounting(ns@) is None,
            },
    {
        if !ns.in_user_ns() {
            return None;
        }
        let dev = PathBuf::from_text("/dev");
        let olddev = PathBuf::from_text("/olddev");
        let mut r: Vec<FsStep> = Vec::new();
        r.push(FsStep::Must(FsOp::ClearUmask));
        r.push(FsStep::Must(FsOp::CreateDir(olddev.clone())));
        r.push(FsStep::Must(FsOp::MoveMount(dev.clone(), olddev.clone())));
        r.push(FsStep::Must(FsOp::AttachMount(dev.clone())));
        assert(fs_views(r@) =~= seq![
            FsStepView::Must(FsOpView::ClearUmask),
            FsStepView::Must(FsOpView::CreateDir(vstd::utf8::encode_utf8("/olddev"@))),
            FsStepView::Must(FsOpView::MoveMount(dev@, vstd::utf8::encode_utf8("/olddev"@))),
            FsStepView::Must(FsOpView::AttachMount(dev@)),
        ]);
        let ghost head = fs_views(r@);
        if push_chown(&mut r, &dev, ns, 0, 0) {
            let ghost owned = fs_views(r@);
            r.push(FsStep::Must(FsOp::SetMode(dev.clone(), DEV_MODE)));
            r.push(FsStep::MoveEntries(olddev.clone()));
            r.push(FsStep::Must(FsOp::Unmount(olddev.clone())));
            r.push(FsStep::Must(FsOp::RemoveDir(olddev.clone())));
            assert(fs_views(r@) =~= owned + refill_steps());
        }
        assert(fs_views(r@) =~= head + chown_steps(dev@, ns@, 0, 0, refill_steps()));
        assert(fs_views(r@) =~= remount_steps(ns@));
        Some(r)
    }

    /// The steps that move one file of the old `/dev` to the new one.
    ///
    /// Submounts (`pts`, `shm`, `mqueue`, and the bind-mounted `console`) are moved across, symlinks
    /// recreated, and device nodes created anew.
    pub fn move_entry(&self, name: &PathBuf, kind: EntryKind) -> (r: Vec<FsStep>)
        ensures
            fs_views(r@) == entry_steps(name@, kind),
    {
        let from = PathBuf::from_text("/olddev").join(name);
        let to = PathBuf::from_text("/dev").join(name);
        let console = PathBuf::from_text("console");
        let mut r: Vec<FsStep> = Vec::new();
        if path::same_bytes(name.bytes.as_slice(), console.bytes.as_slice()) {
            r.push(FsStep::Must(FsOp::CreateFile(to.clone())));
            r.push(FsStep::Must(FsOp::MoveMount(from, to)));
        } else {
            match kind {
                EntryKind::Directory => {
                    r.push(FsStep::Must(FsOp::CreateDir(to.clone())));
                    r.push(FsStep::Must(FsOp::MoveMount(from, to)));
                },
                EntryKind::Symlink => {
                    r.push(FsStep::Must(FsOp::CopyLink(from, to)));
                },
                EntryKind::CharDevice(mode, dev) => {
                    r.push(FsStep::Must(FsOp::Mknod(to, DeviceType::Character, mode, dev)));
                    r.push(FsStep::Try(FsOp::Unmount(from)));
                },
                EntryKind::BlockDevice(mode, dev) => {
                    r.push(FsStep::Must(FsOp::Mknod(to, DeviceType::Block, mode, dev)));
                    r.push(FsStep::Try(FsOp::Unmount(from)));
                },
                EntryKind::Other => {
                    r.push(FsStep::Fail(FsError::UnknownFile));
                },
            }
        }
        assert(fs_views(r@) =~= entry_steps(name@, kind));
        r
    }

    /// The steps that move all the files of the old `/dev` to the new one.
    pub fn move_entries(&self, entries: &Vec<DevEntry>) -> (r: Vec<FsStep>)
        ensures
            fs_views(r@) == moved_steps(entry_views(entries@)),
    {
        let ghost all = entry_views(entries@);
        let mut r: Vec<FsStep> = Vec::new();
        let mut i: usize = 0;
        assert(fs_views(r@) =~= moved_steps(all.take(0)));
        while i < entries.len()
            invariant
                i <= entries@.len(),
                all == entry_views(entries@),
                fs_views(r@) == moved_steps(all.take(i as int)),
            decreases entries@.len() - i,
        {
            let ghost before = fs_views(r@);
            let mut steps = self.move_entry(&entries[i].name, entries[i].kind);
            let ghost own = fs_views(steps@);
            assert(all[i as int] == entries@[i as int]@);
            assert(all.take(i + 1).drop_last() =~= all.take(i as int));
            assert(all.take(i + 1).last() == all[i as int]);
            r.append(&mut steps);
            assert(fs_views(r@) =~= before + own);
            i = i + 1;
        }
        assert(all.take(i as int) =~= all);
        r
    }

    /// The steps that create a device node inside the container.
    ///
    /// `node` is the same path that the device has on the host. Parent directories are created as
    /// needed and any existing file at `node` is replaced. The node is mode `0644` and owned by the
    /// container's primary user, so an unprivileged entrypoint can use it.
    ///
    /// Access is still governed by the cgroup filter, so pair this with [`Container::device`].
    pub fn mknod(&self, ns: &UserNamespace, node: &PathBuf, ty: DeviceType, devnum: (u32, u32)) -> (r:
        Vec<FsStep>)
        ensures
            fs_views(r@) == mknod_steps(ns@, self.uid, self.gid, node@, ty, devnum),
    {
        let (major, minor) = devnum;
        let mut r: Vec<FsStep> = Vec::new();
        push_parent(&mut r, node);
        r.push(FsStep::Try(FsOp::RemoveFile(node.clone())));
        r.push(
            FsStep::Must(FsOp::Mknod(node.clone(), ty, NODE_MODE, device::makedev(major, minor))),
        );
        push_chown(&mut r, node, ns, self.uid, self.gid);
        assert(fs_views(r@) =~= mknod_steps(ns@, self.uid, self.gid, node@, ty, devnum));
        r
    }

    /// The steps that give the container read-write access to a device's sysfs directory.
    ///
    /// sysfs is not namespaced (other than the `net` subsystem), so the directory is already
    /// visible inside the container, but `/sys` is read-only there. To allow writes for this device
    /// only, the host's (read-write) sysfs mount is cloned and put over the device's directory.
    ///
    /// `/sys` is typically a shared mount, and cloning a shared mount yields a peer of the source:
    /// mounts below the clone would propagate to the host's own `/sys`, where they outlive the
    /// container. So the clone is made private before it is attached: see
    /// [`clones_are_private`]. The attributes are owned by the host root, so with a user namespace
    /// the mount is also idmapped, if that is possible.
    pub fn bind_sysfs(&self, ns: &UserNamespace, syspath: &PathBuf) -> (r: Vec<SysfsStep>)
        ensures
            sysfs_views(r@) == sysfs_steps(syspath@, ns@.in_user_ns()),
    {
        let mut r: Vec<SysfsStep> = Vec::new();
        r.push(SysfsStep::Clone(syspath.clone()));
        r.push(SysfsStep::MakePrivate);
        if ns.in_user_ns() {
            r.push(SysfsStep::Idmap);
        }
        r.push(SysfsStep::Attach(syspath.clone()));
        assert(sysfs_views(r@) =~= sysfs_steps(syspath@, ns@.in_user_ns()));
        r
    }

    /// The steps of [`SysfsStep::Attach`], inside the container's mount namespace.
    ///
    /// The mount point must already exist: it cannot be created, as the container's `/sys` is
    /// read-only (and it is absent altogether if the container has no `/sys` mounted).
    pub fn attach_sysfs(&self, syspath: &PathBuf) -> (r: Vec<FsStep>)
        ensures
            fs_views(r@) == attach_steps(syspath@),
    {
        let mut r: Vec<FsStep> = Vec::new();
        r.push(FsStep::Must(FsOp::RequireDir(syspath.clone())));
        r.push(FsStep::Must(FsOp::AttachMount(syspath.clone())));
        assert(fs_views(r@) =~= attach_steps(syspath@));
        r
    }

    /// The warning for a mount that could not be idmapped, the first time.
    pub fn idmap_failed(&mut self, syspath: &PathBuf, reason: &str) -> (r: Option<String>)
        ensures
            *final(self) == (Container { sysfs_idmap_warned: true, ..*old(self) }),
            match r {
                Some(s) => !old(self).sysfs_idmap_warned && s@ == idmap_warning(syspath@, reason@),
                None => old(self).sysfs_idmap_warned,
            },
            match r {
                Some(s) => first_warning(old(self).sysfs_idmap_warned, syspath@, reason@) == Some(
                    s@,
                ),
                None => first_warning(old(self).sysfs_idmap_warned, syspath@, reason@) is None,
            },
            final(self).sysfs_idmap_warned,
    {
        if self.sysfs_idmap_warned {
            return None;
        }
        self.sysfs_idmap_warned = true;
        let mut r = SysfsStep::Idmap.context(syspath);
        text::push_str(&mut r, ": ");
        text::push_str(&mut r, reason);
        text::push_str(
            &mut r,
            ". Writing to sysfs attributes requires a container user that maps to host root.",
        );
        Some(r)
    }

    /// The steps that revert [`Container::bind_sysfs`].
    ///
    /// The device is usually gone by then, in which case the mount is already detached.
    pub fn unbind_sysfs(&self, syspath: &PathBuf) -> (r: Vec<FsStep>)
        ensures
            fs_views(r@) == seq![FsStepView::Try(FsOpView::Unmount(syspath@))],
            fs_views(r@) == unbind_steps(syspath@),
    {
        let mut r: Vec<FsStep> = Vec::new();
        r.push(FsStep::Try(FsOp::Unmount(syspath.clone())));
        assert(fs_views(r@) =~= seq![FsStepView::Try(FsOpView::Unmount(syspath@))]);
        r
    }

    /// The steps that create a symlink at `link` pointing to `source`, inside the container.
    ///
    /// Parent directories are created as needed and any existing file at `link` is replaced. The
    /// owner does not matter: permission is determined by the target.
    pub fn symlink(&self, source: &PathBuf, link: &PathBuf) -> (r: Vec<FsStep>)
        ensures
            fs_views(r@) == symlink_steps(source@, link@),
    {
        let mut r: Vec<FsStep> = Vec::new();
        push_parent(&mut r, link);
        r.push(FsStep::Try(FsOp::RemoveFile(link.clone())));
        r.push(FsStep::Must(FsOp::Symlink(source.clone(), link.clone())));
        assert(fs_views(r@) =~= symlink_steps(source@, link@));
        r
    }

    /// The steps that remove a file inside the container, used to undo [`Container::mknod`] and
    /// [`Container::symlink`].
    ///
    /// A file that is already gone is not an error: the container is free to delete entries under
    /// `/dev` itself.
    pub fn rm(&self, node: &PathBuf) -> (r: Vec<FsStep>)
        ensures
            fs_views(r@) == rm_steps(node@),
    {
        let mut r: Vec<FsStep> = Vec::new();
        r.push(FsStep::Try(FsOp::RemoveFile(node.clone())));
        assert(fs_views(r@) =~= rm_steps(node@));
        r
    }

    /// The change that sets the container's access to a device, by major/minor number.
    ///
    /// An empty `access` revokes it.
    pub fn device(&self, ty: DeviceType, devnum: (u32, u32), access: Access) -> (r: MapUpdate)
        ensures
            r == cgroup::permission(ty, devnum, access),
    {
        let (major, minor) = devnum;
        self.cgroup_device_filter.set_permission(ty, major, minor, access)
    }
}

/// What is at a path inside the container.
pub enum FileView {
    /// A device node with its type, mode and device number, and its owner and group if they were
    /// set.
    Node(DeviceType, u32, u64, Option<(u32, u32)>),
    Link(Seq<u8>),
    /// A symlink to where the one at the given path leads.
    CopiedLink(Seq<u8>),
    /// A file or directory that has just been created.
    Fresh,
    /// What was mounted at the given path before.
    Moved(Seq<u8>),
    /// The mount that was prepared, with its owner and group if they were set.
    Prepared(Option<(u32, u32)>),
}

/// The files after an operation that succeeds. Removing a file that is not there changes nothing,
/// and what moving or detaching a mount uncovers is not kept track of.
pub open spec fn files_after(files: Map<PathKey, FileView>, op: FsOpView) -> Map<PathKey, FileView> {
    match op {
        FsOpView::CreateDir(p) | FsOpView::CreateFile(p) => files.insert(
            path::components(p),
            FileView::Fresh,
        ),
        FsOpView::RemoveFile(p) | FsOpView::RemoveDir(p) => files.remove(path::components(p)),
        FsOpView::Mknod(p, ty, mode, dev) => files.insert(
            path::components(p),
            FileView::Node(ty, mode, dev, None),
        ),
        FsOpView::Chown(p, uid, gid) => match files[path::components(p)] {
            FileView::Node(ty, mode, dev, _) => files.insert(
                path::components(p),
                FileView::Node(ty, mode, dev, Some((uid, gid))),
            ),
            FileView::Prepared(_) => files.insert(
                path::components(p),
                FileView::Prepared(Some((uid, gid))),
            ),
            _ => files,
        },
        FsOpView::Symlink(source, link) => files.insert(
            path::components(link),
            FileView::Link(source),
        ),
        FsOpView::CopyLink(from, to) => files.insert(
            path::components(to),
            FileView::CopiedLink(from),
        ),
        FsOpView::MoveMount(from, to) => files.insert(path::components(to), FileView::Moved(from)),
        FsOpView::AttachMount(p) => files.insert(path::components(p), FileView::Prepared(None)),
        FsOpView::ClearUmask
        | FsOpView::CreateDirAll(_)
        | FsOpView::SetMode(_, _)
        | FsOpView::Unmount(_)
        | FsOpView::RequireDir(_) => files,
    }
}

/// The files after a list of steps, none of which is to give up or to move what is not known.
pub open spec fn files_at_end(files: Map<PathKey, FileView>, steps: Seq<FsStepView>) -> Map<
    PathKey,
    FileView,
>
    decreases steps.len(),
{
    if steps.len() == 0 {
        files
    } else {
        let before = files_at_end(files, steps.drop_last());
        match steps.last() {
            FsStepView::Must(op) | FsStepView::Try(op) => files_after(before, op),
            FsStepView::MoveEntries(_) | FsStepView::Fail(_) => before,
        }
    }
}

pub proof fn lemma_files_push(files: Map<PathKey, FileView>, steps: Seq<FsStepView>, step: FsStepView)
    ensures
        files_at_end(files, steps.push(step)) == match step {
            FsStepView::Must(op) | FsStepView::Try(op) => files_after(
                files_at_end(files, steps),
                op,
            ),
            FsStepView::MoveEntries(_) | FsStepView::Fail(_) => files_at_end(files, steps),
        },
{
    assert(steps.push(step).drop_last() =~= steps);
}

proof fn lemma_files_parent(files: Map<PathKey, FileView>, p: Seq<u8>)
    ensures
        files_at_end(files, parent_steps(p)) == files,
{
    let none = Seq::<FsStepView>::empty();
    assert(files_at_end(files, none) == files);
    if let Some(dir) = path::parent_of(p) {
        let step = FsStepView::Try(FsOpView::CreateDirAll(dir));
        assert(parent_steps(p) =~= none.push(step));
        lemma_files_push(files, none, step);
    }
}

/// Creating a device node puts a node with mode `0644`, the device's number and the translated
/// owner at its path, whatever was there before, and changes no other file.
pub proof fn mknod_replaces(
    files: Map<PathKey, FileView>,
    ns: namespace::UserNamespaceView,
    uid: u32,
    gid: u32,
    node: Seq<u8>,
    ty: DeviceType,
    devnum: (u32, u32),
)
    requires
        namespace::translated(ns.uid_map, uid) is Some,
        namespace::translated(ns.gid_map, gid) is Some,
    ensures
        files_at_end(files, mknod_steps(ns, uid, gid, node, ty, devnum)) == files.insert(
            path::components(node),
            FileView::Node(
                ty,
                0o644,
                device::devnum_of(devnum.0, devnum.1),
                Some(
                    (
                        namespace::translated(ns.uid_map, uid)->0,
                        namespace::translated(ns.gid_map, gid)->0,
                    ),
                ),
            ),
        ),
{
    let p = parent_steps(node);
    let a = FsStepView::Try(FsOpView::RemoveFile(node));
    let b = FsStepView::Must(
        FsOpView::Mknod(node, ty, NODE_MODE, device::devnum_of(devnum.0, devnum.1)),
    );
    let c = FsStepView::Must(
        FsOpView::Chown(
            node,
            namespace::translated(ns.uid_map, uid)->0,
            namespace::translated(ns.gid_map, gid)->0,
        ),
    );
    lemma_files_parent(files, node);
    lemma_files_push(files, p, a);
    lemma_files_push(files, p.push(a), b);
    lemma_files_push(files, p.push(a).push(b), c);
    assert(mknod_steps(ns, uid, gid, node, ty, devnum) =~= p.push(a).push(b).push(c));
    let k = path::components(node);
    assert(files_at_end(files, p.push(a).push(b).push(c)) =~= files.insert(
        k,
        files_at_end(files, p.push(a).push(b).push(c))[k],
    ));
}

/// Creating a symlink puts one at its path, whatever was there before, and changes no other file.
pub proof fn symlink_replaces(files: Map<PathKey, FileView>, source: Seq<u8>, link: Seq<u8>)
    ensures
        files_at_end(files, symlink_steps(source, link)) == files.insert(
            path::components(link),
            FileView::Link(source),
        ),
{
    let p = parent_steps(link);
    let a = FsStepView::Try(FsOpView::RemoveFile(link));
    let b = FsStepView::Must(FsOpView::Symlink(source, link));
    lemma_files_parent(files, link);
    lemma_files_push(files, p, a);
    lemma_files_push(files, p.push(a), b);
    assert(symlink_steps(source, link) =~= p.push(a).push(b));
    assert(files_at_end(files, p.push(a).push(b)) =~= files.insert(
        path::components(link),
        FileView::Link(source),
    ));
}

/// Removing a file removes it, whether or not it was there, and no other file.
pub proof fn rm_removes(files: Map<PathKey, FileView>, node: Seq<u8>)
    ensures
        files_at_end(files, rm_steps(node)) == files.remove(path::components(node)),
{
    let none = Seq::<FsStepView>::empty();
    let step = FsStepView::Try(FsOpView::RemoveFile(node));
    assert(files_at_end(files, none) == files);
    lemma_files_push(files, none, step);
    assert(rm_steps(node) =~= none.push(step));
}

/// Removing a file undoes creating a device node or a symlink where there was no file before.
pub proof fn rm_undoes_creating(files: Map<PathKey, FileView>, node: Seq<u8>, made: FileView)
    requires
        !files.contains_key(path::components(node)),
    ensures
        files_at_end(files.insert(path::components(node), made), rm_steps(node)) == files,
{
    let now = files.insert(path::components(node), made);
    rm_removes(now, node);
    assert(now.remove(path::components(node)) =~= files);
}

/// A sysfs mount is attached only once it has been made private, and attaching is the last step. It
/// is attached at the directory that was cloned. It is idmapped exactly if there is a user
/// namespace, and before it is attached.
pub proof fn clones_are_private(syspath: Seq<u8>, in_user_ns: bool)
    ensures
        ({
            let steps = sysfs_steps(syspath, in_user_ns);
            &&& steps[0] == SysfsStepView::Clone(syspath)
            &&& steps[1] is MakePrivate
            &&& steps.last() == SysfsStepView::Attach(syspath)
            &&& forall|i: int| 0 <= i < steps.len() - 1 ==> !(#[trigger] steps[i] is Attach)
            &&& steps.contains(SysfsStepView::Idmap) <==> in_user_ns
        }),
{
    let steps = sysfs_steps(syspath, in_user_ns);
    if in_user_ns {
        assert(steps[2] == SysfsStepView::Idmap);
    }
}

/// Device filtering is taken over only for a container that is not on cgroup v1, and only after
/// systemd's drop-ins are gone.
pub proof fn takeover_comes_after_drop_ins(state: State, i: int)
    requires
        0 <= i < setup_steps(state).len(),
        setup_steps(state)[i] is TakeOver,
    ensures
        state.cgroup_paths.devices is None,
        i == 3,
        setup_steps(state)[1] is Remove,
        setup_steps(state)[2] is Remove,
{
}

/// A line is the `populated` field just if it starts with that word and a space. The field says so if
/// it ends in a one.
pub proof fn first_populated_field_counts(lines: Seq<Seq<char>>, failed: bool, i: int, rest: Seq<
    char,
>)
    requires
        0 <= i < lines.len(),
        lines[i] == "populated "@ + rest,
        forall|j: int| 0 <= j < i ==> !"populated "@.is_prefix_of(#[trigger] lines[j]),
    ensures
        is_populated(lines, failed) == Ok::<bool, NoPopulatedField>(
            rest.len() > 0 && rest.last() == '1',
        ),
        rest.len() > 0 && rest.last() == '1' ==> waiting(lines, failed) is AwaitChange,
        rest.len() == 0 || rest.last() != '1' ==> waiting(lines, failed) is Done,
    decreases i,
{
    reveal_strlit("populated ");
    if i == 0 {
        assert("populated "@ =~= lines[0].subrange(0, "populated "@.len() as int));
        if rest.len() > 0 {
            assert(lines[0].last() == rest.last());
        } else {
            assert(lines[0].last() == ' ');
        }
    } else {
        let t = lines.drop_first();
        assert(!"populated "@.is_prefix_of(lines[0]));
        assert forall|j: int| 0 <= j < i - 1 implies !"populated "@.is_prefix_of(
            #[trigger] t[j],
        ) by {
            assert(t[j] == lines[j + 1]);
        }
        first_populated_field_counts(t, failed, i - 1, rest);
    }
}

/// Without the field it is an error, unless the file could not be read to its end: then the cgroup is
/// gone, and there is nothing to wait for.
pub proof fn missing_field_is_an_error(lines: Seq<Seq<char>>)
    requires
        forall|j: int| 0 <= j < lines.len() ==> !"populated "@.is_prefix_of(#[trigger] lines[j]),
    ensures
        is_populated(lines, false) is Err,
        waiting(lines, false) is Fail,
        waiting(lines, true) is Done,
    decreases lines.len(),
{
    if lines.len() > 0 {
        let t = lines.drop_first();
        assert(!"populated "@.is_prefix_of(lines[0]));
        assert forall|j: int| 0 <= j < t.len() implies !"populated "@.is_prefix_of(
            #[trigger] t[j],
        ) by {
            assert(t[j] == lines[j + 1]);
        }
        missing_field_is_an_error(t);
    }
}

/// A PID is one that a process can have, and is then used as it is.
pub proof fn pids_are_positive(pid: u32)
    ensures
        pid_checked(pid) is Ok <==> 1 <= pid <= 2147483647,
        pid_checked(pid) matches Ok(p) ==> p == pid,
        pid_checked(0) == Err::<u32, ContainerError>(ContainerError::InvalidPid),
        pid > 2147483647 ==> pid_checked(pid) == Err::<u32, ContainerError>(
            ContainerError::PidOutOfRange,
        ),
{
}

/// The file that is watched is the one called `cgroup.events` in the directory of the cgroup.
pub proof fn events_are_in_the_cgroup(cgroup: Seq<u8>)
    requires
        cgroup.len() > 0,
    ensures
        path::components(events_path(cgroup)) == path::components(cgroup).push(
            vstd::utf8::encode_utf8("cgroup.events"@),
        ),
{
    reveal_strlit("cgroup.events");
    vstd::utf8::is_ascii_chars_encode_utf8("cgroup.events"@);
    let name = vstd::utf8::encode_utf8("cgroup.events"@);
    assert(name.len() == 13);
    assert forall|i: int| 0 <= i < name.len() implies name[i] != path::SLASH by {
        assert("cgroup.events"@[i] as u32 != 47);
    }
    assert(path::is_name(name));
    path::joined_name(cgroup, name);
}

/// Taking control of a container in the cgroup called `name` is watching the cgroup, removing what
/// systemd has for it, taking over its filter and remounting its `/dev`, in that order. A container on
/// cgroup v1 is given up before its filter is touched, and one with an odd PID before its `/dev` is.
pub proof fn control_is_taken_step_by_step(state: State, name: Seq<char>)
    requires
        path::final_name(state.cgroup_paths.unified@) == Some(vstd::utf8::encode_utf8(name)),
    ensures
        ({
            let steps = setup_steps(state);
            let v1 = state.cgroup_paths.devices is Some;
            let good = 1 <= state.init_process_pid <= 2147483647;
            &&& steps[0] == SetupStepView::Watch(events_path(state.cgroup_paths.unified@))
            &&& steps[1] == SetupStepView::Remove(
                vstd::utf8::encode_utf8(
                    "/run/systemd/transient/"@ + name + ".d/50-DeviceAllow.conf"@,
                ),
            )
            &&& steps[2] == SetupStepView::Remove(
                vstd::utf8::encode_utf8(
                    "/run/systemd/transient/"@ + name + ".d/50-DevicePolicy.conf"@,
                ),
            )
            &&& v1 ==> steps.len() == 4 && steps[3] == SetupStepView::Fail(ContainerError::CgroupV1)
            &&& !v1 ==> steps.len() == 5 && steps[3] == SetupStepView::TakeOver(
                vstd::utf8::encode_utf8(
                    "/sys/fs/bpf/"@ + cgroup::without_scope(name) + "-device-filter"@,
                ),
            )
            &&& !v1 && good ==> steps[4] is RemountDev
            &&& !v1 && !good ==> steps[4] is Fail
            &&& can_set_up(state) <==> !v1 && good
        }),
{
    vstd::utf8::encode_utf8_valid_utf8(name);
    vstd::utf8::encode_utf8_decode_utf8(name);
    cgroup::pins_go_by_the_name_of_the_cgroup(state.cgroup_paths.unified@, name);
}

/// A container whose cgroup has no name, or one that is no text, is given up right after its cgroup is
/// watched, and it is said which it is.
pub proof fn cgroups_need_a_name(state: State)
    ensures
        path::final_name(state.cgroup_paths.unified@) is None ==> !can_set_up(state) && setup_steps(
            state,
        ) == seq![
            SetupStepView::Watch(events_path(state.cgroup_paths.unified@)),
            SetupStepView::Fail(ContainerError::NoCgroupName),
        ],
        path::final_name(state.cgroup_paths.unified@) matches Some(odd)
            ==> !vstd::utf8::valid_utf8(odd) ==> !can_set_up(state) && setup_steps(state) == seq![
            SetupStepView::Watch(events_path(state.cgroup_paths.unified@)),
            SetupStepView::Fail(ContainerError::CgroupNameNotUtf8),
        ],
{
    assert(path::final_name(state.cgroup_paths.unified@) is None ==> setup_steps(state) =~= seq![
        SetupStepView::Watch(events_path(state.cgroup_paths.unified@)),
        SetupStepView::Fail(ContainerError::NoCgroupName),
    ]);
    if let Some(odd) = path::final_name(state.cgroup_paths.unified@) {
        if !vstd::utf8::valid_utf8(odd) {
            assert(setup_steps(state) =~= seq![
                SetupStepView::Watch(events_path(state.cgroup_paths.unified@)),
                SetupStepView::Fail(ContainerError::CgroupNameNotUtf8),
            ]);
        }
    }
}

/// A container that can be taken control of is that of the config and the state: it runs as the user
/// of the config, and its init process is that of the state. Any other is none.
pub proof fn containers_are_those_of_config_and_state(config: ConfigView, state: State)
    ensures
        container_of(config, state) is Some <==> can_set_up(state),
        container_of(config, state) matches Some(c) ==> c.uid == config.uid && c.gid == config.gid
            && c.pid == state.init_process_pid && !c.sysfs_idmap_warned && cgroup::pin_of(
            state.cgroup_paths.unified@,
        ) == Some(c.pin),
        !(setup_steps(state).last() is Fail) <==> can_set_up(state),
{
    if can_set_up(state) {
        assert(cgroup::pin_of(state.cgroup_paths.unified@) is Some);
    }
}

/// A node is created with its parents, in place of what was there, and then given to the user. What
/// was there and what there is of the parents does not matter, but the node has to be created and
/// given away.
pub proof fn nodes_have_to_be_created(
    ns: namespace::UserNamespaceView,
    uid: u32,
    gid: u32,
    node: Seq<u8>,
    ty: DeviceType,
    devnum: (u32, u32),
    i: int,
)
    requires
        0 <= i < mknod_steps(ns, uid, gid, node, ty, devnum).len(),
    ensures
        match mknod_steps(ns, uid, gid, node, ty, devnum)[i] {
            FsStepView::Try(op) => op == FsOpView::RemoveFile(node) || (i == 0 && (op
                matches FsOpView::CreateDirAll(dir) && path::components(dir) == path::components(
                node,
            ).drop_last())),
            FsStepView::Must(FsOpView::Mknod(p, t, mode, dev)) => {
                &&& p == node
                &&& t == ty
                &&& mode == 0o644
                &&& device::major_of(dev) == devnum.0
                &&& device::minor_of(dev) == devnum.1
                &&& i > 0
                &&& mknod_steps(ns, uid, gid, node, ty, devnum)[i - 1] == FsStepView::Try(
                    FsOpView::RemoveFile(node),
                )
            },
            FsStepView::Must(op) => op matches FsOpView::Chown(p, u, g) && p == node
                && namespace::translated(ns.uid_map, uid) == Some(u) && namespace::translated(
                ns.gid_map,
                gid,
            ) == Some(g) && i + 1 == mknod_steps(ns, uid, gid, node, ty, devnum).len(),
            FsStepView::Fail(e) => {
                &&& i + 1 == mknod_steps(ns, uid, gid, node, ty, devnum).len()
                &&& e == FsError::Id(IdError::Uid) <==> namespace::translated(
                    ns.uid_map,
                    uid,
                ) is None
                &&& e == FsError::Id(IdError::Gid) <==> namespace::translated(ns.uid_map, uid)
                    is Some && namespace::translated(ns.gid_map, gid) is None
                &&& !(e is UnknownFile)
            },
            FsStepView::MoveEntries(_) => false,
        },
        path::parent_of(node) is Some ==> mknod_steps(ns, uid, gid, node, ty, devnum)[0]
            == FsStepView::Try(FsOpView::CreateDirAll(path::parent_of(node)->0)),
        mknod_steps(ns, uid, gid, node, ty, devnum).contains(
            FsStepView::Must(
                FsOpView::Mknod(node, ty, 0o644, device::devnum_of(devnum.0, devnum.1)),
            ),
        ),
        mknod_steps(ns, uid, gid, node, ty, devnum).last() is Fail <==> namespace::translated(
            ns.uid_map,
            uid,
        ) is None || namespace::translated(ns.gid_map, gid) is None,
{
    device::devnum_round_trip(devnum.0, devnum.1, 0);
    if path::parent_of(node) is Some {
        path::parent_drops_one_component(node);
    }
    let p = parent_steps(node);
    let steps = mknod_steps(ns, uid, gid, node, ty, devnum);
    assert(p.len() <= 1);
    assert(steps[p.len() as int] == FsStepView::Try(FsOpView::RemoveFile(node)));
    assert(steps[p.len() as int + 1] == FsStepView::Must(
        FsOpView::Mknod(node, ty, NODE_MODE, device::devnum_of(devnum.0, devnum.1)),
    ));
}

/// A symlink is created with its parents, in place of what was there, which need not work, but the
/// symlink has to be created.
pub proof fn symlinks_have_to_be_created(source: Seq<u8>, link: Seq<u8>, i: int)
    requires
        0 <= i < symlink_steps(source, link).len(),
    ensures
        match symlink_steps(source, link)[i] {
            FsStepView::Try(op) => op == FsOpView::RemoveFile(link) || (i == 0 && (op
                matches FsOpView::CreateDirAll(dir) && path::components(dir) == path::components(
                link,
            ).drop_last())),
            FsStepView::Must(op) => op == FsOpView::Symlink(source, link) && i + 1 == symlink_steps(
                source,
                link,
            ).len(),
            _ => false,
        },
        symlink_steps(source, link).last() is Must,
        path::parent_of(link) is Some ==> symlink_steps(source, link)[0] == FsStepView::Try(
            FsOpView::CreateDirAll(path::parent_of(link)->0),
        ),
{
    if path::parent_of(link) is Some {
        path::parent_drops_one_component(link);
    }
    assert(parent_steps(link).len() <= 1);
}

/// Nothing has to work when something is undone: the container is free to remove files itself, and a
/// mount is gone with its device.
pub proof fn undoing_need_not_work(p: Seq<u8>)
    ensures
        forall|i: int| 0 <= i < rm_steps(p).len() ==> #[trigger] rm_steps(p)[i] is Try,
        forall|i: int| 0 <= i < unbind_steps(p).len() ==> #[trigger] unbind_steps(p)[i] is Try,
        unbind_steps(p).contains(FsStepView::Try(FsOpView::Unmount(p))),
        unbind_steps(p).len() == 1,
{
    assert(unbind_steps(p)[0] == FsStepView::Try(FsOpView::Unmount(p)));
}

/// A clone is attached where it belongs, and only if there is a directory there. Both have to work.
pub proof fn clones_are_attached_at_a_directory(p: Seq<u8>)
    ensures
        attach_steps(p).len() == 2,
        attach_steps(p)[0] == FsStepView::Must(FsOpView::RequireDir(p)),
        attach_steps(p)[1] == FsStepView::Must(FsOpView::AttachMount(p)),
{
}

/// Only idmapping may fail without ending everything, and there is as much to do as it takes: cloning,
/// making private and attaching, and idmapping where there is a user namespace.
pub proof fn only_idmapping_may_fail(syspath: Seq<u8>, in_user_ns: bool, i: int)
    requires
        0 <= i < sysfs_steps(syspath, in_user_ns).len(),
    ensures
        sysfs_steps(syspath, in_user_ns).len() == if in_user_ns {
            4int
        } else {
            3
        },
        !is_fatal(sysfs_steps(syspath, in_user_ns)[i]) <==> in_user_ns && i == 2,
{
}

/// What is said when making a sysfs directory writable fails ends with the directory, and tells the
/// steps apart.
pub proof fn failures_name_the_directory(step: SysfsStepView, p: Seq<u8>)
    ensures
        ({
            let s = sysfs_context(step, p);
            let d = text::displayed(p);
            &&& s.len() > d.len()
            &&& s.skip(s.len() - d.len()) == d
        }),
{
    reveal_strlit("Cannot clone sysfs mount for ");
    reveal_strlit("Cannot make sysfs mount private for ");
    reveal_strlit("Cannot idmap sysfs mount for ");
    reveal_strlit("Cannot mount sysfs directory ");
    let s = sysfs_context(step, p);
    let d = text::displayed(p);
    assert(s.skip(s.len() - d.len()) =~= d);
}

/// `/dev` is remounted just if there is a user namespace: if some user or group of the container is
/// another one on the host.
pub proof fn dev_is_remounted_for_a_user_ns(ns: namespace::UserNamespaceView)
    ensures
        remounting(ns) is Some <==> exists|id: u32|
            id < u32::MAX && (#[trigger] namespace::translated(ns.uid_map, id) != Some(id)
                || namespace::translated(ns.gid_map, id) != Some(id)),
        remounting(ns) matches Some(steps) ==> steps == remount_steps(ns),
{
    namespace::a_single_id_makes_a_user_ns(ns, 0);
    if exists|id: u32|
        id < u32::MAX && (#[trigger] namespace::translated(ns.uid_map, id) != Some(id)
            || namespace::translated(ns.gid_map, id) != Some(id)) {
        let id = choose|id: u32|
            id < u32::MAX && (#[trigger] namespace::translated(ns.uid_map, id) != Some(id)
                || namespace::translated(ns.gid_map, id) != Some(id));
        namespace::a_single_id_makes_a_user_ns(ns, id);
    }
}

/// A mount that cannot be idmapped is warned about once, with its directory and the reason.
pub proof fn idmapping_is_warned_about_once(p: Seq<u8>, reason: Seq<char>)
    ensures
        first_warning(true, p, reason) is None,
        first_warning(false, p, reason) == Some(
            sysfs_context(SysfsStepView::Idmap, p) + seq![':', ' '] + reason
                + ". Writing to sysfs attributes requires a container user that maps to host root."@,
        ),
{
    reveal_strlit(": ");
    assert(": "@ =~= seq![':', ' ']);
}

} // verus!

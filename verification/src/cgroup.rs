//! Per-device access control for a cgroup v2 container.
//!
//! cgroup v2 has no `devices` controller; access is instead decided by an eBPF program attached to
//! the cgroup, which the kernel consults on every attempt to open a device node. The program allows
//! the default devices and looks everything else up in a hash map, so that access can be granted
//! and revoked at runtime by changing the map alone.
//!
//! Taking over means detaching the container manager's own filter, which would otherwise still
//! reject the devices that are to be allowed. See [`DeviceAccessController::takeover`].
use crate::path;
use crate::path::PathBuf;
use crate::text;
use vstd::prelude::*;

verus! {

/// Whether a device node is a block or character device.
#[derive(Debug, Clone, Copy, PartialEq, Eq, Structural)]
pub enum DeviceType {
    Block,
    Character,
}

impl DeviceType {
    /// The number by which the kernel knows the type (`BPF_DEVCG_DEV_*`).
    pub open spec fn spec_code(self) -> u32 {
        match self {
            DeviceType::Block => 1,
            DeviceType::Character => 2,
        }
    }

    /// The number by which the kernel knows the type (`BPF_DEVCG_DEV_*`).
    pub fn code(self) -> (r: u32)
        ensures
            r == self.spec_code(),
    {
        match self {
            DeviceType::Block => 1,
            DeviceType::Character => 2,
        }
    }
}

/// Permission to create a device node. Not enforced by the filter, which always permits it.
pub const MKNOD: u32 = 1;

/// Permission to read from a device.
pub const READ: u32 = 2;

/// Permission to write to a device.
pub const WRITE: u32 = 4;

/// Operations that may be permitted on a device node.
///
/// The bit values match the kernel's `BPF_DEVCG_ACC_*` constants. An empty set means no access,
/// which is how [`DeviceAccessController::set_permission`] revokes a device.
#[derive(Debug, Clone, Copy, PartialEq, Eq, Structural)]
pub struct Access {
    pub bits: u32,
}

impl Access {
    /// No access.
    pub fn empty() -> (r: Access)
        ensures
            r.bits == 0,
    {
        Access { bits: 0 }
    }

    /// Every operation.
    pub fn all() -> (r: Access)
        ensures
            r == all_access(),
            r.bits & MKNOD == MKNOD,
            r.bits & READ == READ,
            r.bits & WRITE == WRITE,
            r.bits & !(MKNOD | READ | WRITE) == 0,
    {
        assert(1u32 | 2u32 | 4u32 == 7u32) by (bit_vector);
        assert(7u32 & 1 == 1 && 7u32 & 2 == 2 && 7u32 & 4 == 4 && 7u32 & !(1u32 | 2u32 | 4u32)
            == 0) by (bit_vector);
        Access { bits: MKNOD | READ | WRITE }
    }

    pub fn is_empty(&self) -> (r: bool)
        ensures
            r == (self.bits == 0),
    {
        self.bits == 0
    }

    pub fn bits(&self) -> (r: u32)
        ensures
            r == self.bits,
    {
        self.bits
    }
}

/// The set of all operations.
pub open spec fn all_access() -> Access {
    Access { bits: 7 }
}

/// Key of the filter's map, identifying one device node.
#[derive(Debug, Clone, Copy, PartialEq, Eq, Structural)]
pub struct Device {
    pub device_type: u32,
    pub major: u32,
    pub minor: u32,
}

/// The key of a device node.
pub open spec fn key(ty: DeviceType, devnum: (u32, u32)) -> Device {
    Device { device_type: ty.spec_code(), major: devnum.0, minor: devnum.1 }
}

/// One change to the filter's map.
#[derive(Debug, Clone, Copy, PartialEq, Eq, Structural)]
pub enum MapUpdate {
    Remove(Device),
    /// Set the permitted operations of a device, whether or not it has an entry.
    Insert(Device, u32),
}

/// The filter's map after a change.
pub open spec fn updated(map: Map<Device, u32>, update: MapUpdate) -> Map<Device, u32> {
    match update {
        MapUpdate::Remove(device) => map.remove(device),
        MapUpdate::Insert(device, bits) => map.insert(device, bits),
    }
}

/// The change to the filter's map that sets the access to one device.
pub open spec fn permission(ty: DeviceType, devnum: (u32, u32), access: Access) -> MapUpdate {
    if access.bits == 0 {
        MapUpdate::Remove(key(ty, devnum))
    } else {
        MapUpdate::Insert(key(ty, devnum), access.bits)
    }
}

/// `s` without any `.scope` at its end.
pub open spec fn without_scope(s: Seq<char>) -> Seq<char>
    decreases s.len(),
{
    if 6 <= s.len() && s.skip(s.len() - 6) == ".scope"@ {
        without_scope(s.take(s.len() - 6))
    } else {
        s
    }
}

/// The bpffs path for a cgroup, which must have a name that is valid UTF-8.
pub open spec fn pin_of(cgroup: Seq<u8>) -> Option<Seq<u8>> {
    match path::final_name(cgroup) {
        Some(name) => if vstd::utf8::valid_utf8(name) {
            Some(
                vstd::utf8::encode_utf8(
                    "/sys/fs/bpf/"@ + without_scope(vstd::utf8::decode_utf8(name))
                        + "-device-filter"@,
                ),
            )
        } else {
            None
        },
        None => None,
    }
}

/// The cgroup path has no name, or one that is not valid UTF-8.
#[derive(Debug, Clone, Copy, PartialEq, Eq, Structural)]
pub struct InvalidCgroupPath;

impl InvalidCgroupPath {
    /// What is said of the error.
    pub fn message(&self) -> (r: &'static str)
        ensures
            r@ == "Invalid cgroup path"@,
    {
        "Invalid cgroup path"
    }
}

/// A step of taking over the device filtering of a cgroup.
#[derive(Debug, Clone, Copy, PartialEq, Eq, Structural)]
pub enum FilterStep {
    /// Attach the new filter.
    Attach,
    /// Remove whatever is pinned at the filter's pin. Failing to is no error.
    Unpin,
    /// Pin the new filter, so that it stays attached if this process dies.
    Pin,
    /// Detach the existing filter with the given number.
    Detach(usize),
}

/// A filter that may be attached to a cgroup.
pub enum Filter {
    Ours,
    Existing(int),
}

/// The filters attached to a cgroup after a step.
pub open spec fn filters_after(attached: Set<Filter>, step: FilterStep) -> Set<Filter> {
    match step {
        FilterStep::Attach => attached.insert(Filter::Ours),
        FilterStep::Detach(i) => attached.remove(Filter::Existing(i as int)),
        FilterStep::Unpin | FilterStep::Pin => attached,
    }
}

/// The filters attached after the first `n` of `steps`.
pub open spec fn filters_during(attached: Set<Filter>, steps: Seq<FilterStep>, n: nat) -> Set<Filter>
    decreases n,
{
    if n == 0 {
        attached
    } else {
        filters_after(filters_during(attached, steps, (n - 1) as nat), steps[n - 1])
    }
}

/// The steps that replace `existing` filters by the new one.
pub open spec fn takeover_steps(existing: nat) -> Seq<FilterStep> {
    seq![FilterStep::Attach, FilterStep::Unpin, FilterStep::Pin] + Seq::new(
        existing,
        |i: int| FilterStep::Detach(i as usize),
    )
}

/// The filters that a cgroup starts with.
pub open spec fn existing_filters(existing: nat) -> Set<Filter> {
    Set::new(|f: Filter| f matches Filter::Existing(i) && 0 <= i < existing)
}

/// Handle on the device access rules of one container's cgroup.
#[derive(Debug)]
pub struct DeviceAccessController {
    /// bpffs path the program is pinned at, so it outlives this process.
    pub pin: PathBuf,
}

fn trim_scope(s: &str) -> (r: String)
    ensures
        r@ == without_scope(s@),
{
    proof {
        reveal_strlit(".scope");
    }
    let v = text::chars(s);
    let mut n: usize = v.len();
    assert(s@.take(n as int) == s@);
    while n >= 6 && v[n - 6] == '.' && v[n - 5] == 's' && v[n - 4] == 'c' && v[n - 3] == 'o' && v[n
        - 2] == 'p' && v[n - 1] == 'e'
        invariant
            n <= v@.len(),
            v@ == s@,
            ".scope"@ == seq!['.', 's', 'c', 'o', 'p', 'e'],
            without_scope(s@) == without_scope(s@.take(n as int)),
        decreases n,
    {
        let ghost now = s@.take(n as int);
        assert(now.skip(n - 6) =~= ".scope"@);
        assert(now.take(n - 6) =~= s@.take(n - 6));
        n = n - 6;
    }
    let ghost now = s@.take(n as int);
    assert(without_scope(now) == now) by {
        if n >= 6 && now.skip(n - 6) == ".scope"@ {
            assert(now.skip(n - 6)[0] == v@[n - 6]);
            assert(now.skip(n - 6)[1] == v@[n - 5]);
            assert(now.skip(n - 6)[2] == v@[n - 4]);
            assert(now.skip(n - 6)[3] == v@[n - 3]);
            assert(now.skip(n - 6)[4] == v@[n - 2]);
            assert(now.skip(n - 6)[5] == v@[n - 1]);
        }
    }
    let r = text::string(v.as_slice(), 0, n);
    assert(r@ =~= now);
    r
}

impl DeviceAccessController {
    /// The controller of the cgroup at `cgroup`, e.g.
    /// `/sys/fs/cgroup/system.slice/docker-<id>.scope`.
    ///
    /// The last part of the path, without `.scope`, serves as unique identifier.
    pub fn new(cgroup: &PathBuf) -> (r: Result<DeviceAccessController, InvalidCgroupPath>)
        ensures
            match r {
                Ok(c) => pin_of(cgroup@) == Some(c.pin@),
                Err(_) => pin_of(cgroup@) is None,
            },
    {
        match cgroup.file_name() {
            None => Err(InvalidCgroupPath),
            Some(name) => match text::from_utf8(name) {
                None => Err(InvalidCgroupPath),
                Some(name) => {
                    let id = trim_scope(name.as_str());
                    let pin = text::concat3("/sys/fs/bpf/", id.as_str(), "-device-filter");
                    Ok(DeviceAccessController { pin: PathBuf::from_text(pin.as_str()) })
                },
            },
        }
    }

    /// The steps that attach the new filter and then detach the `existing` ones.
    ///
    /// The new filter is attached first, so there is no window in which the container is
    /// unfiltered: see [`never_unfiltered`].
    pub fn takeover(&self, existing: usize) -> (r: Vec<FilterStep>)
        ensures
            r@ == takeover_steps(existing as nat),
    {
        let mut r: Vec<FilterStep> = Vec::new();
        r.push(FilterStep::Attach);
        r.push(FilterStep::Unpin);
        r.push(FilterStep::Pin);
        let mut i: usize = 0;
        assert(r@ =~= takeover_steps(0));
        while i < existing
            invariant
                i <= existing,
                r@ == takeover_steps(i as nat),
            decreases existing - i,
        {
            r.push(FilterStep::Detach(i));
            assert(r@ =~= takeover_steps((i + 1) as nat));
            i = i + 1;
        }
        r
    }

    /// Set the permission for a specific device.
    ///
    /// An empty `access` removes the entry, denying the device.
    pub fn set_permission(&self, ty: DeviceType, major: u32, minor: u32, access: Access) -> (r:
        MapUpdate)
        ensures
            r == permission(ty, (major, minor), access),
    {
        let device = Device { device_type: ty.code(), major, minor };
        if access.is_empty() {
            MapUpdate::Remove(device)
        } else {
            MapUpdate::Insert(device, access.bits())
        }
    }
}

/// Setting a permission sets it for that device and for no other. An empty permission leaves the
/// device without an entry.
pub proof fn permission_is_per_device(
    map: Map<Device, u32>,
    ty: DeviceType,
    devnum: (u32, u32),
    access: Access,
    other_ty: DeviceType,
    other: (u32, u32),
)
    ensures
        ({
            let after = updated(map, permission(ty, devnum, access));
            let k = key(ty, devnum);
            let o = key(other_ty, other);
            &&& access.bits == 0 ==> !after.contains_key(k)
            &&& access.bits != 0 ==> after.contains_key(k) && after[k] == access.bits
            &&& (other_ty != ty || other != devnum) ==> {
                &&& after.contains_key(o) == map.contains_key(o)
                &&& map.contains_key(o) ==> after[o] == map[o]
            }
        }),
{
    if key(ty, devnum) == key(other_ty, other) {
        assert(devnum.0 == other.0 && devnum.1 == other.1);
    }
}

/// Granting and then revoking a device that had no entry leaves the map as it was.
pub proof fn revoking_undoes_granting(
    map: Map<Device, u32>,
    ty: DeviceType,
    devnum: (u32, u32),
    access: Access,
)
    requires
        !map.contains_key(key(ty, devnum)),
        access.bits != 0,
    ensures
        updated(
            updated(map, permission(ty, devnum, access)),
            permission(ty, devnum, Access { bits: 0 }),
        ) == map,
{
    assert(map.insert(key(ty, devnum), access.bits).remove(key(ty, devnum)) =~= map);
}

/// While a cgroup is taken over there is always a filter attached, once there was one, and from
/// the first step on in any case. In the end only the new filter is attached.
pub proof fn never_unfiltered(existing: usize, n: nat)
    requires
        n <= takeover_steps(existing as nat).len(),
    ensures
        ({
            let steps = takeover_steps(existing as nat);
            let start = existing_filters(existing as nat);
            &&& existing > 0 || n > 0 ==> exists|f: Filter|
                filters_during(start, steps, n).contains(f)
            &&& n > 0 ==> filters_during(start, steps, n).contains(Filter::Ours)
            &&& n == steps.len() ==> filters_during(start, steps, n) == set![Filter::Ours]
        }),
    decreases n,
{
    let steps = takeover_steps(existing as nat);
    let start = existing_filters(existing as nat);
    lemma_filters(existing, n);
    let now = filters_during(start, steps, n);
    if n == 0 {
        if existing > 0 {
            assert(now.contains(Filter::Existing(0)));
        }
    } else {
        assert(now.contains(Filter::Ours));
    }
    if n == steps.len() {
        assert forall|f: Filter| now.contains(f) implies f == Filter::Ours by {
            match f {
                Filter::Existing(i) => {
                    assert(now.contains(Filter::Existing(i)));
                    assert(steps.len() == 3 + existing);
                },
                Filter::Ours => {},
            }
        }
        assert(now =~= set![Filter::Ours]);
    }
}

proof fn lemma_filters(existing: usize, n: nat)
    requires
        n <= takeover_steps(existing as nat).len(),
    ensures
        ({
            let steps = takeover_steps(existing as nat);
            let now = filters_during(existing_filters(existing as nat), steps, n);
            &&& now.contains(Filter::Ours) == (n > 0)
            &&& forall|i: int|
                now.contains(Filter::Existing(i)) <==> (0 <= i < existing && (n <= 3 || n - 3 <= i))
        }),
    decreases n,
{
    if n > 0 {
        lemma_filters(existing, (n - 1) as nat);
        let steps = takeover_steps(existing as nat);
        if n > 3 {
            assert(steps[n - 1] == FilterStep::Detach((n - 4) as usize));
        }
    }
}

/// The numbers are the kernel's: `BPF_DEVCG_DEV_BLOCK` and `BPF_DEVCG_DEV_CHAR`, and
/// `BPF_DEVCG_ACC_MKNOD`, `BPF_DEVCG_ACC_READ` and `BPF_DEVCG_ACC_WRITE`, of which all access has
/// every one.
pub proof fn numbers_are_those_of_the_kernel()
    ensures
        DeviceType::Block.spec_code() == 1,
        DeviceType::Character.spec_code() == 2,
        MKNOD == 1 && READ == 2 && WRITE == 4,
        all_access().bits == 1 + 2 + 4,
{
}

/// A key says which device it is for: whoever reads it gets back the type and the numbers.
pub proof fn keys_tell_devices_apart(ty: DeviceType, devnum: (u32, u32), other: DeviceType, number: (
    u32,
    u32,
))
    ensures
        key(ty, devnum).major == devnum.0,
        key(ty, devnum).minor == devnum.1,
        key(ty, devnum).device_type == 1 <==> ty is Block,
        key(ty, devnum).device_type == 2 <==> ty is Character,
        key(ty, devnum) == key(other, number) <==> ty == other && devnum == number,
{
    if key(ty, devnum) == key(other, number) {
        assert(devnum.0 == number.0 && devnum.1 == number.1);
    }
}

/// The identifier of a cgroup is its name without any `.scope` behind it.
pub proof fn scopes_are_taken_off(s: Seq<char>)
    ensures
        without_scope(s + ".scope"@) == without_scope(s),
        !(".scope"@.len() <= s.len() && s.skip(s.len() - ".scope"@.len()) == ".scope"@)
            ==> without_scope(s) == s,
{
    reveal_strlit(".scope");
    let t = s + ".scope"@;
    assert(t.skip(t.len() - 6) =~= ".scope"@);
    assert(t.take(t.len() - 6) =~= s);
}

/// The filter of a cgroup is pinned under the identifier of the cgroup, which is the last part of its
/// path. There is no pin without a name, nor with one that is no text.
pub proof fn pins_go_by_the_name_of_the_cgroup(cgroup: Seq<u8>, name: Seq<char>)
    ensures
        path::final_name(cgroup) == Some(vstd::utf8::encode_utf8(name)) ==> pin_of(cgroup) == Some(
            vstd::utf8::encode_utf8("/sys/fs/bpf/"@ + without_scope(name) + "-device-filter"@),
        ),
        path::final_name(cgroup) is None ==> pin_of(cgroup) is None,
        path::final_name(cgroup) matches Some(odd) ==> !vstd::utf8::valid_utf8(odd) ==> pin_of(
            cgroup,
        ) is None,
{
    vstd::utf8::encode_utf8_valid_utf8(name);
    vstd::utf8::encode_utf8_decode_utf8(name);
}

/// Taking over is attaching, pinning and then detaching each existing filter, in order. Nothing is
/// detached before the new filter is both attached and pinned, and the pin is free when it is used.
pub proof fn pinned_before_any_is_detached(existing: usize, i: int)
    requires
        0 <= i < takeover_steps(existing as nat).len(),
    ensures
        ({
            let steps = takeover_steps(existing as nat);
            &&& steps.len() == existing + 3
            &&& steps[0] is Attach
            &&& steps[1] is Unpin
            &&& steps[2] is Pin
            &&& i >= 3 ==> steps[i] == FilterStep::Detach((i - 3) as usize)
        }),
{
}

} // verus!

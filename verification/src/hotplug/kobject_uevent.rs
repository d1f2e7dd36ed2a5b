//! Announcing devices to the programs inside the container, in the form that the kernel announces
//! devices in.
use crate::dev::device;
use crate::dev::UdevDevice;
use crate::hotplug::Announcement;
use crate::path;
use vstd::prelude::*;

verus! {

/// The path of a device as the kernel knows it, which is its sysfs directory without `/sys`.
pub open spec fn devpath(syspath: Seq<u8>) -> Seq<u8> {
    let sys = vstd::utf8::encode_utf8("/sys"@);
    if sys.is_prefix_of(syspath) {
        syspath.skip(sys.len() as int)
    } else {
        syspath
    }
}

/// A field of a message: its name and value, ended by a zero byte.
pub open spec fn field(name: Seq<u8>, value: Seq<u8>) -> Seq<u8> {
    (name.push(61) + value).push(0)
}

/// The fields for the properties of a device, but for the action, which has a field of its own.
pub open spec fn fields(properties: Seq<(Seq<u8>, Seq<u8>)>) -> Seq<u8>
    decreases properties.len(),
{
    if properties.len() == 0 {
        seq![]
    } else {
        let (name, value) = properties.last();
        let before = fields(properties.drop_last());
        if name == vstd::utf8::encode_utf8("ACTION"@) {
            before
        } else {
            before + field(name, value)
        }
    }
}

/// The message that announces a device.
pub open spec fn message(u: device::UdevDeviceView, announcement: Announcement) -> Seq<u8> {
    let action = vstd::utf8::encode_utf8(announcement.spec_name());
    (action.push(64) + devpath(u.syspath)).push(0) + field(
        vstd::utf8::encode_utf8("ACTION"@),
        action,
    ) + fields(u.properties)
}

fn push_bytes(v: &mut Vec<u8>, tail: &[u8])
    ensures
        final(v)@ == old(v)@ + tail@,
{
    let mut copy = path::slice_bytes(tail, 0, tail.len());
    assert(copy@ =~= tail@);
    v.append(&mut copy);
}

fn push_field(v: &mut Vec<u8>, name: &[u8], value: &[u8])
    ensures
        final(v)@ == old(v)@ + field(name@, value@),
{
    let ghost before = v@;
    push_bytes(v, name);
    v.push(61);
    push_bytes(v, value);
    v.push(0);
    assert(v@ =~= before + field(name@, value@));
}

fn push_devpath(v: &mut Vec<u8>, syspath: &[u8])
    ensures
        final(v)@ == old(v)@ + devpath(syspath@),
{
    let sys = "/sys".as_bytes();
    let n: usize = sys.len();
    if n <= syspath.len() {
        let head = path::slice_bytes(syspath, 0, n);
        if path::same_bytes(head.as_slice(), sys) {
            let rest = path::slice_bytes(syspath, n, syspath.len());
            assert(rest@ =~= syspath@.skip(n as int));
            push_bytes(v, rest.as_slice());
            return;
        }
    }
    push_bytes(v, syspath);
}

/// The message that announces a device.
pub fn announce(device: &UdevDevice, announcement: Announcement) -> (r: Vec<u8>)
    ensures
        r@ == message(device@, announcement),
{
    let action = announcement.name().as_bytes();
    let own = "ACTION".as_bytes();
    let mut r: Vec<u8> = Vec::new();
    push_bytes(&mut r, action);
    r.push(64);
    push_devpath(&mut r, device.syspath.bytes.as_slice());
    r.push(0);
    push_field(&mut r, own, action);
    let ghost head = r@;
    let ghost all = device@.properties;
    let ghost act = vstd::utf8::encode_utf8(announcement.spec_name());
    assert(head =~= (act.push(64) + devpath(device@.syspath)).push(0) + field(own@, act));
    let mut i: usize = 0;
    assert(head + fields(all.take(0)) =~= head);
    while i < device.properties.len()
        invariant
            i <= device.properties@.len(),
            all == device@.properties,
            own@ == vstd::utf8::encode_utf8("ACTION"@),
            r@ == head + fields(all.take(i as int)),
        decreases device.properties@.len() - i,
    {
        let p = &device.properties[i];
        assert(all[i as int] == p@);
        assert(all.take(i + 1).drop_last() =~= all.take(i as int));
        assert(all.take(i + 1).last() == all[i as int]);
        if !path::same_bytes(p.name.as_slice(), own) {
            push_field(&mut r, p.name.as_slice(), p.value.as_slice());
        }
        assert(r@ =~= head + fields(all.take(i + 1)));
        i = i + 1;
    }
    assert(all.take(i as int) =~= all);
    r
}

/// The kernel's path of a device is what follows `/sys` in its directory.
pub proof fn devpaths_are_relative_to_sys(rest: Seq<u8>, other: Seq<u8>)
    ensures
        devpath(seq![47u8, 115u8, 121u8, 115u8] + rest) == rest,
        !(seq![47u8, 115u8, 121u8, 115u8].is_prefix_of(other)) ==> devpath(other) == other,
{
    reveal_strlit("/sys");
    vstd::utf8::is_ascii_chars_encode_utf8("/sys"@);
    let sys = seq![47u8, 115u8, 121u8, 115u8];
    assert(vstd::utf8::encode_utf8("/sys"@) =~= sys);
    let p = sys + rest;
    assert(sys =~= p.subrange(0, 4));
    assert(p.skip(4) =~= rest);
}

/// Each property of a device is a field of its own, in order, but for those called `ACTION`.
pub proof fn each_property_is_a_field(
    a: Seq<(Seq<u8>, Seq<u8>)>,
    b: Seq<(Seq<u8>, Seq<u8>)>,
    name: Seq<u8>,
    value: Seq<u8>,
)
    ensures
        fields(a + b) == fields(a) + fields(b),
        fields(seq![(name, value)]) == if name == vstd::utf8::encode_utf8("ACTION"@) {
            Seq::<u8>::empty()
        } else {
            name + seq![61u8] + value + seq![0u8]
        },
    decreases b.len(),
{
    let one = seq![(name, value)];
    assert(one.drop_last() =~= Seq::<(Seq<u8>, Seq<u8>)>::empty());
    assert(one.last() == (name, value));
    assert(fields(one.drop_last()) =~= Seq::<u8>::empty());
    assert(Seq::<u8>::empty() + field(name, value) =~= name + seq![61u8] + value + seq![0u8]);
    if b.len() == 0 {
        assert(a + b =~= a);
        assert(fields(a) + fields(b) =~= fields(a));
    } else {
        assert((a + b).drop_last() =~= a + b.drop_last());
        assert((a + b).last() == b.last());
        each_property_is_a_field(a, b.drop_last(), name, value);
        assert(fields(a + b) =~= fields(a) + fields(b));
    }
}

/// A message says what happened to which device, says so once more in a field, and then lists the
/// properties of the device. Its parts are ended by zero bytes.
pub proof fn messages_say_what_happened(u: device::UdevDeviceView)
    ensures
        message(u, Announcement::Add) == vstd::utf8::encode_utf8("add@"@) + devpath(u.syspath)
            + seq![0u8] + vstd::utf8::encode_utf8("ACTION=add"@) + seq![0u8] + fields(u.properties),
        message(u, Announcement::Remove) == vstd::utf8::encode_utf8("remove@"@) + devpath(u.syspath)
            + seq![0u8] + vstd::utf8::encode_utf8("ACTION=remove"@) + seq![0u8] + fields(
            u.properties,
        ),
{
    reveal_strlit("add");
    reveal_strlit("remove");
    reveal_strlit("ACTION");
    reveal_strlit("add@");
    reveal_strlit("remove@");
    reveal_strlit("ACTION=add");
    reveal_strlit("ACTION=remove");
    vstd::utf8::is_ascii_chars_encode_utf8("add"@);
    vstd::utf8::is_ascii_chars_encode_utf8("remove"@);
    vstd::utf8::is_ascii_chars_encode_utf8("ACTION"@);
    vstd::utf8::is_ascii_chars_encode_utf8("add@"@);
    vstd::utf8::is_ascii_chars_encode_utf8("remove@"@);
    vstd::utf8::is_ascii_chars_encode_utf8("ACTION=add"@);
    vstd::utf8::is_ascii_chars_encode_utf8("ACTION=remove"@);
    let add = vstd::utf8::encode_utf8("add"@);
    let remove = vstd::utf8::encode_utf8("remove"@);
    let action = vstd::utf8::encode_utf8("ACTION"@);
    assert(vstd::utf8::encode_utf8("add@"@) =~= add.push(64));
    assert(vstd::utf8::encode_utf8("remove@"@) =~= remove.push(64));
    assert(vstd::utf8::encode_utf8("ACTION=add"@) =~= action.push(61) + add);
    assert(vstd::utf8::encode_utf8("ACTION=remove"@) =~= action.push(61) + remove);
    assert(message(u, Announcement::Add) =~= add.push(64) + devpath(u.syspath) + seq![0u8] + (
    action.push(61) + add) + seq![0u8] + fields(u.properties));
    assert(message(u, Announcement::Remove) =~= remove.push(64) + devpath(u.syspath) + seq![0u8] + (
    action.push(61) + remove) + seq![0u8] + fields(u.properties));
}

} // verus!

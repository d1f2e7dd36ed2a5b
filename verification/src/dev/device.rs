//! A snapshot of a host device.
use crate::cgroup;
use crate::cgroup::DeviceType;
use crate::number;
use crate::path;
use crate::path::PathBuf;
use crate::text;
use crate::util::escape;
use vstd::prelude::*;

verus! {

/// One udev property of a device.
#[derive(Debug)]
pub struct Property {
    pub name: Vec<u8>,
    pub value: Vec<u8>,
}

/// What udev reports of a device.
#[derive(Debug)]
pub struct UdevDevice {
    /// The device's sysfs directory.
    pub syspath: PathBuf,
    /// The path of the device's node.
    pub devnode: Option<PathBuf>,
    /// The device number, with major and minor number in one.
    pub devnum: Option<u64>,
    pub subsystem: Option<Vec<u8>>,
    pub properties: Vec<Property>,
}

/// The device node of a device, i.e. its entry under `/dev`.
///
/// Not every device has one: buses, hubs and USB interfaces generally do not, and are skipped by
/// [`crate::hotplug::HotPlug`] as there is nothing to grant access to.
#[derive(Debug)]
pub struct DevNode {
    /// The node's path as the host knows it. Recreated at the same path inside the container.
    pub path: PathBuf,
    pub ty: DeviceType,
    /// Major and minor numbers, which is how the cgroup filter identifies the device.
    pub devnum: (u32, u32),
}

/// A device on the host.
#[derive(Debug)]
pub struct Device {
    pub udev: UdevDevice,
    /// Kept apart since the device number can become unavailable when devices are removed.
    pub devnode: Option<DevNode>,
}

pub struct UdevDeviceView {
    pub syspath: Seq<u8>,
    pub devnode: Option<Seq<u8>>,
    pub devnum: Option<u64>,
    pub subsystem: Option<Seq<u8>>,
    pub properties: Seq<(Seq<u8>, Seq<u8>)>,
}

pub struct DevNodeView {
    pub path: Seq<u8>,
    pub ty: DeviceType,
    pub devnum: (u32, u32),
}

pub struct DeviceView {
    pub udev: UdevDeviceView,
    pub devnode: Option<DevNodeView>,
}

pub open spec fn path_view(p: Option<PathBuf>) -> Option<Seq<u8>> {
    match p {
        Some(p) => Some(p@),
        None => None,
    }
}

pub open spec fn bytes_view(b: Option<Vec<u8>>) -> Option<Seq<u8>> {
    match b {
        Some(b) => Some(b@),
        None => None,
    }
}

pub open spec fn node_view(n: Option<DevNode>) -> Option<DevNodeView> {
    match n {
        Some(n) => Some(n@),
        None => None,
    }
}

impl View for Property {
    type V = (Seq<u8>, Seq<u8>);

    open spec fn view(&self) -> (Seq<u8>, Seq<u8>) {
        (self.name@, self.value@)
    }
}

impl View for UdevDevice {
    type V = UdevDeviceView;

    open spec fn view(&self) -> UdevDeviceView {
        UdevDeviceView {
            syspath: self.syspath@,
            devnode: path_view(self.devnode),
            devnum: self.devnum,
            subsystem: bytes_view(self.subsystem),
            properties: self.properties@.map_values(|p: Property| p@),
        }
    }
}

impl View for DevNode {
    type V = DevNodeView;

    open spec fn view(&self) -> DevNodeView {
        DevNodeView { path: self.path@, ty: self.ty, devnum: self.devnum }
    }
}

impl View for Device {
    type V = DeviceView;

    open spec fn view(&self) -> DeviceView {
        DeviceView { udev: self.udev@, devnode: node_view(self.devnode) }
    }
}

impl DevNodeView {
    /// The key of the node in the cgroup filter's map.
    pub open spec fn key(self) -> cgroup::Device {
        cgroup::key(self.ty, self.devnum)
    }
}

impl DeviceView {
    pub open spec fn syspath(self) -> Seq<u8> {
        self.udev.syspath
    }

    /// What identifies the device: the components of its sysfs directory.
    pub open spec fn key(self) -> path::PathKey {
        path::components(self.udev.syspath)
    }
}

/// The major number in a device number.
pub open spec fn major_of(dev: u64) -> u32 {
    (((dev >> 32) & 0xffff_f000) | ((dev >> 8) & 0xfff)) as u32
}

/// The minor number in a device number.
pub open spec fn minor_of(dev: u64) -> u32 {
    (((dev >> 12) & 0xffff_ff00) | (dev & 0xff)) as u32
}

/// The device number with the given major and minor number.
pub open spec fn devnum_of(major: u32, minor: u32) -> u64 {
    ((major as u64 & 0xffff_f000) << 32) | ((major as u64 & 0xfff) << 8) | ((minor as u64
        & 0xffff_ff00) << 12) | (minor as u64 & 0xff)
}

/// `rustix::fs::major` takes the major number out of a device number.
#[verifier::external_body]
fn major(dev: u64) -> (r: u32)
    ensures
        r == major_of(dev),
{
    rustix::fs::major(dev)
}

/// `rustix::fs::minor` takes the minor number out of a device number.
#[verifier::external_body]
fn minor(dev: u64) -> (r: u32)
    ensures
        r == minor_of(dev),
{
    rustix::fs::minor(dev)
}

/// `rustix::fs::makedev` puts a major and a minor number together.
#[verifier::external_body]
pub(crate) fn makedev(major: u32, minor: u32) -> (r: u64)
    ensures
        r == devnum_of(major, minor),
{
    rustix::fs::makedev(major, minor)
}

/// Major and minor number determine a device number, and the other way round.
pub proof fn devnum_round_trip(major: u32, minor: u32, dev: u64)
    ensures
        major_of(devnum_of(major, minor)) == major,
        minor_of(devnum_of(major, minor)) == minor,
        devnum_of(major_of(dev), minor_of(dev)) == dev,
{
    assert(major_of(devnum_of(major, minor)) == major) by (bit_vector);
    assert(minor_of(devnum_of(major, minor)) == minor) by (bit_vector);
    assert(devnum_of(major_of(dev), minor_of(dev)) == dev) by (bit_vector);
}

/// The node of a device, if udev reports its path, number and subsystem.
///
/// Only the block subsystem has block devices, everything else has character devices.
pub open spec fn node_of(u: UdevDeviceView) -> Option<DevNodeView> {
    match (u.devnode, u.devnum, u.subsystem) {
        (Some(path), Some(devnum), Some(subsystem)) => Some(
            DevNodeView {
                path,
                ty: if subsystem == vstd::utf8::encode_utf8("block"@) {
                    DeviceType::Block
                } else {
                    DeviceType::Character
                },
                devnum: (major_of(devnum), minor_of(devnum)),
            },
        ),
        _ => None,
    }
}

/// The device with the properties that udev reports.
pub open spec fn device_of(u: UdevDeviceView) -> DeviceView {
    DeviceView { udev: u, devnode: node_of(u) }
}

/// The value of the first property with the given name.
pub open spec fn value_of(properties: Seq<(Seq<u8>, Seq<u8>)>, name: Seq<u8>) -> Option<Seq<u8>>
    decreases properties.len(),
{
    if properties.len() == 0 {
        None
    } else if properties[0].0 == name {
        Some(properties[0].1)
    } else {
        value_of(properties.drop_first(), name)
    }
}

/// The text of a property, if the device has the property and it is valid UTF-8.
pub open spec fn text_property(u: UdevDeviceView, name: Seq<char>) -> Option<Seq<char>> {
    match value_of(u.properties, vstd::utf8::encode_utf8(name)) {
        Some(value) => if vstd::utf8::valid_utf8(value) {
            Some(vstd::utf8::decode_utf8(value))
        } else {
            None
        },
        None => None,
    }
}

/// The name in the hardware database, or else the unescaped name that the device reports.
pub open spec fn preferred_name(
    u: UdevDeviceView,
    database: Seq<char>,
    escaped: Seq<char>,
) -> Option<Seq<char>> {
    match text_property(u, database) {
        Some(name) => Some(name),
        None => match text_property(u, escaped) {
            Some(name) => escape::unescaped(name),
            None => None,
        },
    }
}

/// The vendor of a device.
pub open spec fn vendor_of(u: UdevDeviceView) -> Option<Seq<char>> {
    preferred_name(u, "ID_VENDOR_FROM_DATABASE"@, "ID_VENDOR_ENC"@)
}

/// The model of a device.
pub open spec fn model_of(u: UdevDeviceView) -> Option<Seq<char>> {
    preferred_name(u, "ID_MODEL_FROM_DATABASE"@, "ID_MODEL_ENC"@)
}

/// A text without the white space at its ends.
pub open spec fn trimmed(s: Seq<char>) -> Seq<char> {
    text::trim_end(text::trim_start(s))
}

/// The vendor and model of a device, or the one of them that is known.
pub open spec fn name_of(u: UdevDeviceView) -> Option<Seq<char>> {
    match (vendor_of(u), model_of(u)) {
        (Some(vendor), Some(model)) => Some(trimmed(vendor) + " "@ + trimmed(model)),
        (Some(name), None) | (None, Some(name)) => Some(trimmed(name)),
        (None, None) => None,
    }
}

/// How a device number is shown.
pub open spec fn numbers_shown(node: Option<DevNodeView>) -> Seq<char> {
    match node {
        Some(n) => number::pad_left(number::decimal(n.devnum.0 as nat), 3, '0') + ":"@
            + number::pad_left(number::decimal(n.devnum.1 as nat), 3, '0'),
        None => "  -:-  "@,
    }
}

/// How the name of a device is shown.
pub open spec fn name_shown(name: Option<Seq<char>>) -> Seq<char> {
    match name {
        Some(name) => " ("@ + name + ")"@,
        None => " (Unknown)"@,
    }
}

/// What shows where a device is: its node or else its sysfs directory.
pub open spec fn place_of(d: DeviceView) -> Seq<u8> {
    match d.devnode {
        Some(n) => n.path,
        None => d.syspath(),
    }
}

/// A device up to the place where it is.
pub open spec fn heading(d: DeviceView) -> Seq<char> {
    numbers_shown(d.devnode) + name_shown(name_of(d.udev)) + " ["@ + text::displayed(place_of(d))
}

/// How a device is shown.
pub open spec fn shown(d: DeviceView) -> Seq<char> {
    heading(d) + "]"@
}

fn copy_bytes(v: &Vec<u8>) -> (r: Vec<u8>)
    ensures
        r@ == v@,
{
    let r = path::slice_bytes(v.as_slice(), 0, v.len());
    assert(r@ =~= v@);
    r
}

impl Clone for Property {
    fn clone(&self) -> (r: Self)
        ensures
            r@ == self@,
    {
        Property { name: copy_bytes(&self.name), value: copy_bytes(&self.value) }
    }
}

impl Clone for UdevDevice {
    fn clone(&self) -> (r: Self)
        ensures
            r@ == self@,
    {
        let mut properties: Vec<Property> = Vec::new();
        let mut i: usize = 0;
        while i < self.properties.len()
            invariant
                i <= self.properties@.len(),
                properties@.len() == i,
                forall|j: int| 0 <= j < i ==> #[trigger] properties@[j]@ == self.properties@[j]@,
            decreases self.properties@.len() - i,
        {
            properties.push(self.properties[i].clone());
            i = i + 1;
        }
        assert(properties@.map_values(|p: Property| p@) =~= self.properties@.map_values(
            |p: Property| p@,
        ));
        UdevDevice {
            syspath: self.syspath.clone(),
            devnode: match &self.devnode {
                Some(p) => Some(p.clone()),
                None => None,
            },
            devnum: self.devnum,
            subsystem: match &self.subsystem {
                Some(s) => Some(copy_bytes(s)),
                None => None,
            },
            properties,
        }
    }
}

impl Clone for DevNode {
    fn clone(&self) -> (r: Self)
        ensures
            r@ == self@,
    {
        DevNode { path: self.path.clone(), ty: self.ty, devnum: self.devnum }
    }
}

impl Clone for Device {
    fn clone(&self) -> (r: Self)
        ensures
            r@ == self@,
    {
        Device {
            udev: self.udev.clone(),
            devnode: match &self.devnode {
                Some(n) => Some(n.clone()),
                None => None,
            },
        }
    }
}

impl UdevDevice {
    /// The value of a property.
    pub fn property_value(&self, name: &str) -> (r: Option<&Vec<u8>>)
        ensures
            match r {
                Some(v) => value_of(self@.properties, vstd::utf8::encode_utf8(name@)) == Some(v@),
                None => value_of(self@.properties, vstd::utf8::encode_utf8(name@)) is None,
            },
    {
        let wanted = name.as_bytes();
        let ghost all = self@.properties;
        let mut i: usize = 0;
        assert(all.skip(0) == all);
        while i < self.properties.len()
            invariant
                i <= self.properties@.len(),
                wanted@ == vstd::utf8::encode_utf8(name@),
                all == self@.properties,
                value_of(all, wanted@) == value_of(all.skip(i as int), wanted@),
            decreases self.properties@.len() - i,
        {
            let p = &self.properties[i];
            assert(all.skip(i as int)[0] == p@);
            assert(all.skip(i as int).drop_first() == all.skip(i + 1));
            if path::same_bytes(p.name.as_slice(), wanted) {
                return Some(&p.value);
            }
            i = i + 1;
        }
        None
    }

    /// The text of a property, if the device has the property and it is valid UTF-8.
    pub fn text_property(&self, name: &str) -> (r: Option<String>)
        ensures
            match r {
                Some(s) => text_property(self@, name@) == Some(s@),
                None => text_property(self@, name@) is None,
            },
    {
        match self.property_value(name) {
            Some(v) => text::from_utf8(copy_bytes(v)),
            None => None,
        }
    }

    fn preferred_name(&self, database: &str, escaped: &str) -> (r: Option<String>)
        ensures
            match r {
                Some(s) => preferred_name(self@, database@, escaped@) == Some(s@),
                None => preferred_name(self@, database@, escaped@) is None,
            },
    {
        match self.text_property(database) {
            Some(name) => Some(name),
            None => match self.text_property(escaped) {
                Some(name) => match escape::unescape_devnode(name.as_str()) {
                    Ok(name) => Some(name),
                    Err(_) => None,
                },
                None => None,
            },
        }
    }
}

impl Device {
    /// Snapshot what udev reports, working out the device node.
    ///
    /// Do this while the device is still present: a remove event no longer reports a device number,
    /// and by then it is still needed to revoke access.
    pub fn from_udev(udev: UdevDevice) -> (r: Device)
        ensures
            r@ == device_of(udev@),
    {
        let devnode = match (&udev.devnode, udev.devnum, &udev.subsystem) {
            (Some(path), Some(devnum), Some(subsystem)) => {
                let ty = if path::same_bytes(subsystem.as_slice(), "block".as_bytes()) {
                    DeviceType::Block
                } else {
                    DeviceType::Character
                };
                Some(DevNode { path: path.clone(), ty, devnum: (major(devnum), minor(devnum)) })
            },
            _ => None,
        };
        Device { udev, devnode }
    }

    /// A human-readable "vendor model" name for logging.
    ///
    /// Prefers the names from the hardware database, falling back to the (escaped) strings reported
    /// by the device itself. Returns [`None`] if neither a vendor nor a model can be determined,
    /// which is normal for devices that are not USB. With just one of them known, the name is that
    /// one.
    pub fn display_name(&self) -> (r: Option<String>)
        ensures
            match r {
                Some(s) => name_of(self@.udev) == Some(s@),
                None => name_of(self@.udev) is None,
            },
            r is None <==> vendor_of(self@.udev) is None && model_of(self@.udev) is None,
    {
        let vendor = self.udev.preferred_name("ID_VENDOR_FROM_DATABASE", "ID_VENDOR_ENC");
        let model = self.udev.preferred_name("ID_MODEL_FROM_DATABASE", "ID_MODEL_ENC");
        match (vendor, model) {
            (Some(vendor), Some(model)) => Some(
                text::concat3(
                    text::trim(vendor.as_str()).as_str(),
                    " ",
                    text::trim(model.as_str()).as_str(),
                ),
            ),
            (Some(name), None) => Some(text::trim(name.as_str())),
            (None, Some(name)) => Some(text::trim(name.as_str())),
            (None, None) => None,
        }
    }

    /// What udev reported, for properties that have no method of their own.
    pub fn udev(&self) -> (r: &UdevDevice)
        ensures
            *r == self.udev,
    {
        &self.udev
    }

    /// The device's sysfs directory, which also serves as its unique identity.
    ///
    /// Descendants of a device appear as subdirectories of its syspath, which is how the monitor
    /// decides whether a device is below one of its roots.
    pub fn syspath(&self) -> (r: &PathBuf)
        ensures
            r@ == self@.syspath(),
    {
        &self.udev.syspath
    }

    /// The device's node, if it has one.
    pub fn devnode(&self) -> (r: Option<&DevNode>)
        ensures
            match r {
                Some(n) => self@.devnode == Some(n@),
                None => self@.devnode is None,
            },
    {
        match &self.devnode {
            Some(n) => Some(n),
            None => None,
        }
    }

    /// The device number, name and place of the device, up to the closing bracket.
    pub(crate) fn heading(&self) -> (r: String)
        ensures
            r@ == heading(self@),
    {
        let mut r = String::new();
        match &self.devnode {
            Some(n) => {
                let (major, minor) = n.devnum;
                text::push_str(
                    &mut r,
                    number::to_padded(number::to_decimal(major).as_str(), 3, '0').as_str(),
                );
                text::push_str(&mut r, ":");
                text::push_str(
                    &mut r,
                    number::to_padded(number::to_decimal(minor).as_str(), 3, '0').as_str(),
                );
            },
            None => {
                text::push_str(&mut r, "  -:-  ");
            },
        }
        assert(r@ =~= numbers_shown(self@.devnode));
        match self.display_name() {
            Some(name) => {
                let shown = text::concat3(" (", name.as_str(), ")");
                text::push_str(&mut r, shown.as_str());
            },
            None => {
                text::push_str(&mut r, " (Unknown)");
            },
        }
        assert(r@ =~= numbers_shown(self@.devnode) + name_shown(name_of(self@.udev)));
        text::push_str(&mut r, " [");
        match &self.devnode {
            Some(n) => {
                text::push_str(&mut r, n.path.display().as_str());
            },
            None => {
                text::push_str(&mut r, self.udev.syspath.display().as_str());
            },
        }
        r
    }

    /// One line about the device, for logging.
    pub fn to_string(&self) -> (r: String)
        ensures
            r@ == heading(self@) + "]"@,
            r@ == shown(self@),
    {
        let mut r = self.heading();
        text::push_str(&mut r, "]");
        r
    }
}

/// A node is of type block just if the subsystem is the word `block`, and of type character
/// otherwise: for `usb`, `tty`, `hidraw` and all the rest.
pub proof fn only_the_block_subsystem_has_block_devices(u: UdevDeviceView)
    requires
        u.devnode is Some,
        u.devnum is Some,
        u.subsystem is Some,
    ensures
        device_of(u).devnode is Some,
        (device_of(u).devnode->0).ty == DeviceType::Block <==> u.subsystem->0 == seq![
            98u8, 108u8, 111u8, 99u8, 107u8,
        ],
        (device_of(u).devnode->0).ty == DeviceType::Character <==> u.subsystem->0 != seq![
            98u8, 108u8, 111u8, 99u8, 107u8,
        ],
{
    reveal_strlit("block");
    vstd::utf8::is_ascii_chars_encode_utf8("block"@);
    assert(vstd::utf8::encode_utf8("block"@) =~= seq![98u8, 108u8, 111u8, 99u8, 107u8]);
}

/// A device has a node just if udev reports a path, a number and a subsystem, and the node is at that
/// path and has that number. Nothing that udev reports is lost.
pub proof fn nodes_are_as_udev_reports_them(u: UdevDeviceView)
    ensures
        device_of(u).udev == u,
        device_of(u).syspath() == u.syspath,
        device_of(u).key() == path::components(u.syspath),
        device_of(u).devnode is Some <==> u.devnode is Some && u.devnum is Some
            && u.subsystem is Some,
        device_of(u).devnode matches Some(n) ==> n.path == u.devnode->0 && devnum_of(
            n.devnum.0,
            n.devnum.1,
        ) == u.devnum->0,
        device_of(u).devnode matches Some(n) ==> n.key() == cgroup::key(n.ty, n.devnum),
{
    if let Some(dev) = u.devnum {
        devnum_round_trip(0, 0, dev);
    }
}

/// Small numbers are where they have always been: the minor number in the low byte, the major number
/// above it.
pub proof fn small_device_numbers(major: u32, minor: u32)
    requires
        major < 0x1000,
        minor < 0x100,
    ensures
        devnum_of(major, minor) == major * 256 + minor,
{
    assert(devnum_of(major, minor) == (major as u64) * 256 + minor as u64) by (bit_vector)
        requires
            major < 0x1000,
            minor < 0x100,
    ;
}

/// The first property of a name counts, and without one there is no value.
pub proof fn first_property_counts(properties: Seq<(Seq<u8>, Seq<u8>)>, name: Seq<u8>, i: int)
    requires
        0 <= i <= properties.len(),
        forall|j: int| 0 <= j < i ==> (#[trigger] properties[j]).0 != name,
    ensures
        i < properties.len() && properties[i].0 == name ==> value_of(properties, name) == Some(
            properties[i].1,
        ),
        i == properties.len() ==> value_of(properties, name) is None,
    decreases i,
{
    if i > 0 {
        let rest = properties.drop_first();
        assert(properties[0].0 != name);
        assert forall|j: int| 0 <= j < i - 1 implies (#[trigger] rest[j]).0 != name by {
            assert(rest[j] == properties[j + 1]);
        }
        first_property_counts(rest, name, i - 1);
    }
}

/// A property has a text just if its value is the bytes of that text.
pub proof fn property_texts_are_their_bytes(u: UdevDeviceView, name: Seq<char>, s: Seq<char>)
    ensures
        text_property(u, name) == Some(s) <==> value_of(u.properties, vstd::utf8::encode_utf8(name))
            == Some(vstd::utf8::encode_utf8(s)),
{
    vstd::utf8::encode_utf8_valid_utf8(s);
    vstd::utf8::encode_utf8_decode_utf8(s);
    if let Some(value) = value_of(u.properties, vstd::utf8::encode_utf8(name)) {
        if vstd::utf8::valid_utf8(value) {
            vstd::utf8::decode_utf8_encode_utf8(value);
        }
    }
}

/// The vendor and the model are those of the hardware database where it knows them, and else what the
/// device reports, without the escaping.
pub proof fn database_names_come_first(u: UdevDeviceView)
    ensures
        text_property(u, "ID_VENDOR_FROM_DATABASE"@) is Some ==> vendor_of(u) == text_property(
            u,
            "ID_VENDOR_FROM_DATABASE"@,
        ),
        text_property(u, "ID_VENDOR_FROM_DATABASE"@) is None ==> vendor_of(u) == match text_property(
            u,
            "ID_VENDOR_ENC"@,
        ) {
            Some(name) => escape::unescaped(name),
            None => None,
        },
        text_property(u, "ID_MODEL_FROM_DATABASE"@) is Some ==> model_of(u) == text_property(
            u,
            "ID_MODEL_FROM_DATABASE"@,
        ),
        text_property(u, "ID_MODEL_FROM_DATABASE"@) is None ==> model_of(u) == match text_property(
            u,
            "ID_MODEL_ENC"@,
        ) {
            Some(name) => escape::unescaped(name),
            None => None,
        },
{
}

/// The name of a device is that of its vendor and that of its model, each without white space around
/// it, with a space in between if there are both. There is none if neither is known.
pub proof fn names_are_of_vendor_and_model(u: UdevDeviceView)
    ensures
        name_of(u) is None <==> vendor_of(u) is None && model_of(u) is None,
        vendor_of(u) is Some && model_of(u) is Some ==> name_of(u) == Some(
            trimmed(vendor_of(u)->0).push(' ') + trimmed(model_of(u)->0),
        ),
        vendor_of(u) is Some && model_of(u) is None ==> name_of(u) == Some(
            trimmed(vendor_of(u)->0),
        ),
        vendor_of(u) is None && model_of(u) is Some ==> name_of(u) == Some(
            trimmed(model_of(u)->0),
        ),
        forall|s: Seq<char>| #[trigger] trimmed(s) == text::trim_end(text::trim_start(s)),
{
    reveal_strlit(" ");
    if vendor_of(u) is Some && model_of(u) is Some {
        let v = trimmed(vendor_of(u)->0);
        assert(v + " "@ =~= v.push(' '));
    }
}

/// A device is shown by its numbers, each with at least three digits, its name in parentheses and the
/// path of its node. Without a node there are no numbers, and its directory takes the place of the
/// node; without a name it is unknown.
pub proof fn devices_are_shown_by_number_name_and_path(d: DeviceView)
    ensures
        d.devnode matches Some(n) ==> heading(d) == number::pad_left(
            number::decimal(n.devnum.0 as nat),
            3,
            '0',
        ) + ":"@ + number::pad_left(number::decimal(n.devnum.1 as nat), 3, '0') + name_shown(
            name_of(d.udev),
        ) + " ["@ + text::displayed(n.path),
        d.devnode is None ==> heading(d) == "  -:-  "@ + name_shown(name_of(d.udev)) + " ["@
            + text::displayed(d.udev.syspath),
        forall|name: Seq<char>| #[trigger]
            name_shown(Some(name)) == seq![' ', '('] + name + seq![')'],
        name_shown(None) == " (Unknown)"@,
        shown(d) == heading(d).push(']'),
{
    reveal_strlit(" (");
    reveal_strlit(")");
    assert(" ("@ =~= seq![' ', '(']);
    assert(")"@ =~= seq![')']);
    reveal_strlit("]");
    assert(shown(d) =~= heading(d).push(']'));
}

} // verus!

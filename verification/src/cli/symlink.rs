//! Symlink rules, as used by the `org.lowrisc.hotplug.symlinks` annotation.
use crate::cli::device;
use crate::dev;
use crate::dev::{Device, UdevDevice};
use crate::number;
use crate::path::PathBuf;
use crate::text;
use vstd::prelude::*;

verus! {

/// Which devices a [`Symlink`] rule applies to.
#[derive(Debug)]
pub enum SymlinkDevice {
    /// A specific interface of a USB device, written `usb:<VID>:<PID>:<INTERFACE>`.
    ///
    /// The IDs are 4-digit hex and the interface is a decimal number; all three are required, since
    /// a symlink names a single device node. Matching a single interface rather than the whole
    /// device is what makes this useful for composite devices.
    Usb {
        vid: String,
        pid: String,
        /// Interface number, zero-padded to two digits to match udev's
        /// `ID_USB_INTERFACE_NUM` property.
        if_num: String,
    },
}

/// A rule requesting a symlink to a device's node inside the container.
///
/// The syntax is `<PREFIX>:<DEVICE>=<PATH>`, e.g. `usb:2b3e:c310:1=/dev/ttyACM_CW310_0`, where
/// `PATH` is an absolute path inside the container.
#[derive(Debug)]
pub struct Symlink {
    pub device: SymlinkDevice,
    /// Where the symlink is created, inside the container's mount namespace.
    pub path: PathBuf,
}

pub enum SymlinkDeviceView {
    Usb { vid: Seq<char>, pid: Seq<char>, if_num: Seq<char> },
}

pub struct SymlinkView {
    pub device: SymlinkDeviceView,
    pub path: Seq<u8>,
}

impl View for SymlinkDevice {
    type V = SymlinkDeviceView;

    open spec fn view(&self) -> SymlinkDeviceView {
        match self {
            SymlinkDevice::Usb { vid, pid, if_num } => SymlinkDeviceView::Usb {
                vid: vid@,
                pid: pid@,
                if_num: if_num@,
            },
        }
    }
}

impl View for Symlink {
    type V = SymlinkView;

    open spec fn view(&self) -> SymlinkView {
        SymlinkView { device: self.device@, path: self.path@ }
    }
}

impl Clone for SymlinkDevice {
    fn clone(&self) -> (r: Self)
        ensures
            r@ == self@,
    {
        match self {
            SymlinkDevice::Usb { vid, pid, if_num } => SymlinkDevice::Usb {
                vid: vid.clone(),
                pid: pid.clone(),
                if_num: if_num.clone(),
            },
        }
    }
}

impl Clone for Symlink {
    fn clone(&self) -> (r: Self)
        ensures
            r@ == self@,
    {
        Symlink { device: self.device.clone(), path: self.path.clone() }
    }
}

/// Which part of a symlink rule is at fault.
#[derive(Debug, Clone, Copy, PartialEq, Eq, Structural)]
pub enum SymlinkFault {
    Format,
    Path,
    DeviceFormat,
    UsbFormat,
    Vid,
    Pid,
    Interface,
    Prefix,
}

/// Why a text is not a symlink rule, with the part of it that is at fault.
#[derive(Debug)]
pub struct SymlinkError {
    pub fault: SymlinkFault,
    pub found: String,
}

pub struct SymlinkErrorView {
    pub fault: SymlinkFault,
    pub found: Seq<char>,
}

impl View for SymlinkError {
    type V = SymlinkErrorView;

    open spec fn view(&self) -> SymlinkErrorView {
        SymlinkErrorView { fault: self.fault, found: self.found@ }
    }
}

/// What a fault asks for, up to the quoted input.
pub open spec fn expectation(fault: SymlinkFault) -> Seq<char> {
    match fault {
        SymlinkFault::Format => "Symlink format should be `<PREFIX>:<DEVICE>=<PATH>`, found `"@,
        SymlinkFault::Path => "Symlink PATH should be an absolute file path, found `"@,
        SymlinkFault::DeviceFormat =>
            "Symlink DEVICE format should be `<PREFIX>:<DEVICE>`, found `"@,
        SymlinkFault::UsbFormat =>
            "Symlink DEVICE format for usb should be `<VID>:<PID>:<INTERFACE>`, found `"@,
        SymlinkFault::Vid => "USB symlink VID should be a 4 digit hex number, found `"@,
        SymlinkFault::Pid => "USB symlink PID should be a 4 digit hex number, found `"@,
        SymlinkFault::Interface => "USB symlink INTERFACE should be a number, found `"@,
        SymlinkFault::Prefix => "Symlink PREFIX should be `usb`, found `"@,
    }
}

/// What is said of an error: the expected form, and the offending input in quotes.
pub open spec fn error_message(e: SymlinkErrorView) -> Seq<char> {
    let close = if e.fault == SymlinkFault::Path || e.fault == SymlinkFault::UsbFormat {
        "`."@
    } else {
        "`"@
    };
    expectation(e.fault) + e.found + close
}

impl SymlinkError {
    /// The message for the user: the expected form, and the offending input in quotes.
    pub fn message(&self) -> (r: String)
        ensures
            r@ == error_message(self@),
    {
        let expected: &str = match self.fault {
            SymlinkFault::Format => "Symlink format should be `<PREFIX>:<DEVICE>=<PATH>`, found `",
            SymlinkFault::Path => "Symlink PATH should be an absolute file path, found `",
            SymlinkFault::DeviceFormat =>
                "Symlink DEVICE format should be `<PREFIX>:<DEVICE>`, found `",
            SymlinkFault::UsbFormat =>
                "Symlink DEVICE format for usb should be `<VID>:<PID>:<INTERFACE>`, found `",
            SymlinkFault::Vid => "USB symlink VID should be a 4 digit hex number, found `",
            SymlinkFault::Pid => "USB symlink PID should be a 4 digit hex number, found `",
            SymlinkFault::Interface => "USB symlink INTERFACE should be a number, found `",
            SymlinkFault::Prefix => "Symlink PREFIX should be `usb`, found `",
        };
        let close: &str = match self.fault {
            SymlinkFault::Path => "`.",
            SymlinkFault::UsbFormat => "`.",
            _ => "`",
        };
        text::concat3(expected, self.found.as_str(), close)
    }
}

pub open spec fn fault<T>(fault: SymlinkFault, found: Seq<char>) -> Result<T, SymlinkErrorView> {
    Err(SymlinkErrorView { fault, found })
}

/// The meaning of `<VID>:<PID>:<INTERFACE>`.
pub open spec fn usb_parsed(dev: Seq<char>) -> Result<SymlinkDeviceView, SymlinkErrorView> {
    let parts = text::split(dev, ':');
    if parts.len() != 3 {
        fault(SymlinkFault::UsbFormat, dev)
    } else if !text::hex4(parts[0]) {
        fault(SymlinkFault::Vid, parts[0])
    } else if !text::hex4(parts[1]) {
        fault(SymlinkFault::Pid, parts[1])
    } else if !(parts[2].len() > 0 && text::digits(parts[2])) {
        fault(SymlinkFault::Interface, parts[2])
    } else {
        Ok(
            SymlinkDeviceView::Usb {
                vid: device::lowered(parts[0]),
                pid: device::lowered(parts[1]),
                if_num: number::pad_left(parts[2], 2, '0'),
            },
        )
    }
}

/// The meaning of `<PREFIX>:<DEVICE>`.
pub open spec fn device_parsed(s: Seq<char>) -> Result<SymlinkDeviceView, SymlinkErrorView> {
    let n = text::span(s, ':');
    if !s.contains(':') {
        fault(SymlinkFault::DeviceFormat, s)
    } else if s.take(n) == "usb"@ {
        usb_parsed(s.skip(n + 1))
    } else {
        fault(SymlinkFault::Prefix, s.take(n))
    }
}

/// Whether a text is an absolute path to a file.
pub open spec fn is_file_path(path: Seq<char>) -> bool {
    path.len() > 0 && path[0] == '/' && path.last() != '/'
}

/// The meaning of a whole symlink rule.
pub open spec fn parsed(s: Seq<char>) -> Result<SymlinkView, SymlinkErrorView> {
    let parts = text::split(s, '=');
    if parts.len() != 2 {
        fault(SymlinkFault::Format, s)
    } else if !is_file_path(parts[1]) {
        fault(SymlinkFault::Path, parts[1])
    } else {
        match device_parsed(parts[0]) {
            Ok(device) => Ok(SymlinkView { device, path: vstd::utf8::encode_utf8(parts[1]) }),
            Err(e) => Err(e),
        }
    }
}

fn fail<T>(fault: SymlinkFault, found: &str) -> (r: Result<T, SymlinkError>)
    ensures
        r matches Err(e) && e@ == (SymlinkErrorView { fault, found: found@ }),
{
    let mut s = String::new();
    text::push_str(&mut s, found);
    assert(s@ =~= found@);
    Err(SymlinkError { fault, found: s })
}

fn parse_usb(dev: &str) -> (r: Result<SymlinkDevice, SymlinkError>)
    ensures
        match r {
            Ok(d) => usb_parsed(dev@) == Ok::<SymlinkDeviceView, SymlinkErrorView>(d@),
            Err(e) => usb_parsed(dev@) == Err::<SymlinkDeviceView, SymlinkErrorView>(e@),
        },
{
    let parts = text::split_str(dev, ':');
    let ghost want = text::split(dev@, ':');
    proof {
        assert(parts.deep_view().len() == parts@.len());
        assert forall|i: int| 0 <= i < parts@.len() implies #[trigger] parts@[i]@ == want[i] by {
            assert(parts.deep_view()[i] == parts@[i]@);
        }
    }
    if parts.len() != 3 {
        return fail(SymlinkFault::UsbFormat, dev);
    }
    let vid = parts[0].as_str();
    let pid = parts[1].as_str();
    let if_num = parts[2].as_str();
    if !text::is_hex4(vid) {
        return fail(SymlinkFault::Vid, vid);
    }
    if !text::is_hex4(pid) {
        return fail(SymlinkFault::Pid, pid);
    }
    if !(!if_num.is_empty() && text::is_digits(if_num)) {
        return fail(SymlinkFault::Interface, if_num);
    }
    Ok(
        SymlinkDevice::Usb {
            vid: text::to_ascii_lowercase(vid),
            pid: text::to_ascii_lowercase(pid),
            if_num: number::to_padded(if_num, 2, '0'),
        },
    )
}

fn parse_device(s: &str) -> (r: Result<SymlinkDevice, SymlinkError>)
    ensures
        match r {
            Ok(d) => device_parsed(s@) == Ok::<SymlinkDeviceView, SymlinkErrorView>(d@),
            Err(e) => device_parsed(s@) == Err::<SymlinkDeviceView, SymlinkErrorView>(e@),
        },
{
    match text::split_once(s, ':') {
        None => fail(SymlinkFault::DeviceFormat, s),
        Some((prefix, dev)) => {
            if text::same(prefix.as_str(), "usb") {
                parse_usb(dev.as_str())
            } else {
                fail(SymlinkFault::Prefix, prefix.as_str())
            }
        },
    }
}

impl Symlink {
    /// Parse a symlink rule.
    pub fn from_str(s: &str) -> (r: Result<Symlink, SymlinkError>)
        ensures
            match r {
                Ok(l) => parsed(s@) == Ok::<SymlinkView, SymlinkErrorView>(l@),
                Err(e) => parsed(s@) == Err::<SymlinkView, SymlinkErrorView>(e@),
            },
    {
        let parts = text::split_str(s, '=');
        let ghost want = text::split(s@, '=');
        proof {
            assert(parts.deep_view().len() == parts@.len());
            assert forall|i: int| 0 <= i < parts@.len() implies #[trigger] parts@[i]@
                == want[i] by {
                assert(parts.deep_view()[i] == parts@[i]@);
            }
            reveal_strlit("/");
        }
        if parts.len() != 2 {
            return fail(SymlinkFault::Format, s);
        }
        let dev = parts[0].as_str();
        let path = parts[1].as_str();
        let absolute = text::starts_with(path, "/");
        assert(absolute == (path@.len() > 0 && path@[0] == '/')) by {
            if absolute {
                assert("/"@[0] == path@.subrange(0, 1)[0]);
            } else if path@.len() > 0 && path@[0] == '/' {
                assert("/"@ =~= path@.subrange(0, 1));
            }
        }
        if !(absolute && !text::ends_with(path, '/')) {
            return fail(SymlinkFault::Path, path);
        }
        match parse_device(dev) {
            Ok(device) => Ok(Symlink { device, path: PathBuf::from_text(path) }),
            Err(e) => Err(e),
        }
    }
}

pub open spec fn device_shown(d: SymlinkDeviceView) -> Seq<char> {
    match d {
        SymlinkDeviceView::Usb { vid, pid, if_num } => "usb:"@ + vid + ":"@ + pid + ":"@ + if_num,
    }
}

/// The text of a symlink rule.
pub open spec fn shown(l: SymlinkView) -> Seq<char> {
    device_shown(l.device) + "="@ + text::displayed(l.path)
}

/// Whether a rule applies to a device: its identifiers are those of the rule.
pub open spec fn applies(d: SymlinkDeviceView, u: dev::device::UdevDeviceView) -> bool {
    match d {
        SymlinkDeviceView::Usb { vid, pid, if_num } => {
            &&& dev::device::text_property(u, "ID_VENDOR_ID"@) == Some(vid)
            &&& dev::device::text_property(u, "ID_MODEL_ID"@) == Some(pid)
            &&& dev::device::text_property(u, "ID_USB_INTERFACE_NUM"@) == Some(if_num)
        },
    }
}

fn property_is(u: &UdevDevice, name: &str, value: &str) -> (r: bool)
    ensures
        r == (dev::device::text_property(u@, name@) == Some(value@)),
{
    match u.text_property(name) {
        Some(v) => text::same(v.as_str(), value),
        None => false,
    }
}

impl SymlinkDevice {
    /// The text of the device part of a rule.
    pub fn to_string(&self) -> (r: String)
        ensures
            r@ == device_shown(self@),
    {
        match self {
            SymlinkDevice::Usb { vid, pid, if_num } => {
                let mut r = text::concat3("usb:", vid.as_str(), ":");
                text::push_str(&mut r, pid.as_str());
                text::push_str(&mut r, ":");
                text::push_str(&mut r, if_num.as_str());
                r
            },
        }
    }

    /// Whether this rule applies to `device`. A property that is missing or not valid UTF-8 does
    /// not match.
    pub fn matches(&self, device: &Device) -> (r: bool)
        ensures
            r == applies(self@, device@.udev),
    {
        let u = device.udev();
        match self {
            SymlinkDevice::Usb { vid, pid, if_num } => property_is(u, "ID_VENDOR_ID", vid.as_str())
                && property_is(u, "ID_MODEL_ID", pid.as_str()) && property_is(
                u,
                "ID_USB_INTERFACE_NUM",
                if_num.as_str(),
            ),
        }
    }
}

impl Symlink {
    /// The text of the rule, in the syntax that [`Symlink::from_str`] accepts.
    pub fn to_string(&self) -> (r: String)
        ensures
            r@ == shown(self@),
    {
        text::concat3(self.device.to_string().as_str(), "=", self.path.display().as_str())
    }

    /// The path to symlink, if this rule applies to `device`.
    pub fn matches(&self, device: &Device) -> (r: Option<PathBuf>)
        ensures
            match r {
                Some(p) => applies(self@.device, device@.udev) && p@ == self@.path,
                None => !applies(self@.device, device@.udev),
            },
    {
        if self.device.matches(device) {
            Some(self.path.clone())
        } else {
            None
        }
    }
}

/// What holds of every rule that parsing gives.
pub open spec fn valid(l: SymlinkView) -> bool {
    let path = vstd::utf8::decode_utf8(l.path);
    &&& vstd::utf8::valid_utf8(l.path)
    &&& is_file_path(path)
    &&& forall|i: int| 0 <= i < path.len() ==> path[i] != '='
    &&& match l.device {
        SymlinkDeviceView::Usb { vid, pid, if_num } => {
            &&& device::is_id(vid)
            &&& device::is_id(pid)
            &&& if_num.len() >= 2
            &&& text::digits(if_num)
        },
    }
}

/// Parsing gives only valid rules.
pub proof fn parsed_is_valid(s: Seq<char>)
    ensures
        parsed(s) matches Ok(l) ==> valid(l),
{
    if let Ok(l) = parsed(s) {
        let parts = text::split(s, '=');
        text::lemma_split_free(s, '=');
        let path = parts[1];
        vstd::utf8::encode_utf8_valid_utf8(path);
        vstd::utf8::encode_utf8_decode_utf8(path);
        assert forall|i: int| 0 <= i < path.len() implies path[i] != '=' by {
            assert(parts[1][i] != '=');
        }
        let n = text::span(parts[0], ':');
        let ids = text::split(parts[0].skip(n + 1), ':');
        device::lemma_lowered_hex4(ids[0]);
        device::lemma_lowered_hex4(ids[1]);
        let padded = number::pad_left(ids[2], 2, '0');
        assert forall|i: int| 0 <= i < padded.len() implies text::is_digit(#[trigger] padded[i]) by {
            let d = padded.len() - ids[2].len();
            if i >= d {
                assert(padded[i] == ids[2][i - d]);
            }
        }
    }
}

/// Round trip: the text of a valid rule parses back to it.
pub proof fn shown_parses_back(l: SymlinkView)
    requires
        valid(l),
    ensures
        parsed(shown(l)) == Ok::<SymlinkView, SymlinkErrorView>(l),
{
    reveal_strlit("usb");
    reveal_strlit("usb:");
    reveal_strlit(":");
    reveal_strlit("=");
    assert("usb:"@ =~= "usb"@.push(':'));
    assert(":"@ =~= seq![':']);
    assert("="@ =~= seq!['=']);
    let path = vstd::utf8::decode_utf8(l.path);
    vstd::utf8::decode_utf8_encode_utf8(l.path);
    match l.device {
        SymlinkDeviceView::Usb { vid, pid, if_num } => {
            device::lemma_no_colon(vid);
            device::lemma_no_colon(pid);
            assert forall|i: int| 0 <= i < if_num.len() implies if_num[i] != ':' by {
                assert(text::is_digit(if_num[i]));
            }
            let tail = pid.push(':') + if_num;
            let ids = vid.push(':') + tail;
            let dev = "usb"@.push(':') + ids;
            assert(device_shown(l.device) =~= dev);
            assert forall|i: int| 0 <= i < dev.len() implies dev[i] != '=' by {
                lemma_no_equals(vid, pid, if_num, dev, i);
            }
            assert(shown(l) =~= dev.push('=') + path);
            text::lemma_split_join(dev, '=', path);
            text::lemma_split_none(dev, '=');
            text::lemma_split_none(path, '=');
            assert(text::split(shown(l), '=') =~= seq![dev, path]);
            device::lemma_prefix("usb"@, ids);
            text::lemma_split_none(vid, ':');
            text::lemma_split_none(pid, ':');
            text::lemma_split_none(if_num, ':');
            text::lemma_split_join(vid, ':', tail);
            text::lemma_split_join(pid, ':', if_num);
            assert(text::split(ids, ':') =~= seq![vid, pid, if_num]);
        },
    }
}

proof fn lemma_no_equals(vid: Seq<char>, pid: Seq<char>, if_num: Seq<char>, dev: Seq<char>, i: int)
    requires
        text::hex4(vid),
        text::hex4(pid),
        text::digits(if_num),
        dev == "usb"@.push(':') + (vid.push(':') + (pid.push(':') + if_num)),
        0 <= i < dev.len(),
    ensures
        dev[i] != '=',
{
    reveal_strlit("usb");
    if 4 <= i < 8 {
        assert(dev[i] == vid[i - 4]);
        assert(text::is_hex_digit(vid[i - 4]));
    } else if 9 <= i < 13 {
        assert(dev[i] == pid[i - 9]);
        assert(text::is_hex_digit(pid[i - 9]));
    } else if 14 <= i {
        assert(dev[i] == if_num[i - 14]);
        assert(text::is_digit(if_num[i - 14]));
    }
}

proof fn lemma_rule_split(dev: Seq<char>, path: Seq<char>)
    requires
        !dev.contains('='),
        !path.contains('='),
    ensures
        text::split(dev.push('=') + path, '=') == seq![dev, path],
{
    let pieces = seq![dev, path];
    text::pieces_come_apart_again(pieces, '=');
    assert(pieces.drop_first() =~= seq![path]);
    assert(text::unsplit(seq![path], '=') == path);
    assert(text::unsplit(pieces, '=') == dev.push('=') + path);
}

/// A rule is a device and a path with an equals sign between them, and no other. The path starts with
/// a slash and does not end in one; it is kept as it is written, and so is what the device stands for.
pub proof fn rules_are_a_device_and_a_path(dev: Seq<char>, path: Seq<char>)
    requires
        !dev.contains('='),
        !path.contains('='),
    ensures
        parsed(dev.push('=') + path) == (if path.len() == 0 || path[0] != '/' || path.last() == '/' {
            Err(SymlinkErrorView { fault: SymlinkFault::Path, found: path })
        } else {
            match device_parsed(dev) {
                Ok(device) => Ok(SymlinkView { device, path: vstd::utf8::encode_utf8(path) }),
                Err(e) => Err(e),
            }
        }),
        parsed(dev) == Err::<SymlinkView, SymlinkErrorView>(
            SymlinkErrorView { fault: SymlinkFault::Format, found: dev },
        ),
{
    lemma_rule_split(dev, path);
    let one = seq![dev];
    text::pieces_come_apart_again(one, '=');
    assert(text::unsplit(one, '=') == dev);
}

/// A rule with more than one equals sign is refused as a whole.
pub proof fn rules_have_one_equals_sign(a: Seq<char>, b: Seq<char>, c: Seq<char>)
    ensures
        parsed(a.push('=') + (b.push('=') + c)) == Err::<SymlinkView, SymlinkErrorView>(
            SymlinkErrorView {
                fault: SymlinkFault::Format,
                found: a.push('=') + (b.push('=') + c),
            },
        ),
{
    text::lemma_split_join(a, '=', b.push('=') + c);
    text::lemma_split_join(b, '=', c);
    text::lemma_split_free(a, '=');
    text::lemma_split_free(b, '=');
    text::lemma_split_free(c, '=');
}

/// The device of a rule is given by three parts behind `usb:`, of which the IDs are kept in lower case
/// and the interface with at least two digits. The first part that is not as it should be decides the
/// error.
pub proof fn rule_devices_are_taken_apart(vid: Seq<char>, pid: Seq<char>, interface: Seq<char>)
    requires
        !vid.contains(':'),
        !pid.contains(':'),
        !interface.contains(':'),
    ensures
        device_parsed("usb:"@ + (vid.push(':') + (pid.push(':') + interface))) == (if !text::hex4(
            vid,
        ) {
            Err(SymlinkErrorView { fault: SymlinkFault::Vid, found: vid })
        } else if !text::hex4(pid) {
            Err(SymlinkErrorView { fault: SymlinkFault::Pid, found: pid })
        } else if interface.len() == 0 || !text::digits(interface) {
            Err(SymlinkErrorView { fault: SymlinkFault::Interface, found: interface })
        } else {
            Ok(
                SymlinkDeviceView::Usb {
                    vid: device::lowered(vid),
                    pid: device::lowered(pid),
                    if_num: if interface.len() == 1 {
                        seq!['0'] + interface
                    } else {
                        interface
                    },
                },
            )
        }),
{
    reveal_strlit("usb");
    reveal_strlit("usb:");
    let parts = seq![vid, pid, interface];
    let ids = vid.push(':') + (pid.push(':') + interface);
    text::pieces_come_apart_again(parts, ':');
    assert(parts.drop_first() =~= seq![pid, interface]);
    assert(seq![pid, interface].drop_first() =~= seq![interface]);
    assert(text::unsplit(seq![interface], ':') == interface);
    assert(text::unsplit(seq![pid, interface], ':') == pid.push(':') + interface);
    assert(text::unsplit(parts, ':') == ids);
    assert("usb:"@ =~= "usb"@.push(':'));
    device::lemma_prefix("usb"@, ids);
    if interface.len() == 1 {
        assert(number::pad_left(interface, 2, '0') =~= seq!['0'] + interface);
    }
}

/// The device of a rule has three parts, no more and no fewer.
pub proof fn rule_devices_have_three_parts(a: Seq<char>, b: Seq<char>, more: Seq<char>)
    requires
        !a.contains(':'),
        !b.contains(':'),
        more.contains(':'),
    ensures
        ({
            let two = a.push(':') + b;
            let four = a.push(':') + (b.push(':') + more);
            &&& device_parsed("usb:"@ + a) == Err::<SymlinkDeviceView, SymlinkErrorView>(
                SymlinkErrorView { fault: SymlinkFault::UsbFormat, found: a },
            )
            &&& device_parsed("usb:"@ + two) == Err::<SymlinkDeviceView, SymlinkErrorView>(
                SymlinkErrorView { fault: SymlinkFault::UsbFormat, found: two },
            )
            &&& device_parsed("usb:"@ + four) == Err::<SymlinkDeviceView, SymlinkErrorView>(
                SymlinkErrorView { fault: SymlinkFault::UsbFormat, found: four },
            )
        }),
{
    reveal_strlit("usb");
    reveal_strlit("usb:");
    assert("usb:"@ =~= "usb"@.push(':'));
    let two = a.push(':') + b;
    let four = a.push(':') + (b.push(':') + more);
    device::lemma_prefix("usb"@, a);
    device::lemma_prefix("usb"@, two);
    device::lemma_prefix("usb"@, four);
    text::pieces_come_apart_again(seq![a], ':');
    assert(text::unsplit(seq![a], ':') == a);
    text::pieces_come_apart_again(seq![b], ':');
    assert(text::unsplit(seq![b], ':') == b);
    text::lemma_split_join(a, ':', b);
    text::lemma_split_join(a, ':', b.push(':') + more);
    text::lemma_split_join(b, ':', more);
    text::lemma_split_step(more, ':');
    text::lemma_span(more, ':');
    let n = text::span(more, ':');
    assert(n < more.len()) by {
        let i = choose|i: int| 0 <= i < more.len() && more[i] == ':';
        assert(more[i] == ':');
    }
    text::lemma_split_free(more.skip(n + 1), ':');
}

/// Rules are for USB devices: a device with another prefix, or without any, is refused and named.
pub proof fn rules_are_for_usb(prefix: Seq<char>, dev: Seq<char>)
    requires
        !prefix.contains(':'),
    ensures
        prefix != "usb"@ ==> device_parsed(prefix.push(':') + dev) == Err::<
            SymlinkDeviceView,
            SymlinkErrorView,
        >(SymlinkErrorView { fault: SymlinkFault::Prefix, found: prefix }),
        device_parsed(prefix) == Err::<SymlinkDeviceView, SymlinkErrorView>(
            SymlinkErrorView { fault: SymlinkFault::DeviceFormat, found: prefix },
        ),
{
    assert forall|i: int| 0 <= i < prefix.len() implies prefix[i] != ':' by {
        if prefix[i] == ':' {
            assert(prefix.contains(':'));
        }
    }
    device::lemma_prefix(prefix, dev);
}

/// A rule applies to a device just if udev reports all three identifiers of the rule for it, byte for
/// byte. A device that lacks one of them, or has another value for it, is not meant.
pub proof fn rules_apply_by_all_three_identifiers(
    vid: Seq<char>,
    pid: Seq<char>,
    if_num: Seq<char>,
    u: dev::device::UdevDeviceView,
)
    ensures
        applies(SymlinkDeviceView::Usb { vid, pid, if_num }, u) <==> {
            &&& dev::device::value_of(u.properties, vstd::utf8::encode_utf8("ID_VENDOR_ID"@))
                == Some(vstd::utf8::encode_utf8(vid))
            &&& dev::device::value_of(u.properties, vstd::utf8::encode_utf8("ID_MODEL_ID"@)) == Some(
                vstd::utf8::encode_utf8(pid),
            )
            &&& dev::device::value_of(
                u.properties,
                vstd::utf8::encode_utf8("ID_USB_INTERFACE_NUM"@),
            ) == Some(vstd::utf8::encode_utf8(if_num))
        },
{
    dev::device::property_texts_are_their_bytes(u, "ID_VENDOR_ID"@, vid);
    dev::device::property_texts_are_their_bytes(u, "ID_MODEL_ID"@, pid);
    dev::device::property_texts_are_their_bytes(u, "ID_USB_INTERFACE_NUM"@, if_num);
}

/// The text of a rule is made of its parts.
pub proof fn rules_are_shown_part_by_part(
    vid: Seq<char>,
    pid: Seq<char>,
    if_num: Seq<char>,
    path: Seq<u8>,
)
    ensures
        shown(SymlinkView { device: SymlinkDeviceView::Usb { vid, pid, if_num }, path }) == ((((
        "usb:"@ + vid).push(':') + pid).push(':') + if_num).push('=')) + text::displayed(path),
{
    reveal_strlit(":");
    reveal_strlit("=");
    assert(shown(SymlinkView { device: SymlinkDeviceView::Usb { vid, pid, if_num }, path }) =~= ((((
    "usb:"@ + vid).push(':') + pid).push(':') + if_num).push('=')) + text::displayed(path));
}

/// A message states the expected form and then quotes the input.
pub proof fn messages_quote_the_input(e: SymlinkErrorView)
    ensures
        ({
            let quoted = seq!['`'] + e.found + seq!['`'];
            exists|before: Seq<char>, after: Seq<char>| #[trigger]
                (before + quoted + after) == error_message(e) && after.len() <= 1
        }),
{
    reveal_strlit("`");
    reveal_strlit("`.");
    let quoted = seq!['`'] + e.found + seq!['`'];
    lemma_expectation_quotes(e.fault);
    let before = expectation(e.fault).drop_last();
    let after = if e.fault == SymlinkFault::Path || e.fault == SymlinkFault::UsbFormat {
        seq!['.']
    } else {
        seq![]
    };
    assert(before + quoted + after =~= error_message(e));
}

proof fn lemma_expectation_quotes(fault: SymlinkFault)
    ensures
        expectation(fault).len() > 0,
        expectation(fault).last() == '`',
{
    reveal_strlit("Symlink format should be `<PREFIX>:<DEVICE>=<PATH>`, found `");
    reveal_strlit("Symlink PATH should be an absolute file path, found `");
    reveal_strlit("Symlink DEVICE format should be `<PREFIX>:<DEVICE>`, found `");
    reveal_strlit("Symlink DEVICE format for usb should be `<VID>:<PID>:<INTERFACE>`, found `");
    reveal_strlit("USB symlink VID should be a 4 digit hex number, found `");
    reveal_strlit("USB symlink PID should be a 4 digit hex number, found `");
    reveal_strlit("USB symlink INTERFACE should be a number, found `");
    reveal_strlit("Symlink PREFIX should be `usb`, found `");
}

} // verus!

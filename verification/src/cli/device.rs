//! Root device references, as used by the `org.lowrisc.hotplug.devices` annotation.
use crate::path;
use crate::path::PathBuf;
use crate::text;
use vstd::prelude::*;

verus! {

/// A reference to a device.
///
/// The syntax is `[parent-of:]*<PREFIX>:<DEVICE>`, where the prefix selects one of the
/// [`DeviceKind`] forms and each `parent-of:` walks one step up the sysfs hierarchy from whatever
/// was matched. For example:
///
/// * `usb:2b3e:c310`: the device with that vendor and product ID.
/// * `parent-of:usb:2b3e:c310`: its parent, typically the hub it is plugged into.
/// * `syspath:/sys/bus/usb/devices/usb1`: a device named by its sysfs directory.
/// * `devnode:/dev/ttyACM0`: a device named by one of its device nodes.
#[derive(Debug)]
pub struct DeviceRef {
    /// How many `parent-of:` prefixes were given.
    pub parent_level: usize,
    pub kind: DeviceKind,
}

/// How a device is identified, before any `parent-of:` is applied.
#[derive(Debug)]
pub enum DeviceKind {
    /// A USB device matched on its `idVendor`, `idProduct` and `serial` attributes.
    ///
    /// Written `usb:<VID>[:<PID>[:<SERIAL>]]`, with the IDs as 4-digit hex. Omitted components are
    /// not constrained.
    Usb { vid: String, pid: Option<String>, serial: Option<String> },
    /// A device named by its sysfs directory. The path must be absolute and under `/sys`.
    Syspath(PathBuf),
    /// A device named by one of its device nodes. The path must be absolute and under `/dev`.
    Devnode(PathBuf),
}

pub struct DeviceRefView {
    pub parent_level: nat,
    pub kind: DeviceKindView,
}

pub enum DeviceKindView {
    Usb { vid: Seq<char>, pid: Option<Seq<char>>, serial: Option<Seq<char>> },
    Syspath(Seq<u8>),
    Devnode(Seq<u8>),
}

pub open spec fn text_view(s: Option<String>) -> Option<Seq<char>> {
    match s {
        Some(s) => Some(s@),
        None => None,
    }
}

impl View for DeviceKind {
    type V = DeviceKindView;

    open spec fn view(&self) -> DeviceKindView {
        match self {
            DeviceKind::Usb { vid, pid, serial } => DeviceKindView::Usb {
                vid: vid@,
                pid: text_view(*pid),
                serial: text_view(*serial),
            },
            DeviceKind::Syspath(p) => DeviceKindView::Syspath(p@),
            DeviceKind::Devnode(p) => DeviceKindView::Devnode(p@),
        }
    }
}

impl View for DeviceRef {
    type V = DeviceRefView;

    open spec fn view(&self) -> DeviceRefView {
        DeviceRefView { parent_level: self.parent_level as nat, kind: self.kind@ }
    }
}

fn copy_text(s: &Option<String>) -> (r: Option<String>)
    ensures
        text_view(r) == text_view(*s),
{
    match s {
        Some(s) => Some(s.clone()),
        None => None,
    }
}

impl Clone for DeviceKind {
    fn clone(&self) -> (r: Self)
        ensures
            r@ == self@,
    {
        match self {
            DeviceKind::Usb { vid, pid, serial } => DeviceKind::Usb {
                vid: vid.clone(),
                pid: copy_text(pid),
                serial: copy_text(serial),
            },
            DeviceKind::Syspath(p) => DeviceKind::Syspath(p.clone()),
            DeviceKind::Devnode(p) => DeviceKind::Devnode(p.clone()),
        }
    }
}

impl Clone for DeviceRef {
    fn clone(&self) -> (r: Self)
        ensures
            r@ == self@,
    {
        DeviceRef { parent_level: self.parent_level, kind: self.kind.clone() }
    }
}

/// Which part of a device reference is at fault.
#[derive(Debug, Clone, Copy, PartialEq, Eq, Structural)]
pub enum DeviceRefFault {
    Format,
    UsbFormat,
    Vid,
    Pid,
    Serial,
    Syspath,
    Devnode,
    Prefix,
}

/// Why a text is not a device reference, with the part of it that is at fault.
#[derive(Debug)]
pub struct DeviceRefError {
    pub fault: DeviceRefFault,
    pub found: String,
}

pub struct DeviceRefErrorView {
    pub fault: DeviceRefFault,
    pub found: Seq<char>,
}

impl View for DeviceRefError {
    type V = DeviceRefErrorView;

    open spec fn view(&self) -> DeviceRefErrorView {
        DeviceRefErrorView { fault: self.fault, found: self.found@ }
    }
}

/// What a fault asks for, up to the quoted input.
pub open spec fn expectation(fault: DeviceRefFault) -> Seq<char> {
    match fault {
        DeviceRefFault::Format =>
            "Device format should be `[[parent-of:]*]<PREFIX>:<DEVICE>`, found `"@,
        DeviceRefFault::UsbFormat =>
            "Device format for usb should be `<VID>[:<PID>[:<SERIAL>]]`, found `"@,
        DeviceRefFault::Vid => "USB device VID should be a 4 digit hex number, found `"@,
        DeviceRefFault::Pid => "USB device PID should be a 4 digit hex number, found `"@,
        DeviceRefFault::Serial => "USB device SERIAL should be alphanumeric, found `"@,
        DeviceRefFault::Syspath =>
            "Syspath device PATH should be a directory path in /sys/**, found `"@,
        DeviceRefFault::Devnode => "Devnode device PATH should be a file path in /dev/**, found `"@,
        DeviceRefFault::Prefix =>
            "Device PREFIX should be one of `usb`, `syspath` or `devnode`, found `"@,
    }
}

/// What is said of an error: the expected form, and the offending input in quotes.
pub open spec fn error_message(e: DeviceRefErrorView) -> Seq<char> {
    let close = if e.fault == DeviceRefFault::UsbFormat {
        "`."@
    } else {
        "`"@
    };
    expectation(e.fault) + e.found + close
}

impl DeviceRefError {
    /// The message for the user: the expected form, and the offending input in quotes.
    pub fn message(&self) -> (r: String)
        ensures
            r@ == error_message(self@),
    {
        let expected: &str = match self.fault {
            DeviceRefFault::Format =>
                "Device format should be `[[parent-of:]*]<PREFIX>:<DEVICE>`, found `",
            DeviceRefFault::UsbFormat =>
                "Device format for usb should be `<VID>[:<PID>[:<SERIAL>]]`, found `",
            DeviceRefFault::Vid => "USB device VID should be a 4 digit hex number, found `",
            DeviceRefFault::Pid => "USB device PID should be a 4 digit hex number, found `",
            DeviceRefFault::Serial => "USB device SERIAL should be alphanumeric, found `",
            DeviceRefFault::Syspath =>
                "Syspath device PATH should be a directory path in /sys/**, found `",
            DeviceRefFault::Devnode =>
                "Devnode device PATH should be a file path in /dev/**, found `",
            DeviceRefFault::Prefix =>
                "Device PREFIX should be one of `usb`, `syspath` or `devnode`, found `",
        };
        let close: &str = match self.fault {
            DeviceRefFault::UsbFormat => "`.",
            _ => "`",
        };
        text::concat3(expected, self.found.as_str(), close)
    }
}

/// How many `parent-of:` prefixes `s` begins with.
pub open spec fn parent_count(s: Seq<char>) -> nat
    decreases s.len(),
{
    if 10 <= s.len() && s.take(10) == "parent-of:"@ {
        1 + parent_count(s.skip(10))
    } else {
        0
    }
}

/// What follows the `parent-of:` prefixes of `s`.
pub open spec fn after_parents(s: Seq<char>) -> Seq<char>
    decreases s.len(),
{
    if 10 <= s.len() && s.take(10) == "parent-of:"@ {
        after_parents(s.skip(10))
    } else {
        s
    }
}

pub open spec fn lowered(s: Seq<char>) -> Seq<char> {
    s.map_values(|c: char| text::lower(c))
}

pub open spec fn fault<T>(fault: DeviceRefFault, found: Seq<char>) -> Result<T, DeviceRefErrorView> {
    Err(DeviceRefErrorView { fault, found })
}

/// The meaning of `<VID>[:<PID>[:<SERIAL>]]`.
pub open spec fn usb_parsed(dev: Seq<char>) -> Result<DeviceKindView, DeviceRefErrorView> {
    let parts = text::split(dev, ':');
    if parts.len() > 3 {
        fault(DeviceRefFault::UsbFormat, dev)
    } else if !text::hex4(parts[0]) {
        fault(DeviceRefFault::Vid, parts[0])
    } else if parts.len() > 1 && !text::hex4(parts[1]) {
        fault(DeviceRefFault::Pid, parts[1])
    } else if parts.len() > 2 && !(parts[2].len() > 0 && text::alphanumeric(parts[2])) {
        fault(DeviceRefFault::Serial, parts[2])
    } else {
        Ok(
            DeviceKindView::Usb {
                vid: lowered(parts[0]),
                pid: if parts.len() > 1 {
                    Some(lowered(parts[1]))
                } else {
                    None
                },
                serial: if parts.len() > 2 {
                    Some(parts[2])
                } else {
                    None
                },
            },
        )
    }
}

/// The meaning of `<PREFIX>:<DEVICE>`.
pub open spec fn kind_parsed(prefix: Seq<char>, dev: Seq<char>) -> Result<
    DeviceKindView,
    DeviceRefErrorView,
> {
    let p = vstd::utf8::encode_utf8(dev);
    if prefix == "usb"@ {
        usb_parsed(dev)
    } else if prefix == "syspath"@ {
        if path::is_absolute(p) && path::under(p, vstd::utf8::encode_utf8("/sys"@)) {
            Ok(DeviceKindView::Syspath(p))
        } else {
            fault(DeviceRefFault::Syspath, dev)
        }
    } else if prefix == "devnode"@ {
        if path::is_absolute(p) && path::under(p, vstd::utf8::encode_utf8("/dev"@)) && !(dev.len()
            > 0 && dev.last() == '/') {
            Ok(DeviceKindView::Devnode(p))
        } else {
            fault(DeviceRefFault::Devnode, dev)
        }
    } else {
        fault(DeviceRefFault::Prefix, prefix)
    }
}

/// The meaning of a whole device reference.
pub open spec fn parsed(s: Seq<char>) -> Result<DeviceRefView, DeviceRefErrorView> {
    let rest = after_parents(s);
    if !rest.contains(':') {
        fault(DeviceRefFault::Format, rest)
    } else {
        let n = text::span(rest, ':');
        match kind_parsed(rest.take(n), rest.skip(n + 1)) {
            Ok(kind) => Ok(DeviceRefView { parent_level: parent_count(s), kind }),
            Err(e) => Err(e),
        }
    }
}

fn fail<T>(fault: DeviceRefFault, found: &str) -> (r: Result<T, DeviceRefError>)
    ensures
        r matches Err(e) && e@ == (DeviceRefErrorView { fault, found: found@ }),
{
    let mut s = String::new();
    text::push_str(&mut s, found);
    assert(s@ =~= found@);
    Err(DeviceRefError { fault, found: s })
}

fn parse_usb(dev: &str) -> (r: Result<DeviceKind, DeviceRefError>)
    ensures
        match r {
            Ok(k) => usb_parsed(dev@) == Ok::<DeviceKindView, DeviceRefErrorView>(k@),
            Err(e) => usb_parsed(dev@) == Err::<DeviceKindView, DeviceRefErrorView>(e@),
        },
{
    let parts = text::split_str(dev, ':');
    let ghost want = text::split(dev@, ':');
    proof {
        assert(parts.deep_view().len() == parts@.len());
        assert forall|i: int| 0 <= i < parts@.len() implies #[trigger] parts@[i]@ == want[i] by {
            assert(parts.deep_view()[i] == parts@[i]@);
        }
    }
    if parts.len() > 3 {
        return fail(DeviceRefFault::UsbFormat, dev);
    }
    if !text::is_hex4(parts[0].as_str()) {
        return fail(DeviceRefFault::Vid, parts[0].as_str());
    }
    if parts.len() > 1 && !text::is_hex4(parts[1].as_str()) {
        return fail(DeviceRefFault::Pid, parts[1].as_str());
    }
    if parts.len() > 2 && !(!parts[2].as_str().is_empty() && text::is_alphanumeric_str(
        parts[2].as_str(),
    )) {
        return fail(DeviceRefFault::Serial, parts[2].as_str());
    }
    let vid = text::to_ascii_lowercase(parts[0].as_str());
    let pid = if parts.len() > 1 {
        Some(text::to_ascii_lowercase(parts[1].as_str()))
    } else {
        None
    };
    let serial = if parts.len() > 2 {
        Some(parts[2].clone())
    } else {
        None
    };
    Ok(DeviceKind::Usb { vid, pid, serial })
}

fn parse_kind(prefix: &str, dev: &str) -> (r: Result<DeviceKind, DeviceRefError>)
    ensures
        match r {
            Ok(k) => kind_parsed(prefix@, dev@) == Ok::<DeviceKindView, DeviceRefErrorView>(k@),
            Err(e) => kind_parsed(prefix@, dev@) == Err::<DeviceKindView, DeviceRefErrorView>(e@),
        },
{
    if text::same(prefix, "usb") {
        parse_usb(dev)
    } else if text::same(prefix, "syspath") {
        let path = PathBuf::from_text(dev);
        if path.is_absolute() && path.starts_with(&PathBuf::from_text("/sys")) {
            Ok(DeviceKind::Syspath(path))
        } else {
            fail(DeviceRefFault::Syspath, dev)
        }
    } else if text::same(prefix, "devnode") {
        let path = PathBuf::from_text(dev);
        if path.is_absolute() && path.starts_with(&PathBuf::from_text("/dev")) && !text::ends_with(
            dev,
            '/',
        ) {
            Ok(DeviceKind::Devnode(path))
        } else {
            fail(DeviceRefFault::Devnode, dev)
        }
    } else {
        fail(DeviceRefFault::Prefix, prefix)
    }
}

impl DeviceRef {
    /// Parse a device reference.
    pub fn from_str(s: &str) -> (r: Result<DeviceRef, DeviceRefError>)
        ensures
            match r {
                Ok(d) => parsed(s@) == Ok::<DeviceRefView, DeviceRefErrorView>(d@),
                Err(e) => parsed(s@) == Err::<DeviceRefView, DeviceRefErrorView>(e@),
            },
    {
        proof {
            reveal_strlit("parent-of:");
        }
        let total = text::chars(s);
        let mut rest = String::new();
        text::push_str(&mut rest, s);
        assert(rest@ =~= s@);
        let mut parent_level: usize = 0;
        loop
            invariant
                "parent-of:"@.len() == 10,
                total@.len() == s@.len(),
                parent_level * 10 + rest@.len() == s@.len(),
                parent_count(s@) == parent_level + parent_count(rest@),
                after_parents(s@) == after_parents(rest@),
            ensures
                parent_count(s@) == parent_level,
                after_parents(s@) == rest@,
            decreases rest@.len(),
        {
            match text::strip_prefix(rest.as_str(), "parent-of:") {
                Some(remainder) => {
                    assert(rest@.subrange(0, 10) == rest@.take(10));
                    assert(total.len() == s@.len());
                    rest = remainder;
                    parent_level = parent_level + 1;
                },
                None => {
                    assert(10 <= rest@.len() ==> rest@.subrange(0, 10) == rest@.take(10));
                    break;
                },
            }
        }
        match text::split_once(rest.as_str(), ':') {
            None => fail(DeviceRefFault::Format, rest.as_str()),
            Some((prefix, dev)) => match parse_kind(prefix.as_str(), dev.as_str()) {
                Ok(kind) => Ok(DeviceRef { parent_level, kind }),
                Err(e) => Err(e),
            },
        }
    }
}

/// `s`, `n` times over.
pub open spec fn repeated(s: Seq<char>, n: nat) -> Seq<char>
    decreases n,
{
    if n == 0 {
        seq![]
    } else {
        s + repeated(s, (n - 1) as nat)
    }
}

/// The text of an optional component: nothing, or the component behind a colon.
pub open spec fn component_shown(c: Option<Seq<char>>) -> Seq<char> {
    match c {
        Some(c) => ":"@ + c,
        None => seq![],
    }
}

pub open spec fn kind_shown(k: DeviceKindView) -> Seq<char> {
    match k {
        DeviceKindView::Usb { vid, pid, serial } => "usb:"@ + vid + component_shown(pid)
            + component_shown(serial),
        DeviceKindView::Syspath(p) => "syspath:"@ + text::displayed(p),
        DeviceKindView::Devnode(p) => "devnode:"@ + text::displayed(p),
    }
}

/// The text of a device reference.
pub open spec fn shown(r: DeviceRefView) -> Seq<char> {
    repeated("parent-of:"@, r.parent_level) + kind_shown(r.kind)
}

fn push_component(s: &mut String, c: &Option<String>)
    ensures
        final(s)@ == old(s)@ + component_shown(text_view(*c)),
{
    match c {
        Some(c) => {
            let ghost before = s@;
            text::push_str(s, ":");
            text::push_str(s, c.as_str());
            assert(s@ =~= before + (":"@ + c@));
        },
        None => {
            assert(s@ =~= s@ + Seq::<char>::empty());
        },
    }
}

impl DeviceKind {
    /// The text of the reference, in the syntax that [`DeviceRef::from_str`] accepts.
    pub fn to_string(&self) -> (r: String)
        ensures
            r@ == kind_shown(self@),
    {
        let mut r = String::new();
        match self {
            DeviceKind::Usb { vid, pid, serial } => {
                text::push_str(&mut r, "usb:");
                text::push_str(&mut r, vid.as_str());
                assert(r@ =~= "usb:"@ + vid@);
                push_component(&mut r, pid);
                push_component(&mut r, serial);
            },
            DeviceKind::Syspath(path) => {
                text::push_str(&mut r, "syspath:");
                text::push_str(&mut r, path.display().as_str());
                assert(r@ =~= kind_shown(self@));
            },
            DeviceKind::Devnode(path) => {
                text::push_str(&mut r, "devnode:");
                text::push_str(&mut r, path.display().as_str());
                assert(r@ =~= kind_shown(self@));
            },
        }
        r
    }
}

impl DeviceRef {
    /// The text of the reference, in the syntax that [`DeviceRef::from_str`] accepts.
    pub fn to_string(&self) -> (r: String)
        ensures
            r@ == shown(self@),
    {
        let mut r = String::new();
        let mut i: usize = 0;
        let kind = self.kind.to_string();
        assert(repeated("parent-of:"@, 0) =~= seq![]);
        while i < self.parent_level
            invariant
                i <= self.parent_level,
                r@ == repeated("parent-of:"@, i as nat),
            decreases self.parent_level - i,
        {
            text::push_str(&mut r, "parent-of:");
            proof {
                lemma_repeated_push("parent-of:"@, i as nat);
            }
            i = i + 1;
        }
        text::push_str(&mut r, kind.as_str());
        r
    }
}

proof fn lemma_repeated_push(s: Seq<char>, n: nat)
    ensures
        repeated(s, n) + s == repeated(s, n + 1),
    decreases n,
{
    if n > 0 {
        lemma_repeated_push(s, (n - 1) as nat);
        assert((s + repeated(s, (n - 1) as nat)) + s == s + (repeated(s, (n - 1) as nat) + s));
    } else {
        assert(repeated(s, 0) + s =~= s);
        assert(s + repeated(s, 0) =~= s);
    }
}

/// Whether a text is a four-digit identifier in lower case.
pub open spec fn is_id(s: Seq<char>) -> bool {
    text::hex4(s) && lowered(s) == s
}

/// What holds of every kind that parsing gives.
pub open spec fn valid_kind(k: DeviceKindView) -> bool {
    match k {
        DeviceKindView::Usb { vid, pid, serial } => {
            &&& is_id(vid)
            &&& pid matches Some(p) ==> is_id(p)
            &&& serial matches Some(s) ==> pid is Some && s.len() > 0 && text::alphanumeric(s)
        },
        DeviceKindView::Syspath(p) => {
            &&& vstd::utf8::valid_utf8(p)
            &&& path::is_absolute(p)
            &&& path::under(p, vstd::utf8::encode_utf8("/sys"@))
        },
        DeviceKindView::Devnode(p) => {
            let s = vstd::utf8::decode_utf8(p);
            &&& vstd::utf8::valid_utf8(p)
            &&& path::is_absolute(p)
            &&& path::under(p, vstd::utf8::encode_utf8("/dev"@))
            &&& !(s.len() > 0 && s.last() == '/')
        },
    }
}

pub proof fn lemma_lowered_hex4(s: Seq<char>)
    requires
        text::hex4(s),
    ensures
        is_id(lowered(s)),
{
    let t = lowered(s);
    assert forall|i: int| 0 <= i < t.len() implies text::is_hex_digit(#[trigger] t[i]) by {
        assert(text::is_hex_digit(s[i]));
    }
    assert(lowered(t) =~= t) by {
        assert forall|i: int| 0 <= i < t.len() implies text::lower(#[trigger] t[i]) == t[i] by {
            assert(text::is_hex_digit(s[i]));
        }
    }
}

/// Parsing gives only valid references.
pub proof fn parsed_is_valid(s: Seq<char>)
    ensures
        parsed(s) matches Ok(r) ==> valid_kind(r.kind),
{
    let rest = after_parents(s);
    if rest.contains(':') {
        let n = text::span(rest, ':');
        let dev = rest.skip(n + 1);
        let parts = text::split(dev, ':');
        text::lemma_split_free(dev, ':');
        if text::hex4(parts[0]) {
            lemma_lowered_hex4(parts[0]);
        }
        if parts.len() > 1 && text::hex4(parts[1]) {
            lemma_lowered_hex4(parts[1]);
        }
        vstd::utf8::encode_utf8_valid_utf8(dev);
        vstd::utf8::encode_utf8_decode_utf8(dev);
    }
}

proof fn lemma_after_parents(n: nat, rest: Seq<char>)
    requires
        rest.len() > 0,
        rest[0] != 'p',
    ensures
        parent_count(repeated("parent-of:"@, n) + rest) == n,
        after_parents(repeated("parent-of:"@, n) + rest) == rest,
    decreases n,
{
    reveal_strlit("parent-of:");
    let p = "parent-of:"@;
    let s = repeated(p, n) + rest;
    if n == 0 {
        assert(s =~= rest);
        if 10 <= s.len() {
            assert(s.take(10)[0] == rest[0]);
            assert(p[0] == 'p');
        }
    } else {
        let t = repeated(p, (n - 1) as nat) + rest;
        assert(s =~= p + t);
        assert(s.take(10) =~= p);
        assert(s.skip(10) =~= t);
        lemma_after_parents((n - 1) as nat, rest);
    }
}

/// A text that begins with a colon-free prefix and a colon splits there.
pub proof fn lemma_prefix(prefix: Seq<char>, dev: Seq<char>)
    requires
        forall|i: int| 0 <= i < prefix.len() ==> prefix[i] != ':',
    ensures
        (prefix.push(':') + dev).contains(':'),
        text::span(prefix.push(':') + dev, ':') == prefix.len(),
        (prefix.push(':') + dev).take(prefix.len() as int) == prefix,
        (prefix.push(':') + dev).skip(prefix.len() as int + 1) == dev,
{
    let s = prefix.push(':') + dev;
    assert(s[prefix.len() as int] == ':');
    text::lemma_span_unique(s, ':', prefix.len() as int);
}

pub proof fn lemma_no_colon(s: Seq<char>)
    requires
        text::hex4(s) || text::alphanumeric(s),
    ensures
        forall|i: int| 0 <= i < s.len() ==> s[i] != ':',
{
    assert forall|i: int| 0 <= i < s.len() implies s[i] != ':' by {
        if text::hex4(s) {
            assert(text::is_hex_digit(s[i]));
        } else {
            assert(text::is_alphanumeric(s[i]));
        }
    }
}

proof fn lemma_usb_round_trip(vid: Seq<char>, pid: Option<Seq<char>>, serial: Option<Seq<char>>)
    requires
        valid_kind(DeviceKindView::Usb { vid, pid, serial }),
    ensures
        usb_parsed(vid + component_shown(pid) + component_shown(serial)) == Ok::<
            DeviceKindView,
            DeviceRefErrorView,
        >(DeviceKindView::Usb { vid, pid, serial }),
{
    reveal_strlit(":");
    assert(":"@ =~= seq![':']);
    let dev = vid + component_shown(pid) + component_shown(serial);
    lemma_no_colon(vid);
    text::lemma_split_none(vid, ':');
    match pid {
        None => {
            assert(dev =~= vid);
        },
        Some(p) => {
            lemma_no_colon(p);
            text::lemma_split_none(p, ':');
            match serial {
                None => {
                    assert(dev =~= vid.push(':') + p);
                    text::lemma_split_join(vid, ':', p);
                    assert(text::split(dev, ':') =~= seq![vid, p]);
                },
                Some(n) => {
                    lemma_no_colon(n);
                    text::lemma_split_none(n, ':');
                    let tail = p.push(':') + n;
                    assert(dev =~= vid.push(':') + tail);
                    text::lemma_split_join(vid, ':', tail);
                    text::lemma_split_join(p, ':', n);
                    assert(text::split(dev, ':') =~= seq![vid, p, n]);
                },
            }
        },
    }
}

/// Round trip: the text of a valid reference parses back to it.
pub proof fn shown_parses_back(r: DeviceRefView)
    requires
        valid_kind(r.kind),
    ensures
        parsed(shown(r)) == Ok::<DeviceRefView, DeviceRefErrorView>(r),
{
    reveal_strlit("usb");
    reveal_strlit("usb:");
    reveal_strlit("syspath");
    reveal_strlit("syspath:");
    reveal_strlit("devnode");
    reveal_strlit("devnode:");
    assert("usb:"@ =~= "usb"@.push(':'));
    assert("syspath:"@ =~= "syspath"@.push(':'));
    assert("devnode:"@ =~= "devnode"@.push(':'));
    let rest = kind_shown(r.kind);
    match r.kind {
        DeviceKindView::Usb { vid, pid, serial } => {
            let dev = vid + component_shown(pid) + component_shown(serial);
            assert(rest =~= "usb"@.push(':') + dev);
            lemma_prefix("usb"@, dev);
            lemma_usb_round_trip(vid, pid, serial);
        },
        DeviceKindView::Syspath(p) => {
            let dev = vstd::utf8::decode_utf8(p);
            vstd::utf8::decode_utf8_encode_utf8(p);
            lemma_prefix("syspath"@, dev);
            assert("syspath"@.len() == 7 && "usb"@.len() == 3);
        },
        DeviceKindView::Devnode(p) => {
            let dev = vstd::utf8::decode_utf8(p);
            vstd::utf8::decode_utf8_encode_utf8(p);
            lemma_prefix("devnode"@, dev);
            assert("devnode"@.len() == 7 && "usb"@.len() == 3);
            assert("devnode"@[0] != "syspath"@[0]);
        },
    }
    lemma_after_parents(r.parent_level, rest);
}

/// A kind with the IDs in lower case, which is how they are kept.
pub open spec fn normalized(k: DeviceKindView) -> DeviceKindView {
    match k {
        DeviceKindView::Usb { vid, pid, serial } => DeviceKindView::Usb {
            vid: lowered(vid),
            pid: match pid {
                Some(pid) => Some(lowered(pid)),
                None => None,
            },
            serial,
        },
        _ => k,
    }
}

/// Whether `s` is the text of `r`, but for the case of a VID and PID.
pub open spec fn written_as(r: DeviceRefView, s: Seq<char>) -> bool {
    exists|k: DeviceKindView| #[trigger]
        normalized(k) == r.kind && s == shown(
            DeviceRefView { parent_level: r.parent_level, kind: k },
        )
}

proof fn lemma_parents_shown(s: Seq<char>)
    ensures
        s == repeated("parent-of:"@, parent_count(s)) + after_parents(s),
    decreases s.len(),
{
    let p = "parent-of:"@;
    if 10 <= s.len() && s.take(10) == p {
        let t = s.skip(10);
        lemma_parents_shown(t);
        assert(s =~= p + t);
        assert(parent_count(s) == 1 + parent_count(t));
        assert(p + (repeated(p, parent_count(t)) + after_parents(t)) =~= (p + repeated(
            p,
            parent_count(t),
        )) + after_parents(t));
    } else {
        assert(repeated(p, 0) + s =~= s);
    }
}

proof fn lemma_usb_shown(dev: Seq<char>) -> (k: DeviceKindView)
    requires
        usb_parsed(dev) is Ok,
    ensures
        normalized(k) == usb_parsed(dev)->Ok_0,
        kind_shown(k) == "usb:"@ + dev,
{
    reveal_strlit(":");
    assert(":"@ =~= seq![':']);
    let parts = text::split(dev, ':');
    let n = text::span(dev, ':');
    text::lemma_span(dev, ':');
    text::lemma_split_step(dev, ':');
    text::lemma_split_free(dev, ':');
    let vid = parts[0];
    let mut pid = None::<Seq<char>>;
    let mut serial = None::<Seq<char>>;
    if n < dev.len() {
        let tail = dev.skip(n + 1);
        let m = text::span(tail, ':');
        text::lemma_span(tail, ':');
        text::lemma_split_step(tail, ':');
        assert(parts[1] == text::split(tail, ':')[0]);
        assert(dev =~= vid.push(':') + tail);
        pid = Some(parts[1]);
        if m < tail.len() {
            let last = tail.skip(m + 1);
            text::lemma_span(last, ':');
            text::lemma_split_step(last, ':');
            text::lemma_split_free(last, ':');
            assert(parts[2] == text::split(last, ':')[0]);
            assert(tail =~= parts[1].push(':') + last);
            assert(text::split(last, ':').len() == 1);
            assert(last == parts[2]);
            serial = Some(parts[2]);
        } else {
            assert(tail == parts[1]);
        }
    }
    let k = DeviceKindView::Usb { vid, pid, serial };
    assert(kind_shown(k) =~= "usb:"@ + dev);
    k
}

/// Round trip: a text that parses is shown again as it was written, but for the case of a VID and
/// PID.
pub proof fn parsed_is_shown_as_written(s: Seq<char>)
    ensures
        parsed(s) matches Ok(r) ==> written_as(r, s),
{
    if let Ok(r) = parsed(s) {
        reveal_strlit("usb");
        reveal_strlit("usb:");
        reveal_strlit("syspath");
        reveal_strlit("syspath:");
        reveal_strlit("devnode");
        reveal_strlit("devnode:");
        let rest = after_parents(s);
        let n = text::span(rest, ':');
        text::lemma_span(rest, ':');
        let prefix = rest.take(n);
        let dev = rest.skip(n + 1);
        assert(n < rest.len()) by {
            let i = choose|i: int| 0 <= i < rest.len() && rest[i] == ':';
            assert(rest[i] == ':');
        }
        assert(rest =~= prefix.push(':') + dev);
        vstd::utf8::encode_utf8_valid_utf8(dev);
        vstd::utf8::encode_utf8_decode_utf8(dev);
        assert("usb:"@ =~= "usb"@.push(':'));
        assert("syspath:"@ =~= "syspath"@.push(':'));
        assert("devnode:"@ =~= "devnode"@.push(':'));
        let k = if prefix == "usb"@ {
            lemma_usb_shown(dev)
        } else {
            r.kind
        };
        assert(normalized(k) == r.kind);
        assert(kind_shown(k) == rest);
        lemma_parents_shown(s);
        assert(s == shown(DeviceRefView { parent_level: r.parent_level, kind: k }));
    }
}

proof fn lemma_parents_counted(n: nat, rest: Seq<char>)
    requires
        !(10 <= rest.len() && rest.take(10) == "parent-of:"@),
    ensures
        parent_count(repeated("parent-of:"@, n) + rest) == n,
        after_parents(repeated("parent-of:"@, n) + rest) == rest,
    decreases n,
{
    reveal_strlit("parent-of:");
    let p = "parent-of:"@;
    let s = repeated(p, n) + rest;
    if n == 0 {
        assert(s =~= rest);
    } else {
        let t = repeated(p, (n - 1) as nat) + rest;
        assert(s =~= p + t);
        assert(s.take(10) =~= p);
        assert(s.skip(10) =~= t);
        lemma_parents_counted((n - 1) as nat, rest);
    }
}

/// Every `parent-of:` in front of a reference counts, and does nothing else: what is behind is parsed
/// as it would be without them.
pub proof fn each_parent_of_counts(s: Seq<char>)
    ensures
        ({
            let t = seq!['p', 'a', 'r', 'e', 'n', 't', '-', 'o', 'f', ':'] + s;
            match parsed(s) {
                Ok(r) => parsed(t) == Ok::<DeviceRefView, DeviceRefErrorView>(
                    DeviceRefView { parent_level: r.parent_level + 1, kind: r.kind },
                ),
                Err(e) => parsed(t) == Err::<DeviceRefView, DeviceRefErrorView>(e),
            }
        }),
{
    reveal_strlit("parent-of:");
    let p = seq!['p', 'a', 'r', 'e', 'n', 't', '-', 'o', 'f', ':'];
    let t = p + s;
    assert("parent-of:"@ =~= p);
    assert(t.take(10) =~= p);
    assert(t.skip(10) =~= s);
}

/// A text with no `parent-of:` in front of it refers to a device without going to its parents.
pub proof fn no_parent_of_is_no_parent(prefix: Seq<char>, dev: Seq<char>)
    requires
        !prefix.contains(':'),
        prefix != "parent-of"@,
    ensures
        parsed(prefix.push(':') + dev) == match kind_parsed(prefix, dev) {
            Ok(kind) => Ok(DeviceRefView { parent_level: 0, kind }),
            Err(e) => Err(e),
        },
{
    reveal_strlit("parent-of:");
    reveal_strlit("parent-of");
    let s = prefix.push(':') + dev;
    assert forall|i: int| 0 <= i < prefix.len() implies prefix[i] != ':' by {
        if prefix[i] == ':' {
            assert(prefix.contains(':'));
        }
    }
    lemma_prefix(prefix, dev);
    assert(after_parents(s) == s && parent_count(s) == 0) by {
        if 10 <= s.len() && s.take(10) == "parent-of:"@ {
            assert(s.take(10)[9] == ':');
            assert(s[9] == ':');
            assert(s[prefix.len() as int] == ':');
            assert(s.take(10)[prefix.len() as int] == ':' || prefix.len() >= 10);
            if prefix.len() >= 10 {
                assert(s[9] == prefix[9]);
            } else {
                let n = prefix.len() as int;
                assert("parent-of:"@[n] == ':');
                assert(n == 9);
                assert forall|i: int| 0 <= i < 9 implies prefix[i] == "parent-of"@[i] by {
                    assert(s.take(10)[i] == prefix[i]);
                    assert("parent-of:"@[i] == "parent-of"@[i]);
                }
                assert(prefix =~= "parent-of"@);
            }
        }
    }
}

/// What a USB reference gives is what is written between the colons, with the IDs in lower case. It
/// takes four hexadecimal digits to each ID, letters and digits to a serial number, and the first part
/// that is not like that decides the error.
pub proof fn usb_references_are_taken_apart(vid: Seq<char>, pid: Seq<char>, serial: Seq<char>)
    requires
        !vid.contains(':'),
        !pid.contains(':'),
        !serial.contains(':'),
    ensures
        kind_parsed("usb"@, vid) == (if text::hex4(vid) {
            Ok(DeviceKindView::Usb { vid: lowered(vid), pid: None, serial: None })
        } else {
            Err(DeviceRefErrorView { fault: DeviceRefFault::Vid, found: vid })
        }),
        kind_parsed("usb"@, vid.push(':') + pid) == (if !text::hex4(vid) {
            Err(DeviceRefErrorView { fault: DeviceRefFault::Vid, found: vid })
        } else if !text::hex4(pid) {
            Err(DeviceRefErrorView { fault: DeviceRefFault::Pid, found: pid })
        } else {
            Ok(DeviceKindView::Usb { vid: lowered(vid), pid: Some(lowered(pid)), serial: None })
        }),
        kind_parsed("usb"@, vid.push(':') + (pid.push(':') + serial)) == (if !text::hex4(vid) {
            Err(DeviceRefErrorView { fault: DeviceRefFault::Vid, found: vid })
        } else if !text::hex4(pid) {
            Err(DeviceRefErrorView { fault: DeviceRefFault::Pid, found: pid })
        } else if serial.len() == 0 || !text::alphanumeric(serial) {
            Err(DeviceRefErrorView { fault: DeviceRefFault::Serial, found: serial })
        } else {
            Ok(
                DeviceKindView::Usb {
                    vid: lowered(vid),
                    pid: Some(lowered(pid)),
                    serial: Some(serial),
                },
            )
        }),
{
    let a = seq![vid];
    let b = seq![vid, pid];
    let c = seq![vid, pid, serial];
    text::pieces_come_apart_again(a, ':');
    text::pieces_come_apart_again(b, ':');
    text::pieces_come_apart_again(c, ':');
    assert(b.drop_first() =~= seq![pid]);
    assert(c.drop_first() =~= seq![pid, serial]);
    assert(seq![pid, serial].drop_first() =~= seq![serial]);
    assert(text::unsplit(a, ':') == vid);
    assert(text::unsplit(seq![pid], ':') == pid);
    assert(text::unsplit(b, ':') == vid.push(':') + pid);
    assert(text::unsplit(seq![serial], ':') == serial);
    assert(text::unsplit(seq![pid, serial], ':') == pid.push(':') + serial);
    assert(text::unsplit(c, ':') == vid.push(':') + (pid.push(':') + serial));
}

/// A fourth part is one too many for a USB reference, whatever it is.
pub proof fn usb_references_have_three_parts_at_most(a: Seq<char>, b: Seq<char>, c: Seq<char>, d: Seq<
    char,
>)
    ensures
        kind_parsed("usb"@, a.push(':') + (b.push(':') + (c.push(':') + d))) == Err::<
            DeviceKindView,
            DeviceRefErrorView,
        >(
            DeviceRefErrorView {
                fault: DeviceRefFault::UsbFormat,
                found: a.push(':') + (b.push(':') + (c.push(':') + d)),
            },
        ),
{
    text::lemma_split_join(a, ':', b.push(':') + (c.push(':') + d));
    text::lemma_split_join(b, ':', c.push(':') + d);
    text::lemma_split_join(c, ':', d);
    text::lemma_split_free(a, ':');
    text::lemma_split_free(b, ':');
    text::lemma_split_free(c, ':');
    text::lemma_split_free(d, ':');
}

/// Lower case changes the letters of a text one by one.
pub proof fn lower_case_goes_by_letters(s: Seq<char>, i: int)
    ensures
        lowered(s).len() == s.len(),
        0 <= i < s.len() ==> lowered(s)[i] == text::lower(s[i]),
{
}

proof fn lemma_sys_and_dev()
    ensures
        path::components(vstd::utf8::encode_utf8("/sys"@)) == seq![
            seq![47u8],
            seq![115u8, 121u8, 115u8],
        ],
        path::components(vstd::utf8::encode_utf8("/dev"@)) == seq![
            seq![47u8],
            seq![100u8, 101u8, 118u8],
        ],
{
    reveal_strlit("/sys");
    reveal_strlit("/dev");
    vstd::utf8::is_ascii_chars_encode_utf8("/sys"@);
    vstd::utf8::is_ascii_chars_encode_utf8("/dev"@);
    let sys = seq![115u8, 121u8, 115u8];
    let dev = seq![100u8, 101u8, 118u8];
    assert(vstd::utf8::encode_utf8("/sys"@) =~= seq![47u8] + sys);
    assert(vstd::utf8::encode_utf8("/dev"@) =~= seq![47u8] + dev);
    assert(sys.len() == 3 && dev.len() == 3);
    path::root_and_name(sys);
    path::root_and_name(dev);
}

/// A sysfs directory is any path at or below `/sys`, and a device node is any path at or below `/dev`
/// that does not end in a slash, kept as it is written. Anything else is refused, and named.
pub proof fn paths_lie_in_their_filesystem(path: Seq<char>)
    ensures
        ({
            let p = vstd::utf8::encode_utf8(path);
            let c = path::components(p);
            let in_sys = c.len() >= 2 && c[0] == seq![47u8] && c[1] == seq![115u8, 121u8, 115u8];
            let in_dev = c.len() >= 2 && c[0] == seq![47u8] && c[1] == seq![100u8, 101u8, 118u8];
            &&& kind_parsed("syspath"@, path) == (if in_sys {
                Ok(DeviceKindView::Syspath(p))
            } else {
                Err(DeviceRefErrorView { fault: DeviceRefFault::Syspath, found: path })
            })
            &&& kind_parsed("devnode"@, path) == (if in_dev && path.last() != '/' {
                Ok(DeviceKindView::Devnode(p))
            } else {
                Err(DeviceRefErrorView { fault: DeviceRefFault::Devnode, found: path })
            })
        }),
{
    reveal_strlit("usb");
    reveal_strlit("syspath");
    reveal_strlit("devnode");
    assert("syspath"@.len() == 7 && "devnode"@.len() == 7 && "usb"@.len() == 3);
    assert("devnode"@[0] != "syspath"@[0]);
    let p = vstd::utf8::encode_utf8(path);
    let sys = vstd::utf8::encode_utf8("/sys"@);
    let dev = vstd::utf8::encode_utf8("/dev"@);
    let c = path::components(p);
    lemma_sys_and_dev();
    path::absolute_paths_start_at_the_root(p, seq![]);
    if c.len() >= 2 {
        let rest = c.skip(2);
        path::under_goes_by_whole_components(p, sys, rest);
        path::under_goes_by_whole_components(p, dev, rest);
        if c[0] == seq![47u8] && c[1] == seq![115u8, 121u8, 115u8] {
            assert(c =~= path::components(sys) + rest);
        }
        if c[0] == seq![47u8] && c[1] == seq![100u8, 101u8, 118u8] {
            assert(c =~= path::components(dev) + rest);
        }
    }
    path::under_goes_by_whole_components(p, sys, c.skip(2));
    path::under_goes_by_whole_components(p, dev, c.skip(2));
    if path::is_absolute(p) && path.len() == 0 {
        let none = Seq::<char>::empty();
        assert(path =~= none);
        vstd::utf8::is_ascii_chars_encode_utf8(none);
    }
}

/// There are three prefixes, and a reference needs one of them. Another prefix is named, and so is a
/// text without any.
pub proof fn references_need_a_known_prefix(prefix: Seq<char>, dev: Seq<char>, n: nat)
    requires
        !prefix.contains(':'),
    ensures
        prefix != "usb"@ && prefix != "syspath"@ && prefix != "devnode"@ ==> kind_parsed(prefix, dev)
            == Err::<DeviceKindView, DeviceRefErrorView>(
            DeviceRefErrorView { fault: DeviceRefFault::Prefix, found: prefix },
        ),
        parsed(repeated("parent-of:"@, n) + prefix) == Err::<DeviceRefView, DeviceRefErrorView>(
            DeviceRefErrorView { fault: DeviceRefFault::Format, found: prefix },
        ),
{
    reveal_strlit("parent-of:");
    if 10 <= prefix.len() && prefix.take(10) == "parent-of:"@ {
        assert(prefix.take(10)[9] == ':');
        assert(prefix[9] == ':');
    }
    lemma_parents_counted(n, prefix);
}

/// The text of a reference is made of its parts, with a colon between them.
pub proof fn references_are_shown_part_by_part(
    n: nat,
    vid: Seq<char>,
    pid: Seq<char>,
    serial: Seq<char>,
    p: Seq<u8>,
    kind: DeviceKindView,
)
    ensures
        kind_shown(DeviceKindView::Usb { vid, pid: None, serial: None }) == "usb:"@ + vid,
        kind_shown(DeviceKindView::Usb { vid, pid: Some(pid), serial: None }) == ("usb:"@
            + vid).push(':') + pid,
        kind_shown(DeviceKindView::Usb { vid, pid: Some(pid), serial: Some(serial) }) == (("usb:"@
            + vid).push(':') + pid).push(':') + serial,
        kind_shown(DeviceKindView::Syspath(p)) == "syspath:"@ + text::displayed(p),
        kind_shown(DeviceKindView::Devnode(p)) == "devnode:"@ + text::displayed(p),
        shown(DeviceRefView { parent_level: 0, kind }) == kind_shown(kind),
        shown(DeviceRefView { parent_level: n + 1, kind }) == "parent-of:"@ + shown(
            DeviceRefView { parent_level: n, kind },
        ),
{
    reveal_strlit(":");
    assert(":"@ =~= seq![':']);
    assert(kind_shown(DeviceKindView::Usb { vid, pid: None, serial: None }) =~= "usb:"@ + vid);
    assert(kind_shown(DeviceKindView::Usb { vid, pid: Some(pid), serial: None }) =~= ("usb:"@
        + vid).push(':') + pid);
    assert(kind_shown(DeviceKindView::Usb { vid, pid: Some(pid), serial: Some(serial) }) =~= ((
    "usb:"@ + vid).push(':') + pid).push(':') + serial);
    assert(shown(DeviceRefView { parent_level: 0, kind }) =~= kind_shown(kind));
    assert(shown(DeviceRefView { parent_level: n + 1, kind }) =~= "parent-of:"@ + shown(
        DeviceRefView { parent_level: n, kind },
    ));
}

/// A message states the expected form and then quotes the input.
pub proof fn messages_quote_the_input(e: DeviceRefErrorView)
    ensures
        ({
            let quoted = seq!['`'] + e.found + seq!['`'];
            let m = error_message(e);
            exists|before: Seq<char>, after: Seq<char>| #[trigger]
                (before + quoted + after) == m && after.len() <= 1
        }),
{
    reveal_strlit("`");
    reveal_strlit("`.");
    let quoted = seq!['`'] + e.found + seq!['`'];
    lemma_expectation_quotes(e.fault);
    let x = expectation(e.fault);
    let before = x.drop_last();
    let after = if e.fault == DeviceRefFault::UsbFormat {
        seq!['.']
    } else {
        seq![]
    };
    assert(before + quoted + after =~= error_message(e));
}

proof fn lemma_expectation_quotes(fault: DeviceRefFault)
    ensures
        expectation(fault).len() > 0,
        expectation(fault).last() == '`',
{
    reveal_strlit("Device format should be `[[parent-of:]*]<PREFIX>:<DEVICE>`, found `");
    reveal_strlit("Device format for usb should be `<VID>[:<PID>[:<SERIAL>]]`, found `");
    reveal_strlit("USB device VID should be a 4 digit hex number, found `");
    reveal_strlit("USB device PID should be a 4 digit hex number, found `");
    reveal_strlit("USB device SERIAL should be alphanumeric, found `");
    reveal_strlit("Syspath device PATH should be a directory path in /sys/**, found `");
    reveal_strlit("Devnode device PATH should be a file path in /dev/**, found `");
    reveal_strlit("Device PREFIX should be one of `usb`, `syspath` or `devnode`, found `");
}

} // verus!

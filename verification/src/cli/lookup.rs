//! Resolving device references against the devices present on the host.
//!
//! A lookup asks for one thing at a time: to resolve the symlinks in a path, or to find a device.
//! Whoever runs it does what is asked and hands back what came of it.
use crate::cli::device;
use crate::cli::device::{DeviceKind, DeviceRef};
use crate::dev;
use crate::dev::{Device, UdevDevice};
use crate::path::PathBuf;
use crate::text;
use vstd::prelude::*;

verus! {

/// What to do next to find a device.
#[derive(Debug)]
pub enum Lookup {
    /// Resolve all symlinks in a path.
    Canonicalize(PathBuf),
    /// Take any device whose sysfs attributes have all the given values.
    ByAttributes(Vec<Attribute>),
    /// Take the device with the given sysfs directory.
    BySyspath(PathBuf),
    /// Take any device whose `DEVNAME` property is the given path.
    ByDevname(PathBuf),
}

/// A sysfs attribute and the value it should have.
#[derive(Debug)]
pub struct Attribute {
    pub name: String,
    pub value: String,
}

pub enum LookupView {
    Canonicalize(Seq<u8>),
    ByAttributes(Seq<(Seq<char>, Seq<char>)>),
    BySyspath(Seq<u8>),
    ByDevname(Seq<u8>),
}

impl View for Attribute {
    type V = (Seq<char>, Seq<char>);

    open spec fn view(&self) -> (Seq<char>, Seq<char>) {
        (self.name@, self.value@)
    }
}

impl View for Lookup {
    type V = LookupView;

    open spec fn view(&self) -> LookupView {
        match self {
            Lookup::Canonicalize(p) => LookupView::Canonicalize(p@),
            Lookup::ByAttributes(a) => LookupView::ByAttributes(
                a@.map_values(|a: Attribute| a@),
            ),
            Lookup::BySyspath(p) => LookupView::BySyspath(p@),
            Lookup::ByDevname(p) => LookupView::ByDevname(p@),
        }
    }
}

/// Why a reference does not resolve, with the text of the reference.
#[derive(Debug)]
pub enum LookupError {
    /// The path cannot be resolved.
    Path(String),
    /// No device matches.
    NotFound(String),
    /// There are fewer ancestors than the reference asks for.
    NoParent(String),
}

pub enum LookupErrorView {
    Path(Seq<char>),
    NotFound(Seq<char>),
    NoParent(Seq<char>),
}

impl View for LookupError {
    type V = LookupErrorView;

    open spec fn view(&self) -> LookupErrorView {
        match self {
            LookupError::Path(s) => LookupErrorView::Path(s@),
            LookupError::NotFound(s) => LookupErrorView::NotFound(s@),
            LookupError::NoParent(s) => LookupErrorView::NoParent(s@),
        }
    }
}

impl LookupError {
    /// The message for the user.
    pub fn message(&self) -> (r: String)
        ensures
            r@ == match self@ {
                LookupErrorView::Path(s) => "Failed to resolve PATH for `"@ + s + "`"@,
                LookupErrorView::NotFound(s) => "Failed to find device `"@ + s + "`"@,
                LookupErrorView::NoParent(s) =>
                    "Failed to obtain parent device while resolving `"@ + s + "`"@,
            },
            r@ == error_message(self@),
    {
        match self {
            LookupError::Path(s) => text::concat3("Failed to resolve PATH for `", s.as_str(), "`"),
            LookupError::NotFound(s) => text::concat3("Failed to find device `", s.as_str(), "`"),
            LookupError::NoParent(s) => text::concat3(
                "Failed to obtain parent device while resolving `",
                s.as_str(),
                "`",
            ),
        }
    }
}

/// The constraint that an optional component puts on an attribute.
pub open spec fn constraint(name: Seq<char>, value: Option<Seq<char>>) -> Seq<
    (Seq<char>, Seq<char>),
> {
    match value {
        Some(v) => seq![(name, v)],
        None => seq![],
    }
}

/// The first step of the lookup of a device, before any `parent-of:`.
pub open spec fn first_step(kind: device::DeviceKindView) -> LookupView {
    match kind {
        device::DeviceKindView::Usb { vid, pid, serial } => LookupView::ByAttributes(
            seq![("idVendor"@, vid)] + constraint("idProduct"@, pid) + constraint(
                "serial"@,
                serial,
            ),
        ),
        device::DeviceKindView::Syspath(p) => LookupView::Canonicalize(p),
        device::DeviceKindView::Devnode(p) => LookupView::Canonicalize(p),
    }
}

/// The next step once the path has been resolved.
pub open spec fn second_step(kind: device::DeviceKindView, p: Seq<u8>) -> LookupView {
    if kind is Syspath {
        LookupView::BySyspath(p)
    } else {
        LookupView::ByDevname(p)
    }
}

/// The device that was looked for, where something was found.
pub open spec fn found_device(
    kind: device::DeviceKindView,
    found: Option<dev::device::UdevDeviceView>,
) -> Result<dev::device::DeviceView, LookupErrorView> {
    match found {
        Some(u) => Ok(dev::device::device_of(u)),
        None => Err(LookupErrorView::NotFound(device::kind_shown(kind))),
    }
}

/// What is said of an error.
pub open spec fn error_message(e: LookupErrorView) -> Seq<char> {
    match e {
        LookupErrorView::Path(s) => "Failed to resolve PATH for `"@ + s + "`"@,
        LookupErrorView::NotFound(s) => "Failed to find device `"@ + s + "`"@,
        LookupErrorView::NoParent(s) => "Failed to obtain parent device while resolving `"@ + s
            + "`"@,
    }
}

fn push_constraint(a: &mut Vec<Attribute>, name: &str, value: &Option<String>)
    ensures
        final(a)@.map_values(|a: Attribute| a@) == old(a)@.map_values(|a: Attribute| a@)
            + constraint(name@, device::text_view(*value)),
{
    let ghost f = |a: Attribute| a@;
    let ghost before = a@.map_values(f);
    match value {
        Some(v) => {
            let mut n = String::new();
            text::push_str(&mut n, name);
            assert(n@ =~= name@);
            a.push(Attribute { name: n, value: v.clone() });
            assert(a@.map_values(f) =~= before + seq![(name@, v@)]);
        },
        None => {
            assert(a@.map_values(f) =~= before + Seq::<(Seq<char>, Seq<char>)>::empty());
        },
    }
}

impl DeviceKind {
    /// The first step to find the matching device.
    pub fn lookup(&self) -> (r: Lookup)
        ensures
            r@ == first_step(self@),
    {
        match self {
            DeviceKind::Usb { vid, pid, serial } => {
                let mut a: Vec<Attribute> = Vec::new();
                let first = Some(vid.clone());
                assert(a@.map_values(|a: Attribute| a@) =~= seq![]);
                push_constraint(&mut a, "idVendor", &first);
                push_constraint(&mut a, "idProduct", pid);
                push_constraint(&mut a, "serial", serial);
                assert(Seq::<(Seq<char>, Seq<char>)>::empty() + seq![("idVendor"@, vid@)] =~= seq![
                    ("idVendor"@, vid@),
                ]);
                Lookup::ByAttributes(a)
            },
            DeviceKind::Syspath(p) => Lookup::Canonicalize(p.clone()),
            DeviceKind::Devnode(p) => Lookup::Canonicalize(p.clone()),
        }
    }

    /// The next step once the path has been resolved, which fails if it could not be.
    pub fn lookup_at(&self, path: Option<PathBuf>) -> (r: Result<Lookup, LookupError>)
        requires
            !(self is Usb),
        ensures
            match (r, path) {
                (Ok(l), Some(p)) => l@ == (if self is Syspath {
                    LookupView::BySyspath(p@)
                } else {
                    LookupView::ByDevname(p@)
                }),
                (Err(e), None) => e@ == LookupErrorView::Path(device::kind_shown(self@)),
                _ => false,
            },
            r matches Ok(l) ==> path is Some && l@ == second_step(self@, (path->0)@),
    {
        match path {
            None => Err(LookupError::Path(self.to_string())),
            Some(p) => match self {
                DeviceKind::Syspath(_) => Ok(Lookup::BySyspath(p)),
                _ => Ok(Lookup::ByDevname(p)),
            },
        }
    }

    /// The matching device, which fails if there is none.
    pub fn device(&self, found: Option<UdevDevice>) -> (r: Result<Device, LookupError>)
        ensures
            match (r, found) {
                (Ok(d), Some(u)) => d@ == dev::device::device_of(u@),
                (Err(e), None) => e@ == LookupErrorView::NotFound(device::kind_shown(self@)),
                _ => false,
            },
            match r {
                Ok(d) => found is Some && found_device(self@, Some((found->0)@)) == Ok::<
                    dev::device::DeviceView,
                    LookupErrorView,
                >(d@),
                Err(e) => found is None && found_device(self@, None) == Err::<
                    dev::device::DeviceView,
                    LookupErrorView,
                >(e@),
            },
    {
        match found {
            Some(u) => Ok(Device::from_udev(u)),
            None => Err(LookupError::NotFound(self.to_string())),
        }
    }
}

/// What a reference resolves to, where `lineage` holds the matching device and its ancestors, each
/// followed by its parent.
pub open spec fn resolved(
    r: device::DeviceRefView,
    lineage: Seq<dev::device::UdevDeviceView>,
) -> Result<dev::device::DeviceView, LookupErrorView> {
    if lineage.len() == 0 {
        Err(LookupErrorView::NotFound(device::kind_shown(r.kind)))
    } else if lineage.len() <= r.parent_level {
        Err(LookupErrorView::NoParent(device::shown(r)))
    } else {
        Ok(dev::device::device_of(lineage[r.parent_level as int]))
    }
}

impl DeviceRef {
    /// Resolve the reference, given the matching device and its ancestors: each device in `lineage`
    /// is followed by its parent, as far as there are parents or as many as the reference needs.
    ///
    /// Fails if nothing matches, or if a `parent-of:` walks past the root of the device tree.
    pub fn device(&self, lineage: &Vec<UdevDevice>) -> (r: Result<Device, LookupError>)
        ensures
            match r {
                Ok(d) => resolved(self@, lineage@.map_values(|u: UdevDevice| u@)) == Ok::<
                    dev::device::DeviceView,
                    LookupErrorView,
                >(d@),
                Err(e) => resolved(self@, lineage@.map_values(|u: UdevDevice| u@)) == Err::<
                    dev::device::DeviceView,
                    LookupErrorView,
                >(e@),
            },
    {
        if lineage.len() == 0 {
            Err(LookupError::NotFound(self.kind.to_string()))
        } else if lineage.len() <= self.parent_level {
            Err(LookupError::NoParent(self.to_string()))
        } else {
            Ok(Device::from_udev(lineage[self.parent_level].clone()))
        }
    }
}

/// Each `parent-of:` walks one step up: a reference with one more of them resolves to what the
/// reference without it would resolve to from one step up.
pub proof fn parent_of_walks_one_step(
    kind: device::DeviceKindView,
    level: nat,
    lineage: Seq<dev::device::UdevDeviceView>,
)
    requires
        lineage.len() >= 2,
    ensures
        ({
            let upper = resolved(
                device::DeviceRefView { parent_level: level + 1, kind },
                lineage,
            );
            let lower = resolved(
                device::DeviceRefView { parent_level: level, kind },
                lineage.skip(1),
            );
            &&& upper is Ok <==> lower is Ok
            &&& upper is Ok ==> upper == lower
        }),
{
}

/// A USB device is looked up by just what the reference gives: by its vendor, by its product if and
/// only if there is a product ID, and by its serial number if and only if there is one.
pub proof fn usb_lookups_ask_for_what_is_given(
    vid: Seq<char>,
    pid: Option<Seq<char>>,
    serial: Option<Seq<char>>,
    name: Seq<char>,
    value: Seq<char>,
)
    ensures
        first_step(device::DeviceKindView::Usb { vid, pid, serial }) matches LookupView::ByAttributes(
            a,
        ) && {
            &&& a.contains((name, value)) <==> {
                ||| name == "idVendor"@ && value == vid
                ||| name == "idProduct"@ && pid == Some(value)
                ||| name == "serial"@ && serial == Some(value)
            }
            &&& a.len() == 1 + (if pid is Some {
                1int
            } else {
                0
            }) + (if serial is Some {
                1int
            } else {
                0
            })
        },
{
    let a = match first_step(device::DeviceKindView::Usb { vid, pid, serial }) {
        LookupView::ByAttributes(a) => a,
        _ => seq![],
    };
    let n: int = if pid is Some {
        2
    } else {
        1
    };
    assert(a[0] == ("idVendor"@, vid));
    if let Some(p) = pid {
        assert(a[1] == ("idProduct"@, p));
    }
    if let Some(s) = serial {
        assert(a[n] == ("serial"@, s));
    }
    if a.contains((name, value)) {
        let i = choose|i: int| 0 <= i < a.len() && a[i] == (name, value);
        assert(i == 0 || i == 1 || i == 2);
    }
}

/// A device that has the attributes which a longer reference asks for has those which a shorter one
/// asks for: leaving something out of a reference only lifts a constraint.
pub proof fn longer_references_ask_for_more(
    vid: Seq<char>,
    pid: Seq<char>,
    serial: Seq<char>,
)
    ensures
        ({
            let short = first_step(device::DeviceKindView::Usb { vid, pid: None, serial: None });
            let middle = first_step(
                device::DeviceKindView::Usb { vid, pid: Some(pid), serial: None },
            );
            let long = first_step(
                device::DeviceKindView::Usb { vid, pid: Some(pid), serial: Some(serial) },
            );
            &&& short->ByAttributes_0 == seq![("idVendor"@, vid)]
            &&& middle->ByAttributes_0 == short->ByAttributes_0.push(("idProduct"@, pid))
            &&& long->ByAttributes_0 == middle->ByAttributes_0.push(("serial"@, serial))
        }),
{
    let short = first_step(device::DeviceKindView::Usb { vid, pid: None, serial: None });
    let middle = first_step(device::DeviceKindView::Usb { vid, pid: Some(pid), serial: None });
    let long = first_step(
        device::DeviceKindView::Usb { vid, pid: Some(pid), serial: Some(serial) },
    );
    assert(short->ByAttributes_0 =~= seq![("idVendor"@, vid)]);
    assert(middle->ByAttributes_0 =~= short->ByAttributes_0.push(("idProduct"@, pid)));
    assert(long->ByAttributes_0 =~= middle->ByAttributes_0.push(("serial"@, serial)));
}

/// A path has its symlinks resolved before anything is looked up by it: a sysfs directory by itself,
/// and a device node by its name.
pub proof fn paths_are_resolved_first(p: Seq<u8>, resolved: Seq<u8>)
    ensures
        first_step(device::DeviceKindView::Syspath(p)) == LookupView::Canonicalize(p),
        first_step(device::DeviceKindView::Devnode(p)) == LookupView::Canonicalize(p),
        second_step(device::DeviceKindView::Syspath(p), resolved) == LookupView::BySyspath(resolved),
        second_step(device::DeviceKindView::Devnode(p), resolved) == LookupView::ByDevname(resolved),
{
}

/// A reference resolves to the ancestor that is as many steps up as there are `parent-of:` in front:
/// the device itself without any. It fails just if there is no such ancestor, and says whether that
/// is for want of the device or of its parents.
pub proof fn references_resolve_to_the_right_ancestor(
    r: device::DeviceRefView,
    lineage: Seq<dev::device::UdevDeviceView>,
)
    ensures
        resolved(r, lineage) is Ok <==> r.parent_level < lineage.len(),
        resolved(r, lineage) matches Ok(d) ==> d == dev::device::device_of(
            lineage[r.parent_level as int],
        ) && d.udev == lineage[r.parent_level as int],
        lineage.len() == 0 ==> resolved(r, lineage) == Err::<
            dev::device::DeviceView,
            LookupErrorView,
        >(LookupErrorView::NotFound(device::kind_shown(r.kind))),
        0 < lineage.len() <= r.parent_level ==> resolved(r, lineage) == Err::<
            dev::device::DeviceView,
            LookupErrorView,
        >(LookupErrorView::NoParent(device::shown(r))),
{
}

/// Messages hold the reference in backquotes, and tell the errors apart.
pub proof fn messages_quote_the_reference(s: Seq<char>)
    ensures
        error_message(LookupErrorView::Path(s)) == "Failed to resolve PATH for "@ + seq!['`'] + s
            + seq!['`'],
        error_message(LookupErrorView::NotFound(s)) == "Failed to find device "@ + seq!['`'] + s
            + seq!['`'],
        error_message(LookupErrorView::NoParent(s))
            == "Failed to obtain parent device while resolving "@ + seq!['`'] + s + seq!['`'],
{
    reveal_strlit("`");
    reveal_strlit("Failed to resolve PATH for `");
    reveal_strlit("Failed to find device `");
    reveal_strlit("Failed to obtain parent device while resolving `");
    reveal_strlit("Failed to resolve PATH for ");
    reveal_strlit("Failed to find device ");
    reveal_strlit("Failed to obtain parent device while resolving ");
    assert("`"@ =~= seq!['`']);
    assert("Failed to resolve PATH for `"@ =~= "Failed to resolve PATH for "@ + seq!['`']);
    assert("Failed to find device `"@ =~= "Failed to find device "@ + seq!['`']);
    assert("Failed to obtain parent device while resolving `"@
        =~= "Failed to obtain parent device while resolving "@ + seq!['`']);
}

/// What is found is the device, whatever it was looked for by, and that nothing is found is an error
/// which names the reference. It is the same as a reference without `parent-of:` resolving.
pub proof fn what_is_found_is_the_device(
    kind: device::DeviceKindView,
    u: dev::device::UdevDeviceView,
)
    ensures
        found_device(kind, Some(u)) matches Ok(d) && d.udev == u,
        found_device(kind, Some(u)) == resolved(
            (device::DeviceRefView { parent_level: 0, kind }),
            seq![u],
        ),
        found_device(kind, None) == resolved(
            (device::DeviceRefView { parent_level: 0, kind }),
            seq![],
        ),
{
}

} // verus!

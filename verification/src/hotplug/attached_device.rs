//! A device as seen from inside the container.
use crate::dev::device;
use crate::dev::device::Device;
use crate::path::PathBuf;
use crate::text;
use vstd::prelude::*;

verus! {

/// A device that has been made available inside the container.
///
/// Derefs to the underlying [`Device`], and additionally records the symlinks that were created for
/// it, both so they can be removed again on detach and so they show up in the log line for the
/// device.
#[derive(Debug)]
pub struct AttachedDevice {
    pub device: Device,
    /// Paths inside the container symlinked to this device's node.
    pub symlinks: Vec<PathBuf>,
}

pub struct AttachedDeviceView {
    pub device: device::DeviceView,
    pub symlinks: Seq<Seq<u8>>,
}

impl View for AttachedDevice {
    type V = AttachedDeviceView;

    open spec fn view(&self) -> AttachedDeviceView {
        AttachedDeviceView { device: self.device@, symlinks: self.symlinks.deep_view() }
    }
}

/// How a list of symlinks is shown: each behind a comma.
pub open spec fn links_shown(links: Seq<Seq<u8>>) -> Seq<char>
    decreases links.len(),
{
    if links.len() == 0 {
        seq![]
    } else {
        links_shown(links.drop_last()) + ", "@ + text::displayed(links.last())
    }
}

/// How an attached device is shown.
pub open spec fn shown(a: AttachedDeviceView) -> Seq<char> {
    device::heading(a.device) + links_shown(a.symlinks) + "]"@
}

/// A copy of a list of paths.
pub fn copy_paths(v: &Vec<PathBuf>) -> (r: Vec<PathBuf>)
    ensures
        r.deep_view() == v.deep_view(),
{
    let mut r: Vec<PathBuf> = Vec::new();
    let mut i: usize = 0;
    while i < v.len()
        invariant
            i <= v@.len(),
            r@.len() == i,
            forall|j: int| 0 <= j < i ==> #[trigger] r@[j]@ == v@[j]@,
        decreases v@.len() - i,
    {
        r.push(v[i].clone());
        i = i + 1;
    }
    assert forall|j: int| 0 <= j < r@.len() implies r.deep_view()[j] == v.deep_view()[j] by {
        assert(r@[j]@ == v@[j]@);
    }
    assert(r.deep_view() =~= v.deep_view());
    r
}

impl Clone for AttachedDevice {
    fn clone(&self) -> (r: Self)
        ensures
            r@ == self@,
    {
        AttachedDevice { device: self.device.clone(), symlinks: copy_paths(&self.symlinks) }
    }
}

impl std::ops::Deref for AttachedDevice {
    type Target = Device;

    fn deref(&self) -> (r: &Device)
        ensures
            *r == self.device,
    {
        &self.device
    }
}

impl AttachedDevice {
    /// One line about the device, for logging.
    pub fn to_string(&self) -> (r: String)
        ensures
            r@ == shown(self@),
    {
        let mut r = self.device.heading();
        let ghost head = r@;
        let ghost all = self.symlinks.deep_view();
        let mut i: usize = 0;
        assert(head + links_shown(all.take(0)) =~= head);
        while i < self.symlinks.len()
            invariant
                i <= self.symlinks@.len(),
                all == self.symlinks.deep_view(),
                r@ == head + links_shown(all.take(i as int)),
            decreases self.symlinks@.len() - i,
        {
            assert(all[i as int] == self.symlinks@[i as int]@);
            assert(all.take(i + 1).drop_last() =~= all.take(i as int));
            assert(all.take(i + 1).last() == all[i as int]);
            text::push_str(&mut r, ", ");
            text::push_str(&mut r, self.symlinks[i].display().as_str());
            assert(r@ =~= head + links_shown(all.take(i + 1)));
            i = i + 1;
        }
        assert(all.take(i as int) =~= all);
        text::push_str(&mut r, "]");
        r
    }
}

} // verus!

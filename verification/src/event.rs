//! Something that happened to the supervised container.
use crate::dev::device;
use crate::dev::Device;
use crate::hotplug::attached_device;
use crate::hotplug::AttachedDevice;
use crate::text;
use vstd::prelude::*;

verus! {

/// Something that happened to the container that is supervised.
///
/// Device events come from [`crate::hotplug::HotPlug`], and [`Event::Stopped`] from watching the
/// container's cgroup.
#[derive(Debug)]
pub enum Event {
    /// A device appeared and has been made available inside the container.
    Attach(AttachedDevice),
    /// A device disappeared and its access has been revoked.
    Detach(AttachedDevice),
    /// A root device that was not available inside the container, as it has no device node,
    /// disappeared.
    Unplugged(Device),
    /// All devices present at start-up have been attached, so the container's entrypoint can be
    /// allowed to run. Emitted exactly once, before any event for a subsequently plugged device.
    Initialized,
    /// The container's cgroup is no longer populated, i.e. every process in it has exited.
    Stopped,
}

pub enum EventView {
    Attach(attached_device::AttachedDeviceView),
    Detach(attached_device::AttachedDeviceView),
    Unplugged(device::DeviceView),
    Initialized,
    Stopped,
}

impl View for Event {
    type V = EventView;

    open spec fn view(&self) -> EventView {
        match self {
            Event::Attach(d) => EventView::Attach(d@),
            Event::Detach(d) => EventView::Detach(d@),
            Event::Unplugged(d) => EventView::Unplugged(d@),
            Event::Initialized => EventView::Initialized,
            Event::Stopped => EventView::Stopped,
        }
    }
}

impl Clone for Event {
    fn clone(&self) -> (r: Self)
        ensures
            r@ == self@,
    {
        match self {
            Event::Attach(d) => Event::Attach(d.clone()),
            Event::Detach(d) => Event::Detach(d.clone()),
            Event::Unplugged(d) => Event::Unplugged(d.clone()),
            Event::Initialized => Event::Initialized,
            Event::Stopped => Event::Stopped,
        }
    }
}

/// How an event is shown.
pub open spec fn shown(e: EventView) -> Seq<char> {
    match e {
        EventView::Attach(d) => "Attaching device "@ + attached_device::shown(d),
        EventView::Detach(d) => "Detaching device "@ + attached_device::shown(d),
        EventView::Unplugged(d) => "Unplugged root device "@ + device::heading(d) + "]"@,
        EventView::Initialized => "Container initialized"@,
        EventView::Stopped => "Container stopped"@,
    }
}

impl Event {
    /// One line about the event, for logging.
    pub fn to_string(&self) -> (r: String)
        ensures
            r@ == shown(self@),
    {
        let mut r = String::new();
        match self {
            Event::Attach(d) => {
                text::push_str(&mut r, "Attaching device ");
                text::push_str(&mut r, d.to_string().as_str());
            },
            Event::Detach(d) => {
                text::push_str(&mut r, "Detaching device ");
                text::push_str(&mut r, d.to_string().as_str());
            },
            Event::Unplugged(d) => {
                text::push_str(&mut r, "Unplugged root device ");
                text::push_str(&mut r, d.to_string().as_str());
            },
            Event::Initialized => {
                text::push_str(&mut r, "Container initialized");
            },
            Event::Stopped => {
                text::push_str(&mut r, "Container stopped");
            },
        }
        assert(r@ =~= shown(self@));
        r
    }
}

} // verus!

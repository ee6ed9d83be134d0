//! State-change events, as they are handed to the message bus.

use vstd::prelude::*;
use crate::string_map::StringMap;
use crate::string_set::StringSet;

verus! {

/// Liveness of one end of a link, as an event reports it.
#[derive(Clone, Copy, Debug, PartialEq, Eq, Structural)]
pub enum LinkStatus {
    Up,
    Down,
    Unknown,
}

impl View for LinkStatus {
    type V = LinkStatus;

    open spec fn view(&self) -> LinkStatus {
        *self
    }
}

/// The status that a tri-state liveness stands for.
pub open spec fn link_status(up: Option<bool>) -> LinkStatus {
    match up {
        Some(true) => LinkStatus::Up,
        Some(false) => LinkStatus::Down,
        None => LinkStatus::Unknown,
    }
}

/// The word by which a status is written: `up`, `down` or `unknown`.
pub open spec fn status_label(s: LinkStatus) -> Seq<char> {
    match s {
        LinkStatus::Up => "up"@,
        LinkStatus::Down => "down"@,
        LinkStatus::Unknown => "unknown"@,
    }
}

impl crate::string_map::Duplicate for LinkStatus {
    fn duplicate(&self) -> (r: Self) {
        *self
    }
}

impl LinkStatus {
    /// Computes `link_status(up)`.
    pub fn from_up(up: Option<bool>) -> (s: LinkStatus)
        ensures
            s == link_status(up),
    {
        match up {
            Some(true) => LinkStatus::Up,
            Some(false) => LinkStatus::Down,
            None => LinkStatus::Unknown,
        }
    }

    /// The word by which the status is written.
    pub fn label(&self) -> (r: String)
        ensures
            r@ == status_label(*self),
    {
        match self {
            LinkStatus::Up => "up".to_string(),
            LinkStatus::Down => "down".to_string(),
            LinkStatus::Unknown => "unknown".to_string(),
        }
    }
}

/// What an optional string stands for.
pub open spec fn optional_text(o: Option<String>) -> Option<Seq<char>> {
    match o {
        Some(s) => Some(s@),
        None => None,
    }
}

/// What an event stands for.
pub enum EventView {
    PingChange { fqdn: Seq<char>, neighbors: Set<Seq<char>>, old_up: bool, new_up: bool },
    InterfaceChange {
        fqdn: Seq<char>,
        interface_name: Seq<char>,
        neighbor_fqdn: Option<Seq<char>>,
        link_statuses: Map<Seq<char>, LinkStatus>,
        old_up: bool,
        new_up: bool,
    },
}

/// A state change that consumers of the message bus are told of.
#[derive(Debug)]
pub enum Event {
    /// A device's liveness changed; `neighbors` names the devices it is
    /// cabled to.
    PingChange { fqdn: String, neighbors: StringSet, old_up: bool, new_up: bool },
    /// An interface's liveness changed; `link_statuses` gives, by interface
    /// name, the liveness of every local interface cabled to the same
    /// neighbor.
    InterfaceChange {
        fqdn: String,
        interface_name: String,
        neighbor_fqdn: Option<String>,
        link_statuses: StringMap<LinkStatus>,
        old_up: bool,
        new_up: bool,
    },
}

impl View for Event {
    type V = EventView;

    open spec fn view(&self) -> EventView {
        match self {
            Event::PingChange { fqdn, neighbors, old_up, new_up } => EventView::PingChange {
                fqdn: fqdn@,
                neighbors: neighbors@,
                old_up: *old_up,
                new_up: *new_up,
            },
            Event::InterfaceChange {
                fqdn,
                interface_name,
                neighbor_fqdn,
                link_statuses,
                old_up,
                new_up,
            } => EventView::InterfaceChange {
                fqdn: fqdn@,
                interface_name: interface_name@,
                neighbor_fqdn: optional_text(*neighbor_fqdn),
                link_statuses: link_statuses@,
                old_up: *old_up,
                new_up: *new_up,
            },
        }
    }
}

/// Views of a vector of events, in order.
pub open spec fn event_views(v: Seq<Event>) -> Seq<EventView> {
    v.map_values(|e: Event| e@)
}

impl Event {
    /// The event that tells of a device whose liveness changed.
    pub fn ping_change_event(fqdn: &String, neighbors: StringSet, old_up: bool, new_up: bool) -> (e:
        Event)
        ensures
            e@ == (EventView::PingChange { fqdn: fqdn@, neighbors: neighbors@, old_up, new_up }),
    {
        Event::PingChange { fqdn: fqdn.clone(), neighbors, old_up, new_up }
    }

    /// The event that tells of an interface whose liveness changed.
    pub fn interface_change_event(
        fqdn: &String,
        interface_name: &String,
        neighbor_fqdn: Option<String>,
        link_statuses: StringMap<LinkStatus>,
        old_up: bool,
        new_up: bool,
    ) -> (e: Event)
        ensures
            e@ == (EventView::InterfaceChange {
                fqdn: fqdn@,
                interface_name: interface_name@,
                neighbor_fqdn: optional_text(neighbor_fqdn),
                link_statuses: link_statuses@,
                old_up,
                new_up,
            }),
    {
        Event::InterfaceChange {
            fqdn: fqdn.clone(),
            interface_name: interface_name.clone(),
            neighbor_fqdn,
            link_statuses,
            old_up,
            new_up,
        }
    }

    /// The tag under which the event travels: `ping_change` or
    /// `interface_change`.
    pub fn kind(&self) -> (r: String)
        ensures
            r@ == event_kind(self@),
    {
        match self {
            Event::PingChange { .. } => "ping_change".to_string(),
            Event::InterfaceChange { .. } => "interface_change".to_string(),
        }
    }
}

/// The tag of an event.
pub open spec fn event_kind(e: EventView) -> Seq<char> {
    match e {
        EventView::PingChange { .. } => "ping_change"@,
        EventView::InterfaceChange { .. } => "interface_change"@,
    }
}

} // verus!

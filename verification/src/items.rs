//! The editable items shown in the lists: agencies, routes, trips, stop times and stops.
use vstd::prelude::*;

use crate::ids::{is_random_uuid_text, new_uuid_text};
use crate::kinds::{
    Availability, BikesAllowedType, ContinuousPickupDropOff, LocationType, MyAvailability,
    MyBikesAllowedType, MyContinuousPickupDropOff, MyDirectionType, MyLocationType,
    MyPickupDropOffType, MyRGB8, MyRouteType, MyTimepointType, PickupDropOffType, Rgb8, RouteType,
    TimepointType,
};
use crate::records::{
    clone_opt_text, AgencyRecord, RouteRecord, StopRecord, StopTimeRecord, TripRecord,
};

verus! {

/// What every list entry offers.
pub trait ListItem {
    /// `id` can be taken from this item.
    spec fn has_id(&self) -> bool;

    /// `data_info` can be taken from this item.
    spec fn has_info(&self) -> bool;

    /// Marks the item, and what it holds, as selected or not.
    fn update_all(&mut self, value: bool);

    /// The item's identifier.
    fn id(&self) -> String
        requires
            self.has_id(),
    ;

    /// How many stops the item has.
    fn n_stops(&self) -> (r: usize)
        default_ensures
            r == 99,
    {
        99
    }

    /// Whether the item's editing panel is shown.
    fn show_editing(&self) -> (r: bool)
        default_ensures
            r == false,
    {
        false
    }

    /// The name of the item's kind.
    fn item_type(&self) -> String;

    /// A short description of the item.
    fn data_info(&self) -> (r: String)
        requires
            self.has_info(),
        default_ensures
            r@ == "not implemented"@,
    {
        String::from_str("not implemented")
    }

    /// Whether the item is selected.
    fn selected(&self) -> bool;
}

/// A stop as shown in the list.
pub struct MyStop {
    pub live: bool,
    pub selected: bool,
    pub scroll_to_me: usize,
    pub id: String,
    pub code: Option<String>,
    pub name: String,
    pub description: String,
    pub location_type: MyLocationType,
    pub parent_station: Option<String>,
    pub zone_id: Option<String>,
    pub url: Option<String>,
    pub timezone: Option<String>,
    pub wheelchair_boarding: MyAvailability,
    pub level_id: Option<String>,
    pub platform_code: Option<String>,
    pub transfers: usize,
    pub pathways: usize,
    pub stop: Option<Box<StopRecord>>,
}

/// A stop time as shown in the list.
pub struct MyStopTime {
    pub live: bool,
    pub selected: bool,
    pub show_editing: bool,
    pub hovered: bool,
    pub edited: bool,
    pub trip_id: String,
    pub arrival_time: Option<u32>,
    pub departure_time: Option<u32>,
    pub stop_id: String,
    pub stop_sequence: u16,
    pub stop_headsign: Option<String>,
    pub pickup_type: MyPickupDropOffType,
    pub drop_off_type: MyPickupDropOffType,
    pub continuous_pickup: MyContinuousPickupDropOff,
    pub continuous_drop_off: MyContinuousPickupDropOff,
    pub timepoint: MyTimepointType,
    pub stop_time: Option<Box<StopTimeRecord>>,
    pub stop: Option<Box<StopRecord>>,
    pub stop_name: String,
}

/// A trip as shown in the list.
pub struct MyTrip {
    pub live: bool,
    pub visible: bool,
    pub selected: bool,
    pub expanded: bool,
    pub show_editing: bool,
    pub edited: bool,
    pub id: String,
    pub service_id: String,
    pub route_id: String,
    pub shape_id: Option<String>,
    pub trip_headsign: Option<String>,
    pub trip_short_name: Option<String>,
    pub direction_id: Option<MyDirectionType>,
    pub block_id: Option<String>,
    pub wheelchair_accessible: MyAvailability,
    pub bikes_allowed: MyBikesAllowedType,
    pub trip: Option<Box<TripRecord>>,
    pub name: String,
    pub n_stops: usize,
}

/// A route as shown in the list.
pub struct MyRoute {
    pub new_item: bool,
    pub live: bool,
    pub visible: bool,
    pub expanded: bool,
    pub selected: bool,
    pub show_editing: bool,
    pub id: String,
    pub short_name: String,
    pub long_name: String,
    pub desc: Option<String>,
    pub route_type: MyRouteType,
    pub url: Option<String>,
    pub agency_id: Option<String>,
    pub order: Option<u32>,
    pub color: MyRGB8,
    pub text_color: MyRGB8,
    pub continuous_pickup: MyContinuousPickupDropOff,
    pub continuous_drop_off: MyContinuousPickupDropOff,
    pub route: Option<Box<RouteRecord>>,
    pub n_trips: usize,
}

/// An agency as shown in the list; `n_stops` counts the agency's routes.
pub struct MyAgency {
    pub show_deleted: bool,
    pub live: bool,
    pub visible: bool,
    pub expanded: bool,
    pub selected: bool,
    pub show_editing: bool,
    pub id: Option<String>,
    pub name: String,
    pub url: String,
    pub timezone: String,
    pub lang: Option<String>,
    pub phone: Option<String>,
    pub fare_url: Option<String>,
    pub email: Option<String>,
    pub agency: Option<Box<AgencyRecord>>,
    pub n_stops: usize,
}

/// The kind of a recorded edit.
#[derive(Debug, Copy, Clone, PartialEq, Eq, Structural)]
pub enum EditType {
    Delete,
    Update,
    Create,
}

/// A recorded edit: what kind, on which item.
pub struct Action {
    pub id: usize,
    pub edit_type: EditType,
    pub item_type: String,
    pub item_id: String,
}

impl Clone for Action {
    fn clone(&self) -> (r: Self)
        ensures
            r == *self,
    {
        Action {
            id: self.id,
            edit_type: self.edit_type,
            item_type: self.item_type.clone(),
            item_id: self.item_id.clone(),
        }
    }
}

/// An entry of the edit list.
#[derive(Debug, Copy, Clone, PartialEq, Eq, Structural)]
pub struct Edit {
    id: usize,
}

/// `s` is a stop just created in the editor, under the identifier `s.id`.
pub open spec fn is_new_stop(s: MyStop) -> bool {
    &&& s.live && !s.selected && s.scroll_to_me == 0
    &&& is_random_uuid_text(s.id@)
    &&& s.code is None
    &&& s.name@ == "new stop"@
    &&& s.description@ == ""@
    &&& s.location_type == MyLocationType(LocationType::StopPoint)
    &&& s.parent_station is None && s.zone_id is None && s.url is None && s.timezone is None
    &&& s.wheelchair_boarding == MyAvailability(Availability::Available)
    &&& s.level_id is None && s.platform_code is None
    &&& s.transfers == 0 && s.pathways == 0
    &&& s.stop is None
}

/// `st` is a stop time just created in the editor.
pub open spec fn is_new_stop_time(st: MyStopTime, trip_id: Seq<char>, stop_id: Seq<char>, stop_sequence: u16) -> bool {
    &&& st.live && !st.selected && !st.show_editing && !st.hovered && st.edited
    &&& st.trip_id@ == trip_id
    &&& st.arrival_time is None && st.departure_time is None
    &&& st.stop_id@ == stop_id
    &&& st.stop_sequence == stop_sequence
    &&& st.stop_headsign is None
    &&& st.pickup_type == MyPickupDropOffType(PickupDropOffType::Regular)
    &&& st.drop_off_type == MyPickupDropOffType(PickupDropOffType::Regular)
    &&& st.continuous_pickup == MyContinuousPickupDropOff(ContinuousPickupDropOff::Continuous)
    &&& st.continuous_drop_off == MyContinuousPickupDropOff(ContinuousPickupDropOff::Continuous)
    &&& st.timepoint == MyTimepointType(TimepointType::Approximate)
    &&& st.stop_time is None && st.stop is None
    &&& st.stop_name@ == "stop name"@
}

/// `t` is a trip just created in the editor for the route `route_id`.
pub open spec fn is_new_trip(t: MyTrip, route_id: Seq<char>) -> bool {
    &&& t.live && t.visible && !t.selected && !t.expanded && !t.show_editing && !t.edited
    &&& is_random_uuid_text(t.id@)
    &&& t.service_id@ == "needtogetcalendar.serviceid"@
    &&& t.route_id@ == route_id
    &&& t.shape_id is None && t.trip_headsign is None && t.trip_short_name is None
    &&& t.direction_id is None && t.block_id is None
    &&& t.wheelchair_accessible == MyAvailability(Availability::InformationNotAvailable)
    &&& t.bikes_allowed == MyBikesAllowedType(BikesAllowedType::NoBikeInfo)
    &&& t.trip is None
    &&& t.name@ == "new trip name"@
    &&& t.n_stops == 0
}

/// `r` is a route just created in the editor for the agency `agency_id`.
pub open spec fn is_new_route(r: MyRoute, agency_id: Option<String>) -> bool {
    &&& r.new_item && r.live && r.visible && !r.expanded && !r.selected && !r.show_editing
    &&& is_random_uuid_text(r.id@)
    &&& r.short_name@ == "Short name"@
    &&& r.long_name@ == "Long name"@
    &&& r.desc is None
    &&& r.route_type == MyRouteType(RouteType::Bus)
    &&& r.url is None
    &&& r.agency_id == agency_id
    &&& r.order is None
    &&& r.color == MyRGB8(Rgb8 { r: 255, g: 255, b: 255 })
    &&& r.text_color == MyRGB8(Rgb8 { r: 0, g: 0, b: 0 })
    &&& r.continuous_pickup == MyContinuousPickupDropOff(ContinuousPickupDropOff::Continuous)
    &&& r.continuous_drop_off == MyContinuousPickupDropOff(ContinuousPickupDropOff::Continuous)
    &&& r.route is None
    &&& r.n_trips == 0
}

impl MyStop {
    /// A new stop with a fresh identifier.
    pub fn new() -> (s: MyStop)
        ensures
            is_new_stop(s),
    {
        MyStop {
            live: true,
            selected: false,
            scroll_to_me: 0,
            id: new_uuid_text(),
            code: None,
            name: String::from_str("new stop"),
            description: String::from_str(""),
            location_type: MyLocationType(LocationType::StopPoint),
            parent_station: None,
            zone_id: None,
            url: None,
            timezone: None,
            wheelchair_boarding: MyAvailability(Availability::Available),
            level_id: None,
            platform_code: None,
            transfers: 0,
            pathways: 0,
            stop: None,
        }
    }
}

impl MyStopTime {
    /// A new stop time of `trip_id` at `stop_id`, marked as edited.
    pub fn new(trip_id: String, stop_id: String, stop_sequence: u16) -> (st: MyStopTime)
        ensures
            is_new_stop_time(st, trip_id@, stop_id@, stop_sequence),
    {
        MyStopTime {
            live: true,
            selected: false,
            show_editing: false,
            hovered: false,
            edited: true,
            trip_id,
            arrival_time: None,
            departure_time: None,
            stop_id,
            stop_sequence,
            stop_headsign: None,
            pickup_type: MyPickupDropOffType(PickupDropOffType::Regular),
            drop_off_type: MyPickupDropOffType(PickupDropOffType::Regular),
            continuous_pickup: MyContinuousPickupDropOff(ContinuousPickupDropOff::Continuous),
            continuous_drop_off: MyContinuousPickupDropOff(ContinuousPickupDropOff::Continuous),
            timepoint: MyTimepointType(TimepointType::Approximate),
            stop_time: None,
            stop: None,
            stop_name: String::from_str("stop name"),
        }
    }
}

impl MyTrip {
    /// A new trip of the route `route_id`, with a fresh identifier and no stops.
    pub fn new(route_id: String) -> (t: Self)
        ensures
            is_new_trip(t, route_id@),
    {
        MyTrip {
            live: true,
            visible: true,
            selected: false,
            expanded: false,
            show_editing: false,
            edited: false,
            id: new_uuid_text(),
            service_id: String::from_str("needtogetcalendar.serviceid"),
            route_id,
            shape_id: None,
            trip_headsign: None,
            trip_short_name: None,
            direction_id: None,
            block_id: None,
            wheelchair_accessible: MyAvailability(Availability::InformationNotAvailable),
            bikes_allowed: MyBikesAllowedType(BikesAllowedType::NoBikeInfo),
            trip: None,
            name: String::from_str("new trip name"),
            n_stops: 0,
        }
    }
}

impl MyRoute {
    /// A new bus route of the agency `agency_id`, with a fresh identifier and no trips.
    pub fn new(agency_id: Option<String>) -> (r: MyRoute)
        ensures
            is_new_route(r, agency_id),
    {
        MyRoute {
            new_item: true,
            live: true,
            visible: true,
            expanded: false,
            selected: false,
            show_editing: false,
            id: new_uuid_text(),
            short_name: String::from_str("Short name"),
            long_name: String::from_str("Long name"),
            desc: None,
            route_type: MyRouteType(RouteType::Bus),
            url: None,
            agency_id,
            order: None,
            color: MyRGB8(Rgb8 { r: 255, g: 255, b: 255 }),
            text_color: MyRGB8(Rgb8 { r: 0, g: 0, b: 0 }),
            continuous_pickup: MyContinuousPickupDropOff(ContinuousPickupDropOff::Continuous),
            continuous_drop_off: MyContinuousPickupDropOff(ContinuousPickupDropOff::Continuous),
            route: None,
            n_trips: 0,
        }
    }

    /// Makes a new trip for this route and gives back its identifier; the route is
    /// left unchanged (the trip is not kept).
    pub fn new_child(&mut self) -> (id: String)
        ensures
            *final(self) == *old(self),
            is_random_uuid_text(id@),
    {
        let new_trip = MyTrip {
            live: true,
            visible: true,
            selected: false,
            expanded: false,
            show_editing: false,
            edited: false,
            id: new_uuid_text(),
            service_id: String::from_str("needtogetcalendar.serviceid"),
            route_id: self.id(),
            shape_id: None,
            trip_headsign: None,
            trip_short_name: None,
            direction_id: None,
            block_id: None,
            wheelchair_accessible: MyAvailability(Availability::InformationNotAvailable),
            bikes_allowed: MyBikesAllowedType(BikesAllowedType::NoBikeInfo),
            trip: None,
            name: String::from_str("new trip name"),
            n_stops: 0,
        };
        new_trip.id()
    }
}

impl MyAgency {
    /// Makes a new route for this agency and gives back its identifier; the agency
    /// is left unchanged (the route is not kept).
    pub fn new_child(&mut self) -> (id: String)
        ensures
            *final(self) == *old(self),
            is_random_uuid_text(id@),
    {
        let new_route = MyRoute {
            new_item: true,
            live: true,
            visible: true,
            expanded: false,
            selected: false,
            show_editing: false,
            id: new_uuid_text(),
            short_name: String::from_str("new route short name"),
            long_name: String::from_str("new route long name"),
            desc: None,
            route_type: MyRouteType(RouteType::Bus),
            url: None,
            agency_id: None,
            order: None,
            color: MyRGB8(Rgb8 { r: 0, g: 0, b: 0 }),
            text_color: MyRGB8(Rgb8 { r: 0, g: 0, b: 0 }),
            continuous_pickup: MyContinuousPickupDropOff(ContinuousPickupDropOff::NotAvailable),
            continuous_drop_off: MyContinuousPickupDropOff(ContinuousPickupDropOff::NotAvailable),
            route: None,
            n_trips: 0,
        };
        new_route.id()
    }
}

impl Default for MyAgency {
    /// An agency with no identifier, empty texts and no flags set.
    fn default() -> (a: Self)
        ensures
            !a.show_deleted && !a.live && !a.visible && !a.expanded && !a.selected && !a.show_editing,
            a.id is None && a.lang is None && a.phone is None && a.fare_url is None && a.email is None,
            a.name@ == Seq::<char>::empty() && a.url@ == Seq::<char>::empty() && a.timezone@ == Seq::<char>::empty(),
            a.agency is None,
            a.n_stops == 0,
    {
        MyAgency {
            show_deleted: false,
            live: false,
            visible: false,
            expanded: false,
            selected: false,
            show_editing: false,
            id: None,
            name: String::new(),
            url: String::new(),
            timezone: String::new(),
            lang: None,
            phone: None,
            fare_url: None,
            email: None,
            agency: None,
            n_stops: 0,
        }
    }
}

impl ListItem for MyStop {
    open spec fn has_id(&self) -> bool {
        true
    }

    open spec fn has_info(&self) -> bool {
        true
    }

    fn update_all(&mut self, value: bool)
        ensures
            *final(self) == (MyStop { selected: value, ..*old(self) }),
    {
        self.selected = value;
    }

    fn id(&self) -> (r: String)
        ensures
            r == self.id,
    {
        self.id.clone()
    }

    fn item_type(&self) -> (r: String)
        ensures
            r@ == "stop"@,
    {
        String::from_str("stop")
    }

    fn selected(&self) -> (r: bool)
        ensures
            r == self.selected,
    {
        self.selected
    }
}

impl ListItem for MyStopTime {
    open spec fn has_id(&self) -> bool {
        true
    }

    open spec fn has_info(&self) -> bool {
        true
    }

    fn update_all(&mut self, value: bool)
        ensures
            *final(self) == (MyStopTime { selected: value, ..*old(self) }),
    {
        self.selected = value;
    }

    /// A stop time is known by the stop it calls at.
    fn id(&self) -> (r: String)
        ensures
            r == self.stop_id,
    {
        self.stop_id.clone()
    }

    fn item_type(&self) -> (r: String)
        ensures
            r@ == "stop_time"@,
    {
        String::from_str("stop_time")
    }

    fn selected(&self) -> (r: bool)
        ensures
            r == self.selected,
    {
        self.selected
    }
}

impl ListItem for MyTrip {
    open spec fn has_id(&self) -> bool {
        true
    }

    open spec fn has_info(&self) -> bool {
        true
    }

    /// Leaves the trip as it is.
    fn update_all(&mut self, value: bool)
        ensures
            *final(self) == *old(self),
    {
    }

    fn id(&self) -> (r: String)
        ensures
            r == self.id,
    {
        self.id.clone()
    }

    fn n_stops(&self) -> (r: usize)
        ensures
            r == self.n_stops,
    {
        self.n_stops
    }

    fn show_editing(&self) -> (r: bool)
        ensures
            r == self.show_editing,
    {
        self.show_editing
    }

    fn item_type(&self) -> (r: String)
        ensures
            r@ == "trip"@,
    {
        String::from_str("trip")
    }

    fn selected(&self) -> (r: bool)
        ensures
            r == self.selected,
    {
        self.selected
    }
}

impl ListItem for MyRoute {
    open spec fn has_id(&self) -> bool {
        true
    }

    /// The description compares the route with the record it was read from.
    open spec fn has_info(&self) -> bool {
        self.route is Some
    }

    /// Leaves the route as it is.
    fn update_all(&mut self, value: bool)
        ensures
            *final(self) == *old(self),
    {
    }

    fn id(&self) -> (r: String)
        ensures
            r == self.id,
    {
        self.id.clone()
    }

    fn item_type(&self) -> (r: String)
        ensures
            r@ == "route"@,
    {
        String::from_str("route")
    }

    /// The short name the route was read with, an arrow, and its current short name.
    fn data_info(&self) -> (r: String)
        ensures
            r@ == self.route.unwrap().short_name@ + " -> "@ + self.short_name@,
    {
        let original: &Box<RouteRecord> = self.route.as_ref().unwrap();
        let mut r = original.short_name.clone();
        r.append(" -> ");
        r.append(self.short_name.as_str());
        r
    }

    fn selected(&self) -> (r: bool)
        ensures
            r == self.selected,
    {
        self.selected
    }
}

impl ListItem for MyAgency {
    /// An agency without an identifier has none to give.
    open spec fn has_id(&self) -> bool {
        self.id is Some
    }

    open spec fn has_info(&self) -> bool {
        true
    }

    /// Leaves the agency as it is.
    fn update_all(&mut self, value: bool)
        ensures
            *final(self) == *old(self),
    {
    }

    fn id(&self) -> (r: String)
        ensures
            r == self.id.unwrap(),
    {
        self.id.as_ref().unwrap().clone()
    }

    fn item_type(&self) -> (r: String)
        ensures
            r@ == "agency"@,
    {
        String::from_str("agency")
    }

    fn selected(&self) -> (r: bool)
        ensures
            r == self.selected,
    {
        self.selected
    }
}

} // verus!

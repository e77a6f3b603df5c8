//! The records of a GTFS feed, as the editor reads them.
use vstd::prelude::*;

use crate::kinds::{
    Availability, BikesAllowedType, ContinuousPickupDropOff, DirectionType, LocationType,
    PickupDropOffType, Rgb8, RouteType, TimepointType,
};

verus! {

/// A copy of an optional text.
pub fn clone_opt_text(o: &Option<String>) -> (r: Option<String>)
    ensures
        r == *o,
{
    match o {
        Some(s) => Some(s.clone()),
        None => None,
    }
}

/// The view of an optional text.
pub open spec fn opt_text(o: Option<String>) -> Option<Seq<char>> {
    match o {
        Some(s) => Some(s@),
        None => None,
    }
}

/// Whether two optional texts are equal.
pub fn opt_text_eq(a: &Option<String>, b: &Option<String>) -> (r: bool)
    ensures
        r == (opt_text(*a) == opt_text(*b)),
{
    match (a, b) {
        (Some(x), Some(y)) => *x == *y,
        (None, None) => true,
        _ => false,
    }
}

/// An agency of `agency.txt`.
pub struct AgencyRecord {
    pub id: Option<String>,
    pub name: String,
    pub url: String,
    pub timezone: String,
    pub lang: Option<String>,
    pub phone: Option<String>,
    pub fare_url: Option<String>,
    pub email: Option<String>,
}

/// A route of `routes.txt`.
pub struct RouteRecord {
    pub id: String,
    pub short_name: String,
    pub long_name: String,
    pub desc: Option<String>,
    pub route_type: RouteType,
    pub url: Option<String>,
    pub agency_id: Option<String>,
    pub order: Option<u32>,
    pub color: Rgb8,
    pub text_color: Rgb8,
    pub continuous_pickup: ContinuousPickupDropOff,
    pub continuous_drop_off: ContinuousPickupDropOff,
}

/// A trip of `trips.txt`.
pub struct TripRecord {
    pub id: String,
    pub service_id: String,
    pub route_id: String,
    pub shape_id: Option<String>,
    pub trip_headsign: Option<String>,
    pub trip_short_name: Option<String>,
    pub direction_id: Option<DirectionType>,
    pub block_id: Option<String>,
    pub wheelchair_accessible: Availability,
    pub bikes_allowed: BikesAllowedType,
}

/// A stop time of `stop_times.txt` (times in seconds since midnight).
pub struct StopTimeRecord {
    pub trip_id: String,
    pub arrival_time: Option<u32>,
    pub departure_time: Option<u32>,
    pub stop_id: String,
    pub stop_sequence: u16,
    pub stop_headsign: Option<String>,
    pub pickup_type: PickupDropOffType,
    pub drop_off_type: PickupDropOffType,
    pub continuous_pickup: ContinuousPickupDropOff,
    pub continuous_drop_off: ContinuousPickupDropOff,
    pub timepoint: TimepointType,
}

/// A stop of `stops.txt`; `transfers` and `pathways` count the stop's transfers and pathways.
pub struct StopRecord {
    pub id: String,
    pub code: Option<String>,
    pub name: String,
    pub description: String,
    pub location_type: LocationType,
    pub parent_station: Option<String>,
    pub zone_id: Option<String>,
    pub url: Option<String>,
    pub timezone: Option<String>,
    pub wheelchair_boarding: Availability,
    pub level_id: Option<String>,
    pub platform_code: Option<String>,
    pub transfers: usize,
    pub pathways: usize,
}

/// A point of a shape of `shapes.txt`: the shape it belongs to and its place along it.
pub struct ShapeRecord {
    pub id: String,
    pub sequence: usize,
}

/// The tables of a feed that the editor works with.
pub struct MyGtfs {
    pub agencies: Vec<AgencyRecord>,
    pub routes: Vec<RouteRecord>,
    pub trips: Vec<TripRecord>,
    pub stop_times: Vec<StopTimeRecord>,
    pub stops: Vec<StopRecord>,
    pub shapes: Vec<ShapeRecord>,
}

impl Clone for AgencyRecord {
    fn clone(&self) -> (r: Self)
        ensures
            r == *self,
    {
        AgencyRecord {
            id: clone_opt_text(&self.id),
            name: self.name.clone(),
            url: self.url.clone(),
            timezone: self.timezone.clone(),
            lang: clone_opt_text(&self.lang),
            phone: clone_opt_text(&self.phone),
            fare_url: clone_opt_text(&self.fare_url),
            email: clone_opt_text(&self.email),
        }
    }
}

impl Clone for RouteRecord {
    fn clone(&self) -> (r: Self)
        ensures
            r == *self,
    {
        RouteRecord {
            id: self.id.clone(),
            short_name: self.short_name.clone(),
            long_name: self.long_name.clone(),
            desc: clone_opt_text(&self.desc),
            route_type: self.route_type,
            url: clone_opt_text(&self.url),
            agency_id: clone_opt_text(&self.agency_id),
            order: self.order,
            color: self.color,
            text_color: self.text_color,
            continuous_pickup: self.continuous_pickup,
            continuous_drop_off: self.continuous_drop_off,
        }
    }
}

impl Clone for TripRecord {
    fn clone(&self) -> (r: Self)
        ensures
            r == *self,
    {
        TripRecord {
            id: self.id.clone(),
            service_id: self.service_id.clone(),
            route_id: self.route_id.clone(),
            shape_id: clone_opt_text(&self.shape_id),
            trip_headsign: clone_opt_text(&self.trip_headsign),
            trip_short_name: clone_opt_text(&self.trip_short_name),
            direction_id: self.direction_id,
            block_id: clone_opt_text(&self.block_id),
            wheelchair_accessible: self.wheelchair_accessible,
            bikes_allowed: self.bikes_allowed,
        }
    }
}

impl Clone for StopTimeRecord {
    fn clone(&self) -> (r: Self)
        ensures
            r == *self,
    {
        StopTimeRecord {
            trip_id: self.trip_id.clone(),
            arrival_time: self.arrival_time,
            departure_time: self.departure_time,
            stop_id: self.stop_id.clone(),
            stop_sequence: self.stop_sequence,
            stop_headsign: clone_opt_text(&self.stop_headsign),
            pickup_type: self.pickup_type,
            drop_off_type: self.drop_off_type,
            continuous_pickup: self.continuous_pickup,
            continuous_drop_off: self.continuous_drop_off,
            timepoint: self.timepoint,
        }
    }
}

impl Clone for StopRecord {
    fn clone(&self) -> (r: Self)
        ensures
            r == *self,
    {
        StopRecord {
            id: self.id.clone(),
            code: clone_opt_text(&self.code),
            name: self.name.clone(),
            description: self.description.clone(),
            location_type: self.location_type,
            parent_station: clone_opt_text(&self.parent_station),
            zone_id: clone_opt_text(&self.zone_id),
            url: clone_opt_text(&self.url),
            timezone: clone_opt_text(&self.timezone),
            wheelchair_boarding: self.wheelchair_boarding,
            level_id: clone_opt_text(&self.level_id),
            platform_code: clone_opt_text(&self.platform_code),
            transfers: self.transfers,
            pathways: self.pathways,
        }
    }
}

impl Clone for ShapeRecord {
    fn clone(&self) -> (r: Self)
        ensures
            r == *self,
    {
        ShapeRecord { id: self.id.clone(), sequence: self.sequence }
    }
}

} // verus!

//! Making the editor's state from a feed: the tables are sorted, indexed, and turned
//! into list items.
use vstd::prelude::*;

use crate::app_data::AppData;
use crate::items::{MyAgency, MyRoute, MyStop, MyStopTime, MyTrip};
use crate::kinds::{
    MyAvailability, MyBikesAllowedType, MyContinuousPickupDropOff, MyDirectionType, MyLocationType,
    MyPickupDropOffType, MyRGB8, MyRouteType, MyTimepointType,
};
use crate::order::{
    contains_sorted, has_text, sorted_texts, apply_order, arrange, is_sort_order, lemma_is_the_sort_order, occurs, precedes, sort_order,
    stably_sorted, text_lt, text_views, the_sort_order, zero_nums, zeros,
};
use crate::records::{
    clone_opt_text, opt_text, opt_text_eq, AgencyRecord, MyGtfs, RouteRecord, ShapeRecord,
    StopRecord, StopTimeRecord, TripRecord,
};
use crate::runs::{
    find_range_sorted, id_runs, last_run_of, lemma_last_run_found, lemma_runs_ascending,
    lemma_runs_partition, ranges_view, runs, texts_ascending, IdRange,
};
use crate::stops::{last_with_id, lemma_last_with_id, stop_ids, stop_order, stop_position, is_stop_order};
use crate::zoom::ZoomLevel;

verus! {

pub open spec fn agency_names(s: Seq<AgencyRecord>) -> Seq<Seq<char>> {
    s.map_values(|a: AgencyRecord| a.name@)
}

pub open spec fn route_short_names(s: Seq<RouteRecord>) -> Seq<Seq<char>> {
    s.map_values(|r: RouteRecord| r.short_name@)
}

pub open spec fn trip_record_ids(s: Seq<TripRecord>) -> Seq<Seq<char>> {
    s.map_values(|t: TripRecord| t.id@)
}

pub open spec fn stop_time_trip_ids(s: Seq<StopTimeRecord>) -> Seq<Seq<char>> {
    s.map_values(|st: StopTimeRecord| st.trip_id@)
}

pub open spec fn stop_time_sequences(s: Seq<StopTimeRecord>) -> Seq<u64> {
    s.map_values(|st: StopTimeRecord| st.stop_sequence as u64)
}

pub open spec fn stop_record_ids(s: Seq<StopRecord>) -> Seq<Seq<char>> {
    s.map_values(|st: StopRecord| st.id@)
}

pub open spec fn shape_ids(s: Seq<ShapeRecord>) -> Seq<Seq<char>> {
    s.map_values(|p: ShapeRecord| p.id@)
}

/// Agencies by name (stable).
pub open spec fn sorted_agencies(s: Seq<AgencyRecord>) -> Seq<AgencyRecord> {
    stably_sorted(s, agency_names(s), zeros(s.len()))
}

/// Routes by short name (stable).
pub open spec fn sorted_routes(s: Seq<RouteRecord>) -> Seq<RouteRecord> {
    stably_sorted(s, route_short_names(s), zeros(s.len()))
}

/// Trips by identifier (stable).
pub open spec fn sorted_trips(s: Seq<TripRecord>) -> Seq<TripRecord> {
    stably_sorted(s, trip_record_ids(s), zeros(s.len()))
}

/// Stop times by trip, then by stop sequence (stable).
pub open spec fn sorted_stop_times(s: Seq<StopTimeRecord>) -> Seq<StopTimeRecord> {
    stably_sorted(s, stop_time_trip_ids(s), stop_time_sequences(s))
}

/// How many routes belong to the agency with identifier `id`.
pub open spec fn routes_of_agency(routes: Seq<RouteRecord>, id: Option<String>) -> nat {
    routes.filter(|r: RouteRecord| opt_text(r.agency_id) == opt_text(id)).len()
}

/// How many trips run on the route with identifier `id`.
pub open spec fn trips_of_route(trips: Seq<TripRecord>, id: Seq<char>) -> nat {
    trips.filter(|t: TripRecord| t.route_id@ == id).len()
}

/// How many stop times the block of trip `id` holds.
pub open spec fn stops_of_trip(stop_times: Seq<StopTimeRecord>, id: Seq<char>) -> nat {
    match last_run_of(runs(stop_time_trip_ids(stop_times)), id) {
        Some((s, e)) => (e - s) as nat,
        None => 0,
    }
}

/// The name of the last stop with identifier `id`.
pub open spec fn stop_name_of(stops: Seq<StopRecord>, id: Seq<char>) -> String {
    stops[last_with_id(stop_record_ids(stops), id).unwrap()].name
}

pub open spec fn agency_item(a: AgencyRecord, n_routes: nat) -> MyAgency {
    MyAgency {
        show_deleted: true,
        live: true,
        visible: true,
        expanded: false,
        selected: false,
        show_editing: false,
        id: a.id,
        name: a.name,
        url: a.url,
        timezone: a.timezone,
        lang: a.lang,
        phone: a.phone,
        fare_url: a.fare_url,
        email: a.email,
        agency: Some(Box::new(a)),
        n_stops: n_routes as usize,
    }
}

pub open spec fn route_item(r: RouteRecord, n_trips: nat) -> MyRoute {
    MyRoute {
        new_item: false,
        live: true,
        visible: true,
        expanded: false,
        selected: false,
        show_editing: false,
        id: r.id,
        short_name: r.short_name,
        long_name: r.long_name,
        desc: r.desc,
        route_type: MyRouteType(r.route_type),
        url: r.url,
        agency_id: r.agency_id,
        order: r.order,
        color: MyRGB8(r.color),
        text_color: MyRGB8(r.text_color),
        continuous_pickup: MyContinuousPickupDropOff(r.continuous_pickup),
        continuous_drop_off: MyContinuousPickupDropOff(r.continuous_drop_off),
        route: Some(Box::new(r)),
        n_trips: n_trips as usize,
    }
}

pub open spec fn trip_item(t: TripRecord, n_stops: nat) -> MyTrip {
    MyTrip {
        live: true,
        visible: true,
        selected: false,
        expanded: false,
        show_editing: false,
        edited: false,
        id: t.id,
        service_id: t.service_id,
        route_id: t.route_id,
        shape_id: t.shape_id,
        trip_headsign: t.trip_headsign,
        trip_short_name: t.trip_short_name,
        direction_id: match t.direction_id {
            Some(d) => Some(MyDirectionType(d)),
            None => None,
        },
        block_id: t.block_id,
        wheelchair_accessible: MyAvailability(t.wheelchair_accessible),
        bikes_allowed: MyBikesAllowedType(t.bikes_allowed),
        trip: Some(Box::new(t)),
        name: t.id,
        n_stops: n_stops as usize,
    }
}

pub open spec fn stop_time_item(st: StopTimeRecord, stop_name: String) -> MyStopTime {
    MyStopTime {
        live: true,
        selected: false,
        show_editing: false,
        hovered: false,
        edited: false,
        trip_id: st.trip_id,
        arrival_time: st.arrival_time,
        departure_time: st.departure_time,
        stop_id: st.stop_id,
        stop_sequence: st.stop_sequence,
        stop_headsign: st.stop_headsign,
        pickup_type: MyPickupDropOffType(st.pickup_type),
        drop_off_type: MyPickupDropOffType(st.drop_off_type),
        continuous_pickup: MyContinuousPickupDropOff(st.continuous_pickup),
        continuous_drop_off: MyContinuousPickupDropOff(st.continuous_drop_off),
        timepoint: MyTimepointType(st.timepoint),
        stop_time: Some(Box::new(st)),
        stop: None,
        stop_name,
    }
}

pub open spec fn stop_item(s: StopRecord) -> MyStop {
    MyStop {
        live: true,
        selected: false,
        scroll_to_me: 0,
        id: s.id,
        code: s.code,
        name: s.name,
        description: s.description,
        location_type: MyLocationType(s.location_type),
        parent_station: s.parent_station,
        zone_id: s.zone_id,
        url: s.url,
        timezone: s.timezone,
        wheelchair_boarding: MyAvailability(s.wheelchair_boarding),
        level_id: s.level_id,
        platform_code: s.platform_code,
        transfers: s.transfers,
        pathways: s.pathways,
        stop: None,
    }
}

/// Some stop has identifier `id`.
pub open spec fn has_stop(stops: Seq<StopRecord>, id: Seq<char>) -> bool {
    exists|j: int| 0 <= j < stops.len() && stops[j].id@ == id
}

/// Some stop time belongs to the trip `id`.
pub open spec fn has_stop_time(stop_times: Seq<StopTimeRecord>, id: Seq<char>) -> bool {
    exists|j: int| 0 <= j < stop_times.len() && stop_times[j].trip_id@ == id
}

/// A feed the editor can open: it has stop times, every stop time calls at a stop of
/// the feed, and every trip has stop times.
pub open spec fn feed_is_complete(g: MyGtfs) -> bool {
    &&& g.stop_times.len() > 0
    &&& forall|i: int| 0 <= i < g.stop_times.len() ==> has_stop(g.stops@, #[trigger] g.stop_times@[i].stop_id@)
    &&& forall|i: int| 0 <= i < g.trips.len() ==> has_stop_time(g.stop_times@, #[trigger] g.trips@[i].id@)
}

/// `d` is the editor's state made from the (already sorted) tables of `g`.
pub open spec fn is_initial_data(d: AppData, g: MyGtfs) -> bool {
    &&& d.gtfs.agencies@ == g.agencies@
    &&& d.gtfs.routes@ == g.routes@
    &&& d.gtfs.trips@ == g.trips@
    &&& d.gtfs.stop_times@ == g.stop_times@
    &&& d.gtfs.stops@ == g.stops@
    &&& d.gtfs.shapes@ == g.shapes@
    &&& d.agencies@ == g.agencies@.map_values(|a: AgencyRecord| agency_item(a, routes_of_agency(g.routes@, a.id)))
    &&& d.routes@ == g.routes@.map_values(|r: RouteRecord| route_item(r, trips_of_route(g.trips@, r.id@)))
    &&& d.trips@ == g.trips@.map_values(|t: TripRecord| trip_item(t, stops_of_trip(g.stop_times@, t.id@)))
    &&& d.stop_times@ == g.stop_times@.map_values(
        |st: StopTimeRecord| stop_time_item(st, stop_name_of(g.stops@, st.stop_id@)),
    )
    &&& d.stops@ == g.stops@.map_values(|s: StopRecord| stop_item(s))
    &&& ranges_view(d.stop_time_range_from_trip_id@) == runs(stop_time_trip_ids(g.stop_times@))
    &&& ranges_view(d.shapes_range_from_shape_id@) == runs(shape_ids(g.shapes@))
    &&& is_stop_order(d.stop_index_from_id@, d.stops@)
    &&& d.insert_stop_time_before is None
    &&& d.show_deleted && !d.show_edits && !d.show_actions
    &&& d.selected_agency_id is None && d.selected_route_id is None && d.selected_trip_id is None
    &&& d.selected_stop_time_id is None && d.hovered_stop_time_id is None && d.selected_stop_id is None
    &&& d.hovered_trip_paths@.len() == 0
    &&& d.expanded
    &&& d.actions@.len() == 0 && d.edits@.len() == 0
    &&& d.map_zoom_level == ZoomLevel::One
    &&& !d.map_stop_selection_mode
}

/// Copies of `items` stably sorted by `texts` then `nums`.
fn sorted_copy<T: Clone>(items: &Vec<T>, texts: &Vec<&String>, nums: &Vec<u64>) -> (r: Vec<T>)
    requires
        texts.len() == items.len(),
        nums.len() == items.len(),
        forall|a: T, b: T| #[trigger] cloned::<T>(a, b) ==> a == b,
    ensures
        r@ == stably_sorted(items@, text_views(texts@), nums@),
        is_sort_order(the_sort_order(text_views(texts@), nums@), text_views(texts@), nums@),
{
    let o = sort_order(texts, nums);
    proof {
        lemma_is_the_sort_order(o@, text_views(texts@), nums@);
    }
    apply_order(items, &o)
}

/// Sorts agencies by name.
fn sort_agencies(items: &mut Vec<AgencyRecord>)
    ensures
        final(items)@ == sorted_agencies(old(items)@),
        is_sort_order(the_sort_order(agency_names(old(items)@), zeros(old(items)@.len())), agency_names(old(items)@), zeros(old(items)@.len())),
{
    let sorted = {
        let mut texts: Vec<&String> = Vec::new();
        let mut k: usize = 0;
        while k < items.len()
            invariant
                k <= items.len(),
                texts.len() == k,
                forall|j: int| 0 <= j < k ==> #[trigger] texts@[j] == items@[j].name,
            decreases items.len() - k,
        {
            texts.push(&items[k].name);
            k = k + 1;
        }
        let nums = zero_nums(items.len());
        proof {
            assert(text_views(texts@) =~= agency_names(items@));
            
            assert forall|a: AgencyRecord, b: AgencyRecord| #[trigger] cloned::<AgencyRecord>(a, b) implies a == b by {}
        }
        sorted_copy(items, &texts, &nums)
    };
    *items = sorted;
}

/// Sorts routes by short name.
fn sort_routes(items: &mut Vec<RouteRecord>)
    ensures
        final(items)@ == sorted_routes(old(items)@),
        is_sort_order(the_sort_order(route_short_names(old(items)@), zeros(old(items)@.len())), route_short_names(old(items)@), zeros(old(items)@.len())),
{
    let sorted = {
        let mut texts: Vec<&String> = Vec::new();
        let mut k: usize = 0;
        while k < items.len()
            invariant
                k <= items.len(),
                texts.len() == k,
                forall|j: int| 0 <= j < k ==> #[trigger] texts@[j] == items@[j].short_name,
            decreases items.len() - k,
        {
            texts.push(&items[k].short_name);
            k = k + 1;
        }
        let nums = zero_nums(items.len());
        proof {
            assert(text_views(texts@) =~= route_short_names(items@));
            
            assert forall|a: RouteRecord, b: RouteRecord| #[trigger] cloned::<RouteRecord>(a, b) implies a == b by {}
        }
        sorted_copy(items, &texts, &nums)
    };
    *items = sorted;
}

/// Sorts trips by identifier.
fn sort_trips(items: &mut Vec<TripRecord>)
    ensures
        final(items)@ == sorted_trips(old(items)@),
        is_sort_order(the_sort_order(trip_record_ids(old(items)@), zeros(old(items)@.len())), trip_record_ids(old(items)@), zeros(old(items)@.len())),
{
    let sorted = {
        let mut texts: Vec<&String> = Vec::new();
        let mut k: usize = 0;
        while k < items.len()
            invariant
                k <= items.len(),
                texts.len() == k,
                forall|j: int| 0 <= j < k ==> #[trigger] texts@[j] == items@[j].id,
            decreases items.len() - k,
        {
            texts.push(&items[k].id);
            k = k + 1;
        }
        let nums = zero_nums(items.len());
        proof {
            assert(text_views(texts@) =~= trip_record_ids(items@));
            
            assert forall|a: TripRecord, b: TripRecord| #[trigger] cloned::<TripRecord>(a, b) implies a == b by {}
        }
        sorted_copy(items, &texts, &nums)
    };
    *items = sorted;
}

/// Sorts stop times by trip, then by stop sequence.
fn sort_stop_times(items: &mut Vec<StopTimeRecord>)
    ensures
        final(items)@ == sorted_stop_times(old(items)@),
        is_sort_order(the_sort_order(stop_time_trip_ids(old(items)@), stop_time_sequences(old(items)@)), stop_time_trip_ids(old(items)@), stop_time_sequences(old(items)@)),
{
    let sorted = {
        let mut texts: Vec<&String> = Vec::new();
        let mut k: usize = 0;
        while k < items.len()
            invariant
                k <= items.len(),
                texts.len() == k,
                forall|j: int| 0 <= j < k ==> #[trigger] texts@[j] == items@[j].trip_id,
            decreases items.len() - k,
        {
            texts.push(&items[k].trip_id);
            k = k + 1;
        }
        let nums = stop_sequence_nums(items);
        proof {
            assert(text_views(texts@) =~= stop_time_trip_ids(items@));
            
            assert forall|a: StopTimeRecord, b: StopTimeRecord| #[trigger] cloned::<StopTimeRecord>(a, b) implies a == b by {}
        }
        sorted_copy(items, &texts, &nums)
    };
    *items = sorted;
}

/// The stop sequences of stop times, as sort keys.
fn stop_sequence_nums(items: &Vec<StopTimeRecord>) -> (r: Vec<u64>)
    ensures
        r@ == stop_time_sequences(items@),
{
    let mut r: Vec<u64> = Vec::new();
    let mut k: usize = 0;
    while k < items.len()
        invariant
            k <= items.len(),
            r.len() == k,
            forall|j: int| 0 <= j < k ==> #[trigger] r@[j] == items@[j].stop_sequence as u64,
        decreases items.len() - k,
    {
        r.push(items[k].stop_sequence as u64);
        k = k + 1;
    }
    assert(r@ =~= stop_time_sequences(items@));
    r
}

/// The list items of the stops.
fn stop_items(stops: &Vec<StopRecord>) -> (r: Vec<MyStop>)
    ensures
        r@ == stops@.map_values(|s: StopRecord| stop_item(s)),
{
    let mut r: Vec<MyStop> = Vec::new();
    let mut k: usize = 0;
    while k < stops.len()
        invariant
            k <= stops.len(),
            r.len() == k,
            forall|j: int| 0 <= j < k ==> #[trigger] r@[j] == stop_item(stops@[j]),
        decreases stops.len() - k,
    {
        let s = &stops[k];
        r.push(MyStop {
            live: true,
            selected: false,
            scroll_to_me: 0,
            id: s.id.clone(),
            code: clone_opt_text(&s.code),
            name: s.name.clone(),
            description: s.description.clone(),
            location_type: MyLocationType(s.location_type),
            parent_station: clone_opt_text(&s.parent_station),
            zone_id: clone_opt_text(&s.zone_id),
            url: clone_opt_text(&s.url),
            timezone: clone_opt_text(&s.timezone),
            wheelchair_boarding: MyAvailability(s.wheelchair_boarding),
            level_id: clone_opt_text(&s.level_id),
            platform_code: clone_opt_text(&s.platform_code),
            transfers: s.transfers,
            pathways: s.pathways,
            stop: None,
        });
        k = k + 1;
    }
    assert(r@ =~= stops@.map_values(|s: StopRecord| stop_item(s)));
    r
}

/// The list items of the stop times, each named after the stop it calls at.
fn stop_time_items(stop_times: &Vec<StopTimeRecord>, stops: &Vec<StopRecord>, items: &Vec<MyStop>, order: &Vec<usize>) -> (r: Vec<MyStopTime>)
    requires
        items@ == stops@.map_values(|s: StopRecord| stop_item(s)),
        is_stop_order(order@, items@),
        forall|i: int| 0 <= i < stop_times.len() ==> has_stop(stops@, #[trigger] stop_times@[i].stop_id@),
    ensures
        r@ == stop_times@.map_values(|st: StopTimeRecord| stop_time_item(st, stop_name_of(stops@, st.stop_id@))),
{
    assert(stop_ids(items@) =~= stop_record_ids(stops@));
    let mut r: Vec<MyStopTime> = Vec::new();
    let mut k: usize = 0;
    while k < stop_times.len()
        invariant
            k <= stop_times.len(),
            r.len() == k,
            items@ == stops@.map_values(|s: StopRecord| stop_item(s)),
            stop_ids(items@) == stop_record_ids(stops@),
            is_stop_order(order@, items@),
            forall|i: int| 0 <= i < stop_times.len() ==> has_stop(stops@, #[trigger] stop_times@[i].stop_id@),
            forall|j: int| 0 <= j < k ==> #[trigger] r@[j] == stop_time_item(stop_times@[j], stop_name_of(stops@, stop_times@[j].stop_id@)),
        decreases stop_times.len() - k,
    {
        let st = &stop_times[k];
        let pos = stop_position(items, order, &st.stop_id);
        proof {
            assert(has_stop(stops@, stop_times@[k as int].stop_id@));
            lemma_last_with_id(stop_record_ids(stops@), st.stop_id@);
            let j = choose|j: int| 0 <= j < stops@.len() && stops@[j].id@ == st.stop_id@;
            assert(stop_record_ids(stops@)[j] == st.stop_id@);
        }
        let p = pos.unwrap();
        let name = items[p].name.clone();
        proof {
            assert(items@[p as int] == stop_item(stops@[p as int]));
        }
        r.push(MyStopTime {
            live: true,
            selected: false,
            show_editing: false,
            hovered: false,
            edited: false,
            trip_id: st.trip_id.clone(),
            arrival_time: st.arrival_time,
            departure_time: st.departure_time,
            stop_id: st.stop_id.clone(),
            stop_sequence: st.stop_sequence,
            stop_headsign: clone_opt_text(&st.stop_headsign),
            pickup_type: MyPickupDropOffType(st.pickup_type),
            drop_off_type: MyPickupDropOffType(st.drop_off_type),
            continuous_pickup: MyContinuousPickupDropOff(st.continuous_pickup),
            continuous_drop_off: MyContinuousPickupDropOff(st.continuous_drop_off),
            timepoint: MyTimepointType(st.timepoint),
            stop_time: Some(Box::new(st.clone())),
            stop: None,
            stop_name: name,
        });
        k = k + 1;
    }
    assert(r@ =~= stop_times@.map_values(|st: StopTimeRecord| stop_time_item(st, stop_name_of(stops@, st.stop_id@))));
    r
}

/// How many routes belong to the agency with identifier `id`.
fn count_routes_of_agency(routes: &Vec<RouteRecord>, id: &Option<String>) -> (n: usize)
    ensures
        n == routes_of_agency(routes@, *id),
{
    let ghost pred = |r: RouteRecord| opt_text(r.agency_id) == opt_text(*id);
    let mut n: usize = 0;
    let mut k: usize = 0;
    while k < routes.len()
        invariant
            k <= routes.len(),
            n <= k,
            pred == (|r: RouteRecord| opt_text(r.agency_id) == opt_text(*id)),
            n == routes@.take(k as int).filter(pred).len(),
        decreases routes.len() - k,
    {
        proof {
            assert(routes@.take(k + 1).drop_last() =~= routes@.take(k as int));
            reveal(Seq::filter);
        }
        if opt_text_eq(&routes[k].agency_id, id) {
            n = n + 1;
        }
        k = k + 1;
    }
    assert(routes@.take(k as int) =~= routes@);
    n
}

/// How many trips run on the route with identifier `id`.
fn count_trips_of_route(trips: &Vec<TripRecord>, id: &String) -> (n: usize)
    ensures
        n == trips_of_route(trips@, id@),
{
    let ghost pred = |t: TripRecord| t.route_id@ == id@;
    let mut n: usize = 0;
    let mut k: usize = 0;
    while k < trips.len()
        invariant
            k <= trips.len(),
            n <= k,
            pred == (|t: TripRecord| t.route_id@ == id@),
            n == trips@.take(k as int).filter(pred).len(),
        decreases trips.len() - k,
    {
        proof {
            assert(trips@.take(k + 1).drop_last() =~= trips@.take(k as int));
            reveal(Seq::filter);
        }
        if trips[k].route_id == *id {
            n = n + 1;
        }
        k = k + 1;
    }
    assert(trips@.take(k as int) =~= trips@);
    n
}

/// The list items of the agencies, each with the number of its routes.
fn agency_items(agencies: &Vec<AgencyRecord>, routes: &Vec<RouteRecord>) -> (r: Vec<MyAgency>)
    ensures
        r@ == agencies@.map_values(|a: AgencyRecord| agency_item(a, routes_of_agency(routes@, a.id))),
{
    let mut r: Vec<MyAgency> = Vec::new();
    let mut k: usize = 0;
    while k < agencies.len()
        invariant
            k <= agencies.len(),
            r.len() == k,
            forall|j: int| 0 <= j < k ==> #[trigger] r@[j] == agency_item(agencies@[j], routes_of_agency(routes@, agencies@[j].id)),
        decreases agencies.len() - k,
    {
        let a = &agencies[k];
        let n = count_routes_of_agency(routes, &a.id);
        r.push(MyAgency {
            show_deleted: true,
            live: true,
            visible: true,
            expanded: false,
            selected: false,
            show_editing: false,
            id: clone_opt_text(&a.id),
            name: a.name.clone(),
            url: a.url.clone(),
            timezone: a.timezone.clone(),
            lang: clone_opt_text(&a.lang),
            phone: clone_opt_text(&a.phone),
            fare_url: clone_opt_text(&a.fare_url),
            email: clone_opt_text(&a.email),
            agency: Some(Box::new(a.clone())),
            n_stops: n,
        });
        k = k + 1;
    }
    assert(r@ =~= agencies@.map_values(|a: AgencyRecord| agency_item(a, routes_of_agency(routes@, a.id))));
    r
}

/// The list items of the routes, each with the number of its trips.
fn route_items(routes: &Vec<RouteRecord>, trips: &Vec<TripRecord>) -> (r: Vec<MyRoute>)
    ensures
        r@ == routes@.map_values(|rt: RouteRecord| route_item(rt, trips_of_route(trips@, rt.id@))),
{
    let mut r: Vec<MyRoute> = Vec::new();
    let mut k: usize = 0;
    while k < routes.len()
        invariant
            k <= routes.len(),
            r.len() == k,
            forall|j: int| 0 <= j < k ==> #[trigger] r@[j] == route_item(routes@[j], trips_of_route(trips@, routes@[j].id@)),
        decreases routes.len() - k,
    {
        let rt = &routes[k];
        let n = count_trips_of_route(trips, &rt.id);
        r.push(MyRoute {
            new_item: false,
            live: true,
            visible: true,
            expanded: false,
            selected: false,
            show_editing: false,
            id: rt.id.clone(),
            short_name: rt.short_name.clone(),
            long_name: rt.long_name.clone(),
            desc: clone_opt_text(&rt.desc),
            route_type: MyRouteType(rt.route_type),
            url: clone_opt_text(&rt.url),
            agency_id: clone_opt_text(&rt.agency_id),
            order: rt.order,
            color: MyRGB8(rt.color),
            text_color: MyRGB8(rt.text_color),
            continuous_pickup: MyContinuousPickupDropOff(rt.continuous_pickup),
            continuous_drop_off: MyContinuousPickupDropOff(rt.continuous_drop_off),
            route: Some(Box::new(rt.clone())),
            n_trips: n,
        });
        k = k + 1;
    }
    assert(r@ =~= routes@.map_values(|rt: RouteRecord| route_item(rt, trips_of_route(trips@, rt.id@))));
    r
}

/// The list items of the trips, each with the number of its stop times.
fn trip_items(trips: &Vec<TripRecord>, ranges: &Vec<IdRange>, stop_times: &Vec<StopTimeRecord>) -> (r: Vec<MyTrip>)
    requires
        ranges_view(ranges@) == runs(stop_time_trip_ids(stop_times@)),
        texts_ascending(stop_time_trip_ids(stop_times@)),
        forall|i: int| 0 <= i < trips.len() ==> has_stop_time(stop_times@, #[trigger] trips@[i].id@),
    ensures
        r@ == trips@.map_values(|t: TripRecord| trip_item(t, stops_of_trip(stop_times@, t.id@))),
{
    let ghost ids = stop_time_trip_ids(stop_times@);
    proof {
        lemma_runs_ascending(ids);
        lemma_runs_partition(ids);
    }
    let mut r: Vec<MyTrip> = Vec::new();
    let mut k: usize = 0;
    while k < trips.len()
        invariant
            k <= trips.len(),
            r.len() == k,
            ids == stop_time_trip_ids(stop_times@),
            ranges_view(ranges@) == runs(ids),
            crate::runs::runs_ascending(runs(ids)),
            crate::runs::runs_partition(ids, runs(ids)),
            forall|i: int| 0 <= i < trips.len() ==> has_stop_time(stop_times@, #[trigger] trips@[i].id@),
            forall|j: int| 0 <= j < k ==> #[trigger] r@[j] == trip_item(trips@[j], stops_of_trip(stop_times@, trips@[j].id@)),
        decreases trips.len() - k,
    {
        let t = &trips[k];
        let found = find_range_sorted(ranges, &t.id);
        proof {
            assert(has_stop_time(stop_times@, trips@[k as int].id@));
            let j = choose|j: int| 0 <= j < stop_times@.len() && stop_times@[j].trip_id@ == t.id@;
            assert(ids[j] == t.id@);
            let rs = runs(ids);
            // the stop time lies in some block, which carries the trip's identifier
            crate::runs::lemma_position_in_run(ids, j);
            let b = choose|b: int| 0 <= b < rs.len() && #[trigger] rs[b].1 <= j < rs[b].2;
            assert(rs[b].0 == t.id@);
            lemma_last_run_found(rs, t.id@, b);
        }
        let (s, e) = found.unwrap();
        proof {
            crate::runs::lemma_last_run_is_run(runs(ids), t.id@);
            let b = choose|b: int| 0 <= b < runs(ids).len() && #[trigger] runs(ids)[b] == (t.id@, s as int, e as int);
            assert(runs(ids)[b].1 < runs(ids)[b].2);
        }
        let n = e - s;
        r.push(MyTrip {
            live: true,
            visible: true,
            selected: false,
            expanded: false,
            show_editing: false,
            edited: false,
            id: t.id.clone(),
            service_id: t.service_id.clone(),
            route_id: t.route_id.clone(),
            shape_id: clone_opt_text(&t.shape_id),
            trip_headsign: clone_opt_text(&t.trip_headsign),
            trip_short_name: clone_opt_text(&t.trip_short_name),
            direction_id: match t.direction_id {
                Some(d) => Some(MyDirectionType(d)),
                None => None,
            },
            block_id: clone_opt_text(&t.block_id),
            wheelchair_accessible: MyAvailability(t.wheelchair_accessible),
            bikes_allowed: MyBikesAllowedType(t.bikes_allowed),
            trip: Some(Box::new(t.clone())),
            name: t.id.clone(),
            n_stops: n,
        });
        k = k + 1;
    }
    assert(r@ =~= trips@.map_values(|t: TripRecord| trip_item(t, stops_of_trip(stop_times@, t.id@))));
    r
}

/// A copy of the feed's tables.
fn copy_tables(g: &MyGtfs) -> (r: MyGtfs)
    ensures
        r.agencies@ == g.agencies@,
        r.routes@ == g.routes@,
        r.trips@ == g.trips@,
        r.stop_times@ == g.stop_times@,
        r.stops@ == g.stops@,
        r.shapes@ == g.shapes@,
{
    proof {
        assert forall|a: AgencyRecord, b: AgencyRecord| #[trigger] cloned::<AgencyRecord>(a, b) implies a == b by {}
        assert forall|a: RouteRecord, b: RouteRecord| #[trigger] cloned::<RouteRecord>(a, b) implies a == b by {}
        assert forall|a: TripRecord, b: TripRecord| #[trigger] cloned::<TripRecord>(a, b) implies a == b by {}
        assert forall|a: StopTimeRecord, b: StopTimeRecord| #[trigger] cloned::<StopTimeRecord>(a, b) implies a == b by {}
        assert forall|a: StopRecord, b: StopRecord| #[trigger] cloned::<StopRecord>(a, b) implies a == b by {}
        assert forall|a: ShapeRecord, b: ShapeRecord| #[trigger] cloned::<ShapeRecord>(a, b) implies a == b by {}
    }
    let r = MyGtfs {
        agencies: g.agencies.clone(),
        routes: g.routes.clone(),
        trips: g.trips.clone(),
        stop_times: g.stop_times.clone(),
        stops: g.stops.clone(),
        shapes: g.shapes.clone(),
    };
    assert(r.agencies@ =~= g.agencies@);
    assert(r.routes@ =~= g.routes@);
    assert(r.trips@ =~= g.trips@);
    assert(r.stop_times@ =~= g.stop_times@);
    assert(r.stops@ =~= g.stops@);
    assert(r.shapes@ =~= g.shapes@);
    r
}

/// The blocks of the identifiers of `texts`; none for no identifiers.
fn runs_of_texts(texts: &Vec<&String>) -> (rs: Vec<IdRange>)
    ensures
        ranges_view(rs@) == runs(text_views(texts@)),
{
    if texts.len() == 0 {
        let rs: Vec<IdRange> = Vec::new();
        assert(ranges_view(rs@) =~= runs(text_views(texts@)));
        rs
    } else {
        let rs = id_runs(texts);
        assert(texts@.map_values(|s: &String| s@) =~= text_views(texts@));
        rs
    }
}

/// The blocks of stop times of each trip.
fn stop_time_blocks(stop_times: &Vec<StopTimeRecord>) -> (rs: Vec<IdRange>)
    ensures
        ranges_view(rs@) == runs(stop_time_trip_ids(stop_times@)),
{
    let mut texts: Vec<&String> = Vec::new();
    let mut k: usize = 0;
    while k < stop_times.len()
        invariant
            k <= stop_times.len(),
            texts.len() == k,
            forall|j: int| 0 <= j < k ==> #[trigger] texts@[j] == stop_times@[j].trip_id,
        decreases stop_times.len() - k,
    {
        texts.push(&stop_times[k].trip_id);
        k = k + 1;
    }
    assert(text_views(texts@) =~= stop_time_trip_ids(stop_times@));
    runs_of_texts(&texts)
}

/// The blocks of points of each shape.
fn shape_blocks(shapes: &Vec<ShapeRecord>) -> (rs: Vec<IdRange>)
    ensures
        ranges_view(rs@) == runs(shape_ids(shapes@)),
{
    let mut texts: Vec<&String> = Vec::new();
    let mut k: usize = 0;
    while k < shapes.len()
        invariant
            k <= shapes.len(),
            texts.len() == k,
            forall|j: int| 0 <= j < k ==> #[trigger] texts@[j] == shapes@[j].id,
        decreases shapes.len() - k,
    {
        texts.push(&shapes[k].id);
        k = k + 1;
    }
    assert(text_views(texts@) =~= shape_ids(shapes@));
    runs_of_texts(&texts)
}

/// Sorting keeps the stop-time facts a complete feed has.
proof fn lemma_sorted_feed_complete(g0: MyGtfs, g: MyGtfs)
    requires
        feed_is_complete(g0),
        g.stops@ == g0.stops@,
        g.trips@ == sorted_trips(g0.trips@),
        g.stop_times@ == sorted_stop_times(g0.stop_times@),
        is_sort_order(the_sort_order(trip_record_ids(g0.trips@), zeros(g0.trips@.len())), trip_record_ids(g0.trips@), zeros(g0.trips@.len())),
        is_sort_order(the_sort_order(stop_time_trip_ids(g0.stop_times@), stop_time_sequences(g0.stop_times@)), stop_time_trip_ids(g0.stop_times@), stop_time_sequences(g0.stop_times@)),
    ensures
        g.stop_times.len() > 0,
        forall|i: int| 0 <= i < g.stop_times.len() ==> has_stop(g.stops@, #[trigger] g.stop_times@[i].stop_id@),
        forall|i: int| 0 <= i < g.trips.len() ==> has_stop_time(g.stop_times@, #[trigger] g.trips@[i].id@),
        texts_ascending(stop_time_trip_ids(g.stop_times@)),
{
    let ost = the_sort_order(stop_time_trip_ids(g0.stop_times@), stop_time_sequences(g0.stop_times@));
    let otr = the_sort_order(trip_record_ids(g0.trips@), zeros(g0.trips@.len()));
    let texts = stop_time_trip_ids(g0.stop_times@);
    let nums = stop_time_sequences(g0.stop_times@);
    assert forall|i: int| 0 <= i < g.stop_times.len() implies has_stop(g.stops@, #[trigger] g.stop_times@[i].stop_id@) by {
        assert(g.stop_times@[i] == g0.stop_times@[ost[i] as int]);
        assert(has_stop(g0.stops@, g0.stop_times@[ost[i] as int].stop_id@));
    }
    assert forall|i: int| 0 <= i < g.trips.len() implies has_stop_time(g.stop_times@, #[trigger] g.trips@[i].id@) by {
        assert(g.trips@[i] == g0.trips@[otr[i] as int]);
        let t = g0.trips@[otr[i] as int];
        assert(has_stop_time(g0.stop_times@, t.id@));
        let j = choose|j: int| 0 <= j < g0.stop_times@.len() && g0.stop_times@[j].trip_id@ == t.id@;
        assert(occurs(ost, j));
        let p = choose|p: int| 0 <= p < ost.len() && ost[p] == j;
        assert(g.stop_times@[p] == g0.stop_times@[j]);
    }
    assert forall|p: int, q: int| 0 <= p < q < stop_time_trip_ids(g.stop_times@).len() implies text_lt(#[trigger] stop_time_trip_ids(g.stop_times@)[p], #[trigger] stop_time_trip_ids(g.stop_times@)[q]) || stop_time_trip_ids(g.stop_times@)[p] == stop_time_trip_ids(g.stop_times@)[q] by {
        assert(precedes(texts, nums, ost[p] as int, ost[q] as int));
        assert(g.stop_times@[p] == g0.stop_times@[ost[p] as int]);
        assert(g.stop_times@[q] == g0.stop_times@[ost[q] as int]);
    }
}

/// Sorts the feed's agencies by name, routes by short name, trips by identifier and
/// stop times by trip then stop sequence (all stably), and makes the editor's state
/// from the sorted tables.
pub fn make_initial_data(gtfs: &mut MyGtfs) -> (d: AppData)
    requires
        feed_is_complete(*old(gtfs)),
    ensures
        final(gtfs).agencies@ == sorted_agencies(old(gtfs).agencies@),
        final(gtfs).routes@ == sorted_routes(old(gtfs).routes@),
        final(gtfs).trips@ == sorted_trips(old(gtfs).trips@),
        final(gtfs).stop_times@ == sorted_stop_times(old(gtfs).stop_times@),
        final(gtfs).stops@ == old(gtfs).stops@,
        final(gtfs).shapes@ == old(gtfs).shapes@,
        is_initial_data(d, *final(gtfs)),
        d.wf(),
        texts_ascending(crate::runs::trip_ids(d.stop_times@)),
{
    let ghost g0 = *gtfs;
    sort_trips(&mut gtfs.trips);
    sort_stop_times(&mut gtfs.stop_times);
    proof {
        lemma_sorted_feed_complete(g0, *gtfs);
    }
    let stop_time_range_from_trip_id = stop_time_blocks(&gtfs.stop_times);
    sort_agencies(&mut gtfs.agencies);
    let stops = stop_items(&gtfs.stops);
    let stop_index_from_id = stop_order(&stops);
    let shapes_range_from_shape_id = shape_blocks(&gtfs.shapes);
    sort_routes(&mut gtfs.routes);
    let my_gtfs = copy_tables(gtfs);
    let agencies = agency_items(&gtfs.agencies, &gtfs.routes);
    let stop_times = stop_time_items(&gtfs.stop_times, &gtfs.stops, &stops, &stop_index_from_id);
    let trips = trip_items(&gtfs.trips, &stop_time_range_from_trip_id, &gtfs.stop_times);
    let routes = route_items(&gtfs.routes, &gtfs.trips);
    let d = AppData {
        insert_stop_time_before: None,
        show_deleted: true,
        show_edits: false,
        show_actions: false,
        gtfs: my_gtfs,
        selected_agency_id: None,
        selected_route_id: None,
        selected_trip_id: None,
        selected_stop_time_id: None,
        hovered_stop_time_id: None,
        selected_stop_id: None,
        hovered_trip_paths: Vec::new(),
        stop_time_range_from_trip_id,
        stop_index_from_id,
        shapes_range_from_shape_id,
        agencies,
        routes,
        trips,
        stop_times,
        stops,
        expanded: true,
        actions: Vec::new(),
        edits: Vec::new(),
        map_zoom_level: ZoomLevel::One,
        map_stop_selection_mode: false,
    };
    proof {
        assert(crate::runs::trip_ids(d.stop_times@) =~= stop_time_trip_ids(gtfs.stop_times@));
    }
    d
}

/// Whether the feed can be opened (see `feed_is_complete`): it has stop times, each
/// calls at a stop of the feed, and each trip has stop times.
pub fn feed_complete(g: &MyGtfs) -> (r: bool)
    ensures
        r == feed_is_complete(*g),
{
    if g.stop_times.len() == 0 {
        return false;
    }
    let mut stop_texts: Vec<&String> = Vec::new();
    let mut k: usize = 0;
    while k < g.stops.len()
        invariant
            k <= g.stops.len(),
            stop_texts.len() == k,
            forall|j: int| 0 <= j < k ==> #[trigger] stop_texts@[j] == g.stops@[j].id,
        decreases g.stops.len() - k,
    {
        stop_texts.push(&g.stops[k].id);
        k = k + 1;
    }
    assert(text_views(stop_texts@) =~= stop_record_ids(g.stops@));
    let stop_set = sorted_texts(&stop_texts);
    let mut i: usize = 0;
    while i < g.stop_times.len()
        invariant
            i <= g.stop_times.len(),
            texts_ascending(text_views(stop_set@)),
            forall|id: Seq<char>| #[trigger] has_text(text_views(stop_set@), id) == has_text(stop_record_ids(g.stops@), id),
            forall|j: int| 0 <= j < i ==> has_stop(g.stops@, #[trigger] g.stop_times@[j].stop_id@),
        decreases g.stop_times.len() - i,
    {
        let known = contains_sorted(&stop_set, &g.stop_times[i].stop_id);
        proof {
            let id = g.stop_times@[i as int].stop_id@;
            if has_stop(g.stops@, id) {
                let j = choose|j: int| 0 <= j < g.stops.len() && g.stops@[j].id@ == id;
                assert(stop_record_ids(g.stops@)[j] == id);
            }
            if has_text(stop_record_ids(g.stops@), id) {
                let j = choose|j: int| 0 <= j < g.stops.len() && stop_record_ids(g.stops@)[j] == id;
                assert(g.stops@[j].id@ == id);
            }
        }
        if !known {
            return false;
        }
        i = i + 1;
    }
    let mut trip_texts: Vec<&String> = Vec::new();
    let mut k: usize = 0;
    while k < g.stop_times.len()
        invariant
            k <= g.stop_times.len(),
            trip_texts.len() == k,
            forall|j: int| 0 <= j < k ==> #[trigger] trip_texts@[j] == g.stop_times@[j].trip_id,
        decreases g.stop_times.len() - k,
    {
        trip_texts.push(&g.stop_times[k].trip_id);
        k = k + 1;
    }
    assert(text_views(trip_texts@) =~= stop_time_trip_ids(g.stop_times@));
    let trip_set = sorted_texts(&trip_texts);
    let mut t: usize = 0;
    while t < g.trips.len()
        invariant
            t <= g.trips.len(),
            g.stop_times.len() > 0,
            forall|j: int| 0 <= j < g.stop_times.len() ==> has_stop(g.stops@, #[trigger] g.stop_times@[j].stop_id@),
            texts_ascending(text_views(trip_set@)),
            forall|id: Seq<char>| #[trigger] has_text(text_views(trip_set@), id) == has_text(stop_time_trip_ids(g.stop_times@), id),
            forall|j: int| 0 <= j < t ==> has_stop_time(g.stop_times@, #[trigger] g.trips@[j].id@),
        decreases g.trips.len() - t,
    {
        let known = contains_sorted(&trip_set, &g.trips[t].id);
        proof {
            let id = g.trips@[t as int].id@;
            if has_stop_time(g.stop_times@, id) {
                let j = choose|j: int| 0 <= j < g.stop_times.len() && g.stop_times@[j].trip_id@ == id;
                assert(stop_time_trip_ids(g.stop_times@)[j] == id);
            }
            if has_text(stop_time_trip_ids(g.stop_times@), id) {
                let j = choose|j: int| 0 <= j < g.stop_times.len() && stop_time_trip_ids(g.stop_times@)[j] == id;
                assert(g.stop_times@[j].trip_id@ == id);
            }
        }
        if !known {
            return false;
        }
        t = t + 1;
    }
    true
}

} // verus!

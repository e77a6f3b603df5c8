use gtfs_manager::app_data::AppData;
use gtfs_manager::delegate::{AppCommand, Delegate};
use gtfs_manager::items::{EditType, ListItem, MyAgency, MyRoute, MyStop, MyStopTime, MyTrip};
use gtfs_manager::map_input::{route_trip_ids, MapMove, MapRelease};
use gtfs_manager::queries::{first_stop_with_id, stop_under_pointer};
use gtfs_manager::stops::stop_position;
use gtfs_manager::feed::{feed_complete, make_initial_data};
use gtfs_manager::kinds::{
    Availability, BikesAllowedType, ContinuousPickupDropOff, LocationType, PickupDropOffType, Rgb8,
    RouteType, TimepointType,
};
use gtfs_manager::records::{
    AgencyRecord, MyGtfs, RouteRecord, ShapeRecord, StopRecord, StopTimeRecord, TripRecord,
};
use gtfs_manager::runs::IdRange;

fn agency(id: &str, name: &str) -> AgencyRecord {
    AgencyRecord {
        id: Some(id.to_string()),
        name: name.to_string(),
        url: "https://example.org".to_string(),
        timezone: "UTC".to_string(),
        lang: None,
        phone: None,
        fare_url: None,
        email: None,
    }
}

fn route(id: &str, agency_id: &str, short_name: &str) -> RouteRecord {
    RouteRecord {
        id: id.to_string(),
        short_name: short_name.to_string(),
        long_name: format!("{} long", short_name),
        desc: None,
        route_type: RouteType::Bus,
        url: None,
        agency_id: Some(agency_id.to_string()),
        order: None,
        color: Rgb8 { r: 1, g: 2, b: 3 },
        text_color: Rgb8 { r: 0, g: 0, b: 0 },
        continuous_pickup: ContinuousPickupDropOff::NotAvailable,
        continuous_drop_off: ContinuousPickupDropOff::NotAvailable,
    }
}

fn trip(id: &str, route_id: &str, shape_id: Option<&str>) -> TripRecord {
    TripRecord {
        id: id.to_string(),
        service_id: "weekdays".to_string(),
        route_id: route_id.to_string(),
        shape_id: shape_id.map(|s| s.to_string()),
        trip_headsign: None,
        trip_short_name: None,
        direction_id: None,
        block_id: None,
        wheelchair_accessible: Availability::InformationNotAvailable,
        bikes_allowed: BikesAllowedType::NoBikeInfo,
    }
}

fn stop_time(trip_id: &str, stop_id: &str, seq: u16) -> StopTimeRecord {
    StopTimeRecord {
        trip_id: trip_id.to_string(),
        arrival_time: Some(3600 * seq as u32),
        departure_time: Some(3600 * seq as u32 + 60),
        stop_id: stop_id.to_string(),
        stop_sequence: seq,
        stop_headsign: None,
        pickup_type: PickupDropOffType::Regular,
        drop_off_type: PickupDropOffType::Regular,
        continuous_pickup: ContinuousPickupDropOff::NotAvailable,
        continuous_drop_off: ContinuousPickupDropOff::NotAvailable,
        timepoint: TimepointType::Exact,
    }
}

fn stop(id: &str, name: &str) -> StopRecord {
    StopRecord {
        id: id.to_string(),
        code: None,
        name: name.to_string(),
        description: String::new(),
        location_type: LocationType::StopPoint,
        parent_station: None,
        zone_id: None,
        url: None,
        timezone: None,
        wheelchair_boarding: Availability::InformationNotAvailable,
        level_id: None,
        platform_code: None,
        transfers: 0,
        pathways: 0,
    }
}

fn shape(id: &str, sequence: usize) -> ShapeRecord {
    ShapeRecord { id: id.to_string(), sequence }
}

fn sample_feed() -> MyGtfs {
    MyGtfs {
        agencies: vec![agency("A2", "Zeta"), agency("A1", "Acme")],
        routes: vec![route("R1", "A1", "10"), route("R2", "A1", "2"), route("R3", "A2", "5")],
        trips: vec![trip("T2", "R1", Some("SA")), trip("T1", "R1", None), trip("T3", "R3", Some("SB"))],
        stop_times: vec![
            stop_time("T2", "S1", 2),
            stop_time("T1", "S2", 2),
            stop_time("T2", "S3", 1),
            stop_time("T1", "S1", 1),
            stop_time("T3", "S3", 1),
        ],
        stops: vec![stop("S2", "Beta"), stop("S1", "Alpha"), stop("S3", "Gamma")],
        shapes: vec![shape("SA", 2), shape("SA", 1), shape("SB", 1)],
    }
}

fn ranges(rs: &[IdRange]) -> Vec<(String, usize, usize)> {
    rs.iter().map(|r| (r.id.clone(), r.start, r.end)).collect()
}

fn initial() -> (MyGtfs, AppData) {
    let mut g = sample_feed();
    let d = make_initial_data(&mut g);
    (g, d)
}

#[test]
fn initial_data_sorts_agencies_by_name() {
    let (g, d) = initial();
    let names: Vec<&str> = g.agencies.iter().map(|a| a.name.as_str()).collect();
    assert_eq!(names, vec!["Acme", "Zeta"]);
    let shown: Vec<&str> = d.agencies.iter().map(|a| a.name.as_str()).collect();
    assert_eq!(shown, vec!["Acme", "Zeta"]);
}

#[test]
fn initial_data_sorts_routes_by_short_name_bytes() {
    let (g, d) = initial();
    let names: Vec<&str> = g.routes.iter().map(|r| r.short_name.as_str()).collect();
    assert_eq!(names, vec!["10", "2", "5"]);
    let ids: Vec<&str> = d.routes.iter().map(|r| r.id.as_str()).collect();
    assert_eq!(ids, vec!["R1", "R2", "R3"]);
}

#[test]
fn initial_data_sorts_trips_by_id() {
    let (g, d) = initial();
    let ids: Vec<&str> = g.trips.iter().map(|t| t.id.as_str()).collect();
    assert_eq!(ids, vec!["T1", "T2", "T3"]);
    let names: Vec<&str> = d.trips.iter().map(|t| t.name.as_str()).collect();
    assert_eq!(names, vec!["T1", "T2", "T3"]);
}

#[test]
fn initial_data_sorts_stop_times_by_trip_then_sequence() {
    let (g, d) = initial();
    let keys: Vec<(&str, u16)> = g.stop_times.iter().map(|s| (s.trip_id.as_str(), s.stop_sequence)).collect();
    assert_eq!(keys, vec![("T1", 1), ("T1", 2), ("T2", 1), ("T2", 2), ("T3", 1)]);
    let shown: Vec<(&str, u16)> = d.stop_times.iter().map(|s| (s.trip_id.as_str(), s.stop_sequence)).collect();
    assert_eq!(shown, keys);
}

#[test]
fn initial_data_keeps_stops_and_shapes_in_order() {
    let (g, d) = initial();
    let stops: Vec<&str> = g.stops.iter().map(|s| s.id.as_str()).collect();
    assert_eq!(stops, vec!["S2", "S1", "S3"]);
    let shapes: Vec<(&str, usize)> = d.gtfs.shapes.iter().map(|s| (s.id.as_str(), s.sequence)).collect();
    assert_eq!(shapes, vec![("SA", 2), ("SA", 1), ("SB", 1)]);
}

#[test]
fn initial_data_counts_routes_trips_and_stops() {
    let (_, d) = initial();
    let agency_counts: Vec<usize> = d.agencies.iter().map(|a| a.n_stops).collect();
    assert_eq!(agency_counts, vec![2, 1]);
    let route_counts: Vec<usize> = d.routes.iter().map(|r| r.n_trips).collect();
    assert_eq!(route_counts, vec![2, 0, 1]);
    let trip_counts: Vec<usize> = d.trips.iter().map(|t| t.n_stops).collect();
    assert_eq!(trip_counts, vec![2, 2, 1]);
}

#[test]
fn initial_data_names_the_stop_of_each_stop_time() {
    let (_, d) = initial();
    let names: Vec<&str> = d.stop_times.iter().map(|s| s.stop_name.as_str()).collect();
    assert_eq!(names, vec!["Alpha", "Beta", "Gamma", "Alpha", "Gamma"]);
    assert!(d.stop_times.iter().all(|s| !s.edited && !s.selected && !s.hovered));
}

#[test]
fn initial_data_blocks_of_trips_and_shapes() {
    let (_, d) = initial();
    assert_eq!(
        ranges(&d.stop_time_range_from_trip_id),
        vec![("T1".to_string(), 0, 2), ("T2".to_string(), 2, 4), ("T3".to_string(), 4, 5)]
    );
    assert_eq!(ranges(&d.shapes_range_from_shape_id), vec![("SA".to_string(), 0, 2), ("SB".to_string(), 2, 3)]);
}

#[test]
fn initial_data_orders_stops_by_identifier() {
    let (_, d) = initial();
    assert_eq!(d.stop_index_from_id, vec![1, 0, 2]);
}

#[test]
fn initial_data_starts_with_nothing_selected() {
    let (_, d) = initial();
    assert!(d.selected_agency_id.is_none());
    assert!(d.selected_route_id.is_none());
    assert!(d.selected_trip_id.is_none());
    assert!(d.selected_stop_time_id.is_none());
    assert!(d.hovered_stop_time_id.is_none());
    assert!(d.selected_stop_id.is_none());
    assert!(d.insert_stop_time_before.is_none());
    assert!(d.show_deleted && !d.show_edits && !d.show_actions);
    assert!(d.actions.is_empty());
    assert!(!d.map_stop_selection_mode);
    assert_eq!(d.map_zoom_level.to_usize(), 1);
}

fn stop_time_keys(d: &AppData) -> Vec<(String, String, u16)> {
    d.stop_times.iter().map(|s| (s.trip_id.clone(), s.stop_id.clone(), s.stop_sequence)).collect()
}

fn key(t: &str, s: &str, q: u16) -> (String, String, u16) {
    (t.to_string(), s.to_string(), q)
}

fn run(d: &mut AppData, cmd: AppCommand) -> bool {
    let mut delegate = Delegate;
    assert!(delegate.can_answer(&cmd, d));
    delegate.command(cmd, d)
}

fn is_uuid_v4_text(s: &str) -> bool {
    let b = s.as_bytes();
    b.len() == 36
        && b.iter().enumerate().all(|(i, c)| {
            if i == 8 || i == 13 || i == 18 || i == 23 {
                *c == b'-'
            } else {
                c.is_ascii_digit() || (b'a'..=b'f').contains(c)
            }
        })
        && b[14] == b'4'
        && matches!(b[19], b'8' | b'9' | b'a' | b'b')
}

#[test]
fn select_trip_flags_only_that_trip() {
    let (_, mut d) = initial();
    assert!(run(&mut d, AppCommand::SelectTrip("T2".to_string())));
    let flags: Vec<bool> = d.trips.iter().map(|t| t.selected).collect();
    assert_eq!(flags, vec![false, true, false]);
    assert_eq!(d.selected_trip_id, Some((1, "T2".to_string())));
    assert!(d.selected_stop_time_id.is_none());
}

#[test]
fn select_trip_unknown_is_refused() {
    let (_, d) = initial();
    let delegate = Delegate;
    assert!(!delegate.can_answer(&AppCommand::SelectTrip("T9".to_string()), &d));
}

#[test]
fn select_route_clears_lower_selections() {
    let (_, mut d) = initial();
    run(&mut d, AppCommand::SelectTrip("T1".to_string()));
    run(&mut d, AppCommand::SelectStopTime(("T1".to_string(), 2)));
    run(&mut d, AppCommand::SelectRoute("R3".to_string()));
    assert_eq!(d.selected_route_id, Some("R3".to_string()));
    assert!(d.selected_trip_id.is_none());
    assert!(d.selected_stop_time_id.is_none());
    let flags: Vec<bool> = d.routes.iter().map(|r| r.selected).collect();
    assert_eq!(flags, vec![false, false, true]);
}

#[test]
fn select_agency_flags_matching_agency() {
    let (_, mut d) = initial();
    run(&mut d, AppCommand::SelectRoute("R1".to_string()));
    run(&mut d, AppCommand::SelectAgency(Some("A1".to_string())));
    let flags: Vec<bool> = d.agencies.iter().map(|a| a.selected).collect();
    assert_eq!(flags, vec![true, false]);
    assert_eq!(d.selected_agency_id, Some(Some("A1".to_string())));
    assert!(d.selected_route_id.is_none());
}

#[test]
fn select_nothing_clears_everything() {
    let (_, mut d) = initial();
    run(&mut d, AppCommand::SelectTrip("T3".to_string()));
    run(&mut d, AppCommand::SelectStopList("S1".to_string()));
    run(&mut d, AppCommand::SelectNothing);
    assert!(d.trips.iter().all(|t| !t.selected));
    assert!(d.selected_trip_id.is_none() && d.selected_stop_id.is_none() && d.selected_route_id.is_none());
    assert!(d.selected_agency_id.is_none());
}

#[test]
fn select_stop_time_flags_that_stop_time() {
    let (_, mut d) = initial();
    run(&mut d, AppCommand::SelectStopList("S2".to_string()));
    run(&mut d, AppCommand::SelectStopTime(("T2".to_string(), 1)));
    let flags: Vec<bool> = d.stop_times.iter().map(|s| s.selected).collect();
    assert_eq!(flags, vec![false, false, true, false, false]);
    assert!(d.selected_stop_id.is_none());
}

#[test]
fn select_stop_on_map_and_in_list() {
    let (_, mut d) = initial();
    run(&mut d, AppCommand::SelectRoute("R1".to_string()));
    run(&mut d, AppCommand::SelectStopMap("S3".to_string()));
    let flags: Vec<bool> = d.stops.iter().map(|s| s.selected).collect();
    assert_eq!(flags, vec![false, false, true]);
    assert!(d.selected_route_id.is_none());
    assert!(d.selected_stop_id.is_none());
    run(&mut d, AppCommand::SelectStopList("S2".to_string()));
    let flags: Vec<bool> = d.stops.iter().map(|s| s.selected).collect();
    assert_eq!(flags, vec![true, false, false]);
    assert_eq!(d.selected_stop_id, Some("S2".to_string()));
}

#[test]
fn hover_flags_the_stop_time_of_its_trip() {
    let (_, mut d) = initial();
    run(&mut d, AppCommand::HoverStopTime(Some(("T1".to_string(), 2))));
    let flags: Vec<bool> = d.stop_times.iter().map(|s| s.hovered).collect();
    assert_eq!(flags, vec![false, true, false, false, false]);
    run(&mut d, AppCommand::HoverStopTime(Some(("T2".to_string(), 1))));
    let flags: Vec<bool> = d.stop_times.iter().map(|s| s.hovered).collect();
    assert_eq!(flags, vec![false, false, true, false, false]);
}

#[test]
fn hover_then_leave_clears_the_flags() {
    let (_, mut d) = initial();
    let before = stop_time_keys(&d);
    run(&mut d, AppCommand::HoverStopTime(Some(("T2".to_string(), 2))));
    run(&mut d, AppCommand::HoverStopTime(None));
    assert!(d.stop_times.iter().all(|s| !s.hovered));
    assert_eq!(stop_time_keys(&d), before);
    assert!(d.hovered_stop_time_id.is_none());
}

#[test]
fn hover_of_trip_or_route_is_not_answered() {
    let (_, mut d) = initial();
    assert!(!run(&mut d, AppCommand::HoverTrip(Some("T1".to_string()))));
    assert!(!run(&mut d, AppCommand::HoverRoute(Some("R1".to_string()))));
    assert!(d.stop_times.iter().all(|s| !s.hovered));
}

#[test]
fn hover_of_unknown_trip_is_refused() {
    let (_, d) = initial();
    let delegate = Delegate;
    assert!(!delegate.can_answer(&AppCommand::HoverStopTime(Some(("T9".to_string(), 1))), &d));
}

#[test]
fn item_delete_and_update_change_nothing() {
    let (_, mut d) = initial();
    let before = stop_time_keys(&d);
    assert!(run(&mut d, AppCommand::ItemDelete("trip".to_string(), "T1".to_string())));
    assert!(run(&mut d, AppCommand::ItemUpdate("trip".to_string(), "T1".to_string())));
    assert_eq!(stop_time_keys(&d), before);
    assert_eq!(d.trips.len(), 3);
}

#[test]
fn new_child_of_agency_records_a_route_creation() {
    let (_, mut d) = initial();
    run(&mut d, AppCommand::ItemNewChild("agency".to_string(), "A2".to_string()));
    run(&mut d, AppCommand::ItemNewChild("route".to_string(), "R1".to_string()));
    run(&mut d, AppCommand::ItemNewChild("agency".to_string(), "A1".to_string()));
    let actions: Vec<(usize, EditType, String, String)> =
        d.actions.iter().map(|a| (a.id, a.edit_type, a.item_type.clone(), a.item_id.clone())).collect();
    assert_eq!(
        actions,
        vec![
            (0, EditType::Create, "route".to_string(), "A2".to_string()),
            (1, EditType::Create, "route".to_string(), "A1".to_string()),
        ]
    );
}

#[test]
fn delete_edit_removes_only_that_number() {
    let (_, mut d) = initial();
    run(&mut d, AppCommand::ItemNewChild("agency".to_string(), "A1".to_string()));
    run(&mut d, AppCommand::ItemNewChild("agency".to_string(), "A2".to_string()));
    run(&mut d, AppCommand::ItemNewChild("agency".to_string(), "A1".to_string()));
    run(&mut d, AppCommand::EditDelete(1));
    let ids: Vec<usize> = d.actions.iter().map(|a| a.id).collect();
    assert_eq!(ids, vec![0, 2]);
    let delegate = Delegate;
    assert!(!delegate.can_answer(&AppCommand::EditDelete(2), &d));
}

#[test]
fn delete_edit_needs_that_many_edits() {
    let (_, d) = initial();
    let delegate = Delegate;
    assert!(!delegate.can_answer(&AppCommand::EditDelete(0), &d));
}

#[test]
fn add_route_puts_a_new_route_first() {
    let (_, mut d) = initial();
    run(&mut d, AppCommand::AddRoute(Some("A2".to_string())));
    assert_eq!(d.routes.len(), 4);
    let r = &d.routes[0];
    assert!(r.new_item && r.live && !r.selected);
    assert_eq!(r.agency_id, Some("A2".to_string()));
    assert_eq!(r.short_name, "Short name");
    assert_eq!(r.long_name, "Long name");
    assert_eq!(r.n_trips, 0);
    assert!(is_uuid_v4_text(&r.id));
    let rest: Vec<&str> = d.routes[1..].iter().map(|r| r.id.as_str()).collect();
    assert_eq!(rest, vec!["R1", "R2", "R3"]);
}

#[test]
fn choosing_turns_on_map_selection() {
    let (_, mut d) = initial();
    run(&mut d, AppCommand::AddTrip("R1".to_string()));
    assert!(d.map_stop_selection_mode);
    let (_, mut d) = initial();
    run(&mut d, AppCommand::EditStopTimeChoose);
    assert!(d.map_stop_selection_mode);
    assert!(d.insert_stop_time_before.is_none());
    let (_, mut d) = initial();
    run(&mut d, AppCommand::AddStopTimeChoose(true));
    assert!(d.map_stop_selection_mode);
    assert_eq!(d.insert_stop_time_before, Some(true));
}

#[test]
fn insert_stop_time_after_renumbers_the_trip() {
    let (_, mut d) = initial();
    run(&mut d, AppCommand::SelectStopTime(("T1".to_string(), 1)));
    run(&mut d, AppCommand::AddStopTimeChoose(false));
    run(&mut d, AppCommand::EditStopTimeUpdate("S3".to_string()));
    assert_eq!(
        stop_time_keys(&d),
        vec![
            key("T1", "S1", 1),
            key("T1", "S3", 2),
            key("T1", "S2", 3),
            key("T2", "S3", 1),
            key("T2", "S1", 2),
            key("T3", "S3", 1)
        ]
    );
    assert!(d.stop_times[1].edited);
    assert_eq!(
        ranges(&d.stop_time_range_from_trip_id),
        vec![("T1".to_string(), 0, 3), ("T2".to_string(), 3, 5), ("T3".to_string(), 5, 6)]
    );
    assert_eq!(d.trips[0].n_stops, 3);
    assert!(d.insert_stop_time_before.is_none());
}

#[test]
fn insert_stop_time_before_renumbers_the_trip() {
    let (_, mut d) = initial();
    run(&mut d, AppCommand::SelectStopTime(("T2".to_string(), 1)));
    run(&mut d, AppCommand::AddStopTimeChoose(true));
    run(&mut d, AppCommand::EditStopTimeUpdate("S2".to_string()));
    assert_eq!(
        stop_time_keys(&d),
        vec![
            key("T1", "S1", 1),
            key("T1", "S2", 2),
            key("T2", "S2", 1),
            key("T2", "S3", 2),
            key("T2", "S1", 3),
            key("T3", "S3", 1)
        ]
    );
    assert_eq!(d.trips[1].n_stops, 3);
}

#[test]
fn update_moves_the_selected_stop_time() {
    let (_, mut d) = initial();
    run(&mut d, AppCommand::SelectStopTime(("T2".to_string(), 2)));
    run(&mut d, AppCommand::EditStopTimeUpdate("S2".to_string()));
    assert_eq!(d.stop_times[3].stop_id, "S2");
    assert!(d.stop_times[3].edited);
    assert_eq!(d.stop_times[3].stop_sequence, 2);
    assert_eq!(d.stop_times.len(), 5);
}

#[test]
fn placing_with_only_a_route_starts_a_trip() {
    let (_, mut d) = initial();
    run(&mut d, AppCommand::SelectRoute("R2".to_string()));
    run(&mut d, AppCommand::EditStopTimeUpdate("S1".to_string()));
    assert_eq!(d.trips.len(), 4);
    let t = &d.trips[0];
    assert_eq!(t.route_id, "R2");
    assert_eq!(t.n_stops, 1);
    assert!(is_uuid_v4_text(&t.id));
    let last = d.stop_times.last().unwrap();
    assert_eq!((last.trip_id.as_str(), last.stop_id.as_str(), last.stop_sequence), (t.id.as_str(), "S1", 1));
    let rs = ranges(&d.stop_time_range_from_trip_id);
    assert_eq!(rs.last().unwrap(), &(t.id.clone(), 5, 6));
}

#[test]
fn placing_with_nothing_selected_is_refused() {
    let (_, d) = initial();
    let delegate = Delegate;
    assert!(!delegate.can_answer(&AppCommand::EditStopTimeUpdate("S1".to_string()), &d));
    assert!(!delegate.can_answer(&AppCommand::NewStop, &d));
}

#[test]
fn new_stop_is_added_and_placed() {
    let (_, mut d) = initial();
    run(&mut d, AppCommand::SelectStopTime(("T3".to_string(), 1)));
    run(&mut d, AppCommand::NewStop);
    assert_eq!(d.stops.len(), 4);
    let s = d.stops.last().unwrap();
    assert_eq!(s.name, "new stop");
    assert!(is_uuid_v4_text(&s.id));
    let id = s.id.clone();
    assert_eq!(d.stop_times[4].stop_id, id);
    assert!(d.stop_times[4].edited);
    assert_eq!(stop_position(&d.stops, &d.stop_index_from_id, &id), Some(3));
    assert_eq!(d.stop_index_from_id.len(), 4);
}

#[test]
fn new_child_of_route_and_agency_gives_fresh_ids() {
    let (_, mut d) = initial();
    let before = d.routes[0].id.clone();
    let a = d.routes[0].new_child();
    let b = d.routes[0].new_child();
    assert!(is_uuid_v4_text(&a) && is_uuid_v4_text(&b));
    assert_ne!(a, b);
    assert_eq!(d.routes[0].id, before);
    let c = d.agencies[0].new_child();
    assert!(is_uuid_v4_text(&c));
}

#[test]
fn list_items_describe_themselves() {
    let (_, mut d) = initial();
    assert_eq!(d.stops[0].item_type(), "stop");
    assert_eq!(d.stops[0].id(), "S2");
    assert_eq!(d.stops[0].n_stops(), 99);
    assert!(!d.stops[0].show_editing());
    assert_eq!(d.stops[0].data_info(), "not implemented");
    assert_eq!(d.stop_times[1].item_type(), "stop_time");
    assert_eq!(d.stop_times[1].id(), "S2");
    assert_eq!(d.trips[2].item_type(), "trip");
    assert_eq!(d.trips[2].n_stops(), 1);
    assert_eq!(d.routes[1].item_type(), "route");
    assert_eq!(d.routes[1].data_info(), "2 -> 2");
    d.routes[1].short_name = "2X".to_string();
    assert_eq!(d.routes[1].data_info(), "2 -> 2X");
    assert_eq!(d.agencies[1].item_type(), "agency");
    assert_eq!(d.agencies[1].id(), "A2");
    assert_eq!(d.id(), "null");
    assert_eq!(d.item_type(), "null");
    d.stops[1].update_all(true);
    assert!(d.stops[1].selected());
    d.stop_times[0].update_all(true);
    assert!(d.stop_times[0].selected());
    d.trips[0].update_all(true);
    assert!(!d.trips[0].selected());
}

#[test]
fn new_items_have_their_defaults() {
    let s = MyStop::new();
    assert!(s.live && !s.selected);
    assert!(is_uuid_v4_text(&s.id));
    let st = MyStopTime::new("T1".to_string(), "S1".to_string(), 7);
    assert!(st.edited && st.live);
    assert_eq!((st.trip_id.as_str(), st.stop_id.as_str(), st.stop_sequence), ("T1", "S1", 7));
    let t = MyTrip::new("R1".to_string());
    assert_eq!(t.route_id, "R1");
    assert_eq!(t.n_stops, 0);
    assert_eq!(t.service_id, "needtogetcalendar.serviceid");
    let r = MyRoute::new(None);
    assert!(r.agency_id.is_none());
    let a = MyAgency::default();
    assert!(a.id.is_none() && !a.live && a.n_stops == 0);
}

#[test]
fn trip_stop_positions_follow_the_trip() {
    let (_, d) = initial();
    assert_eq!(d.trip_stop_positions(&"T2".to_string()), vec![2, 1]);
    assert_eq!(d.trip_stop_positions(&"T1".to_string()), vec![1, 0]);
}

#[test]
fn every_trip_stop_and_shape_positions() {
    let (_, d) = initial();
    assert_eq!(d.trips_stop_positions(), vec![vec![1, 0], vec![2, 1], vec![2]]);
    assert_eq!(d.trips_shape_positions(), vec![vec![], vec![1, 0], vec![2]]);
}

fn path_trips() -> Vec<String> {
    vec!["T1".to_string(), "T2".to_string(), "T3".to_string()]
}

#[test]
fn release_off_map_or_after_drag_or_on_minimap() {
    let (_, mut d) = initial();
    let paths = path_trips();
    assert!(matches!(d.release_on_map(&paths, false, true, false, false, &None), MapRelease::Ignore));
    assert!(matches!(d.release_on_map(&paths, true, false, false, false, &None), MapRelease::EndDrag));
    assert!(matches!(d.release_on_map(&paths, true, true, true, false, &None), MapRelease::Recenter));
    assert!(matches!(d.release_on_map(&paths, true, true, false, false, &None), MapRelease::Nothing));
    assert!(d.selected_trip_id.is_none());
}

#[test]
fn release_on_hovered_path_selects_its_trip() {
    let (_, mut d) = initial();
    let paths = path_trips();
    assert!(d.show_hovered_paths(vec![1, 2]));
    assert!(d.release_can_be_answered(&paths, true, true, false));
    assert!(matches!(d.release_on_map(&paths, true, true, false, false, &None), MapRelease::SelectedTripPath));
    assert_eq!(d.selected_trip_id, Some((1, "T2".to_string())));
    assert_eq!(d.selected_route_id, Some("R1".to_string()));
    assert_eq!(d.selected_agency_id, Some(Some("A1".to_string())));
}

#[test]
fn release_on_unknown_path_cannot_be_answered() {
    let (_, mut d) = initial();
    let paths = vec!["T1".to_string(), "T9".to_string()];
    d.show_hovered_paths(vec![1]);
    assert!(!d.release_can_be_answered(&paths, true, true, false));
    assert!(d.release_can_be_answered(&paths, true, true, true));
}

#[test]
fn release_on_selected_path() {
    let (_, mut d) = initial();
    let paths = path_trips();
    run(&mut d, AppCommand::SelectTrip("T2".to_string()));
    match d.release_on_map(&paths, true, true, false, true, &None) {
        MapRelease::Send(AppCommand::SelectTrip(t)) => assert_eq!(t, "T2"),
        _ => panic!("expected the trip to be selected"),
    }
    d.show_hovered_stop_time(Some(("T2".to_string(), 1)));
    match d.release_on_map(&paths, true, true, false, true, &None) {
        MapRelease::Send(AppCommand::SelectStopTime((t, q))) => assert_eq!((t.as_str(), q), ("T2", 1)),
        _ => panic!("expected the stop time to be selected"),
    }
    assert!(matches!(
        d.release_on_map(&paths, true, true, false, false, &None),
        MapRelease::Send(AppCommand::SelectNothing)
    ));
}

#[test]
fn release_while_choosing_a_stop() {
    let (_, mut d) = initial();
    let paths = path_trips();
    run(&mut d, AppCommand::EditStopTimeChoose);
    match d.release_on_map(&paths, true, true, false, false, &Some("S2".to_string())) {
        MapRelease::Send(AppCommand::EditStopTimeUpdate(s)) => assert_eq!(s, "S2"),
        _ => panic!("expected the stop to be sent"),
    }
    assert!(!d.map_stop_selection_mode);
    run(&mut d, AppCommand::EditStopTimeChoose);
    assert!(matches!(d.release_on_map(&paths, true, true, false, false, &None), MapRelease::NewStopAtPointer));
    assert!(!d.map_stop_selection_mode);
}

#[test]
fn pointer_moves_on_the_map() {
    let (_, mut d) = initial();
    d.show_hovered_stop_time(Some(("T1".to_string(), 1)));
    assert!(d.pointer_moved_on_map(true, true, false) == MapMove::Pan);
    assert!(d.hovered_stop_time_id.is_none());
    assert!(d.pointer_moved_on_map(true, false, false) == MapMove::EndDrag);
    assert!(d.pointer_moved_on_map(false, false, true) == MapMove::HoverPaths);
    run(&mut d, AppCommand::SelectTrip("T1".to_string()));
    assert!(d.pointer_moved_on_map(false, false, true) == MapMove::HoverStopTime);
    assert!(d.pointer_moved_on_map(false, false, false) == MapMove::HoverPaths);
    run(&mut d, AppCommand::EditStopTimeChoose);
    assert!(d.pointer_moved_on_map(false, false, true) == MapMove::HoverStop);
}

#[test]
fn hovered_paths_report_changes() {
    let (_, mut d) = initial();
    assert!(!d.show_hovered_paths(vec![]));
    assert!(d.show_hovered_paths(vec![0, 2]));
    assert!(!d.show_hovered_paths(vec![0, 2]));
    assert_eq!(d.hovered_trip_paths, vec![0, 2]);
    d.show_hovered_stop_time(None);
    assert!(d.hovered_trip_paths.is_empty());
}

#[test]
fn paths_to_rebuild_after_edits() {
    let (_, d0) = initial();
    let mut d1 = initial().1;
    run(&mut d1, AppCommand::SelectStopTime(("T2".to_string(), 2)));
    run(&mut d1, AppCommand::EditStopTimeUpdate("S2".to_string()));
    assert!(AppData::redraw_can_be_found(&d0, &d1));
    assert_eq!(AppData::paths_to_rebuild(&d0, &d1), vec![1]);
    let mut d2 = initial().1;
    run(&mut d2, AppCommand::SelectStopTime(("T3".to_string(), 1)));
    run(&mut d2, AppCommand::AddStopTimeChoose(true));
    run(&mut d2, AppCommand::EditStopTimeUpdate("S1".to_string()));
    assert!(AppData::redraw_can_be_found(&d0, &d2));
    assert_eq!(AppData::paths_to_rebuild(&d0, &d2), vec![2]);
    let mut d3 = initial().1;
    run(&mut d3, AppCommand::SelectRoute("R2".to_string()));
    run(&mut d3, AppCommand::EditStopTimeUpdate("S1".to_string()));
    assert!(AppData::paths_to_rebuild(&d0, &d3).is_empty());
    assert!(AppData::paths_to_rebuild(&d0, &d0).is_empty());
}

#[test]
fn route_shown_after_selection_changes() {
    let (_, d0) = initial();
    let mut d1 = initial().1;
    run(&mut d1, AppCommand::SelectRoute("R3".to_string()));
    assert_eq!(AppData::route_to_show(&d0, &d1), Some("R3".to_string()));
    assert_eq!(AppData::route_to_show(&d1, &d1), None);
    let mut d2 = initial().1;
    run(&mut d2, AppCommand::SelectTrip("T3".to_string()));
    assert_eq!(AppData::route_to_show(&d0, &d2), None);
    assert_eq!(route_trip_ids(&d0.trips, &"R1".to_string()), vec!["T1".to_string(), "T2".to_string()]);
    assert!(route_trip_ids(&d0.trips, &"R2".to_string()).is_empty());
}

#[test]
fn drawn_trips_and_their_routes() {
    let (_, mut d) = initial();
    assert_eq!(d.drawn_trips(), vec![(0, 0), (1, 0), (2, 2)]);
    d.trips[1].visible = false;
    assert_eq!(d.drawn_trips(), vec![(0, 0), (2, 2)]);
}

#[test]
fn stop_time_and_stop_under_the_pointer() {
    let (_, d) = initial();
    let hit = vec![false, true, false];
    assert_eq!(d.stop_time_under_pointer(&"T2".to_string(), &hit), Some(("T2".to_string(), 2)));
    assert_eq!(d.stop_time_under_pointer(&"T1".to_string(), &hit), Some(("T1".to_string(), 1)));
    assert_eq!(d.stop_time_under_pointer(&"T3".to_string(), &hit), None);
    assert_eq!(stop_under_pointer(&d.stops, &vec![false, true, true]), Some("S1".to_string()));
    assert_eq!(stop_under_pointer(&d.stops, &vec![false, false, false]), None);
    assert_eq!(first_stop_with_id(&d.stops, &"S3".to_string()), Some(2));
    assert_eq!(first_stop_with_id(&d.stops, &"S9".to_string()), None);
}

#[test]
fn marks_of_the_selected_trip_stops() {
    let (_, mut d) = initial();
    run(&mut d, AppCommand::SelectStopTime(("T1".to_string(), 2)));
    run(&mut d, AppCommand::HoverStopTime(Some(("T1".to_string(), 1))));
    assert_eq!(d.trip_stop_marks(&"T1".to_string()), vec![(1, true, false), (0, false, true)]);
    assert_eq!(d.trip_stop_marks(&"T2".to_string()), vec![(2, false, false), (1, false, false)]);
}

#[test]
fn what_the_map_can_draw() {
    let (_, mut d) = initial();
    assert!(d.trip_drawable(&"T2".to_string()));
    assert!(!d.trip_drawable(&"T9".to_string()));
    assert!(d.block_drawable(&"T3".to_string()));
    assert!(!d.block_drawable(&"T9".to_string()));
    assert!(d.feed_trips_drawable());
    assert!(d.shapes_drawable());
    assert!(d.visible_routes_found());
    d.trips[0].shape_id = Some("ZZ".to_string());
    assert!(!d.shapes_drawable());
    d.trips[0].route_id = "R9".to_string();
    assert!(!d.visible_routes_found());
    d.trips[0].visible = false;
    assert!(d.visible_routes_found());
}

#[test]
fn a_started_trip_is_not_in_the_feed() {
    let (_, mut d) = initial();
    run(&mut d, AppCommand::SelectRoute("R2".to_string()));
    run(&mut d, AppCommand::EditStopTimeUpdate("S3".to_string()));
    let new_trip = d.trips[0].id.clone();
    assert!(d.trip_drawable(&new_trip));
    assert!(!d.feed_trips_drawable());
}

#[test]
fn insertion_keeps_each_trip_block_exact() {
    let (_, mut d) = initial();
    run(&mut d, AppCommand::SelectStopTime(("T2".to_string(), 2)));
    run(&mut d, AppCommand::AddStopTimeChoose(false));
    run(&mut d, AppCommand::EditStopTimeUpdate("S2".to_string()));
    for r in &d.stop_time_range_from_trip_id {
        for (k, st) in d.stop_times.iter().enumerate() {
            assert_eq!(st.trip_id == r.id, r.start <= k && k < r.end);
        }
    }
    let ids: Vec<&str> = d.stop_times.iter().map(|s| s.trip_id.as_str()).collect();
    assert!(ids.windows(2).all(|w| w[0] <= w[1]));
}

fn assert_blocks_exact(d: &AppData) {
    for r in &d.stop_time_range_from_trip_id {
        for (k, st) in d.stop_times.iter().enumerate() {
            assert_eq!(st.trip_id == r.id, r.start <= k && k < r.end);
        }
    }
}

#[test]
fn blocks_stay_exact_over_a_run_of_edits() {
    let (_, mut d) = initial();
    assert_blocks_exact(&d);
    run(&mut d, AppCommand::HoverStopTime(Some(("T1".to_string(), 2))));
    run(&mut d, AppCommand::SelectStopTime(("T1".to_string(), 2)));
    run(&mut d, AppCommand::AddStopTimeChoose(true));
    run(&mut d, AppCommand::EditStopTimeUpdate("S3".to_string()));
    assert_blocks_exact(&d);
    run(&mut d, AppCommand::SelectStopTime(("T3".to_string(), 1)));
    run(&mut d, AppCommand::AddStopTimeChoose(false));
    run(&mut d, AppCommand::NewStop);
    assert_blocks_exact(&d);
    run(&mut d, AppCommand::SelectStopTime(("T2".to_string(), 1)));
    run(&mut d, AppCommand::EditStopTimeUpdate("S1".to_string()));
    run(&mut d, AppCommand::ItemNewChild("agency".to_string(), "A1".to_string()));
    run(&mut d, AppCommand::HoverStopTime(None));
    assert_blocks_exact(&d);
    let keys: Vec<(&str, u16)> = d.stop_times.iter().map(|s| (s.trip_id.as_str(), s.stop_sequence)).collect();
    assert_eq!(keys, vec![("T1", 1), ("T1", 2), ("T1", 3), ("T2", 1), ("T2", 2), ("T3", 1), ("T3", 2)]);
}

#[test]
fn initial_data_keeps_ties_in_order_and_names_the_last_stop() {
    let mut g = MyGtfs {
        agencies: vec![agency("B", "Same"), agency("A", "Same")],
        routes: vec![route("R1", "B", "7"), route("R2", "A", "7")],
        trips: vec![trip("T1", "R1", None)],
        stop_times: vec![stop_time("T1", "S1", 3), stop_time("T1", "S2", 3), stop_time("T1", "S1", 1)],
        stops: vec![stop("S1", "First"), stop("S2", "Other"), stop("S1", "Last")],
        shapes: vec![],
    };
    let d = make_initial_data(&mut g);
    let agencies: Vec<Option<String>> = g.agencies.iter().map(|a| a.id.clone()).collect();
    assert_eq!(agencies, vec![Some("B".to_string()), Some("A".to_string())]);
    let routes: Vec<&str> = g.routes.iter().map(|r| r.id.as_str()).collect();
    assert_eq!(routes, vec!["R1", "R2"]);
    let keys: Vec<(&str, u16)> = g.stop_times.iter().map(|s| (s.stop_id.as_str(), s.stop_sequence)).collect();
    assert_eq!(keys, vec![("S1", 1), ("S1", 3), ("S2", 3)]);
    let names: Vec<&str> = d.stop_times.iter().map(|s| s.stop_name.as_str()).collect();
    assert_eq!(names, vec!["Last", "Last", "Other"]);
    assert_eq!(d.stop_index_from_id, vec![0, 2, 1]);
    assert_eq!(stop_position(&d.stops, &d.stop_index_from_id, &"S1".to_string()), Some(2));
    assert!(d.shapes_range_from_shape_id.is_empty());
    assert_eq!(d.trips[0].n_stops, 3);
}

#[test]
fn feed_completeness_is_checked() {
    assert!(feed_complete(&sample_feed()));
    let mut no_stop_times = sample_feed();
    no_stop_times.stop_times.clear();
    no_stop_times.trips.clear();
    assert!(!feed_complete(&no_stop_times));
    let mut unknown_stop = sample_feed();
    unknown_stop.stop_times.push(stop_time("T1", "S9", 4));
    assert!(!feed_complete(&unknown_stop));
    let mut empty_trip = sample_feed();
    empty_trip.trips.push(trip("T4", "R1", None));
    assert!(!feed_complete(&empty_trip));
}

fn block_size(d: &AppData, trip_id: &str) -> usize {
    let r = d.stop_time_range_from_trip_id.iter().rev().find(|r| r.id == trip_id).unwrap();
    r.end - r.start
}

#[test]
fn stop_counts_match_blocks_after_commands() {
    let (_, mut d) = initial();
    run(&mut d, AppCommand::SelectStopTime(("T1".to_string(), 1)));
    run(&mut d, AppCommand::AddStopTimeChoose(false));
    run(&mut d, AppCommand::EditStopTimeUpdate("S3".to_string()));
    run(&mut d, AppCommand::SelectRoute("R2".to_string()));
    run(&mut d, AppCommand::EditStopTimeUpdate("S1".to_string()));
    run(&mut d, AppCommand::SelectStopTime(("T3".to_string(), 1)));
    run(&mut d, AppCommand::NewStop);
    assert_eq!(d.trips.len(), 4);
    for t in d.trips.iter() {
        assert_eq!(t.n_stops, block_size(&d, &t.id), "trip {}", t.id);
    }
    let counts: Vec<usize> = d.trips.iter().map(|t| t.n_stops).collect();
    assert_eq!(counts, vec![1, 3, 2, 1]);
}

#[test]
fn feed_and_edited_stop_positions_agree_before_edits() {
    let (_, mut d) = initial();
    run(&mut d, AppCommand::SelectTrip("T2".to_string()));
    run(&mut d, AppCommand::HoverStopTime(Some(("T1".to_string(), 2))));
    let all = d.trips_stop_positions();
    assert_eq!(all.len(), d.trips.len());
    for (i, t) in d.trips.iter().enumerate() {
        assert_eq!(all[i], d.trip_stop_positions(&t.id));
    }
}

#[test]
fn reselecting_the_selected_agency_keeps_lower_selections() {
    let (_, mut d) = initial();
    run(&mut d, AppCommand::SelectAgency(Some("A1".to_string())));
    run(&mut d, AppCommand::SelectRoute("R1".to_string()));
    run(&mut d, AppCommand::SelectTrip("T1".to_string()));
    run(&mut d, AppCommand::SelectAgency(Some("A1".to_string())));
    assert_eq!(d.selected_agency_id, Some(Some("A1".to_string())));
    assert_eq!(d.selected_route_id, Some("R1".to_string()));
    assert!(d.selected_trip_id.is_some());
    let flags: Vec<bool> = d.agencies.iter().map(|a| a.selected).collect();
    assert_eq!(flags, vec![true, false]);
    run(&mut d, AppCommand::SelectAgency(Some("A2".to_string())));
    assert!(d.selected_route_id.is_none() && d.selected_trip_id.is_none());
}

#[test]
fn hovering_another_stop_of_the_same_trip_flags_it() {
    let (_, mut d) = initial();
    run(&mut d, AppCommand::HoverStopTime(Some(("T1".to_string(), 2))));
    run(&mut d, AppCommand::HoverStopTime(Some(("T1".to_string(), 1))));
    let flags: Vec<bool> = d.stop_times.iter().map(|s| s.hovered).collect();
    assert_eq!(flags, vec![true, false, false, false, false]);
    assert_eq!(d.hovered_stop_time_id, Some(("T1".to_string(), 1)));
}

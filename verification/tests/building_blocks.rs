use gtfs_manager::cli::CliArgs;
use gtfs_manager::fields::{
    option_text_after_tick, option_text_entered, option_text_or_placeholder, option_text_replaced,
    option_text_shown, option_text_ticked,
};
use gtfs_manager::filtered::{accept_range, expander_mouse_down, expander_mouse_up, filtered_slots};
use gtfs_manager::items::{MyStop, MyStopTime};
use gtfs_manager::kinds::{
    Availability, BikesAllowedType, ContinuousPickupDropOff, DirectionType, LocationType,
    MyAvailability, MyBikesAllowedType, MyContinuousPickupDropOff, MyDirectionType, MyLocationType,
    MyPickupDropOffType, MyRouteType, MyTimepointType, PickupDropOffType, RouteType, TimepointType,
};
use gtfs_manager::order::{apply_order, compare_bytes, contains_sorted, sort_order, sorted_texts, zero_nums};
use gtfs_manager::runs::{find_range, find_range_sorted, id_runs, make_stop_time_range_from_trip_id, IdRange};
use gtfs_manager::stops::{push_stop, stop_order, stop_position};
use gtfs_manager::ZoomLevel;

fn labels<T>(v: &[(String, T)]) -> Vec<&str> {
    v.iter().map(|(s, _)| s.as_str()).collect()
}

fn ranges(rs: &[IdRange]) -> Vec<(String, usize, usize)> {
    rs.iter().map(|r| (r.id.clone(), r.start, r.end)).collect()
}

fn stop_with_id(id: &str) -> MyStop {
    let mut s = MyStop::new();
    s.id = id.to_string();
    s
}

#[test]
fn zoom_levels_and_labels() {
    let v = ZoomLevel::radio_group_vec();
    assert_eq!(labels(&v), vec!["1x", "2x", "5x", "10x", "20x", "50x"]);
    let factors: Vec<usize> = v.iter().map(|(_, z)| z.to_usize()).collect();
    assert_eq!(factors, vec![1, 2, 5, 10, 20, 50]);
    assert!(factors.windows(2).all(|w| w[0] < w[1]));
    assert_eq!(ZoomLevel::Twenty.to_usize(), 20);
}

#[test]
fn radio_choices_of_each_kind() {
    let v = MyRouteType::radio_vec();
    assert_eq!(
        labels(&v),
        vec!["Tramway", "Subway", "Rail", "Bus", "Ferry", "CableCar", "Gondola", "Funicular", "Coach", "Air", "Taxi", "Other(99)"]
    );
    assert_eq!(v[3].1, MyRouteType(RouteType::Bus));
    assert_eq!(v[11].1, MyRouteType(RouteType::Other(99)));
    let v = MyLocationType::radio_vec();
    assert_eq!(labels(&v), vec!["StopPoint", "StopArea", "StationEntrance", "GenericNode", "BoardingArea", "Unknown(99)"]);
    assert_eq!(v[5].1, MyLocationType(LocationType::Unknown(99)));
    let v = MyTimepointType::radio_vec();
    assert_eq!(labels(&v), vec!["Approximate", "Exact"]);
    assert_eq!(v[1].1, MyTimepointType(TimepointType::Exact));
    let v = MyPickupDropOffType::radio_vec();
    assert_eq!(labels(&v), vec!["Regular", "NotAvailable", "ArrangeByPhone", "CoordinateWithDriver", "Unknown(99)"]);
    assert_eq!(v[2].1, MyPickupDropOffType(PickupDropOffType::ArrangeByPhone));
    let v = MyDirectionType::radio_vec();
    assert_eq!(labels(&v), vec!["Outbound", "Inbound"]);
    assert_eq!(v[1].1, MyDirectionType(DirectionType::Inbound));
    let v = MyAvailability::radio_vec();
    assert_eq!(labels(&v), vec!["InformationNotAvailable", "Available", "NotAvailable", "Unknown(99)"]);
    assert_eq!(v[0].1, MyAvailability(Availability::InformationNotAvailable));
    let v = MyBikesAllowedType::radio_vec();
    assert_eq!(labels(&v), vec!["NoBikeInfo", "AtLeastOneBike", "NoBikesAllowed", "Unknown(99)"]);
    assert_eq!(v[2].1, MyBikesAllowedType(BikesAllowedType::NoBikesAllowed));
    let v = MyContinuousPickupDropOff::radio_vec();
    assert_eq!(labels(&v), vec!["Continuous", "NotAvailable", "ArrangeByPhone", "CoordinateWithDriver", "Unknown(99)"]);
    assert_eq!(v[3].1, MyContinuousPickupDropOff(ContinuousPickupDropOff::CoordinateWithDriver));
}

#[test]
fn compare_bytes_orders_lexicographically() {
    assert!(compare_bytes(b"abc", b"abd") < 0);
    assert!(compare_bytes(b"abd", b"abc") > 0);
    assert_eq!(compare_bytes(b"abc", b"abc"), 0);
    assert!(compare_bytes(b"ab", b"abc") < 0);
    assert!(compare_bytes(b"", b"a") < 0);
    assert!(compare_bytes(b"Z", b"a") < 0);
    assert!(compare_bytes(b"10", b"2") < 0);
}

#[test]
fn sort_order_is_stable_by_text_then_number() {
    let a = "a".to_string();
    let b = "b".to_string();
    let texts = vec![&b, &a, &b, &a, &a];
    let nums = vec![2, 1, 1, 1, 0];
    assert_eq!(sort_order(&texts, &nums), vec![4, 1, 3, 2, 0]);
    let items = vec!["b2", "a1", "b1", "a1'", "a0"];
    let order = sort_order(&texts, &nums);
    assert_eq!(apply_order(&items, &order), vec!["a0", "a1", "a1'", "b1", "b2"]);
}

#[test]
fn sort_order_of_nothing_and_of_ties() {
    let texts: Vec<&String> = Vec::new();
    assert!(sort_order(&texts, &Vec::new()).is_empty());
    let x = "x".to_string();
    let same = vec![&x, &x, &x];
    assert_eq!(sort_order(&same, &zero_nums(3)), vec![0, 1, 2]);
    assert_eq!(zero_nums(2), vec![0, 0]);
}

#[test]
fn sorting_a_sorted_list_keeps_it() {
    let a = "a".to_string();
    let b = "b".to_string();
    let c = "c".to_string();
    let texts = vec![&c, &a, &b, &a];
    let nums = zero_nums(4);
    let order = sort_order(&texts, &nums);
    let sorted = apply_order(&texts, &order);
    assert_eq!(sort_order(&sorted, &nums), vec![0, 1, 2, 3]);
}

#[test]
fn runs_of_identifiers() {
    let x = "x".to_string();
    let y = "y".to_string();
    let ids = vec![&x, &x, &y, &x];
    let rs = id_runs(&ids);
    assert_eq!(ranges(&rs), vec![("x".to_string(), 0, 2), ("y".to_string(), 2, 3), ("x".to_string(), 3, 4)]);
    assert_eq!(find_range(&rs, &x), Some((3, 4)));
    assert_eq!(find_range(&rs, &y), Some((2, 3)));
    assert_eq!(find_range(&rs, &"z".to_string()), None);
}

#[test]
fn runs_cover_every_position_once() {
    let a = "a".to_string();
    let b = "b".to_string();
    let ids = vec![&a, &b, &b, &b, &a, &a];
    let rs = id_runs(&ids);
    let mut next = 0;
    for r in &rs {
        assert_eq!(r.start, next);
        assert!(r.start < r.end);
        for k in r.start..r.end {
            assert_eq!(ids[k], &r.id);
        }
        next = r.end;
    }
    assert_eq!(next, ids.len());
}

#[test]
fn sorted_runs_are_found_by_search() {
    let ids: Vec<String> = ["a", "a", "b", "c", "c", "c"].iter().map(|s| s.to_string()).collect();
    let refs: Vec<&String> = ids.iter().collect();
    let rs = id_runs(&refs);
    assert_eq!(find_range_sorted(&rs, &"a".to_string()), Some((0, 2)));
    assert_eq!(find_range_sorted(&rs, &"b".to_string()), Some((2, 3)));
    assert_eq!(find_range_sorted(&rs, &"c".to_string()), Some((3, 6)));
    assert_eq!(find_range_sorted(&rs, &"bb".to_string()), None);
    assert_eq!(find_range_sorted(&rs, &"0".to_string()), None);
    assert_eq!(find_range_sorted(&rs, &"d".to_string()), None);
}

#[test]
fn stop_time_ranges_by_trip() {
    let st = vec![
        MyStopTime::new("t1".to_string(), "s".to_string(), 1),
        MyStopTime::new("t1".to_string(), "s".to_string(), 2),
        MyStopTime::new("t2".to_string(), "s".to_string(), 1),
    ];
    let rs = make_stop_time_range_from_trip_id(&st);
    assert_eq!(ranges(&rs), vec![("t1".to_string(), 0, 2), ("t2".to_string(), 2, 3)]);
}

#[test]
fn stop_lookup_finds_the_last_stop_with_an_id() {
    let stops = vec![stop_with_id("m"), stop_with_id("b"), stop_with_id("m"), stop_with_id("z")];
    let o = stop_order(&stops);
    assert_eq!(o, vec![1, 0, 2, 3]);
    assert_eq!(stop_position(&stops, &o, &"m".to_string()), Some(2));
    assert_eq!(stop_position(&stops, &o, &"b".to_string()), Some(1));
    assert_eq!(stop_position(&stops, &o, &"a".to_string()), None);
    assert_eq!(stop_position(&stops, &o, &"q".to_string()), None);
}

#[test]
fn pushed_stop_is_found() {
    let mut stops = vec![stop_with_id("m"), stop_with_id("b")];
    let mut o = stop_order(&stops);
    push_stop(&mut stops, &mut o, stop_with_id("c"));
    assert_eq!(o, vec![1, 2, 0]);
    assert_eq!(stop_position(&stops, &o, &"c".to_string()), Some(2));
    push_stop(&mut stops, &mut o, stop_with_id("b"));
    assert_eq!(o, vec![1, 3, 2, 0]);
    assert_eq!(stop_position(&stops, &o, &"b".to_string()), Some(3));
}

#[test]
fn filtered_slots_follow_the_accepted_positions() {
    assert_eq!(filtered_slots(5, &vec![1, 3]), vec![(1, 0), (3, 1)]);
    assert_eq!(filtered_slots(4, &vec![2, 1]), vec![(2, 0)]);
    assert_eq!(filtered_slots(2, &vec![0, 1, 5]), vec![(0, 0), (1, 1)]);
    assert!(filtered_slots(0, &vec![0]).is_empty());
}

#[test]
fn accept_range_inserts_passing_positions() {
    let mut accepted = vec![10, 20];
    accept_range(&mut accepted, 1, &vec![true, false, true, true, true], 1, 4);
    assert_eq!(accepted, vec![10, 2, 3, 20]);
    let mut none: Vec<usize> = Vec::new();
    accept_range(&mut none, 0, &vec![false, false], 0, 2);
    assert!(none.is_empty());
}

#[test]
fn expander_press_and_release() {
    assert!(expander_mouse_down(false, false));
    assert!(!expander_mouse_down(false, true));
    assert!(expander_mouse_down(true, true));
    assert!(expander_mouse_up(true, false, true, false));
    assert!(!expander_mouse_up(true, false, true, true));
    assert!(!expander_mouse_up(true, false, false, false));
    assert!(expander_mouse_up(true, true, true, true));
    assert!(!expander_mouse_up(false, false, true, false));
}

#[test]
fn cli_arguments_hold_the_path() {
    let args = CliArgs { path: Some("feed.zip".to_string()) };
    assert_eq!(args.path.as_deref(), Some("feed.zip"));
    let none = CliArgs { path: None };
    assert!(none.path.is_none());
}

#[test]
fn optional_text_fields_in_forms() {
    assert_eq!(option_text_shown(&Some("Main St".to_string())), "Main St");
    assert_eq!(option_text_shown(&None), "");
    assert_eq!(option_text_entered(String::new()), None);
    assert_eq!(option_text_entered("x".to_string()), Some("x".to_string()));
    assert!(option_text_ticked(&Some(String::new())));
    assert!(!option_text_ticked(&None));
    assert_eq!(option_text_after_tick(true), Some("nuttin".to_string()));
    assert_eq!(option_text_after_tick(false), None);
    assert_eq!(option_text_or_placeholder(&None), "nutin");
    assert_eq!(option_text_or_placeholder(&Some("a".to_string())), "a");
    let mut set = Some("old".to_string());
    option_text_replaced(&mut set, "new");
    assert_eq!(set, Some("new".to_string()));
    let mut unset: Option<String> = None;
    option_text_replaced(&mut unset, "new");
    assert_eq!(unset, None);
}

#[test]
fn sorted_texts_and_binary_search() {
    let names: Vec<String> = ["m", "b", "z", "b", "a"].iter().map(|s| s.to_string()).collect();
    let refs: Vec<&String> = names.iter().collect();
    let sorted = sorted_texts(&refs);
    let shown: Vec<&str> = sorted.iter().map(|s| s.as_str()).collect();
    assert_eq!(shown, vec!["a", "b", "b", "m", "z"]);
    for s in ["a", "b", "m", "z"] {
        assert!(contains_sorted(&sorted, &s.to_string()));
    }
    for s in ["", "c", "zz", "0"] {
        assert!(!contains_sorted(&sorted, &s.to_string()));
    }
    assert!(!contains_sorted(&Vec::new(), &"a".to_string()));
}

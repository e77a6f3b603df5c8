//! The editor's answer to the commands its widgets send.
use vstd::prelude::*;

use crate::app_data::AppData;
use crate::commands::{
    agency_selected, can_hover, can_place_stop, child_recorded, edit_deleted, find_stop_time,
    find_trip, new_stop_placed, nothing_selected, placed_stop, route_added, route_selected,
    stop_choosing, stop_selected_in_list, stop_selected_on_map, stop_time_adding,
    stop_time_hovered, stop_time_position, stop_time_selected, trip_position, trip_selected,
};
use crate::ids::is_random_uuid_text;
use crate::runs::{find_range, id_runs, last_run_of, ranges_view, runs, trip_ids};
use crate::stops::{stop_ids, is_stop_order};

verus! {

/// A command sent by a widget, with what it carries.
pub enum AppCommand {
    /// (item kind, item identifier)
    ItemDelete(String, String),
    /// (item kind, item identifier)
    ItemUpdate(String, String),
    /// (item kind, parent identifier)
    ItemNewChild(String, String),
    /// Number of the recorded edit to remove.
    EditDelete(usize),
    /// Agency of the route to add.
    AddRoute(Option<String>),
    /// Route of the trip to add.
    AddTrip(String),
    /// A stop was placed on the map.
    NewStop,
    EditStopTimeChoose,
    /// Stop to put in the selected stop time.
    EditStopTimeUpdate(String),
    /// Whether the stop time to add goes before the selected one.
    AddStopTimeChoose(bool),
    /// (trip identifier, stop sequence) of the hovered stop time, if any.
    HoverStopTime(Option<(String, u16)>),
    HoverTrip(Option<String>),
    HoverRoute(Option<String>),
    SelectStopList(String),
    SelectStopMap(String),
    SelectAgency(Option<String>),
    SelectRoute(String),
    SelectTrip(String),
    /// (trip identifier, stop sequence)
    SelectStopTime((String, u16)),
    SelectNothing,
}

/// The application delegate: it answers commands by changing the editor's state.
pub struct Delegate;

/// What must hold of `d` for `cmd` to be answered (otherwise the editor has no answer).
pub open spec fn command_allowed(cmd: AppCommand, d: AppData) -> bool {
    match cmd {
        AppCommand::ItemNewChild(item_type, _) => item_type@ == "agency"@ ==> forall|i: int|
            0 <= i < d.agencies.len() ==> (#[trigger] d.agencies@[i]).id is Some,
        AppCommand::EditDelete(edit_id) => edit_id < d.actions.len(),
        AppCommand::NewStop => can_place_stop(d),
        AppCommand::EditStopTimeUpdate(_) => can_place_stop(d),
        AppCommand::HoverStopTime(stop_time_id) => can_hover(d, stop_time_id),
        AppCommand::SelectTrip(trip_id) => find_trip(d.trips@, trip_id@) is Some,
        _ => true,
    }
}

/// `new` is `old` after `cmd` was answered.
pub open spec fn command_done(cmd: AppCommand, old: AppData, new: AppData) -> bool {
    match cmd {
        AppCommand::ItemDelete(_, _) => new == old,
        AppCommand::ItemUpdate(_, _) => new == old,
        AppCommand::ItemNewChild(item_type, parent_id) => child_recorded(old, new, item_type@, parent_id@),
        AppCommand::EditDelete(edit_id) => edit_deleted(old, new, edit_id),
        AppCommand::AddRoute(agency_id) => route_added(old, new, agency_id),
        AppCommand::AddTrip(_) => stop_choosing(old, new),
        AppCommand::NewStop => new_stop_placed(old, new),
        AppCommand::EditStopTimeChoose => stop_choosing(old, new),
        AppCommand::EditStopTimeUpdate(stop_id) => placed_stop(old, new, stop_id),
        AppCommand::AddStopTimeChoose(before) => stop_time_adding(old, new, before),
        AppCommand::HoverStopTime(stop_time_id) => stop_time_hovered(old, new, stop_time_id),
        AppCommand::HoverTrip(_) => new == old,
        AppCommand::HoverRoute(_) => new == old,
        AppCommand::SelectStopList(stop_id) => stop_selected_in_list(old, new, stop_id),
        AppCommand::SelectStopMap(stop_id) => stop_selected_on_map(old, new, stop_id),
        AppCommand::SelectAgency(agency_id) => agency_selected(old, new, agency_id),
        AppCommand::SelectRoute(route_id) => route_selected(old, new, route_id),
        AppCommand::SelectTrip(trip_id) => trip_selected(old, new, trip_id),
        AppCommand::SelectStopTime((trip_id, seq)) => stop_time_selected(old, new, trip_id, seq),
        AppCommand::SelectNothing => nothing_selected(old, new),
    }
}

/// Whether the editor answers `cmd` (hovering a trip or a route it leaves to others).
pub open spec fn is_answered(cmd: AppCommand) -> bool {
    !(cmd is HoverTrip || cmd is HoverRoute)
}

impl Delegate {
    /// Answers `cmd` by changing `data`; tells whether the command was answered.
    pub fn command(&mut self, cmd: AppCommand, data: &mut AppData) -> (handled: bool)
        requires
            old(data).wf(),
            command_allowed(cmd, *old(data)),
        ensures
            handled == is_answered(cmd),
            command_done(cmd, *old(data), *final(data)),
            final(data).wf(),
    {
        let ghost d0 = *data;
        match cmd {
            AppCommand::ItemDelete(_, _) => true,
            AppCommand::ItemUpdate(_, _) => true,
            AppCommand::ItemNewChild(item_type, parent_id) => {
                data.new_child_of(&item_type, &parent_id);
                true
            },
            AppCommand::EditDelete(edit_id) => {
                data.delete_edit(edit_id);
                true
            },
            AppCommand::AddRoute(agency_id) => {
                data.add_route(agency_id);
                true
            },
            AppCommand::AddTrip(_) => {
                data.choose_stop_on_map();
                true
            },
            AppCommand::NewStop => {
                data.new_stop();
                true
            },
            AppCommand::EditStopTimeChoose => {
                data.choose_stop_on_map();
                true
            },
            AppCommand::EditStopTimeUpdate(stop_id) => {
                data.place_stop(stop_id);
                true
            },
            AppCommand::AddStopTimeChoose(before) => {
                data.choose_stop_time_to_add(before);
                true
            },
            AppCommand::HoverStopTime(stop_time_id) => {
                data.hover_stop_time(stop_time_id);
                true
            },
            AppCommand::HoverTrip(_) => false,
            AppCommand::HoverRoute(_) => false,
            AppCommand::SelectStopList(stop_id) => {
                data.select_stop_list(stop_id);
                proof {
                    assert(stop_ids(data.stops@) =~= stop_ids(d0.stops@));
                }
                true
            },
            AppCommand::SelectStopMap(stop_id) => {
                data.select_stop_map(stop_id);
                proof {
                    assert(stop_ids(data.stops@) =~= stop_ids(d0.stops@));
                }
                true
            },
            AppCommand::SelectAgency(agency_id) => {
                data.select_agency(agency_id);
                true
            },
            AppCommand::SelectRoute(route_id) => {
                data.select_route(route_id);
                true
            },
            AppCommand::SelectTrip(trip_id) => {
                data.select_trip(trip_id);
                true
            },
            AppCommand::SelectStopTime((trip_id, seq)) => {
                data.select_stop_time(trip_id, seq);
                proof {
                    assert(trip_ids(data.stop_times@) =~= trip_ids(d0.stop_times@));
                }
                true
            },
            AppCommand::SelectNothing => {
                data.select_nothing();
                true
            },
        }
    }
}

/// The trip identifiers of `stop_times` with `trip` put in at position `at`.
fn trip_ids_with<'a>(stop_times: &'a Vec<crate::items::MyStopTime>, at: usize, trip: &'a String) -> (ids: Vec<&'a String>)
    requires
        at <= stop_times.len(),
    ensures
        ids@.map_values(|s: &String| s@) == trip_ids(stop_times@).insert(at as int, trip@),
{
    let mut ids: Vec<&String> = Vec::new();
    let mut k: usize = 0;
    while k < stop_times.len()
        invariant
            k <= stop_times.len(),
            at <= stop_times.len(),
            ids.len() == if k <= at { k as int } else { k + 1 },
            forall|j: int| 0 <= j < ids.len() ==> #[trigger] ids@[j]@ == trip_ids(stop_times@).insert(at as int, trip@)[j],
        decreases stop_times.len() - k,
    {
        if k == at {
            ids.push(trip);
        }
        ids.push(&stop_times[k].trip_id);
        k = k + 1;
    }
    if at == stop_times.len() {
        ids.push(trip);
    }
    assert(ids@.map_values(|s: &String| s@) =~= trip_ids(stop_times@).insert(at as int, trip@));
    ids
}

/// Whether a stop can be placed in `d` (see `can_place_stop`).
pub fn stop_can_be_placed(d: &AppData) -> (r: bool)
    ensures
        r == can_place_stop(*d),
{
    match &d.selected_stop_time_id {
        Some((t, q)) => {
            proof {
                crate::commands::lemma_find_stop_time(d.stop_times@, t@, *q);
            }
            match stop_time_position(&d.stop_times, t, *q) {
                None => false,
                Some(p) => match d.insert_stop_time_before {
                    None => true,
                    Some(before) => match trip_position(&d.trips, t) {
                        None => false,
                        Some(ti) => {
                            proof {
                                crate::commands::lemma_find_trip(d.trips@, t@);
                            }
                            if d.trips[ti].n_stops == usize::MAX {
                                false
                            } else {
                                assert(p < d.stop_times.len());
                                let at = if before { p } else { p + 1 };
                                let ids = trip_ids_with(&d.stop_times, at, t);
                                assert(ids@.map_values(|s: &String| s@).len() == ids@.len());
                                let rs = id_runs(&ids);
                                proof {
                                    let v = trip_ids(d.stop_times@).insert(at as int, t@);
                                    assert(v[at as int] == t@);
                                    crate::runs::lemma_present_id_has_run(v, at as int);
                                }
                                match find_range(&rs, t) {
                                    Some((s, e)) => {
                                        proof {
                                            crate::runs::lemma_found_run_in_bounds(trip_ids(d.stop_times@).insert(at as int, t@), t@);
                                        }
                                        e - s <= 65534
                                    },
                                    None => false,
                                }
                            }
                        },
                    },
                },
            }
        },
        None => d.selected_route_id.is_some(),
    }
}

impl Delegate {
    /// Whether `cmd` can be answered on `data` (see `command_allowed`).
    pub fn can_answer(&self, cmd: &AppCommand, data: &AppData) -> (r: bool)
        ensures
            r == command_allowed(*cmd, *data),
    {
        match cmd {
            AppCommand::ItemNewChild(item_type, _) => {
                let agency_kind = String::from_str("agency");
                if *item_type == agency_kind {
                    let mut i: usize = 0;
                    while i < data.agencies.len()
                        invariant
                            i <= data.agencies.len(),
                            item_type@ == "agency"@,
                            *cmd == AppCommand::ItemNewChild(*item_type, cmd->ItemNewChild_1),
                            forall|j: int| 0 <= j < i ==> (#[trigger] data.agencies@[j]).id is Some,
                        decreases data.agencies.len() - i,
                    {
                        if data.agencies[i].id.is_none() {
                            assert(data.agencies@[i as int].id is None);
                            return false;
                        }
                        i = i + 1;
                    }
                    true
                } else {
                    true
                }
            },
            AppCommand::EditDelete(edit_id) => *edit_id < data.actions.len(),
            AppCommand::NewStop => stop_can_be_placed(data),
            AppCommand::EditStopTimeUpdate(_) => stop_can_be_placed(data),
            AppCommand::HoverStopTime(stop_time_id) => {
                let now = match stop_time_id {
                    Some((t, _)) => find_range(&data.stop_time_range_from_trip_id, t).is_some(),
                    None => true,
                };
                let before = match &data.hovered_stop_time_id {
                    Some((t, _)) => find_range(&data.stop_time_range_from_trip_id, t).is_some(),
                    None => true,
                };
                now && before
            },
            AppCommand::SelectTrip(trip_id) => trip_position(&data.trips, trip_id).is_some(),
            _ => true,
        }
    }
}

} // verus!

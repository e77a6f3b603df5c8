//! What the editor does in answer to each command of the interface.
use vstd::prelude::*;

use crate::app_data::AppData;
use crate::items::{
    is_new_route, is_new_stop, is_new_stop_time, is_new_trip, Action, EditType, ListItem, MyAgency,
    MyRoute, MyStop, MyStopTime, MyTrip,
};
use crate::records::{opt_text, opt_text_eq};
use crate::runs::{
    find_range, last_run_of, lemma_found_run_in_bounds, lemma_present_id_has_run,
    make_stop_time_range_from_trip_id, ranges_view, runs, trip_ids,
};
use crate::stops::push_stop;

verus! {

/// Agencies flagged selected exactly when their identifier is `id`.
pub open spec fn agencies_selected_by(s: Seq<MyAgency>, id: Option<String>) -> Seq<MyAgency> {
    s.map_values(|a: MyAgency| (MyAgency { selected: opt_text(a.id) == opt_text(id), ..a }))
}

/// Routes flagged selected exactly when their identifier is `id`.
pub open spec fn routes_selected_by(s: Seq<MyRoute>, id: Seq<char>) -> Seq<MyRoute> {
    s.map_values(|r: MyRoute| (MyRoute { selected: r.id@ == id, ..r }))
}

/// Trips flagged selected exactly when their identifier is `id`.
pub open spec fn trips_selected_by(s: Seq<MyTrip>, id: Seq<char>) -> Seq<MyTrip> {
    s.map_values(|t: MyTrip| (MyTrip { selected: t.id@ == id, ..t }))
}

/// Trips all flagged not selected.
pub open spec fn trips_unselected(s: Seq<MyTrip>) -> Seq<MyTrip> {
    s.map_values(|t: MyTrip| (MyTrip { selected: false, ..t }))
}

/// Stops flagged selected exactly when their identifier is `id`.
pub open spec fn stops_selected_by(s: Seq<MyStop>, id: Seq<char>) -> Seq<MyStop> {
    s.map_values(|st: MyStop| (MyStop { selected: st.id@ == id, ..st }))
}

/// Stop times flagged selected exactly when they are stop `seq` of trip `trip`.
pub open spec fn stop_times_selected_by(s: Seq<MyStopTime>, trip: Seq<char>, seq: u16) -> Seq<MyStopTime> {
    s.map_values(|st: MyStopTime| (MyStopTime { selected: st.trip_id@ == trip && st.stop_sequence == seq, ..st }))
}

/// The first trip with identifier `id`.
pub open spec fn find_trip(s: Seq<MyTrip>, id: Seq<char>) -> Option<int>
    decreases s.len(),
{
    if s.len() == 0 {
        None
    } else if s[0].id@ == id {
        Some(0)
    } else {
        match find_trip(s.drop_first(), id) {
            Some(i) => Some(i + 1),
            None => None,
        }
    }
}

/// The first route with identifier `id`.
pub open spec fn find_route(s: Seq<MyRoute>, id: Seq<char>) -> Option<int>
    decreases s.len(),
{
    if s.len() == 0 {
        None
    } else if s[0].id@ == id {
        Some(0)
    } else {
        match find_route(s.drop_first(), id) {
            Some(i) => Some(i + 1),
            None => None,
        }
    }
}

/// What `find_route` gives: the first position with the identifier, if any.
pub proof fn lemma_find_route(s: Seq<MyRoute>, id: Seq<char>)
    ensures
        match find_route(s, id) {
            Some(i) => 0 <= i < s.len() && s[i].id@ == id && forall|j: int| 0 <= j < i ==> s[j].id@ != id,
            None => forall|j: int| 0 <= j < s.len() ==> s[j].id@ != id,
        },
    decreases s.len(),
{
    if s.len() > 0 && s[0].id@ != id {
        lemma_find_route(s.drop_first(), id);
        assert forall|j: int| 1 <= j < s.len() implies s[j] == s.drop_first()[j - 1] by {}
    }
}

/// The position of the first route with identifier `id`.
pub fn route_position(routes: &Vec<MyRoute>, id: &String) -> (r: Option<usize>)
    ensures
        match r {
            Some(i) => find_route(routes@, id@) == Some(i as int),
            None => find_route(routes@, id@) is None,
        },
{
    proof {
        lemma_find_route(routes@, id@);
    }
    let mut i: usize = 0;
    while i < routes.len()
        invariant
            i <= routes.len(),
            forall|j: int| 0 <= j < i ==> routes@[j].id@ != id@,
        decreases routes.len() - i,
    {
        if routes[i].id == *id {
            proof {
                lemma_find_route(routes@, id@);
            }
            return Some(i);
        }
        i = i + 1;
    }
    None
}

/// The trip `trip_id` is listed and its route too.
pub open spec fn can_select_trip_path(d: AppData, trip_id: Seq<char>) -> bool {
    &&& find_trip(d.trips@, trip_id) is Some
    &&& find_route(d.routes@, d.trips@[find_trip(d.trips@, trip_id).unwrap()].route_id@) is Some
}

/// `new` is `old` after the map path `path_index`, drawn for trip `trip_id`, was
/// clicked: the trip, its route and the route's agency are selected, the stop time
/// selection is cleared.
pub open spec fn trip_path_selected(old: AppData, new: AppData, path_index: usize, trip_id: String) -> bool {
    let t = old.trips@[find_trip(old.trips@, trip_id@).unwrap()];
    let r = old.routes@[find_route(old.routes@, t.route_id@).unwrap()];
    new == AppData {
        selected_agency_id: Some(r.agency_id),
        selected_route_id: Some(t.route_id),
        selected_trip_id: Some((path_index, trip_id)),
        selected_stop_time_id: None,
        ..old
    }
}

/// The first stop time that is stop `seq` of trip `trip`.
pub open spec fn find_stop_time(s: Seq<MyStopTime>, trip: Seq<char>, seq: u16) -> Option<int>
    decreases s.len(),
{
    if s.len() == 0 {
        None
    } else if s[0].trip_id@ == trip && s[0].stop_sequence == seq {
        Some(0)
    } else {
        match find_stop_time(s.drop_first(), trip, seq) {
            Some(i) => Some(i + 1),
            None => None,
        }
    }
}

/// What `find_trip` gives: the first position with the identifier, if any.
pub proof fn lemma_find_trip(s: Seq<MyTrip>, id: Seq<char>)
    ensures
        match find_trip(s, id) {
            Some(i) => 0 <= i < s.len() && s[i].id@ == id && forall|j: int| 0 <= j < i ==> s[j].id@ != id,
            None => forall|j: int| 0 <= j < s.len() ==> s[j].id@ != id,
        },
    decreases s.len(),
{
    if s.len() > 0 && s[0].id@ != id {
        lemma_find_trip(s.drop_first(), id);
        assert forall|j: int| 1 <= j < s.len() implies s[j] == s.drop_first()[j - 1] by {}
    }
}

/// What `find_stop_time` gives: the first position holding that stop, if any.
pub proof fn lemma_find_stop_time(s: Seq<MyStopTime>, trip: Seq<char>, seq: u16)
    ensures
        match find_stop_time(s, trip, seq) {
            Some(i) => 0 <= i < s.len() && s[i].trip_id@ == trip && s[i].stop_sequence == seq
                && forall|j: int| 0 <= j < i ==> !(s[j].trip_id@ == trip && s[j].stop_sequence == seq),
            None => forall|j: int| 0 <= j < s.len() ==> !(s[j].trip_id@ == trip && s[j].stop_sequence == seq),
        },
    decreases s.len(),
{
    if s.len() > 0 && !(s[0].trip_id@ == trip && s[0].stop_sequence == seq) {
        lemma_find_stop_time(s.drop_first(), trip, seq);
        assert forall|j: int| 1 <= j < s.len() implies s[j] == s.drop_first()[j - 1] by {}
    }
}

/// The position of the first trip with identifier `id`.
pub fn trip_position(trips: &Vec<MyTrip>, id: &String) -> (r: Option<usize>)
    ensures
        match r {
            Some(i) => find_trip(trips@, id@) == Some(i as int),
            None => find_trip(trips@, id@) is None,
        },
{
    proof {
        lemma_find_trip(trips@, id@);
    }
    let mut i: usize = 0;
    while i < trips.len()
        invariant
            i <= trips.len(),
            forall|j: int| 0 <= j < i ==> trips@[j].id@ != id@,
        decreases trips.len() - i,
    {
        if trips[i].id == *id {
            proof {
                lemma_find_trip(trips@, id@);
            }
            return Some(i);
        }
        i = i + 1;
    }
    None
}

/// The position of the first stop time that is stop `seq` of trip `trip`.
pub fn stop_time_position(stop_times: &Vec<MyStopTime>, trip: &String, seq: u16) -> (r: Option<usize>)
    ensures
        match r {
            Some(i) => find_stop_time(stop_times@, trip@, seq) == Some(i as int),
            None => find_stop_time(stop_times@, trip@, seq) is None,
        },
{
    proof {
        lemma_find_stop_time(stop_times@, trip@, seq);
    }
    let mut i: usize = 0;
    while i < stop_times.len()
        invariant
            i <= stop_times.len(),
            forall|j: int| 0 <= j < i ==> !(stop_times@[j].trip_id@ == trip@ && stop_times@[j].stop_sequence == seq),
        decreases stop_times.len() - i,
    {
        if stop_times[i].trip_id == *trip && stop_times[i].stop_sequence == seq {
            proof {
                lemma_find_stop_time(stop_times@, trip@, seq);
            }
            return Some(i);
        }
        i = i + 1;
    }
    None
}

/// The agency `agency_id` is the one already selected.
pub open spec fn agency_already_selected(d: AppData, agency_id: Option<String>) -> bool {
    d.selected_agency_id matches Some(a) && opt_text(a) == opt_text(agency_id)
}

/// `new` is `old` with the agency `agency_id` selected. A new selection clears the
/// selections below it; clicking the agency already selected keeps them.
pub open spec fn agency_selected(old: AppData, new: AppData, agency_id: Option<String>) -> bool {
    &&& if agency_already_selected(old, agency_id) {
        new == (AppData { agencies: new.agencies, ..old })
    } else {
        new == (AppData {
            agencies: new.agencies,
            selected_agency_id: Some(agency_id),
            selected_route_id: None,
            selected_trip_id: None,
            selected_stop_time_id: None,
            selected_stop_id: None,
            ..old
        })
    }
    &&& new.agencies@ == agencies_selected_by(old.agencies@, agency_id)
}

/// `new` is `old` with the route `route_id` selected and the selections below it cleared.
pub open spec fn route_selected(old: AppData, new: AppData, route_id: String) -> bool {
    &&& new == (AppData {
        routes: new.routes,
        selected_route_id: Some(route_id),
        selected_trip_id: None,
        selected_stop_time_id: None,
        selected_stop_id: None,
        ..old
    })
    &&& new.routes@ == routes_selected_by(old.routes@, route_id@)
}

/// `new` is `old` with the first trip `trip_id` selected and the selections below it cleared.
pub open spec fn trip_selected(old: AppData, new: AppData, trip_id: String) -> bool {
    &&& new == (AppData {
        trips: new.trips,
        selected_trip_id: new.selected_trip_id,
        selected_stop_time_id: None,
        selected_stop_id: None,
        ..old
    })
    &&& new.selected_trip_id matches Some((i, t)) && t == trip_id
        && find_trip(old.trips@, trip_id@) == Some(i as int)
    &&& new.trips@ == trips_selected_by(old.trips@, trip_id@)
}

/// `new` is `old` with every selection cleared.
pub open spec fn nothing_selected(old: AppData, new: AppData) -> bool {
    &&& new == (AppData {
        trips: new.trips,
        selected_agency_id: None,
        selected_route_id: None,
        selected_trip_id: None,
        selected_stop_time_id: None,
        selected_stop_id: None,
        ..old
    })
    &&& new.trips@ == trips_unselected(old.trips@)
}

/// `new` is `old` with the stop `stop_id` flagged selected and the agency, route, trip and stop time selections cleared.
pub open spec fn stop_selected_on_map(old: AppData, new: AppData, stop_id: String) -> bool {
    &&& new == (AppData {
        stops: new.stops,
        selected_agency_id: None,
        selected_route_id: None,
        selected_trip_id: None,
        selected_stop_time_id: None,
        ..old
    })
    &&& new.stops@ == stops_selected_by(old.stops@, stop_id@)
}

/// `new` is `old` with the stop `stop_id` selected.
pub open spec fn stop_selected_in_list(old: AppData, new: AppData, stop_id: String) -> bool {
    &&& new == (AppData {
        stops: new.stops,
        selected_stop_id: Some(stop_id),
        ..old
    })
    &&& new.stops@ == stops_selected_by(old.stops@, stop_id@)
}

/// `new` is `old` with stop `stop_sequence` of trip `trip_id` selected and the stop selection cleared.
pub open spec fn stop_time_selected(old: AppData, new: AppData, trip_id: String, stop_sequence: u16) -> bool {
    &&& new == (AppData {
        stop_times: new.stop_times,
        selected_stop_time_id: Some((trip_id, stop_sequence)),
        selected_stop_id: None,
        ..old
    })
    &&& new.stop_times@ == stop_times_selected_by(old.stop_times@, trip_id@, stop_sequence)
}

/// `new` is `old` with `stop_time_id` hovered.
pub open spec fn stop_time_hovered(old: AppData, new: AppData, stop_time_id: Option<(String, u16)>) -> bool {
    &&& new == (AppData {
        stop_times: new.stop_times,
        hovered_stop_time_id: stop_time_id,
        ..old
    })
    &&& new.stop_times@ == hover_flags(old, stop_time_id)
    &&& new.wf()
}

/// `new` is `old` with a new route of the agency `agency_id` at the front of the routes.
pub open spec fn route_added(old: AppData, new: AppData, agency_id: Option<String>) -> bool {
    &&& new == (AppData { routes: new.routes, ..old })
    &&& new.routes@.len() == old.routes@.len() + 1
    &&& new.routes@.drop_first() == old.routes@
    &&& is_new_route(new.routes@[0], agency_id)
}

/// `new` is `old` with stop selection on the map turned on.
pub open spec fn stop_choosing(old: AppData, new: AppData) -> bool {
    &&& new == (AppData { map_stop_selection_mode: true, ..old })
}

/// `new` is `old` with stop selection on the map turned on, to add a stop time before (`true`) or after the selected one.
pub open spec fn stop_time_adding(old: AppData, new: AppData, before: bool) -> bool {
    &&& new == (AppData {
        map_stop_selection_mode: true,
        insert_stop_time_before: Some(before),
        ..old
    })
}

/// `new` is `old` without the recorded edits numbered `edit_id`.
pub open spec fn edit_deleted(old: AppData, new: AppData, edit_id: usize) -> bool {
    &&& new == (AppData { actions: new.actions, ..old })
    &&& new.actions@ == old.actions@.filter(|a: Action| a.id != edit_id)
}

/// `new` is `old` with the edits recorded for a new child of `item_type` / `parent_id`.
pub open spec fn child_recorded(old: AppData, new: AppData, item_type: Seq<char>, parent_id: Seq<char>) -> bool {
    &&& new == (AppData { actions: new.actions, ..old })
    &&& action_views(new.actions@) == action_views(old.actions@) + child_actions(
        old.agencies@,
        item_type,
        parent_id,
        old.actions.len() as nat,
    )
}

/// `new` is `old` with a new stop added at the end of the stops and placed as
/// `placed_stop` says.
pub open spec fn new_stop_placed(old: AppData, new: AppData) -> bool {
    &&& new.stops@.len() == old.stops@.len() + 1
    &&& new.stops@.drop_last() == old.stops@
    &&& is_new_stop(new.stops@.last())
    &&& placed_stop(
        AppData { stops: new.stops, stop_index_from_id: new.stop_index_from_id, ..old },
        new,
        new.stops@.last().id,
    )
}

impl AppData {
    /// Selects the agency `agency_id`; unless it was already the selected one, clears
    /// the selections below it.
    pub fn select_agency(&mut self, agency_id: Option<String>)
        ensures
            agency_selected(*old(self), *final(self), agency_id),
    {
        let mut i: usize = 0;
        while i < self.agencies.len()
            invariant
                i <= self.agencies.len(),
                *self == (AppData { agencies: self.agencies, ..*old(self) }),
                self.agencies.len() == old(self).agencies.len(),
                forall|j: int| 0 <= j < i ==> #[trigger] self.agencies@[j] == (MyAgency { selected: opt_text(old(self).agencies@[j].id) == opt_text(agency_id), ..old(self).agencies@[j] }),
                forall|j: int| i <= j < self.agencies.len() ==> #[trigger] self.agencies@[j] == old(self).agencies@[j],
            decreases self.agencies.len() - i,
        {
            let same = opt_text_eq(&self.agencies[i].id, &agency_id);
            self.agencies[i].selected = same;
            i = i + 1;
        }
        assert(self.agencies@ =~= agencies_selected_by(old(self).agencies@, agency_id));
        let already = match &self.selected_agency_id {
            Some(a) => opt_text_eq(a, &agency_id),
            None => false,
        };
        if !already {
            self.selected_agency_id = Some(agency_id);
            self.selected_route_id = None;
            self.selected_trip_id = None;
            self.selected_stop_time_id = None;
            self.selected_stop_id = None;
        }
    }

    /// Selects the route `route_id` and clears the selections below it.
    pub fn select_route(&mut self, route_id: String)
        ensures
            route_selected(*old(self), *final(self), route_id),
    {
        let mut i: usize = 0;
        while i < self.routes.len()
            invariant
                i <= self.routes.len(),
                *self == (AppData { routes: self.routes, ..*old(self) }),
                self.routes.len() == old(self).routes.len(),
                forall|j: int| 0 <= j < i ==> #[trigger] self.routes@[j] == (MyRoute { selected: old(self).routes@[j].id@ == route_id@, ..old(self).routes@[j] }),
                forall|j: int| i <= j < self.routes.len() ==> #[trigger] self.routes@[j] == old(self).routes@[j],
            decreases self.routes.len() - i,
        {
            let same = self.routes[i].id == route_id;
            self.routes[i].selected = same;
            i = i + 1;
        }
        assert(self.routes@ =~= routes_selected_by(old(self).routes@, route_id@));
        self.selected_route_id = Some(route_id);
        self.selected_trip_id = None;
        self.selected_stop_time_id = None;
        self.selected_stop_id = None;
    }

    /// Flags the trips with identifier `trip_id` selected and the others not.
    fn flag_trips(&mut self, trip_id: &String)
        ensures
            *final(self) == (AppData { trips: final(self).trips, ..*old(self) }),
            final(self).trips@ == trips_selected_by(old(self).trips@, trip_id@),
    {
        let mut i: usize = 0;
        while i < self.trips.len()
            invariant
                i <= self.trips.len(),
                *self == (AppData { trips: self.trips, ..*old(self) }),
                self.trips.len() == old(self).trips.len(),
                forall|j: int| 0 <= j < i ==> #[trigger] self.trips@[j] == (MyTrip { selected: old(self).trips@[j].id@ == trip_id@, ..old(self).trips@[j] }),
                forall|j: int| i <= j < self.trips.len() ==> #[trigger] self.trips@[j] == old(self).trips@[j],
            decreases self.trips.len() - i,
        {
            let same = self.trips[i].id == *trip_id;
            self.trips[i].selected = same;
            i = i + 1;
        }
        assert(self.trips@ =~= trips_selected_by(old(self).trips@, trip_id@));
    }

    /// Selects the trip `trip_id`, which must be in the list, and clears the selections below it.
    pub fn select_trip(&mut self, trip_id: String)
        requires
            find_trip(old(self).trips@, trip_id@) is Some,
        ensures
            trip_selected(*old(self), *final(self), trip_id),
    {
        let index = trip_position(&self.trips, &trip_id).unwrap();
        self.flag_trips(&trip_id);
        self.selected_trip_id = Some((index, trip_id));
        self.selected_stop_time_id = None;
        self.selected_stop_id = None;
    }

    /// Clears every selection; no trip stays selected.
    pub fn select_nothing(&mut self)
        ensures
            nothing_selected(*old(self), *final(self)),
    {
        self.selected_agency_id = None;
        self.selected_route_id = None;
        self.selected_trip_id = None;
        self.selected_stop_time_id = None;
        self.selected_stop_id = None;
        let mut i: usize = 0;
        while i < self.trips.len()
            invariant
                i <= self.trips.len(),
                self.trips.len() == old(self).trips.len(),
                *self == (AppData {
                    trips: self.trips,
                    selected_agency_id: None,
                    selected_route_id: None,
                    selected_trip_id: None,
                    selected_stop_time_id: None,
                    selected_stop_id: None,
                    ..*old(self)
                }),
                forall|j: int| 0 <= j < i ==> #[trigger] self.trips@[j] == (MyTrip { selected: false, ..old(self).trips@[j] }),
                forall|j: int| i <= j < self.trips.len() ==> #[trigger] self.trips@[j] == old(self).trips@[j],
            decreases self.trips.len() - i,
        {
            self.trips[i].selected = false;
            i = i + 1;
        }
        assert(self.trips@ =~= trips_unselected(old(self).trips@));
    }

    /// Flags the stops with identifier `stop_id` selected and the others not.
    fn flag_stops(&mut self, stop_id: &String)
        ensures
            *final(self) == (AppData { stops: final(self).stops, ..*old(self) }),
            final(self).stops@ == stops_selected_by(old(self).stops@, stop_id@),
    {
        let mut i: usize = 0;
        while i < self.stops.len()
            invariant
                i <= self.stops.len(),
                *self == (AppData { stops: self.stops, ..*old(self) }),
                self.stops.len() == old(self).stops.len(),
                forall|j: int| 0 <= j < i ==> #[trigger] self.stops@[j] == (MyStop { selected: old(self).stops@[j].id@ == stop_id@, ..old(self).stops@[j] }),
                forall|j: int| i <= j < self.stops.len() ==> #[trigger] self.stops@[j] == old(self).stops@[j],
            decreases self.stops.len() - i,
        {
            let same = self.stops[i].id == *stop_id;
            self.stops[i].selected = same;
            i = i + 1;
        }
        assert(self.stops@ =~= stops_selected_by(old(self).stops@, stop_id@));
    }

    /// Selects the stop `stop_id` picked on the map, and clears the agency, route,
    /// trip and stop time selections.
    pub fn select_stop_map(&mut self, stop_id: String)
        ensures
            stop_selected_on_map(*old(self), *final(self), stop_id),
    {
        self.flag_stops(&stop_id);
        self.selected_agency_id = None;
        self.selected_route_id = None;
        self.selected_trip_id = None;
        self.selected_stop_time_id = None;
    }

    /// Selects the stop `stop_id` picked in the list.
    pub fn select_stop_list(&mut self, stop_id: String)
        ensures
            stop_selected_in_list(*old(self), *final(self), stop_id),
    {
        self.flag_stops(&stop_id);
        self.selected_stop_id = Some(stop_id);
    }

    /// Selects stop `stop_sequence` of trip `trip_id` and clears the stop selection.
    pub fn select_stop_time(&mut self, trip_id: String, stop_sequence: u16)
        ensures
            stop_time_selected(*old(self), *final(self), trip_id, stop_sequence),
    {
        let mut i: usize = 0;
        while i < self.stop_times.len()
            invariant
                i <= self.stop_times.len(),
                *self == (AppData { stop_times: self.stop_times, ..*old(self) }),
                self.stop_times.len() == old(self).stop_times.len(),
                forall|j: int| 0 <= j < i ==> #[trigger] self.stop_times@[j] == (MyStopTime {
                    selected: old(self).stop_times@[j].trip_id@ == trip_id@ && old(self).stop_times@[j].stop_sequence == stop_sequence,
                    ..old(self).stop_times@[j]
                }),
                forall|j: int| i <= j < self.stop_times.len() ==> #[trigger] self.stop_times@[j] == old(self).stop_times@[j],
            decreases self.stop_times.len() - i,
        {
            let same = self.stop_times[i].trip_id == trip_id && self.stop_times[i].stop_sequence == stop_sequence;
            self.stop_times[i].selected = same;
            i = i + 1;
        }
        assert(self.stop_times@ =~= stop_times_selected_by(old(self).stop_times@, trip_id@, stop_sequence));
        self.selected_stop_time_id = Some((trip_id, stop_sequence));
        self.selected_stop_id = None;
    }
}

/// Stop times `start..end` flagged hovered exactly when they are stop `seq`.
pub open spec fn hovered_in(s: Seq<MyStopTime>, start: int, end: int, seq: u16) -> Seq<MyStopTime> {
    Seq::new(
        s.len(),
        |i: int|
            if start <= i < end {
                MyStopTime { hovered: s[i].stop_sequence == seq, ..s[i] }
            } else {
                s[i]
            },
    )
}

/// Stop times `start..end` flagged not hovered.
pub open spec fn unhovered_in(s: Seq<MyStopTime>, start: int, end: int) -> Seq<MyStopTime> {
    Seq::new(s.len(), |i: int| if start <= i < end { MyStopTime { hovered: false, ..s[i] } } else { s[i] })
}

/// Stop times `start..end` numbered 1, 2, 3, ... in order.
pub open spec fn renumbered(s: Seq<MyStopTime>, start: int, end: int) -> Seq<MyStopTime> {
    Seq::new(
        s.len(),
        |i: int|
            if start <= i < end {
                MyStopTime { stop_sequence: (i - start + 1) as u16, ..s[i] }
            } else {
                s[i]
            },
    )
}

/// The block of stop times of trip `trip` in `d`.
pub open spec fn trip_block(d: AppData, trip: Seq<char>) -> Option<(int, int)> {
    last_run_of(ranges_view(d.stop_time_range_from_trip_id@), trip)
}

/// The trips of the hovered stop times, now and before, have blocks.
pub open spec fn can_hover(d: AppData, stop_time_id: Option<(String, u16)>) -> bool {
    &&& stop_time_id matches Some((t, _)) ==> trip_block(d, t@) is Some
    &&& d.hovered_stop_time_id matches Some((t, _)) ==> trip_block(d, t@) is Some
}

/// The hover flags after hovering `stop_time_id`. The block of the trip hovered before
/// is cleared when nothing is hovered now or the new hover is in another trip; then,
/// in the hovered trip's block, exactly the hovered stop is flagged.
pub open spec fn hover_flags(d: AppData, stop_time_id: Option<(String, u16)>) -> Seq<MyStopTime> {
    let cleared = match d.hovered_stop_time_id {
        Some((t0, _)) => if stop_time_id matches Some((t, _)) && t@ == t0@ {
            d.stop_times@
        } else {
            unhovered_in(d.stop_times@, trip_block(d, t0@).unwrap().0, trip_block(d, t0@).unwrap().1)
        },
        None => d.stop_times@,
    };
    match stop_time_id {
        Some((t, q)) => hovered_in(cleared, trip_block(d, t@).unwrap().0, trip_block(d, t@).unwrap().1, q),
        None => cleared,
    }
}

/// The view of a recorded edit.
pub open spec fn action_view(a: Action) -> (usize, EditType, Seq<char>, Seq<char>) {
    (a.id, a.edit_type, a.item_type@, a.item_id@)
}

pub open spec fn action_views(s: Seq<Action>) -> Seq<(usize, EditType, Seq<char>, Seq<char>)> {
    s.map_values(|a: Action| action_view(a))
}

/// The edits recorded when a child is added to the item `item_type` / `parent`: one
/// route creation for each agency with that identifier, numbered on from `base`.
pub open spec fn child_actions(agencies: Seq<MyAgency>, item_type: Seq<char>, parent: Seq<char>, base: nat) -> Seq<(usize, EditType, Seq<char>, Seq<char>)>
    decreases agencies.len(),
{
    if agencies.len() == 0 {
        seq![]
    } else {
        let prev = child_actions(agencies.drop_last(), item_type, parent, base);
        let a = agencies.last();
        if item_type == "agency"@ && a.id.unwrap()@ == parent {
            prev.push(((base + prev.len()) as usize, EditType::Create, "route"@, a.id.unwrap()@))
        } else {
            prev
        }
    }
}

/// Where a stop is placed: what must hold for it to be placed.
pub open spec fn can_place_stop(d: AppData) -> bool {
    match d.selected_stop_time_id {
        Some((t, q)) => {
            &&& find_stop_time(d.stop_times@, t@, q) is Some
            &&& d.insert_stop_time_before matches Some(before) ==> {
                let p = find_stop_time(d.stop_times@, t@, q).unwrap();
                let at = if before { p } else { p + 1 };
                let ids = trip_ids(d.stop_times@).insert(at, t@);
                &&& find_trip(d.trips@, t@) is Some
                &&& d.trips@[find_trip(d.trips@, t@).unwrap()].n_stops < usize::MAX
                &&& last_run_of(runs(ids), t@).unwrap().1 - last_run_of(runs(ids), t@).unwrap().0 <= 65534
            }
        },
        None => d.selected_route_id is Some,
    }
}

/// `new` is `old` after the stop `stop_id` was placed: with a stop time selected, a new
/// stop time at that stop is inserted before or after it (its trip's stops renumbered
/// from 1 and its count raised), or the selected stop time is moved to that stop; with
/// only a route selected, a new trip of that route is started at that stop.
pub open spec fn placed_stop(old: AppData, new: AppData, stop_id: String) -> bool {
    &&& new.wf()
    &&& match old.selected_stop_time_id {
        Some((t, q)) => {
            let p = find_stop_time(old.stop_times@, t@, q).unwrap();
            match old.insert_stop_time_before {
                Some(before) => {
                    let at = if before { p } else { p + 1 };
                    let ti = find_trip(old.trips@, t@).unwrap();
                    let ids = trip_ids(old.stop_times@).insert(at, t@);
                    let (start, end) = last_run_of(runs(ids), t@).unwrap();
                    &&& new == AppData {
                        stop_times: new.stop_times,
                        trips: new.trips,
                        stop_time_range_from_trip_id: new.stop_time_range_from_trip_id,
                        insert_stop_time_before: None,
                        ..old
                    }
                    &&& new.trips@ == old.trips@.update(ti, MyTrip { n_stops: (old.trips@[ti].n_stops + 1) as usize, ..old.trips@[ti] })
                    &&& exists|st: MyStopTime|
                        is_new_stop_time(st, t@, stop_id@, 99) && new.stop_times@ == renumbered(old.stop_times@.insert(at, st), start, end)
                },
                None => {
                    &&& new == AppData { stop_times: new.stop_times, ..old }
                    &&& new.stop_times@ == old.stop_times@.update(p, MyStopTime { stop_id: stop_id, edited: true, ..old.stop_times@[p] })
                },
            }
        },
        None => {
            &&& new == AppData {
                trips: new.trips,
                stop_times: new.stop_times,
                stop_time_range_from_trip_id: new.stop_time_range_from_trip_id,
                ..old
            }
            &&& new.trips@.len() == old.trips@.len() + 1
            &&& new.trips@.drop_first() == old.trips@
            &&& new.trips@[0].n_stops == 1
            &&& is_new_trip(MyTrip { n_stops: 0, ..new.trips@[0] }, old.selected_route_id.unwrap()@)
            &&& exists|st: MyStopTime|
                is_new_stop_time(st, new.trips@[0].id@, stop_id@, 1) && new.stop_times@ == old.stop_times@.push(st)
        },
    }
}

impl AppData {
    /// Flags, in the block `start..end`, the stop time(s) that are stop `seq` hovered and the others not.
    fn flag_hovered(&mut self, start: usize, end: usize, seq: u16)
        requires
            start <= end <= old(self).stop_times.len(),
        ensures
            *final(self) == (AppData { stop_times: final(self).stop_times, ..*old(self) }),
            final(self).stop_times@ == hovered_in(old(self).stop_times@, start as int, end as int, seq),
    {
        let mut i: usize = start;
        while i < end
            invariant
                start <= i <= end <= self.stop_times.len(),
                *self == (AppData { stop_times: self.stop_times, ..*old(self) }),
                self.stop_times.len() == old(self).stop_times.len(),
                forall|j: int| 0 <= j < self.stop_times.len() ==> #[trigger] self.stop_times@[j] == (if start <= j < i {
                    MyStopTime { hovered: old(self).stop_times@[j].stop_sequence == seq, ..old(self).stop_times@[j] }
                } else {
                    old(self).stop_times@[j]
                }),
            decreases end - i,
        {
            let same = self.stop_times[i].stop_sequence == seq;
            self.stop_times[i].hovered = same;
            i = i + 1;
        }
        assert(self.stop_times@ =~= hovered_in(old(self).stop_times@, start as int, end as int, seq));
    }

    /// Clears the hover flag of the block `start..end`.
    fn clear_hovered(&mut self, start: usize, end: usize)
        requires
            start <= end <= old(self).stop_times.len(),
        ensures
            *final(self) == (AppData { stop_times: final(self).stop_times, ..*old(self) }),
            final(self).stop_times@ == unhovered_in(old(self).stop_times@, start as int, end as int),
    {
        let mut i: usize = start;
        while i < end
            invariant
                start <= i <= end <= self.stop_times.len(),
                *self == (AppData { stop_times: self.stop_times, ..*old(self) }),
                self.stop_times.len() == old(self).stop_times.len(),
                forall|j: int| 0 <= j < self.stop_times.len() ==> #[trigger] self.stop_times@[j] == (if start <= j < i {
                    MyStopTime { hovered: false, ..old(self).stop_times@[j] }
                } else {
                    old(self).stop_times@[j]
                }),
            decreases end - i,
        {
            self.stop_times[i].hovered = false;
            i = i + 1;
        }
        assert(self.stop_times@ =~= unhovered_in(old(self).stop_times@, start as int, end as int));
    }

    /// Records `stop_time_id` as the hovered stop time. The hover flags of the trip
    /// hovered before are cleared when nothing is hovered now or the new stop time is
    /// in another trip; then exactly the hovered stop of its trip is flagged.
    pub fn hover_stop_time(&mut self, stop_time_id: Option<(String, u16)>)
        requires
            old(self).wf(),
            can_hover(*old(self), stop_time_id),
        ensures
            stop_time_hovered(*old(self), *final(self), stop_time_id),
    {
        let ghost d0 = *self;
        let previous_trip: Option<String> = match &self.hovered_stop_time_id {
            Some((t0, _)) => {
                let same = match &stop_time_id {
                    Some((t, _)) => *t == *t0,
                    None => false,
                };
                if same { None } else { Some(t0.clone()) }
            },
            None => None,
        };
        match &previous_trip {
            Some(t0) => {
                let found = find_range(&self.stop_time_range_from_trip_id, t0);
                proof {
                    lemma_found_run_in_bounds(trip_ids(self.stop_times@), t0@);
                }
                let (start, end) = found.unwrap();
                self.clear_hovered(start, end);
            },
            None => {},
        }
        let ghost d1 = *self;
        proof {
            assert(trip_ids(d1.stop_times@) =~= trip_ids(d0.stop_times@));
        }
        match &stop_time_id {
            Some((t, q)) => {
                let found = find_range(&self.stop_time_range_from_trip_id, t);
                proof {
                    lemma_found_run_in_bounds(trip_ids(self.stop_times@), t@);
                }
                let (start, end) = found.unwrap();
                self.flag_hovered(start, end, *q);
            },
            None => {},
        }
        proof {
            assert(trip_ids(self.stop_times@) =~= trip_ids(d0.stop_times@));
        }
        self.hovered_stop_time_id = stop_time_id;
    }

    /// Adds a new route of the agency `agency_id` at the front of the routes.
    pub fn add_route(&mut self, agency_id: Option<String>)
        ensures
            route_added(*old(self), *final(self), agency_id),
    {
        let route = MyRoute::new(agency_id);
        self.routes.insert(0, route);
        assert(self.routes@.drop_first() =~= old(self).routes@);
    }

    /// Turns on stop selection on the map.
    pub fn choose_stop_on_map(&mut self)
        ensures
            stop_choosing(*old(self), *final(self)),
    {
        self.map_stop_selection_mode = true;
    }

    /// Turns on stop selection on the map, to add a stop time before (`true`) or after
    /// the selected one.
    pub fn choose_stop_time_to_add(&mut self, before: bool)
        ensures
            stop_time_adding(*old(self), *final(self), before),
    {
        self.map_stop_selection_mode = true;
        self.insert_stop_time_before = Some(before);
    }

    /// Removes the recorded edits numbered `edit_id`; there must be at least
    /// `edit_id + 1` recorded edits.
    pub fn delete_edit(&mut self, edit_id: usize)
        requires
            edit_id < old(self).actions.len(),
        ensures
            edit_deleted(*old(self), *final(self), edit_id),
    {
        let ghost pred = |a: Action| a.id != edit_id;
        let mut kept: Vec<Action> = Vec::new();
        let mut i: usize = 0;
        while i < self.actions.len()
            invariant
                i <= self.actions.len(),
                *self == *old(self),
                pred == (|a: Action| a.id != edit_id),
                kept@ == self.actions@.take(i as int).filter(pred),
            decreases self.actions.len() - i,
        {
            proof {
                assert(self.actions@.take(i + 1).drop_last() =~= self.actions@.take(i as int));
                reveal(Seq::filter);
            }
            if self.actions[i].id != edit_id {
                kept.push(self.actions[i].clone());
            }
            i = i + 1;
        }
        assert(self.actions@.take(i as int) =~= self.actions@);
        self.actions = kept;
    }

    /// Records, for a new child of the item `item_type` / `parent_id`, one route
    /// creation for each agency with that identifier.
    pub fn new_child_of(&mut self, item_type: &String, parent_id: &String)
        requires
            item_type@ == "agency"@ ==> forall|i: int| 0 <= i < old(self).agencies.len() ==> (#[trigger] old(self).agencies@[i]).id is Some,
        ensures
            child_recorded(*old(self), *final(self), item_type@, parent_id@),
    {
        let agency_kind = String::from_str("agency");
        let is_agency = *item_type == agency_kind;
        let mut i: usize = 0;
        while i < self.agencies.len()
            invariant
                i <= self.agencies.len(),
                is_agency == (item_type@ == "agency"@),
                *self == (AppData { actions: self.actions, ..*old(self) }),
                item_type@ == "agency"@ ==> forall|j: int| 0 <= j < old(self).agencies.len() ==> (#[trigger] old(self).agencies@[j]).id is Some,
                action_views(self.actions@) == action_views(old(self).actions@) + child_actions(
                    old(self).agencies@.take(i as int),
                    item_type@,
                    parent_id@,
                    old(self).actions.len() as nat,
                ),
            decreases self.agencies.len() - i,
        {
            let ghost before = self.actions@;
            proof {
                assert(old(self).agencies@.take(i + 1).drop_last() =~= old(self).agencies@.take(i as int));
                assert(old(self).agencies@.take(i + 1).last() == old(self).agencies@[i as int]);
            }
            if is_agency && self.agencies[i].id() == *parent_id {
                let item_id = self.agencies[i].id();
                let action = Action {
                    id: self.actions.len(),
                    edit_type: EditType::Create,
                    item_type: String::from_str("route"),
                    item_id,
                };
                self.actions.push(action);
                proof {
                    let prev = child_actions(old(self).agencies@.take(i as int), item_type@, parent_id@, old(self).actions.len() as nat);
                    assert(action_views(before).len() == old(self).actions.len() + prev.len());
                    assert(action_views(self.actions@) =~= action_views(before).push(action_view(action)));
                }
            }
            i = i + 1;
            proof {
                assert(action_views(self.actions@) =~= action_views(old(self).actions@) + child_actions(
                    old(self).agencies@.take(i as int),
                    item_type@,
                    parent_id@,
                    old(self).actions.len() as nat,
                ));
            }
        }
        assert(old(self).agencies@.take(i as int) =~= old(self).agencies@);
    }

    /// Selects, from the map path `path_index` drawn for trip `trip_id`, that trip,
    /// its route and the route's agency.
    pub fn select_trip_path(&mut self, path_index: usize, trip_id: String)
        requires
            can_select_trip_path(*old(self), trip_id@),
        ensures
            trip_path_selected(*old(self), *final(self), path_index, trip_id),
    {
        proof {
            lemma_find_trip(self.trips@, trip_id@);
        }
        let ti = trip_position(&self.trips, &trip_id).unwrap();
        let route_id = self.trips[ti].route_id.clone();
        proof {
            lemma_find_route(self.routes@, route_id@);
        }
        let ri = route_position(&self.routes, &route_id).unwrap();
        let agency_id = crate::records::clone_opt_text(&self.routes[ri].agency_id);
        self.selected_agency_id = Some(agency_id);
        self.selected_route_id = Some(route_id);
        self.selected_trip_id = Some((path_index, trip_id));
        self.selected_stop_time_id = None;
    }

    /// Numbers the stop times `start..end` 1, 2, 3, ... in order.
    fn renumber(&mut self, start: usize, end: usize)
        requires
            start <= end <= old(self).stop_times.len(),
            end - start <= 65534,
        ensures
            *final(self) == (AppData { stop_times: final(self).stop_times, ..*old(self) }),
            final(self).stop_times@ == renumbered(old(self).stop_times@, start as int, end as int),
    {
        let mut seq: u16 = 1;
        let mut i: usize = start;
        while i < end
            invariant
                start <= i <= end <= self.stop_times.len(),
                end - start <= 65534,
                seq == i - start + 1,
                *self == (AppData { stop_times: self.stop_times, ..*old(self) }),
                self.stop_times.len() == old(self).stop_times.len(),
                forall|j: int| 0 <= j < self.stop_times.len() ==> #[trigger] self.stop_times@[j] == (if start <= j < i {
                    MyStopTime { stop_sequence: (j - start + 1) as u16, ..old(self).stop_times@[j] }
                } else {
                    old(self).stop_times@[j]
                }),
            decreases end - i,
        {
            self.stop_times[i].stop_sequence = seq;
            seq = seq + 1;
            i = i + 1;
        }
        assert(self.stop_times@ =~= renumbered(old(self).stop_times@, start as int, end as int));
    }

    /// Places the stop `stop_id`: with a stop time selected, inserts a new stop time at
    /// that stop before or after it (when an insertion was chosen) or moves the selected
    /// stop time to that stop; with only a route selected, starts a new trip there.
    pub fn place_stop(&mut self, stop_id: String)
        requires
            old(self).wf(),
            can_place_stop(*old(self)),
        ensures
            placed_stop(*old(self), *final(self), stop_id),
    {
        let ghost d0 = *self;
        let selected = match &self.selected_stop_time_id {
            Some((t, q)) => Some((t.clone(), *q)),
            None => None,
        };
        match selected {
            Some((trip_id, seq)) => {
                proof {
                    lemma_find_stop_time(d0.stop_times@, trip_id@, seq);
                }
                let p = stop_time_position(&self.stop_times, &trip_id, seq).unwrap();
                assert(p < self.stop_times.len());
                match self.insert_stop_time_before {
                    Some(before) => {
                        proof {
                            lemma_find_trip(d0.trips@, trip_id@);
                        }
                        let ti = trip_position(&self.trips, &trip_id).unwrap();
                        let n = self.trips[ti].n_stops + 1;
                        self.trips[ti].n_stops = n;
                        proof {
                            assert(self.trips@ =~= d0.trips@.update(ti as int, MyTrip { n_stops: (d0.trips@[ti as int].n_stops + 1) as usize, ..d0.trips@[ti as int] }));
                        }
                        let at = if before { p } else { p + 1 };
                        let st = MyStopTime::new(trip_id.clone(), stop_id, 99);
                        let ghost nst = st;
                        self.stop_times.insert(at, st);
                        let ghost inserted = self.stop_times@;
                        self.stop_time_range_from_trip_id = make_stop_time_range_from_trip_id(&self.stop_times);
                        proof {
                            assert(trip_ids(inserted) =~= trip_ids(d0.stop_times@).insert(at as int, trip_id@));
                            assert(trip_ids(inserted)[at as int] == trip_id@);
                            lemma_present_id_has_run(trip_ids(inserted), at as int);
                            lemma_found_run_in_bounds(trip_ids(inserted), trip_id@);
                        }
                        let (start, end) = find_range(&self.stop_time_range_from_trip_id, &trip_id).unwrap();
                        self.renumber(start, end);
                        self.insert_stop_time_before = None;
                        proof {
                            assert(trip_ids(self.stop_times@) =~= trip_ids(inserted));
                            assert(is_new_stop_time(nst, trip_id@, stop_id@, 99));
                        }
                    },
                    None => {
                        let ghost before_update = self.stop_times@;
                        self.stop_times[p].stop_id = stop_id;
                        self.stop_times[p].edited = true;
                        proof {
                            assert(self.stop_times@ =~= d0.stop_times@.update(p as int, MyStopTime { stop_id: stop_id, edited: true, ..d0.stop_times@[p as int] }));
                            assert(trip_ids(self.stop_times@) =~= trip_ids(d0.stop_times@));
                        }
                    },
                }
            },
            None => {
                let route_id = self.selected_route_id.clone().unwrap();
                let mut new_trip = MyTrip::new(route_id);
                new_trip.n_stops = 1;
                let new_trip_id = new_trip.id.clone();
                self.trips.insert(0, new_trip);
                let st = MyStopTime::new(new_trip_id, stop_id, 1);
                let ghost nst = st;
                self.stop_times.push(st);
                self.stop_time_range_from_trip_id = make_stop_time_range_from_trip_id(&self.stop_times);
                proof {
                    assert(self.trips@.drop_first() =~= d0.trips@);
                    assert(is_new_stop_time(nst, self.trips@[0].id@, stop_id@, 1));
                }
            },
        }
    }

    /// Adds a new stop, with a fresh identifier, at the end of the stops, and places it
    /// as `place_stop` does.
    pub fn new_stop(&mut self)
        requires
            old(self).wf(),
            can_place_stop(*old(self)),
        ensures
            new_stop_placed(*old(self), *final(self)),
    {
        let stop = MyStop::new();
        let stop_id = stop.id.clone();
        push_stop(&mut self.stops, &mut self.stop_index_from_id, stop);
        proof {
            assert(self.stops@.drop_last() =~= old(self).stops@);
        }
        self.place_stop(stop_id);
    }
}

} // verus!

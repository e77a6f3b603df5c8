//! What the map decides when the pointer moves or the mouse button goes up, from
//! what its drawing code measured under the pointer (which path or stop is hit).
use vstd::prelude::*;

use crate::app_data::AppData;
use crate::commands::{
    can_select_trip_path, trip_block, find_route, find_trip, lemma_find_route, lemma_find_trip, route_position,
    trip_path_selected, trip_position,
};
use crate::delegate::AppCommand;
use crate::items::MyTrip;
use crate::runs::{find_range, lemma_found_run_in_bounds, trip_ids};

verus! {

/// What the map does once the mouse button goes up.
pub enum MapRelease {
    /// The button went down somewhere else: nothing happens.
    Ignore,
    /// The pointer moved while the button was down: the drag is over.
    EndDrag,
    /// Released on the minimap: the view centres on that point.
    Recenter,
    /// The first hovered path was clicked: its trip, route and agency are now selected.
    SelectedTripPath,
    /// Nothing that answers a click was under the pointer.
    Nothing,
    /// A command to hand to the editor.
    Send(AppCommand),
    /// A new stop goes where the pointer is (the map works out its coordinates).
    NewStopAtPointer,
}

/// What the map does when the pointer moves.
#[derive(PartialEq, Eq, Structural)]
pub enum MapMove {
    /// The map is dragged along.
    Pan,
    /// The button is no longer down: the drag is over.
    EndDrag,
    /// The pointer is on the selected trip's path: look for a stop time under it.
    HoverStopTime,
    /// Look for the paths under the pointer.
    HoverPaths,
    /// Stops are being chosen: look for a stop under the pointer.
    HoverStop,
}

/// A click (released where it was pressed, on the map, outside the minimap) that
/// reaches the trip paths, stops not being chosen.
pub open spec fn click_on_paths(d: AppData, pressed: bool, at_press: bool, in_minimap: bool) -> bool {
    pressed && at_press && !in_minimap && !d.map_stop_selection_mode
}

/// What a release needs in order to be answered: the paths it looks up are drawn
/// (`path_trips` names the trip of each drawn path), and the first hovered path's trip
/// and its route are listed.
pub open spec fn release_answerable(
    d: AppData,
    path_trips: Seq<String>,
    pressed: bool,
    at_press: bool,
    in_minimap: bool,
) -> bool {
    click_on_paths(d, pressed, at_press, in_minimap) ==> if d.hovered_trip_paths.len() > 0 {
        let i = d.hovered_trip_paths@[0];
        &&& i < path_trips.len()
        &&& can_select_trip_path(d, path_trips[i as int]@)
    } else {
        d.selected_trip_id matches Some((i, _)) ==> i < path_trips.len()
    }
}

/// The answer to a release, from `old` to `new`.
pub open spec fn release_outcome(
    old: AppData,
    new: AppData,
    r: MapRelease,
    path_trips: Seq<String>,
    pressed: bool,
    at_press: bool,
    in_minimap: bool,
    selected_path_hovered: bool,
    hovered_stop: Option<String>,
) -> bool {
    if !pressed {
        r is Ignore && new == old
    } else if !at_press {
        r is EndDrag && new == old
    } else if in_minimap {
        r is Recenter && new == old
    } else if !old.map_stop_selection_mode {
        if old.hovered_trip_paths.len() > 0 {
            let i = old.hovered_trip_paths@[0];
            r is SelectedTripPath && trip_path_selected(old, new, i, path_trips[i as int])
        } else {
            &&& new == old
            &&& r == match old.selected_trip_id {
                Some((i, _)) => if selected_path_hovered {
                    match old.hovered_stop_time_id {
                        Some(st) => MapRelease::Send(AppCommand::SelectStopTime(st)),
                        None => MapRelease::Send(AppCommand::SelectTrip(path_trips[i as int])),
                    }
                } else {
                    MapRelease::Send(AppCommand::SelectNothing)
                },
                None => MapRelease::Nothing,
            }
        }
    } else {
        &&& new == (AppData { map_stop_selection_mode: false, ..old })
        &&& r == match hovered_stop {
            Some(s) => MapRelease::Send(AppCommand::EditStopTimeUpdate(s)),
            None => MapRelease::NewStopAtPointer,
        }
    }
}

/// What the map does on a pointer move, from `old` to `new`.
pub open spec fn move_outcome(
    old: AppData,
    new: AppData,
    r: MapMove,
    dragging: bool,
    left_button: bool,
    selected_path_hovered: bool,
) -> bool {
    &&& new == (AppData { hovered_stop_time_id: None, ..old })
    &&& r == if dragging {
        if left_button {
            MapMove::Pan
        } else {
            MapMove::EndDrag
        }
    } else if !old.map_stop_selection_mode {
        if old.selected_trip_id is Some && selected_path_hovered {
            MapMove::HoverStopTime
        } else {
            MapMove::HoverPaths
        }
    } else {
        MapMove::HoverStop
    }
}

/// A pointer move while the map is dragged with the left button down pans the map,
/// whatever else holds (stops being chosen, a trip selected, a path under the pointer);
/// once the button is up the drag ends. Only a move without a drag looks for what is
/// under the pointer: a stop while stops are chosen, otherwise a stop time on the
/// selected path or the paths.
pub proof fn lemma_pointer_move_answers(
    old: AppData,
    new: AppData,
    r: MapMove,
    dragging: bool,
    left_button: bool,
    selected_path_hovered: bool,
)
    requires
        move_outcome(old, new, r, dragging, left_button, selected_path_hovered),
    ensures
        dragging && left_button ==> r == MapMove::Pan,
        dragging && !left_button ==> r == MapMove::EndDrag,
        r == MapMove::HoverStop <==> !dragging && old.map_stop_selection_mode,
        r == MapMove::HoverStopTime ==> !dragging && old.selected_trip_id is Some && selected_path_hovered,
        new.hovered_stop_time_id is None,
        new.map_stop_selection_mode == old.map_stop_selection_mode,
        new.selected_trip_id == old.selected_trip_id,
{
}

/// A click on the map, while stops are not being chosen, with some path under the
/// pointer selects the first hovered path's trip, with its route and that route's
/// agency, whatever trip was selected before; the stop time selection is cleared.
pub proof fn lemma_click_on_path_selects_its_trip(
    old: AppData,
    new: AppData,
    r: MapRelease,
    path_trips: Seq<String>,
    selected_path_hovered: bool,
    hovered_stop: Option<String>,
)
    requires
        release_outcome(old, new, r, path_trips, true, true, false, selected_path_hovered, hovered_stop),
        !old.map_stop_selection_mode,
        old.hovered_trip_paths.len() > 0,
    ensures
        r is SelectedTripPath,
        new.selected_trip_id matches Some((i, t)) && i == old.hovered_trip_paths@[0]
            && t == path_trips[old.hovered_trip_paths@[0] as int],
        ({
            let t = old.trips@[find_trip(old.trips@, path_trips[old.hovered_trip_paths@[0] as int]@).unwrap()];
            &&& new.selected_route_id == Some(t.route_id)
            &&& new.selected_agency_id == Some(old.routes@[find_route(old.routes@, t.route_id@).unwrap()].agency_id)
        }),
        new.selected_stop_time_id is None,
        new.trips == old.trips && new.routes == old.routes && new.stop_times == old.stop_times,
{
}

/// Whether two lists of path indices are the same.
fn same_indices(a: &Vec<usize>, b: &Vec<usize>) -> (r: bool)
    ensures
        r == (a@ == b@),
{
    if a.len() != b.len() {
        return false;
    }
    let mut i: usize = 0;
    while i < a.len()
        invariant
            i <= a.len() == b.len(),
            forall|j: int| 0 <= j < i ==> a@[j] == b@[j],
        decreases a.len() - i,
    {
        if a[i] != b[i] {
            return false;
        }
        i = i + 1;
    }
    assert(a@ =~= b@);
    true
}

impl AppData {
    /// Whether the trip `trip_id` and its route are listed (see `can_select_trip_path`).
    pub fn trip_path_can_be_selected(&self, trip_id: &String) -> (r: bool)
        ensures
            r == can_select_trip_path(*self, trip_id@),
    {
        proof {
            lemma_find_trip(self.trips@, trip_id@);
        }
        match trip_position(&self.trips, trip_id) {
            None => false,
            Some(ti) => route_position(&self.routes, &self.trips[ti].route_id).is_some(),
        }
    }

    /// Whether a release can be answered (see `release_answerable`).
    pub fn release_can_be_answered(
        &self,
        path_trips: &Vec<String>,
        pressed: bool,
        at_press: bool,
        in_minimap: bool,
    ) -> (r: bool)
        ensures
            r == release_answerable(*self, path_trips@, pressed, at_press, in_minimap),
    {
        if !(pressed && at_press && !in_minimap && !self.map_stop_selection_mode) {
            true
        } else if self.hovered_trip_paths.len() > 0 {
            let i = self.hovered_trip_paths[0];
            i < path_trips.len() && self.trip_path_can_be_selected(&path_trips[i])
        } else {
            match &self.selected_trip_id {
                Some((i, _)) => *i < path_trips.len(),
                None => true,
            }
        }
    }

    /// Answers the mouse button going up on the map. `pressed`: it went down on the
    /// map; `at_press`: where it went down; `in_minimap`: on the minimap;
    /// `path_trips`: the trip of each drawn path; `selected_path_hovered`: the pointer
    /// is on the selected trip's path; `hovered_stop`: the stop under the pointer.
    pub fn release_on_map(
        &mut self,
        path_trips: &Vec<String>,
        pressed: bool,
        at_press: bool,
        in_minimap: bool,
        selected_path_hovered: bool,
        hovered_stop: &Option<String>,
    ) -> (r: MapRelease)
        requires
            release_answerable(*old(self), path_trips@, pressed, at_press, in_minimap),
        ensures
            release_outcome(
                *old(self),
                *final(self),
                r,
                path_trips@,
                pressed,
                at_press,
                in_minimap,
                selected_path_hovered,
                *hovered_stop,
            ),
    {
        if !pressed {
            return MapRelease::Ignore;
        }
        if !at_press {
            return MapRelease::EndDrag;
        }
        if in_minimap {
            return MapRelease::Recenter;
        }
        if !self.map_stop_selection_mode {
            if self.hovered_trip_paths.len() > 0 {
                let i = self.hovered_trip_paths[0];
                let trip_id = path_trips[i].clone();
                self.select_trip_path(i, trip_id);
                MapRelease::SelectedTripPath
            } else {
                match &self.selected_trip_id {
                    Some((i, _)) => {
                        if selected_path_hovered {
                            match &self.hovered_stop_time_id {
                                Some((t, q)) => MapRelease::Send(AppCommand::SelectStopTime((t.clone(), *q))),
                                None => MapRelease::Send(AppCommand::SelectTrip(path_trips[*i].clone())),
                            }
                        } else {
                            MapRelease::Send(AppCommand::SelectNothing)
                        }
                    },
                    None => MapRelease::Nothing,
                }
            }
        } else {
            self.map_stop_selection_mode = false;
            match hovered_stop {
                Some(s) => MapRelease::Send(AppCommand::EditStopTimeUpdate(s.clone())),
                None => MapRelease::NewStopAtPointer,
            }
        }
    }

    /// Answers a pointer move on the map: the hovered stop time is forgotten, and the
    /// result says what to look for under the pointer. `dragging`: the map is being
    /// dragged; `left_button`: the left button is down; `selected_path_hovered`: the
    /// pointer is on the selected trip's path.
    pub fn pointer_moved_on_map(&mut self, dragging: bool, left_button: bool, selected_path_hovered: bool) -> (r: MapMove)
        ensures
            move_outcome(*old(self), *final(self), r, dragging, left_button, selected_path_hovered),
    {
        self.hovered_stop_time_id = None;
        if dragging {
            if left_button {
                MapMove::Pan
            } else {
                MapMove::EndDrag
            }
        } else if !self.map_stop_selection_mode {
            if self.selected_trip_id.is_some() && selected_path_hovered {
                MapMove::HoverStopTime
            } else {
                MapMove::HoverPaths
            }
        } else {
            MapMove::HoverStop
        }
    }

    /// Records the stop time found under the pointer on the selected trip's path; no
    /// other path is then hovered.
    pub fn show_hovered_stop_time(&mut self, found: Option<(String, u16)>)
        ensures
            final(self).hovered_trip_paths@ == Seq::<usize>::empty(),
            *final(self) == (AppData {
                hovered_stop_time_id: found,
                hovered_trip_paths: final(self).hovered_trip_paths,
                ..*old(self)
            }),
    {
        self.hovered_trip_paths = Vec::new();
        self.hovered_stop_time_id = found;
    }

    /// Records the paths found under the pointer; tells whether they changed.
    pub fn show_hovered_paths(&mut self, paths: Vec<usize>) -> (changed: bool)
        ensures
            changed == (old(self).hovered_trip_paths@ != paths@),
            final(self).hovered_trip_paths@ == paths@,
            *final(self) == (AppData { hovered_trip_paths: final(self).hovered_trip_paths, ..*old(self) }),
    {
        if same_indices(&self.hovered_trip_paths, &paths) {
            false
        } else {
            self.hovered_trip_paths = paths;
            true
        }
    }
}

/// The number of stop times in the block of trip `id`, if it has one.
pub open spec fn block_size(d: AppData, id: Seq<char>) -> Option<int> {
    match trip_block(d, id) {
        Some((s, e)) => Some(e - s),
        None => None,
    }
}

/// From position `j` on, the first trip of `new` whose block changed size since
/// `old`; none when a trip on the way has no block in one of the two states, or when
/// no block changed size.
pub open spec fn first_resized(old: AppData, new: AppData, j: int) -> Option<int>
    decreases new.trips@.len() - j,
{
    if j < 0 || j >= new.trips@.len() {
        None
    } else {
        let id = new.trips@[j].id@;
        match (block_size(new, id), block_size(old, id)) {
            (Some(a), Some(b)) => if a != b {
                Some(j)
            } else {
                first_resized(old, new, j + 1)
            },
            _ => None,
        }
    }
}

/// Among the first `n` stop times, those whose stop changed from `old` to `new`: the
/// positions in `new.trips` of their trips, in order.
pub open spec fn restopped_trips(old: AppData, new: AppData, n: int) -> Seq<usize>
    decreases n,
{
    if n <= 0 {
        seq![]
    } else {
        let prev = restopped_trips(old, new, n - 1);
        let st = new.stop_times@[n - 1];
        if st.stop_id@ != old.stop_times@[n - 1].stop_id@ {
            prev.push(find_trip(new.trips@, st.trip_id@).unwrap() as usize)
        } else {
            prev
        }
    }
}

/// What finding the paths to redraw needs: each stop time whose stop changed belongs
/// to a listed trip; or, when a stop time was added or removed (and no trip), a trip
/// whose block changed size is found, every trip before it having a block in both states.
pub open spec fn redraw_defined(old: AppData, new: AppData) -> bool {
    if new.stop_times.len() == old.stop_times.len() {
        forall|i: int|
            0 <= i < new.stop_times.len() && (#[trigger] new.stop_times@[i]).stop_id@ != old.stop_times@[i].stop_id@
                ==> find_trip(new.trips@, new.stop_times@[i].trip_id@) is Some
    } else if new.trips.len() == old.trips.len() {
        first_resized(old, new, 0) is Some
    } else {
        true
    }
}

/// The positions in `new.trips` of the trips whose map path must be drawn anew after
/// the state went from `old` to `new`: with as many stop times as before, the trip of
/// each stop time whose stop changed; with a stop time more or less (and as many
/// trips), the first trip whose block changed size; otherwise none.
pub open spec fn paths_to_redraw(old: AppData, new: AppData) -> Seq<usize> {
    if new.stop_times.len() == old.stop_times.len() {
        restopped_trips(old, new, new.stop_times.len() as int)
    } else if new.trips.len() == old.trips.len() {
        seq![first_resized(old, new, 0).unwrap() as usize]
    } else {
        seq![]
    }
}

/// The identifiers of the trips of route `route`, in order.
pub open spec fn route_trip_id_views(trips: Seq<MyTrip>, route: Seq<char>) -> Seq<Seq<char>>
    decreases trips.len(),
{
    if trips.len() == 0 {
        seq![]
    } else {
        let prev = route_trip_id_views(trips.drop_last(), route);
        if trips.last().route_id@ == route {
            prev.push(trips.last().id@)
        } else {
            prev
        }
    }
}

/// The two trip selections are the same (same path and trip identifier).
pub open spec fn same_trip_selection(a: Option<(usize, String)>, b: Option<(usize, String)>) -> bool {
    match (a, b) {
        (None, None) => true,
        (Some((i, t)), Some((j, u))) => i == j && t@ == u@,
        _ => false,
    }
}

/// The two optional texts are the same.
pub open spec fn same_text_option(a: Option<String>, b: Option<String>) -> bool {
    match (a, b) {
        (None, None) => true,
        (Some(x), Some(y)) => x@ == y@,
        _ => false,
    }
}

/// The route whose trips the map shows after the state went from `old` to `new`: the
/// selected route, when the trip or route selection changed and no trip is selected.
pub open spec fn route_to_show(old: AppData, new: AppData) -> Option<String> {
    if (!same_trip_selection(old.selected_trip_id, new.selected_trip_id) || !same_text_option(
        old.selected_route_id,
        new.selected_route_id,
    )) && new.selected_trip_id is None {
        new.selected_route_id
    } else {
        None
    }
}

/// After a change that leaves no trip selected while a route is selected, the map
/// shows that route's trips whenever the trip selection changed (a trip was
/// unselected) or the route selection changed; while a trip is selected, or when
/// neither selection changed, no route is shown anew.
pub proof fn lemma_route_shown_after_change(old: AppData, new: AppData)
    ensures
        new.selected_trip_id is None && new.selected_route_id is Some && old.selected_trip_id is Some
            ==> route_to_show(old, new) == new.selected_route_id,
        new.selected_trip_id is None && (new.selected_route_id matches Some(b) && !(old.selected_route_id matches Some(a) && a@ == b@))
            ==> route_to_show(old, new) == new.selected_route_id,
        new.selected_trip_id is Some ==> route_to_show(old, new) is None,
        new.selected_route_id is None ==> route_to_show(old, new) is None,
        old.selected_trip_id is None && new.selected_trip_id is None && old.selected_route_id == new.selected_route_id
            ==> route_to_show(old, new) is None,
{
}

/// The (trip position, route position) of each visible trip among the first `n`, in
/// order: the trips the map draws, with the route that gives their colours.
pub open spec fn drawn_trip_routes(d: AppData, n: int) -> Seq<(usize, usize)>
    decreases n,
{
    if n <= 0 {
        seq![]
    } else {
        let prev = drawn_trip_routes(d, n - 1);
        let t = d.trips@[n - 1];
        if t.visible {
            prev.push(((n - 1) as usize, find_route(d.routes@, t.route_id@).unwrap() as usize))
        } else {
            prev
        }
    }
}

/// Every visible trip's route is listed.
pub open spec fn visible_routes_listed(d: AppData) -> bool {
    forall|i: int| 0 <= i < d.trips.len() && (#[trigger] d.trips@[i]).visible ==> find_route(d.routes@, d.trips@[i].route_id@) is Some
}

/// The number of stop times in the block of trip `id`.
fn block_size_of(d: &AppData, id: &String) -> (r: Option<usize>)
    requires
        d.wf(),
    ensures
        match r {
            Some(k) => block_size(*d, id@) == Some(k as int),
            None => block_size(*d, id@) is None,
        },
{
    let found = find_range(&d.stop_time_range_from_trip_id, id);
    match found {
        Some((s, e)) => {
            proof {
                lemma_found_run_in_bounds(trip_ids(d.stop_times@), id@);
            }
            Some(e - s)
        },
        None => None,
    }
}

/// The first trip of `new` whose block changed size since `old` (see `first_resized`).
fn first_resized_trip(old: &AppData, new: &AppData) -> (r: Option<usize>)
    requires
        old.wf(),
        new.wf(),
    ensures
        match r {
            Some(j) => first_resized(*old, *new, 0) == Some(j as int),
            None => first_resized(*old, *new, 0) is None,
        },
{
    let mut j: usize = 0;
    while j < new.trips.len()
        invariant
            old.wf(),
            new.wf(),
            j <= new.trips.len(),
            first_resized(*old, *new, 0) == first_resized(*old, *new, j as int),
        decreases new.trips.len() - j,
    {
        let a = block_size_of(new, &new.trips[j].id);
        let b = block_size_of(old, &new.trips[j].id);
        match (a, b) {
            (Some(x), Some(y)) => {
                if x != y {
                    return Some(j);
                }
            },
            _ => {
                return None;
            },
        }
        j = j + 1;
    }
    None
}

impl AppData {
    /// Whether the paths to redraw can be found (see `redraw_defined`).
    pub fn redraw_can_be_found(old: &AppData, new: &AppData) -> (r: bool)
        requires
            old.wf(),
            new.wf(),
        ensures
            r == redraw_defined(*old, *new),
    {
        if new.stop_times.len() == old.stop_times.len() {
            let mut i: usize = 0;
            while i < new.stop_times.len()
                invariant
                    i <= new.stop_times.len() == old.stop_times.len(),
                    forall|k: int|
                        0 <= k < i && (#[trigger] new.stop_times@[k]).stop_id@ != old.stop_times@[k].stop_id@
                            ==> find_trip(new.trips@, new.stop_times@[k].trip_id@) is Some,
                decreases new.stop_times.len() - i,
            {
                if new.stop_times[i].stop_id != old.stop_times[i].stop_id {
                    if trip_position(&new.trips, &new.stop_times[i].trip_id).is_none() {
                        return false;
                    }
                }
                i = i + 1;
            }
            true
        } else if new.trips.len() == old.trips.len() {
            first_resized_trip(old, new).is_some()
        } else {
            true
        }
    }

    /// The positions in `new.trips` of the trips whose map path must be drawn anew
    /// after the state went from `old` to `new` (see `paths_to_redraw`).
    pub fn paths_to_rebuild(old: &AppData, new: &AppData) -> (r: Vec<usize>)
        requires
            old.wf(),
            new.wf(),
            redraw_defined(*old, *new),
        ensures
            r@ == paths_to_redraw(*old, *new),
    {
        if new.stop_times.len() == old.stop_times.len() {
            let mut r: Vec<usize> = Vec::new();
            let mut i: usize = 0;
            while i < new.stop_times.len()
                invariant
                    i <= new.stop_times.len() == old.stop_times.len(),
                    redraw_defined(*old, *new),
                    r@ == restopped_trips(*old, *new, i as int),
                decreases new.stop_times.len() - i,
            {
                if new.stop_times[i].stop_id != old.stop_times[i].stop_id {
                    proof {
                        lemma_find_trip(new.trips@, new.stop_times@[i as int].trip_id@);
                    }
                    let t = trip_position(&new.trips, &new.stop_times[i].trip_id).unwrap();
                    r.push(t);
                }
                i = i + 1;
            }
            r
        } else if new.trips.len() == old.trips.len() {
            let j = first_resized_trip(old, new).unwrap();
            vec![j]
        } else {
            Vec::new()
        }
    }

    /// The route whose trips the map shows after the state went from `old` to `new`
    /// (see `route_to_show`).
    pub fn route_to_show(old: &AppData, new: &AppData) -> (r: Option<String>)
        ensures
            r == route_to_show(*old, *new),
    {
        let trip_same = match (&old.selected_trip_id, &new.selected_trip_id) {
            (None, None) => true,
            (Some((i, t)), Some((j, u))) => *i == *j && *t == *u,
            _ => false,
        };
        let route_same = match (&old.selected_route_id, &new.selected_route_id) {
            (None, None) => true,
            (Some(a), Some(b)) => *a == *b,
            _ => false,
        };
        if (!trip_same || !route_same) && new.selected_trip_id.is_none() {
            match &new.selected_route_id {
                Some(r) => Some(r.clone()),
                None => None,
            }
        } else {
            None
        }
    }

    /// Whether every visible trip's route is listed (see `visible_routes_listed`).
    pub fn visible_routes_found(&self) -> (r: bool)
        ensures
            r == visible_routes_listed(*self),
    {
        let mut i: usize = 0;
        while i < self.trips.len()
            invariant
                i <= self.trips.len(),
                forall|j: int| 0 <= j < i && (#[trigger] self.trips@[j]).visible ==> find_route(self.routes@, self.trips@[j].route_id@) is Some,
            decreases self.trips.len() - i,
        {
            if self.trips[i].visible && route_position(&self.routes, &self.trips[i].route_id).is_none() {
                return false;
            }
            i = i + 1;
        }
        true
    }

    /// The (trip position, route position) of each visible trip, in order: the trips
    /// the map draws, with the route that gives their colours.
    pub fn drawn_trips(&self) -> (r: Vec<(usize, usize)>)
        requires
            visible_routes_listed(*self),
        ensures
            r@ == drawn_trip_routes(*self, self.trips.len() as int),
    {
        let mut r: Vec<(usize, usize)> = Vec::new();
        let mut i: usize = 0;
        while i < self.trips.len()
            invariant
                i <= self.trips.len(),
                visible_routes_listed(*self),
                r@ == drawn_trip_routes(*self, i as int),
            decreases self.trips.len() - i,
        {
            if self.trips[i].visible {
                proof {
                    lemma_find_route(self.routes@, self.trips@[i as int].route_id@);
                }
                let ri = route_position(&self.routes, &self.trips[i].route_id).unwrap();
                r.push((i, ri));
            }
            i = i + 1;
        }
        r
    }
}

/// The identifiers of the trips of route `route_id`, in order.
pub fn route_trip_ids(trips: &Vec<MyTrip>, route_id: &String) -> (r: Vec<String>)
    ensures
        r@.map_values(|s: String| s@) == route_trip_id_views(trips@, route_id@),
{
    let mut r: Vec<String> = Vec::new();
    let mut i: usize = 0;
    while i < trips.len()
        invariant
            i <= trips.len(),
            r@.map_values(|s: String| s@) == route_trip_id_views(trips@.take(i as int), route_id@),
        decreases trips.len() - i,
    {
        proof {
            assert(trips@.take(i + 1).drop_last() =~= trips@.take(i as int));
        }
        if trips[i].route_id == *route_id {
            r.push(trips[i].id.clone());
        }
        i = i + 1;
        proof {
            assert(r@.map_values(|s: String| s@) =~= route_trip_id_views(trips@.take(i as int), route_id@));
        }
    }
    assert(trips@.take(i as int) =~= trips@);
    r
}

} // verus!

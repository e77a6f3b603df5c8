//! Where the map finds the points it draws: the stops each trip calls at, and the
//! points of each trip's shape, given as positions in the stop and shape tables.
use vstd::prelude::*;

use crate::app_data::AppData;
use crate::commands::{find_trip, lemma_find_trip, trip_block, trip_position};
use crate::items::{MyStop, MyStopTime, MyTrip};
use crate::order::{is_sort_order, lemma_is_the_sort_order, sort_order, text_views, the_sort_order};
use crate::records::{opt_text, ShapeRecord, StopTimeRecord};
use crate::runs::{find_range, last_run_of, lemma_found_run_in_bounds, ranges_view, trip_ids};
use crate::stops::{last_with_id, lemma_last_with_id, stop_ids, stop_position};

verus! {

/// The position in `d.stops` of the stop that `stop_id` names (the last with that identifier).
pub open spec fn stop_position_of(d: AppData, stop_id: Seq<char>) -> usize {
    last_with_id(stop_ids(d.stops@), stop_id).unwrap() as usize
}

/// Every stop time of `sts` in `start..end` calls at a stop of `d`.
pub open spec fn block_stops_known(d: AppData, stop_ids_of_block: Seq<Seq<char>>) -> bool {
    forall|k: int| 0 <= k < stop_ids_of_block.len() ==> last_with_id(stop_ids(d.stops@), #[trigger] stop_ids_of_block[k]) is Some
}

/// The stop identifiers of the edited stop times `start..end`.
pub open spec fn edited_block_stop_ids(d: AppData, start: int, end: int) -> Seq<Seq<char>> {
    d.stop_times@.subrange(start, end).map_values(|st: MyStopTime| st.stop_id@)
}

/// The stop identifiers of the feed's stop times `start..end`.
pub open spec fn feed_block_stop_ids(d: AppData, start: int, end: int) -> Seq<Seq<char>> {
    d.gtfs.stop_times@.subrange(start, end).map_values(|st: StopTimeRecord| st.stop_id@)
}

/// The stops' positions for a list of stop identifiers.
pub open spec fn stop_positions_of(d: AppData, ids: Seq<Seq<char>>) -> Seq<usize> {
    ids.map_values(|id: Seq<char>| stop_position_of(d, id))
}

/// The trip `trip_id` is listed, has a block of stop times, and each calls at a known stop.
pub open spec fn trip_can_be_drawn(d: AppData, trip_id: Seq<char>) -> bool {
    &&& find_trip(d.trips@, trip_id) is Some
    &&& trip_block(d, trip_id) is Some
    &&& block_stops_known(d, edited_block_stop_ids(d, trip_block(d, trip_id).unwrap().0, trip_block(d, trip_id).unwrap().1))
}

/// Every trip has a block within the feed's stop times, and those call at known stops.
pub open spec fn trips_can_be_drawn_from_feed(d: AppData) -> bool {
    forall|i: int| 0 <= i < d.trips.len() ==> {
        let b = trip_block(d, (#[trigger] d.trips@[i]).id@);
        &&& b is Some
        &&& b.unwrap().1 <= d.gtfs.stop_times.len()
        &&& block_stops_known(d, feed_block_stop_ids(d, b.unwrap().0, b.unwrap().1))
    }
}

/// The stop positions of the feed's stop times of trip `t`.
pub open spec fn feed_trip_stop_positions(d: AppData, t: MyTrip) -> Seq<usize> {
    let b = trip_block(d, t.id@).unwrap();
    stop_positions_of(d, feed_block_stop_ids(d, b.0, b.1))
}

/// Every trip with a shape has a block of shape points.
pub open spec fn shapes_known(d: AppData) -> bool {
    forall|i: int| 0 <= i < d.trips.len() ==> ((#[trigger] d.trips@[i]).shape_id matches Some(s) ==> {
        let b = last_run_of(ranges_view(d.shapes_range_from_shape_id@), s@);
        &&& b is Some
        &&& b.unwrap().0 <= b.unwrap().1 <= d.gtfs.shapes.len()
    })
}

/// The empty text, `n` times.
pub open spec fn blank_texts(n: nat) -> Seq<Seq<char>> {
    Seq::new(n, |i: int| Seq::<char>::empty())
}

/// The sequence numbers of shape points, as sort keys.
pub open spec fn shape_sequences(s: Seq<ShapeRecord>) -> Seq<u64> {
    s.map_values(|p: ShapeRecord| p.sequence as u64)
}

/// The positions `start..end` of the shape table, ordered by the points' sequence
/// numbers (stably).
pub open spec fn shape_point_positions(shapes: Seq<ShapeRecord>, start: int, end: int) -> Seq<usize> {
    let block = shapes.subrange(start, end);
    the_sort_order(blank_texts(block.len()), shape_sequences(block)).map_values(|k: usize| (start + k) as usize)
}

/// The shape point positions of trip `t` (none when it has no shape).
pub open spec fn trip_shape_positions(d: AppData, t: MyTrip) -> Seq<usize> {
    match t.shape_id {
        Some(s) => {
            let b = last_run_of(ranges_view(d.shapes_range_from_shape_id@), s@).unwrap();
            shape_point_positions(d.gtfs.shapes@, b.0, b.1)
        },
        None => seq![],
    }
}

impl AppData {
    /// The stops' positions for the stop times `start..end` of `stop_times`.
    fn block_stop_positions(&self, stop_ids_of_block: &Vec<&String>) -> (r: Vec<usize>)
        requires
            self.wf(),
            block_stops_known(*self, stop_ids_of_block@.map_values(|s: &String| s@)),
        ensures
            r@ == stop_positions_of(*self, stop_ids_of_block@.map_values(|s: &String| s@)),
    {
        let ghost ids = stop_ids_of_block@.map_values(|s: &String| s@);
        let mut r: Vec<usize> = Vec::new();
        let mut k: usize = 0;
        while k < stop_ids_of_block.len()
            invariant
                self.wf(),
                ids == stop_ids_of_block@.map_values(|s: &String| s@),
                block_stops_known(*self, ids),
                k <= stop_ids_of_block.len(),
                r.len() == k,
                forall|j: int| 0 <= j < k ==> #[trigger] r@[j] == stop_position_of(*self, ids[j]),
            decreases stop_ids_of_block.len() - k,
        {
            let found = stop_position(&self.stops, &self.stop_index_from_id, stop_ids_of_block[k]);
            proof {
                assert(ids[k as int] == stop_ids_of_block@[k as int]@);
                assert(last_with_id(stop_ids(self.stops@), ids[k as int]) is Some);
            }
            r.push(found.unwrap());
            k = k + 1;
        }
        assert(r@ =~= stop_positions_of(*self, ids));
        r
    }

    /// The positions in `stops` of the stops that trip `trip_id` calls at, in order.
    pub fn trip_stop_positions(&self, trip_id: &String) -> (r: Vec<usize>)
        requires
            self.wf(),
            trip_can_be_drawn(*self, trip_id@),
        ensures
            r@ == stop_positions_of(*self, edited_block_stop_ids(*self, trip_block(*self, trip_id@).unwrap().0, trip_block(*self, trip_id@).unwrap().1)),
    {
        proof {
            lemma_find_trip(self.trips@, trip_id@);
        }
        let ti = trip_position(&self.trips, trip_id).unwrap();
        let trip = &self.trips[ti];
        let (start, end) = find_range(&self.stop_time_range_from_trip_id, &trip.id).unwrap();
        proof {
            lemma_found_run_in_bounds(trip_ids(self.stop_times@), trip_id@);
        }
        let mut ids: Vec<&String> = Vec::new();
        let mut i: usize = start;
        while i < end
            invariant
                start <= i <= end <= self.stop_times.len(),
                ids.len() == i - start,
                forall|j: int| 0 <= j < ids.len() ==> #[trigger] ids@[j] == self.stop_times@[start + j].stop_id,
            decreases end - i,
        {
            ids.push(&self.stop_times[i].stop_id);
            i = i + 1;
        }
        assert(ids@.map_values(|s: &String| s@) =~= edited_block_stop_ids(*self, start as int, end as int));
        self.block_stop_positions(&ids)
    }

    /// For each trip, the positions in `stops` of the stops that the feed's stop times
    /// of its block call at.
    pub fn trips_stop_positions(&self) -> (r: Vec<Vec<usize>>)
        requires
            self.wf(),
            trips_can_be_drawn_from_feed(*self),
        ensures
            r@.len() == self.trips@.len(),
            forall|i: int| 0 <= i < r@.len() ==> (#[trigger] r@[i])@ == feed_trip_stop_positions(*self, self.trips@[i]),
    {
        let mut r: Vec<Vec<usize>> = Vec::new();
        let mut t: usize = 0;
        while t < self.trips.len()
            invariant
                self.wf(),
                trips_can_be_drawn_from_feed(*self),
                t <= self.trips.len(),
                r.len() == t,
                forall|i: int| 0 <= i < t ==> (#[trigger] r@[i])@ == feed_trip_stop_positions(*self, self.trips@[i]),
            decreases self.trips.len() - t,
        {
            let trip = &self.trips[t];
            proof {
                assert(trip_block(*self, self.trips@[t as int].id@) is Some);
            }
            let (start, end) = find_range(&self.stop_time_range_from_trip_id, &trip.id).unwrap();
            proof {
                lemma_found_run_in_bounds(trip_ids(self.stop_times@), trip.id@);
            }
            let mut ids: Vec<&String> = Vec::new();
            let mut i: usize = start;
            while i < end
                invariant
                    start <= i <= end <= self.gtfs.stop_times.len(),
                    ids.len() == i - start,
                    forall|j: int| 0 <= j < ids.len() ==> #[trigger] ids@[j] == self.gtfs.stop_times@[start + j].stop_id,
                decreases end - i,
            {
                ids.push(&self.gtfs.stop_times[i].stop_id);
                i = i + 1;
            }
            assert(ids@.map_values(|s: &String| s@) =~= feed_block_stop_ids(*self, start as int, end as int));
            let positions = self.block_stop_positions(&ids);
            r.push(positions);
            t = t + 1;
        }
        r
    }

    /// The positions `start..end` of the shape table ordered by sequence number.
    fn shape_block_positions(&self, start: usize, end: usize) -> (r: Vec<usize>)
        requires
            start <= end <= self.gtfs.shapes.len(),
        ensures
            r@ == shape_point_positions(self.gtfs.shapes@, start as int, end as int),
    {
        let ghost block = self.gtfs.shapes@.subrange(start as int, end as int);
        let blank = String::new();
        let mut texts: Vec<&String> = Vec::new();
        let mut nums: Vec<u64> = Vec::new();
        let mut i: usize = start;
        while i < end
            invariant
                start <= i <= end <= self.gtfs.shapes.len(),
                blank@ == Seq::<char>::empty(),
                texts.len() == i - start,
                nums.len() == i - start,
                forall|j: int| 0 <= j < texts.len() ==> #[trigger] texts@[j] == &blank,
                forall|j: int| 0 <= j < nums.len() ==> #[trigger] nums@[j] == self.gtfs.shapes@[start + j].sequence as u64,
            decreases end - i,
        {
            texts.push(&blank);
            nums.push(self.gtfs.shapes[i].sequence as u64);
            i = i + 1;
        }
        assert(text_views(texts@) =~= blank_texts(block.len()));
        assert(nums@ =~= shape_sequences(block));
        let o = sort_order(&texts, &nums);
        proof {
            lemma_is_the_sort_order(o@, text_views(texts@), nums@);
        }
        let mut r: Vec<usize> = Vec::new();
        let mut k: usize = 0;
        while k < o.len()
            invariant
                k <= o.len(),
                o.len() == end - start,
                start <= end,
                forall|j: int| 0 <= j < o.len() ==> #[trigger] o@[j] < end - start,
                r.len() == k,
                forall|j: int| 0 <= j < k ==> #[trigger] r@[j] == (start + o@[j]) as usize,
            decreases o.len() - k,
        {
            r.push(start + o[k]);
            k = k + 1;
        }
        assert(r@ =~= shape_point_positions(self.gtfs.shapes@, start as int, end as int));
        r
    }

    /// For each trip, the positions of its shape's points in the shape table, in the
    /// order of their sequence numbers (none for a trip without a shape).
    pub fn trips_shape_positions(&self) -> (r: Vec<Vec<usize>>)
        requires
            shapes_known(*self),
        ensures
            r@.len() == self.trips@.len(),
            forall|i: int| 0 <= i < r@.len() ==> (#[trigger] r@[i])@ == trip_shape_positions(*self, self.trips@[i]),
    {
        let mut r: Vec<Vec<usize>> = Vec::new();
        let mut t: usize = 0;
        while t < self.trips.len()
            invariant
                shapes_known(*self),
                t <= self.trips.len(),
                r.len() == t,
                forall|i: int| 0 <= i < t ==> (#[trigger] r@[i])@ == trip_shape_positions(*self, self.trips@[i]),
            decreases self.trips.len() - t,
        {
            let trip = &self.trips[t];
            proof {
                assert(self.trips@[t as int] == *trip);
            }
            match &trip.shape_id {
                Some(shape_id) => {
                    let (start, end) = find_range(&self.shapes_range_from_shape_id, shape_id).unwrap();
                    let positions = self.shape_block_positions(start, end);
                    r.push(positions);
                },
                None => {
                    let positions: Vec<usize> = Vec::new();
                    assert(positions@ =~= seq![]);
                    r.push(positions);
                },
            }
            t = t + 1;
        }
        r
    }
}

/// The block of trip `trip_id` has stop times that all call at known stops.
pub open spec fn block_can_be_drawn(d: AppData, trip_id: Seq<char>) -> bool {
    &&& trip_block(d, trip_id) is Some
    &&& block_stops_known(d, edited_block_stop_ids(d, trip_block(d, trip_id).unwrap().0, trip_block(d, trip_id).unwrap().1))
}

/// The stops' positions for the stop times of trip `trip_id`'s block.
pub open spec fn block_stop_positions_of(d: AppData, trip_id: Seq<char>) -> Seq<usize> {
    let b = trip_block(d, trip_id).unwrap();
    stop_positions_of(d, edited_block_stop_ids(d, b.0, b.1))
}

/// From place `k` on, the first place of `positions` whose stop is hit.
pub open spec fn first_hit_from(positions: Seq<usize>, hit: Seq<bool>, k: int) -> Option<int>
    decreases positions.len() - k,
{
    if k < 0 || k >= positions.len() {
        None
    } else if hit[positions[k] as int] {
        Some(k)
    } else {
        first_hit_from(positions, hit, k + 1)
    }
}

/// Whether stop time `st` is the one `id` names.
pub open spec fn names_stop_time(id: Option<(String, u16)>, st: MyStopTime) -> bool {
    id matches Some((t, q)) && t@ == st.trip_id@ && q == st.stop_sequence
}

impl AppData {
    /// The stops' positions for the stop times of the block `start..end`.
    fn block_positions(&self, trip_id: &String) -> (r: (usize, usize, Vec<usize>))
        requires
            self.wf(),
            block_can_be_drawn(*self, trip_id@),
        ensures
            trip_block(*self, trip_id@) == Some((r.0 as int, r.1 as int)),
            r.0 <= r.1 <= self.stop_times.len(),
            r.2@ == block_stop_positions_of(*self, trip_id@),
            r.2@.len() == r.1 - r.0,
    {
        let (start, end) = find_range(&self.stop_time_range_from_trip_id, trip_id).unwrap();
        proof {
            lemma_found_run_in_bounds(trip_ids(self.stop_times@), trip_id@);
        }
        let mut ids: Vec<&String> = Vec::new();
        let mut i: usize = start;
        while i < end
            invariant
                start <= i <= end <= self.stop_times.len(),
                ids.len() == i - start,
                forall|j: int| 0 <= j < ids.len() ==> #[trigger] ids@[j] == self.stop_times@[start + j].stop_id,
            decreases end - i,
        {
            ids.push(&self.stop_times[i].stop_id);
            i = i + 1;
        }
        assert(ids@.map_values(|s: &String| s@) =~= edited_block_stop_ids(*self, start as int, end as int));
        let positions = self.block_stop_positions(&ids);
        (start, end, positions)
    }

    /// The first stop time of trip `trip_id`'s block whose stop is hit under the
    /// pointer (`hit` tells, for each stop, whether its circle holds the pointer).
    pub fn stop_time_under_pointer(&self, trip_id: &String, hit: &Vec<bool>) -> (r: Option<(String, u16)>)
        requires
            self.wf(),
            block_can_be_drawn(*self, trip_id@),
            hit.len() == self.stops.len(),
        ensures
            r == match first_hit_from(block_stop_positions_of(*self, trip_id@), hit@, 0) {
                Some(k) => Some((*trip_id, self.stop_times@[trip_block(*self, trip_id@).unwrap().0 + k].stop_sequence)),
                None => None,
            },
    {
        let (start, end, positions) = self.block_positions(trip_id);
        let ghost p = block_stop_positions_of(*self, trip_id@);
        proof {
            assert forall|k: int| 0 <= k < p.len() implies p[k] < self.stops.len() by {
                let ids = edited_block_stop_ids(*self, start as int, end as int);
                lemma_last_with_id(stop_ids(self.stops@), ids[k]);
            }
        }
        let mut k: usize = 0;
        while k < positions.len()
            invariant
                positions@ == p,
                p == block_stop_positions_of(*self, trip_id@),
                trip_block(*self, trip_id@) == Some((start as int, end as int)),
                k <= positions.len(),
                positions.len() == end - start,
                end <= self.stop_times.len(),
                hit.len() == self.stops.len(),
                forall|j: int| 0 <= j < p.len() ==> p[j] < self.stops.len(),
                first_hit_from(p, hit@, 0) == first_hit_from(p, hit@, k as int),
            decreases positions.len() - k,
        {
            if hit[positions[k]] {
                return Some((trip_id.clone(), self.stop_times[start + k].stop_sequence));
            }
            k = k + 1;
        }
        None
    }

    /// For each stop time of trip `trip_id`'s block: the position of its stop, whether
    /// it is the hovered stop time, and whether it is the selected one.
    pub fn trip_stop_marks(&self, trip_id: &String) -> (r: Vec<(usize, bool, bool)>)
        requires
            self.wf(),
            block_can_be_drawn(*self, trip_id@),
        ensures
            r@.len() == block_stop_positions_of(*self, trip_id@).len(),
            forall|k: int| 0 <= k < r@.len() ==> {
                let st = self.stop_times@[trip_block(*self, trip_id@).unwrap().0 + k];
                &&& (#[trigger] r@[k]).0 == block_stop_positions_of(*self, trip_id@)[k]
                &&& r@[k].1 == names_stop_time(self.hovered_stop_time_id, st)
                &&& r@[k].2 == names_stop_time(self.selected_stop_time_id, st)
            },
    {
        let (start, end, positions) = self.block_positions(trip_id);
        let mut r: Vec<(usize, bool, bool)> = Vec::new();
        let mut k: usize = 0;
        while k < positions.len()
            invariant
                positions@ == block_stop_positions_of(*self, trip_id@),
                trip_block(*self, trip_id@) == Some((start as int, end as int)),
                k <= positions.len(),
                positions.len() == end - start,
                end <= self.stop_times.len(),
                r.len() == k,
                forall|j: int| 0 <= j < k ==> {
                    let st = self.stop_times@[start + j];
                    &&& (#[trigger] r@[j]).0 == positions@[j]
                    &&& r@[j].1 == names_stop_time(self.hovered_stop_time_id, st)
                    &&& r@[j].2 == names_stop_time(self.selected_stop_time_id, st)
                },
            decreases positions.len() - k,
        {
            let st = &self.stop_times[start + k];
            let hovered = match &self.hovered_stop_time_id {
                Some((t, q)) => *t == st.trip_id && *q == st.stop_sequence,
                None => false,
            };
            let selected = match &self.selected_stop_time_id {
                Some((t, q)) => *t == st.trip_id && *q == st.stop_sequence,
                None => false,
            };
            r.push((positions[k], hovered, selected));
            k = k + 1;
        }
        r
    }
}

/// The identifier of the first stop whose circle holds the pointer (`hit`, one flag
/// per stop, as far as both lists go).
pub fn stop_under_pointer(stops: &Vec<MyStop>, hit: &Vec<bool>) -> (r: Option<String>)
    ensures
        match r {
            Some(id) => exists|i: int|
                0 <= i < stops.len() && i < hit.len() && #[trigger] hit@[i] && id == stops@[i].id
                    && forall|j: int| 0 <= j < i ==> !hit@[j],
            None => forall|i: int| 0 <= i < stops.len() && i < hit.len() ==> !#[trigger] hit@[i],
        },
{
    let mut i: usize = 0;
    while i < stops.len() && i < hit.len()
        invariant
            i <= stops.len(),
            i <= hit.len(),
            forall|j: int| 0 <= j < i ==> !hit@[j],
        decreases stops.len() - i,
    {
        if hit[i] {
            return Some(stops[i].id.clone());
        }
        i = i + 1;
    }
    None
}

/// The position of the first stop with identifier `id`.
pub fn first_stop_with_id(stops: &Vec<MyStop>, id: &String) -> (r: Option<usize>)
    ensures
        match r {
            Some(i) => i < stops.len() && stops@[i as int].id@ == id@ && forall|j: int| 0 <= j < i ==> stops@[j].id@ != id@,
            None => forall|j: int| 0 <= j < stops.len() ==> stops@[j].id@ != id@,
        },
{
    let mut i: usize = 0;
    while i < stops.len()
        invariant
            i <= stops.len(),
            forall|j: int| 0 <= j < i ==> stops@[j].id@ != id@,
        decreases stops.len() - i,
    {
        if stops[i].id == *id {
            return Some(i);
        }
        i = i + 1;
    }
    None
}

impl AppData {
    /// Whether each stop identifier of `ids` names a stop.
    fn stops_known(&self, ids: &Vec<&String>) -> (r: bool)
        requires
            self.wf(),
        ensures
            r == block_stops_known(*self, ids@.map_values(|s: &String| s@)),
    {
        let ghost v = ids@.map_values(|s: &String| s@);
        let mut k: usize = 0;
        while k < ids.len()
            invariant
                self.wf(),
                v == ids@.map_values(|s: &String| s@),
                k <= ids.len(),
                forall|j: int| 0 <= j < k ==> last_with_id(stop_ids(self.stops@), #[trigger] v[j]) is Some,
            decreases ids.len() - k,
        {
            proof {
                assert(v[k as int] == ids@[k as int]@);
            }
            if stop_position(&self.stops, &self.stop_index_from_id, ids[k]).is_none() {
                return false;
            }
            k = k + 1;
        }
        true
    }

    /// The stop identifiers of the edited stop times `start..end`.
    fn edited_ids(&self, start: usize, end: usize) -> (ids: Vec<&String>)
        requires
            start <= end <= self.stop_times.len(),
        ensures
            ids@.map_values(|s: &String| s@) == edited_block_stop_ids(*self, start as int, end as int),
    {
        let mut ids: Vec<&String> = Vec::new();
        let mut i: usize = start;
        while i < end
            invariant
                start <= i <= end <= self.stop_times.len(),
                ids.len() == i - start,
                forall|j: int| 0 <= j < ids.len() ==> #[trigger] ids@[j] == self.stop_times@[start + j].stop_id,
            decreases end - i,
        {
            ids.push(&self.stop_times[i].stop_id);
            i = i + 1;
        }
        assert(ids@.map_values(|s: &String| s@) =~= edited_block_stop_ids(*self, start as int, end as int));
        ids
    }

    /// The stop identifiers of the feed's stop times `start..end`.
    fn feed_ids(&self, start: usize, end: usize) -> (ids: Vec<&String>)
        requires
            start <= end <= self.gtfs.stop_times.len(),
        ensures
            ids@.map_values(|s: &String| s@) == feed_block_stop_ids(*self, start as int, end as int),
    {
        let mut ids: Vec<&String> = Vec::new();
        let mut i: usize = start;
        while i < end
            invariant
                start <= i <= end <= self.gtfs.stop_times.len(),
                ids.len() == i - start,
                forall|j: int| 0 <= j < ids.len() ==> #[trigger] ids@[j] == self.gtfs.stop_times@[start + j].stop_id,
            decreases end - i,
        {
            ids.push(&self.gtfs.stop_times[i].stop_id);
            i = i + 1;
        }
        assert(ids@.map_values(|s: &String| s@) =~= feed_block_stop_ids(*self, start as int, end as int));
        ids
    }

    /// Whether trip `trip_id`'s block can be drawn (see `block_can_be_drawn`).
    pub fn block_drawable(&self, trip_id: &String) -> (r: bool)
        requires
            self.wf(),
        ensures
            r == block_can_be_drawn(*self, trip_id@),
    {
        match find_range(&self.stop_time_range_from_trip_id, trip_id) {
            None => false,
            Some((start, end)) => {
                proof {
                    lemma_found_run_in_bounds(trip_ids(self.stop_times@), trip_id@);
                }
                let ids = self.edited_ids(start, end);
                self.stops_known(&ids)
            },
        }
    }

    /// Whether trip `trip_id` can be drawn (see `trip_can_be_drawn`).
    pub fn trip_drawable(&self, trip_id: &String) -> (r: bool)
        requires
            self.wf(),
        ensures
            r == trip_can_be_drawn(*self, trip_id@),
    {
        trip_position(&self.trips, trip_id).is_some() && self.block_drawable(trip_id)
    }

    /// Whether every trip can be drawn from the feed's stop times (see
    /// `trips_can_be_drawn_from_feed`).
    pub fn feed_trips_drawable(&self) -> (r: bool)
        requires
            self.wf(),
        ensures
            r == trips_can_be_drawn_from_feed(*self),
    {
        let mut t: usize = 0;
        while t < self.trips.len()
            invariant
                self.wf(),
                t <= self.trips.len(),
                forall|i: int| 0 <= i < t ==> {
                    let b = trip_block(*self, (#[trigger] self.trips@[i]).id@);
                    &&& b is Some
                    &&& b.unwrap().1 <= self.gtfs.stop_times.len()
                    &&& block_stops_known(*self, feed_block_stop_ids(*self, b.unwrap().0, b.unwrap().1))
                },
            decreases self.trips.len() - t,
        {
            let trip = &self.trips[t];
            match find_range(&self.stop_time_range_from_trip_id, &trip.id) {
                None => {
                    return false;
                },
                Some((start, end)) => {
                    proof {
                        lemma_found_run_in_bounds(trip_ids(self.stop_times@), trip.id@);
                    }
                    if end > self.gtfs.stop_times.len() {
                        return false;
                    }
                    let ids = self.feed_ids(start, end);
                    if !self.stops_known(&ids) {
                        return false;
                    }
                },
            }
            t = t + 1;
        }
        true
    }

    /// Whether every trip's shape has its points (see `shapes_known`).
    pub fn shapes_drawable(&self) -> (r: bool)
        ensures
            r == shapes_known(*self),
    {
        let mut t: usize = 0;
        while t < self.trips.len()
            invariant
                t <= self.trips.len(),
                forall|i: int| 0 <= i < t ==> ((#[trigger] self.trips@[i]).shape_id matches Some(s) ==> {
                    let b = last_run_of(ranges_view(self.shapes_range_from_shape_id@), s@);
                    &&& b is Some
                    &&& b.unwrap().0 <= b.unwrap().1 <= self.gtfs.shapes.len()
                }),
            decreases self.trips.len() - t,
        {
            match &self.trips[t].shape_id {
                None => {},
                Some(s) => {
                    match find_range(&self.shapes_range_from_shape_id, s) {
                        None => {
                            return false;
                        },
                        Some((start, end)) => {
                            if !(start <= end && end <= self.gtfs.shapes.len()) {
                                return false;
                            }
                        },
                    }
                },
            }
            t = t + 1;
        }
        true
    }
}

} // verus!

//! Properties of the editor that span several operations.
use vstd::prelude::*;
use vstd::utf8::encode_utf8;

use crate::app_data::AppData;
use crate::commands::{
    action_views, agency_already_selected, agency_selected, can_hover, can_place_stop, child_actions, child_recorded, edit_deleted,
    find_stop_time, find_trip, hover_flags, hovered_in, lemma_find_stop_time, lemma_find_trip, new_stop_placed,
    placed_stop, renumbered, stop_time_hovered, stop_times_selected_by, trip_block, trips_selected_by,
    trips_unselected, unhovered_in,
};
use crate::counts::{
    contiguous, count_of, lemma_block_size_is_count, lemma_count_exact, lemma_count_insert,
    lemma_count_push, lemma_insert_beside_keeps_contiguous, lemma_push_fresh_keeps_contiguous,
};
use crate::feed::is_initial_data;
use crate::records::MyGtfs;
use crate::delegate::{command_allowed, command_done, AppCommand};
use crate::items::{Action, MyStopTime, MyTrip};
use crate::order::lemma_bytes_lt_irreflexive;
use crate::queries::{block_stop_positions_of, stop_position_of, edited_block_stop_ids, feed_block_stop_ids, feed_trip_stop_positions};
use crate::runs::{
    last_run_of, lemma_found_run_in_bounds, lemma_last_run_found, lemma_last_run_is_run, lemma_position_in_run,
    lemma_runs_ascending, lemma_runs_partition, ranges_view, runs, texts_ascending, trip_ids,
};
use crate::stops::{last_with_id, stop_ids};

verus! {

/// When the stop times are grouped by trip in ascending order of trip identifier, the
/// block that a trip looks up to holds exactly that trip's stop times, and a trip
/// without stop times has no block.
pub proof fn lemma_trip_block_exact(d: AppData, t: Seq<char>)
    requires
        d.wf(),
        texts_ascending(trip_ids(d.stop_times@)),
    ensures
        match trip_block(d, t) {
            Some((s, e)) => forall|k: int|
                0 <= k < d.stop_times.len() ==> (d.stop_times@[k].trip_id@ == t <==> s <= k < e),
            None => forall|k: int| 0 <= k < d.stop_times.len() ==> d.stop_times@[k].trip_id@ != t,
        },
{
    let ids = trip_ids(d.stop_times@);
    let rs = runs(ids);
    lemma_runs_partition(ids);
    lemma_runs_ascending(ids);
    assert forall|k: int| 0 <= k < d.stop_times.len() implies d.stop_times@[k].trip_id@ == ids[k] by {}
    match last_run_of(rs, t) {
        Some((s, e)) => {
            lemma_last_run_is_run(rs, t);
            let r = choose|r: int| 0 <= r < rs.len() && #[trigger] rs[r] == (t, s, e);
            assert forall|k: int| 0 <= k < d.stop_times.len() implies (d.stop_times@[k].trip_id@ == t <==> s <= k < e) by {
                lemma_position_in_run(ids, k);
                let b = choose|b: int| 0 <= b < rs.len() && #[trigger] rs[b].1 <= k < rs[b].2;
                assert(ids[k] == rs[b].0);
                if s <= k < e {
                    assert(ids[k] == rs[r].0);
                }
                if ids[k] == t && b != r {
                    lemma_bytes_lt_irreflexive(encode_utf8(t));
                    if b < r {
                        assert(crate::order::text_lt(rs[b].0, rs[r].0));
                    } else {
                        assert(crate::order::text_lt(rs[r].0, rs[b].0));
                    }
                }
            }
        },
        None => {
            assert forall|k: int| 0 <= k < d.stop_times.len() implies d.stop_times@[k].trip_id@ != t by {
                lemma_position_in_run(ids, k);
                let b = choose|b: int| 0 <= b < rs.len() && #[trigger] rs[b].1 <= k < rs[b].2;
                assert(ids[k] == rs[b].0);
                if ids[k] == t {
                    lemma_last_run_found(rs, t, b);
                }
            }
        },
    }
}

/// Hovering a stop time and then hovering nothing leaves every stop time as it was,
/// except that the hover flags of the hovered trip's stop times end up cleared.
pub proof fn lemma_hover_then_leave(d0: AppData, d1: AppData, d2: AppData, t: String, q: u16)
    requires
        d0.wf(),
        d0.hovered_stop_time_id is None,
        can_hover(d0, Some((t, q))),
        stop_time_hovered(d0, d1, Some((t, q))),
        stop_time_hovered(d1, d2, None),
    ensures
        d2 == (AppData { stop_times: d2.stop_times, ..d0 }),
        d2.stop_times@ == unhovered_in(d0.stop_times@, trip_block(d0, t@).unwrap().0, trip_block(d0, t@).unwrap().1),
{
    assert(trip_block(d1, t@) == trip_block(d0, t@));
    let (s, e) = trip_block(d0, t@).unwrap();
    assert(d1.stop_times@ == hovered_in(d0.stop_times@, s, e, q));
    assert(d2.stop_times@ =~= unhovered_in(d0.stop_times@, s, e));
}

/// Deleting the recorded edits numbered `edit_id` leaves none with that number and
/// keeps every other one, in order.
pub proof fn lemma_deleted_edit_gone(old: AppData, new: AppData, edit_id: usize)
    requires
        edit_deleted(old, new, edit_id),
    ensures
        forall|k: int| 0 <= k < new.actions@.len() ==> (#[trigger] new.actions@[k]).id != edit_id,
        forall|k: int| 0 <= k < old.actions@.len() && (#[trigger] old.actions@[k]).id != edit_id ==> new.actions@.contains(old.actions@[k]),
{
    broadcast use vstd::seq_lib::group_filter_ensures;

    let pred = |a: Action| a.id != edit_id;
    assert forall|k: int| 0 <= k < new.actions@.len() implies (#[trigger] new.actions@[k]).id != edit_id by {
        assert(pred(old.actions@.filter(pred)[k]));
    }
    assert forall|k: int| 0 <= k < old.actions@.len() && (#[trigger] old.actions@[k]).id != edit_id implies new.actions@.contains(old.actions@[k]) by {
        assert(pred(old.actions@[k]));
    }
}

/// Every recorded edit carries its own position as its number.
pub open spec fn actions_numbered(s: Seq<Action>) -> bool {
    forall|k: int| 0 <= k < s.len() ==> (#[trigger] s[k]).id == k
}

proof fn lemma_child_actions_numbered(agencies: Seq<crate::items::MyAgency>, item_type: Seq<char>, parent: Seq<char>, base: nat)
    requires
        base + agencies.len() <= usize::MAX,
    ensures
        child_actions(agencies, item_type, parent, base).len() <= agencies.len(),
        forall|j: int| 0 <= j < child_actions(agencies, item_type, parent, base).len()
            ==> (#[trigger] child_actions(agencies, item_type, parent, base)[j]).0 == base + j,
    decreases agencies.len(),
{
    if agencies.len() > 0 {
        lemma_child_actions_numbered(agencies.drop_last(), item_type, parent, base);
    }
}

/// Recording the edits for a new child keeps every edit numbered by its position.
pub proof fn lemma_new_child_keeps_numbering(old: AppData, new: AppData, item_type: Seq<char>, parent: Seq<char>)
    requires
        actions_numbered(old.actions@),
        child_recorded(old, new, item_type, parent),
        old.actions.len() + old.agencies.len() <= usize::MAX,
    ensures
        actions_numbered(new.actions@),
{
    let extra = child_actions(old.agencies@, item_type, parent, old.actions.len() as nat);
    lemma_child_actions_numbered(old.agencies@, item_type, parent, old.actions.len() as nat);
    let ov = action_views(old.actions@);
    let nv = action_views(new.actions@);
    assert(nv == ov + extra);
    assert(nv.len() == new.actions@.len());
    assert(ov.len() == old.actions@.len());
    assert forall|k: int| 0 <= k < new.actions@.len() implies (#[trigger] new.actions@[k]).id == k by {
        assert(nv[k].0 == new.actions@[k].id);
        if k < old.actions@.len() {
            assert(nv[k] == ov[k]);
            assert(ov[k].0 == old.actions@[k].id);
        } else {
            let j = k - old.actions@.len();
            assert(nv[k] == extra[j]);
            assert(extra[j].0 == old.actions.len() + j);
        }
    }
}

/// Putting a trip identifier next to an equal one keeps identifiers in ascending order.
proof fn lemma_insert_beside_keeps_ascending(ids: Seq<Seq<char>>, at: int, t: Seq<char>)
    requires
        texts_ascending(ids),
        0 <= at <= ids.len(),
        (at < ids.len() && ids[at] == t) || (0 < at && ids[at - 1] == t),
    ensures
        texts_ascending(ids.insert(at, t)),
{
    let s = ids.insert(at, t);
    assert forall|p: int, q: int| 0 <= p < q < s.len() implies crate::order::text_lt(#[trigger] s[p], #[trigger] s[q]) || s[p] == s[q] by {
        // the place in `ids` of each element of `s` other than the inserted one
        let pp = if p < at { p } else { p - 1 };
        let qq = if q <= at { q } else { q - 1 };
        if p != at && q != at {
            assert(s[p] == ids[pp]);
            assert(s[q] == ids[qq]);
            if pp < qq {
                assert(crate::order::text_lt(ids[pp], ids[qq]) || ids[pp] == ids[qq]);
            }
        } else if p == at {
            assert(s[q] == ids[q - 1]);
            if at < ids.len() && ids[at] == t {
                if at < q - 1 {
                    assert(crate::order::text_lt(ids[at], ids[q - 1]) || ids[at] == ids[q - 1]);
                }
            } else {
                assert(crate::order::text_lt(ids[at - 1], ids[q - 1]) || ids[at - 1] == ids[q - 1]);
            }
        } else {
            assert(s[p] == ids[p]);
            if at < ids.len() && ids[at] == t {
                assert(crate::order::text_lt(ids[p], ids[at]) || ids[p] == ids[at]);
            } else if p < at - 1 {
                assert(crate::order::text_lt(ids[p], ids[at - 1]) || ids[p] == ids[at - 1]);
            }
        }
    }
}

/// Inserting a stop time before or after the selected one keeps the stop times grouped
/// by trip in ascending order of trip identifier, so that every trip's block still
/// holds exactly its stop times (see `lemma_trip_block_exact`).
pub proof fn lemma_insertion_keeps_trips_grouped(old: AppData, new: AppData, stop_id: String)
    requires
        old.wf(),
        texts_ascending(trip_ids(old.stop_times@)),
        old.selected_stop_time_id is Some,
        old.insert_stop_time_before is Some,
        can_place_stop(old),
        placed_stop(old, new, stop_id),
    ensures
        texts_ascending(trip_ids(new.stop_times@)),
{
    let (t, q) = old.selected_stop_time_id.unwrap();
    let before = old.insert_stop_time_before.unwrap();
    let p = find_stop_time(old.stop_times@, t@, q).unwrap();
    lemma_find_stop_time(old.stop_times@, t@, q);
    let at = if before { p } else { p + 1 };
    let ids = trip_ids(old.stop_times@);
    let (start, end) = last_run_of(runs(ids.insert(at, t@)), t@).unwrap();
    let st = choose|st: MyStopTime|
        crate::items::is_new_stop_time(st, t@, stop_id@, 99) && new.stop_times@ == renumbered(old.stop_times@.insert(at, st), start, end);
    assert(ids[p] == t@);
    lemma_insert_beside_keeps_ascending(ids, at, t@);
    assert(trip_ids(new.stop_times@) =~= ids.insert(at, t@));
}

/// The trip identifiers of the stop times stay as they were.
proof fn lemma_same_trip_ids(old: AppData, new: AppData)
    requires
        new.stop_times@.len() == old.stop_times@.len(),
        forall|k: int| 0 <= k < new.stop_times@.len() ==> (#[trigger] new.stop_times@[k]).trip_id == old.stop_times@[k].trip_id,
    ensures
        trip_ids(new.stop_times@) == trip_ids(old.stop_times@),
{
    assert(trip_ids(new.stop_times@) =~= trip_ids(old.stop_times@));
}

/// Every command keeps the stop times grouped by trip in ascending order of trip
/// identifier, so that every trip's block keeps holding exactly its stop times (see
/// `lemma_trip_block_exact`); the one exception is placing a stop with a route but no
/// stop time selected, which starts a new trip whose stop time goes last.
pub proof fn lemma_commands_keep_trips_grouped(cmd: AppCommand, old: AppData, new: AppData)
    requires
        old.wf(),
        texts_ascending(trip_ids(old.stop_times@)),
        command_allowed(cmd, old),
        command_done(cmd, old, new),
        !((cmd is NewStop || cmd is EditStopTimeUpdate) && old.selected_stop_time_id is None),
    ensures
        texts_ascending(trip_ids(new.stop_times@)),
{
    match cmd {
        AppCommand::HoverStopTime(id) => {
            let flags = hover_flags(old, id);
            assert(flags.len() == old.stop_times@.len());
            assert forall|k: int| 0 <= k < flags.len() implies (#[trigger] flags[k]).trip_id == old.stop_times@[k].trip_id by {}
            lemma_same_trip_ids(old, new);
        },
        AppCommand::SelectStopTime((t, q)) => {
            assert(new.stop_times@ == stop_times_selected_by(old.stop_times@, t@, q));
            lemma_same_trip_ids(old, new);
        },
        AppCommand::EditStopTimeUpdate(stop_id) => {
            if old.insert_stop_time_before is Some {
                lemma_insertion_keeps_trips_grouped(old, new, stop_id);
            } else {
                let (t, q) = old.selected_stop_time_id.unwrap();
                lemma_find_stop_time(old.stop_times@, t@, q);
                lemma_same_trip_ids(old, new);
            }
        },
        AppCommand::NewStop => {
            let mid = AppData { stops: new.stops, stop_index_from_id: new.stop_index_from_id, ..old };
            assert(mid.wf());
            if old.insert_stop_time_before is Some {
                lemma_insertion_keeps_trips_grouped(mid, new, new.stops@.last().id);
            } else {
                let (t, q) = old.selected_stop_time_id.unwrap();
                lemma_find_stop_time(old.stop_times@, t@, q);
                lemma_same_trip_ids(mid, new);
            }
        },
        _ => {},
    }
}

/// What a run of answered commands needs: each answered on the state before it, each
/// state well formed, and none starting a new trip.
pub open spec fn answered_run(cmds: Seq<AppCommand>, states: Seq<AppData>) -> bool {
    &&& states.len() == cmds.len() + 1
    &&& forall|i: int| 0 <= i < states.len() ==> (#[trigger] states[i]).wf()
    &&& forall|i: int|
        0 <= i < cmds.len() ==> command_allowed(#[trigger] cmds[i], states[i]) && command_done(cmds[i], states[i], states[i + 1])
    &&& forall|i: int|
        0 <= i < cmds.len() ==> !((#[trigger] cmds[i] is NewStop || cmds[i] is EditStopTimeUpdate)
            && states[i].selected_stop_time_id is None)
}

proof fn lemma_grouped_along(cmds: Seq<AppCommand>, states: Seq<AppData>, n: int)
    requires
        answered_run(cmds, states),
        texts_ascending(trip_ids(states[0].stop_times@)),
        0 <= n < states.len(),
    ensures
        texts_ascending(trip_ids(states[n].stop_times@)),
    decreases n,
{
    if n > 0 {
        lemma_grouped_along(cmds, states, n - 1);
        lemma_commands_keep_trips_grouped(cmds[n - 1], states[n - 1], states[n]);
    }
}

/// After any run of answered commands from a state whose stop times are grouped by
/// trip in ascending order (as `make_initial_data` leaves them), none of them starting
/// a new trip, the block that a trip looks up to holds exactly that trip's stop times.
pub proof fn lemma_blocks_exact_after_commands(cmds: Seq<AppCommand>, states: Seq<AppData>, t: Seq<char>)
    requires
        answered_run(cmds, states),
        texts_ascending(trip_ids(states[0].stop_times@)),
    ensures
        match trip_block(states.last(), t) {
            Some((s, e)) => forall|k: int|
                0 <= k < states.last().stop_times.len() ==> (states.last().stop_times@[k].trip_id@ == t <==> s <= k < e),
            None => forall|k: int| 0 <= k < states.last().stop_times.len() ==> states.last().stop_times@[k].trip_id@ != t,
        },
{
    let n = states.len() - 1;
    lemma_grouped_along(cmds, states, n);
    lemma_trip_block_exact(states[n], t);
}

/// The number of stop times in the block of trip `id` (none: zero).
pub open spec fn stop_count(d: AppData, id: Seq<char>) -> int {
    match trip_block(d, id) {
        Some((s, e)) => e - s,
        None => 0,
    }
}

/// No two trips share an identifier.
pub open spec fn trip_ids_unique(trips: Seq<MyTrip>) -> bool {
    forall|i: int, j: int|
        0 <= i < trips.len() && 0 <= j < trips.len() && i != j ==> (#[trigger] trips[i]).id@ != (#[trigger] trips[j]).id@
}

/// Each trip's count of stops is the size of its block of stop times.
pub open spec fn stop_counts_right(d: AppData) -> bool {
    forall|i: int| 0 <= i < d.trips.len() ==> (#[trigger] d.trips@[i]).n_stops == stop_count(d, d.trips@[i].id@)
}

/// The counts of stops are right, trips are told apart by identifier, and each trip's
/// stop times sit together.
pub open spec fn stop_counts_kept(d: AppData) -> bool {
    &&& trip_ids_unique(d.trips@)
    &&& contiguous(trip_ids(d.stop_times@))
    &&& stop_counts_right(d)
}

/// The trip that placing a stop started (the first trip of `new`) is new: no trip and
/// no stop time of `old` had its identifier.
pub open spec fn started_trip_is_new(old: AppData, new: AppData) -> bool {
    &&& forall|i: int| 0 <= i < old.trips.len() ==> (#[trigger] old.trips@[i]).id@ != new.trips@[0].id@
    &&& forall|k: int| 0 <= k < old.stop_times.len() ==> (#[trigger] old.stop_times@[k]).trip_id@ != new.trips@[0].id@
}

/// In a well-formed state whose trips' stop times sit together, a block's size is the
/// number of stop times of the trip.
proof fn lemma_stop_count_is_count(d: AppData)
    requires
        d.wf(),
        contiguous(trip_ids(d.stop_times@)),
    ensures
        forall|x: Seq<char>| #[trigger] stop_count(d, x) == count_of(trip_ids(d.stop_times@), x),
{
    assert forall|x: Seq<char>| #[trigger] stop_count(d, x) == count_of(trip_ids(d.stop_times@), x) by {
        lemma_block_size_is_count(trip_ids(d.stop_times@), x);
    }
}

/// The counts stay right when the trips keep their identifiers and counts and the
/// blocks and the stop times' trips stay as they were.
proof fn lemma_counts_unchanged(old: AppData, new: AppData)
    requires
        stop_counts_kept(old),
        new.stop_time_range_from_trip_id == old.stop_time_range_from_trip_id,
        trip_ids(new.stop_times@) == trip_ids(old.stop_times@),
        new.trips.len() == old.trips.len(),
        forall|i: int| 0 <= i < new.trips.len() ==> (#[trigger] new.trips@[i]).id == old.trips@[i].id && new.trips@[i].n_stops == old.trips@[i].n_stops,
    ensures
        stop_counts_kept(new),
{
    assert forall|i: int, j: int|
        0 <= i < new.trips.len() && 0 <= j < new.trips.len() && i != j implies (#[trigger] new.trips@[i]).id@ != (#[trigger] new.trips@[j]).id@ by {
        assert(old.trips@[i].id@ != old.trips@[j].id@);
    }
    assert forall|i: int| 0 <= i < new.trips.len() implies (#[trigger] new.trips@[i]).n_stops == stop_count(new, new.trips@[i].id@) by {
        assert(old.trips@[i].n_stops == stop_count(old, old.trips@[i].id@));
    }
}

/// Placing a stop keeps the counts of stops right (see `placed_stop`), when a trip it
/// starts is new.
proof fn lemma_placement_keeps_stop_counts(old: AppData, new: AppData, stop_id: String)
    requires
        old.wf(),
        stop_counts_kept(old),
        can_place_stop(old),
        placed_stop(old, new, stop_id),
        old.selected_stop_time_id is None ==> started_trip_is_new(old, new),
    ensures
        stop_counts_kept(new),
{
    let ids = trip_ids(old.stop_times@);
    lemma_stop_count_is_count(old);
    match old.selected_stop_time_id {
        Some((t, q)) => {
            lemma_find_stop_time(old.stop_times@, t@, q);
            let p = find_stop_time(old.stop_times@, t@, q).unwrap();
            assert(ids[p] == t@);
            match old.insert_stop_time_before {
                Some(before) => {
                    let at = if before { p } else { p + 1 };
                    let ti = find_trip(old.trips@, t@).unwrap();
                    lemma_find_trip(old.trips@, t@);
                    let (start, end) = last_run_of(runs(ids.insert(at, t@)), t@).unwrap();
                    let st = choose|st: MyStopTime|
                        crate::items::is_new_stop_time(st, t@, stop_id@, 99) && new.stop_times@ == renumbered(old.stop_times@.insert(at, st), start, end);
                    let nids = trip_ids(new.stop_times@);
                    assert(nids =~= ids.insert(at, t@));
                    lemma_insert_beside_keeps_contiguous(ids, at, t@);
                    lemma_stop_count_is_count(new);
                    assert forall|i: int, j: int|
                        0 <= i < new.trips.len() && 0 <= j < new.trips.len() && i != j implies (#[trigger] new.trips@[i]).id@ != (#[trigger] new.trips@[j]).id@ by {
                        assert(old.trips@[i].id@ != old.trips@[j].id@);
                    }
                    assert forall|i: int| 0 <= i < new.trips.len() implies (#[trigger] new.trips@[i]).n_stops == stop_count(new, new.trips@[i].id@) by {
                        let x = old.trips@[i].id@;
                        assert(new.trips@[i].id@ == x);
                        lemma_count_insert(ids, at, t@, x);
                        assert(old.trips@[i].n_stops == stop_count(old, x));
                        if i != ti {
                            assert(old.trips@[ti].id@ != x);
                        }
                    }
                },
                None => {
                    crate::laws::lemma_same_trip_ids(old, new);
                    lemma_counts_unchanged(old, new);
                },
            }
        },
        None => {
            let y = new.trips@[0].id@;
            let st = choose|st: MyStopTime|
                crate::items::is_new_stop_time(st, y, stop_id@, 1) && new.stop_times@ == old.stop_times@.push(st);
            let nids = trip_ids(new.stop_times@);
            assert(nids =~= ids.push(y));
            assert forall|k: int| 0 <= k < ids.len() implies ids[k] != y by {
                assert(old.stop_times@[k].trip_id@ != y);
            }
            lemma_push_fresh_keeps_contiguous(ids, y);
            lemma_stop_count_is_count(new);
            lemma_count_exact(ids, y, 0, 0);
            lemma_count_push(ids, y, y);
            assert forall|i: int| 1 <= i < new.trips.len() implies #[trigger] new.trips@[i] == old.trips@[i - 1] by {
                assert(new.trips@.drop_first()[i - 1] == new.trips@[i]);
            }
            assert forall|i: int, j: int|
                0 <= i < new.trips.len() && 0 <= j < new.trips.len() && i != j implies (#[trigger] new.trips@[i]).id@ != (#[trigger] new.trips@[j]).id@ by {
                if i > 0 && j > 0 {
                    assert(old.trips@[i - 1].id@ != old.trips@[j - 1].id@);
                } else if i == 0 {
                    assert(old.trips@[j - 1].id@ != y);
                } else {
                    assert(old.trips@[i - 1].id@ != y);
                }
            }
            assert forall|i: int| 0 <= i < new.trips.len() implies (#[trigger] new.trips@[i]).n_stops == stop_count(new, new.trips@[i].id@) by {
                if i > 0 {
                    let x = old.trips@[i - 1].id@;
                    assert(x != y);
                    lemma_count_push(ids, y, x);
                    assert(old.trips@[i - 1].n_stops == stop_count(old, x));
                }
            }
        },
    }
}

/// Every answered command keeps each trip's count of stops equal to the number of
/// stop times in its block, when the trips are told apart by identifier and each
/// trip's stop times sit together (both are kept too); a trip started by placing a
/// stop must have an identifier no trip or stop time had.
pub proof fn lemma_commands_keep_stop_counts(cmd: AppCommand, old: AppData, new: AppData)
    requires
        old.wf(),
        stop_counts_kept(old),
        command_allowed(cmd, old),
        command_done(cmd, old, new),
        (cmd is NewStop || cmd is EditStopTimeUpdate) && old.selected_stop_time_id is None ==> started_trip_is_new(old, new),
    ensures
        stop_counts_kept(new),
{
    match cmd {
        AppCommand::HoverStopTime(id) => {
            let flags = hover_flags(old, id);
            assert forall|k: int| 0 <= k < flags.len() implies (#[trigger] flags[k]).trip_id == old.stop_times@[k].trip_id by {}
            lemma_same_trip_ids(old, new);
            lemma_counts_unchanged(old, new);
        },
        AppCommand::SelectStopTime((t, q)) => {
            assert(new.stop_times@ == stop_times_selected_by(old.stop_times@, t@, q));
            lemma_same_trip_ids(old, new);
            lemma_counts_unchanged(old, new);
        },
        AppCommand::SelectTrip(trip_id) => {
            assert(new.trips@ == trips_selected_by(old.trips@, trip_id@));
            lemma_counts_unchanged(old, new);
        },
        AppCommand::SelectNothing => {
            assert(new.trips@ == trips_unselected(old.trips@));
            lemma_counts_unchanged(old, new);
        },
        AppCommand::EditStopTimeUpdate(stop_id) => {
            lemma_placement_keeps_stop_counts(old, new, stop_id);
        },
        AppCommand::NewStop => {
            let mid = AppData { stops: new.stops, stop_index_from_id: new.stop_index_from_id, ..old };
            assert(mid.wf());
            lemma_placement_keeps_stop_counts(mid, new, new.stops@.last().id);
        },
        _ => {
            lemma_counts_unchanged(old, new);
        },
    }
}

/// The stop times are as the feed gave them: as many, each calling at the stop the
/// feed's stop time calls at.
pub open spec fn stop_times_unedited(d: AppData) -> bool {
    &&& d.gtfs.stop_times.len() == d.stop_times.len()
    &&& forall|k: int| 0 <= k < d.stop_times.len() ==> (#[trigger] d.gtfs.stop_times@[k]).stop_id@ == d.stop_times@[k].stop_id@
}

/// While no stop time has been moved to another stop, the stop positions drawn for
/// each trip from the feed are those of its block of stop times.
pub proof fn lemma_unedited_stop_positions_agree(d: AppData)
    requires
        d.wf(),
        stop_times_unedited(d),
    ensures
        forall|i: int| 0 <= i < d.trips.len() && trip_block(d, (#[trigger] d.trips@[i]).id@) is Some
            ==> feed_trip_stop_positions(d, d.trips@[i]) == block_stop_positions_of(d, d.trips@[i].id@),
{
    assert forall|i: int| 0 <= i < d.trips.len() && trip_block(d, (#[trigger] d.trips@[i]).id@) is Some
        implies feed_trip_stop_positions(d, d.trips@[i]) == block_stop_positions_of(d, d.trips@[i].id@) by {
        let id = d.trips@[i].id@;
        lemma_found_run_in_bounds(trip_ids(d.stop_times@), id);
        let (s, e) = trip_block(d, id).unwrap();
        assert(feed_block_stop_ids(d, s, e) =~= edited_block_stop_ids(d, s, e));
    }
}

/// After a stop is added, its identifier names it: the stop found for that identifier
/// is the new, last stop, whatever identifier it drew.
pub proof fn lemma_new_stop_is_found(old: AppData, new: AppData)
    requires
        new_stop_placed(old, new),
    ensures
        stop_position_of(new, new.stops@.last().id@) == new.stops@.len() - 1,
{
    let ids = stop_ids(new.stops@);
    assert(ids.len() == new.stops@.len() && ids.len() > 0);
    assert(new.stops@.len() == new.stops.len());
    assert(ids.last() == new.stops@.last().id@);
    assert(last_with_id(ids, new.stops@.last().id@) == Some(ids.len() - 1));
}

/// Clicking the agency that is already selected keeps the route, trip, stop time and
/// stop selected below it.
pub proof fn lemma_reselecting_agency_keeps_selections(old: AppData, new: AppData, agency_id: Option<String>)
    requires
        agency_selected(old, new, agency_id),
        agency_already_selected(old, agency_id),
    ensures
        new.selected_agency_id == old.selected_agency_id,
        new.selected_route_id == old.selected_route_id,
        new.selected_trip_id == old.selected_trip_id,
        new.selected_stop_time_id == old.selected_stop_time_id,
        new.selected_stop_id == old.selected_stop_id,
{
}

/// After hovering stop `q` of trip `t`, exactly the stop times of that trip that are
/// stop `q` are flagged hovered, whichever stop time was hovered before (another stop
/// of the same trip included).
pub proof fn lemma_hovered_stop_is_flagged(old: AppData, new: AppData, t: String, q: u16)
    requires
        old.wf(),
        can_hover(old, Some((t, q))),
        stop_time_hovered(old, new, Some((t, q))),
    ensures
        forall|i: int| trip_block(old, t@).unwrap().0 <= i < trip_block(old, t@).unwrap().1
            ==> (#[trigger] new.stop_times@[i]).hovered == (new.stop_times@[i].stop_sequence == q),
{
    let (s, e) = trip_block(old, t@).unwrap();
    lemma_found_run_in_bounds(trip_ids(old.stop_times@), t@);
    let cleared = match old.hovered_stop_time_id {
        Some((t0, _)) => if t@ == t0@ {
            old.stop_times@
        } else {
            unhovered_in(old.stop_times@, trip_block(old, t0@).unwrap().0, trip_block(old, t0@).unwrap().1)
        },
        None => old.stop_times@,
    };
    assert(new.stop_times@ == hovered_in(cleared, s, e, q));
    assert forall|i: int| s <= i < e implies (#[trigger] new.stop_times@[i]).hovered == (new.stop_times@[i].stop_sequence == q) by {
        assert(cleared[i].stop_sequence == old.stop_times@[i].stop_sequence);
    }
}

/// The editor's stop times, as opened from a feed, are the feed's stop times one for
/// one, in the same order: each has the trip, stop, stop sequence, arrival time,
/// departure time and headsign of its feed stop time, keeps that stop time, is live
/// and is neither selected, hovered nor edited.
pub proof fn lemma_opened_stop_times_copy_the_feed(d: AppData, g: MyGtfs)
    requires
        is_initial_data(d, g),
    ensures
        d.stop_times.len() == d.gtfs.stop_times.len(),
        forall|i: int| 0 <= i < d.stop_times.len() ==> {
            let st = #[trigger] d.stop_times@[i];
            let rec = d.gtfs.stop_times@[i];
            &&& st.trip_id == rec.trip_id
            &&& st.stop_id == rec.stop_id
            &&& st.stop_sequence == rec.stop_sequence
            &&& st.arrival_time == rec.arrival_time
            &&& st.departure_time == rec.departure_time
            &&& st.stop_headsign == rec.stop_headsign
            &&& st.stop_time == Some(Box::new(rec))
            &&& st.live && !st.selected && !st.hovered && !st.edited && !st.show_editing
        },
{
    assert forall|i: int| 0 <= i < d.stop_times.len() implies ({
        let st = #[trigger] d.stop_times@[i];
        let rec = d.gtfs.stop_times@[i];
        &&& st.trip_id == rec.trip_id
        &&& st.stop_id == rec.stop_id
        &&& st.stop_sequence == rec.stop_sequence
        &&& st.arrival_time == rec.arrival_time
        &&& st.departure_time == rec.departure_time
        &&& st.stop_headsign == rec.stop_headsign
        &&& st.stop_time == Some(Box::new(rec))
        &&& st.live && !st.selected && !st.hovered && !st.edited && !st.show_editing
    }) by {
        assert(d.gtfs.stop_times@[i] == g.stop_times@[i]);
    }
}

} // verus!

//! Indexes from an identifier to the block of consecutive records that carry it,
//! such as the stop times of a trip once stop times are sorted by trip.
use vstd::prelude::*;

use vstd::utf8::encode_utf8;

use crate::items::MyStopTime;
use crate::order::{compare_bytes, lemma_bytes_lt_irreflexive, lemma_bytes_lt_transitive, text_lt};

verus! {

/// The records `start..end` carry the identifier `id`.
pub struct IdRange {
    pub id: String,
    pub start: usize,
    pub end: usize,
}

/// A block as plain values: identifier, first position, position after the last.
pub type RunView = (Seq<char>, int, int);

pub open spec fn range_view(r: IdRange) -> RunView {
    (r.id@, r.start as int, r.end as int)
}

pub open spec fn ranges_view(rs: Seq<IdRange>) -> Seq<RunView> {
    rs.map_values(|r: IdRange| range_view(r))
}

/// The maximal blocks of equal consecutive identifiers of `ids`, from first to last.
pub open spec fn runs(ids: Seq<Seq<char>>) -> Seq<RunView>
    decreases ids.len(),
{
    if ids.len() == 0 {
        seq![]
    } else {
        let prev = runs(ids.drop_last());
        let id = ids.last();
        let n = ids.len() as int;
        if prev.len() > 0 && prev.last().0 == id {
            prev.update(prev.len() - 1, (id, prev.last().1, n))
        } else {
            prev.push((id, n - 1, n))
        }
    }
}

/// The block that a lookup by `id` finds: the last block with that identifier
/// (later blocks replace earlier ones, as in a map filled from first to last).
pub open spec fn last_run_of(rs: Seq<RunView>, id: Seq<char>) -> Option<(int, int)>
    decreases rs.len(),
{
    if rs.len() == 0 {
        None
    } else if rs.last().0 == id {
        Some((rs.last().1, rs.last().2))
    } else {
        last_run_of(rs.drop_last(), id)
    }
}

/// The trip identifiers of a list of stop times.
pub open spec fn trip_ids(sts: Seq<MyStopTime>) -> Seq<Seq<char>> {
    sts.map_values(|st: MyStopTime| st.trip_id@)
}

/// The blocks of `ids` cover it from first to last: each is non-empty, starts where
/// the one before ends, holds only its own identifier, and differs from its neighbour.
pub open spec fn runs_partition(ids: Seq<Seq<char>>, rs: Seq<RunView>) -> bool {
    &&& (rs.len() == 0 <==> ids.len() == 0)
    &&& rs.len() > 0 ==> rs[0].1 == 0 && rs.last().2 == ids.len()
    &&& forall|r: int| 0 <= r < rs.len() ==> 0 <= #[trigger] rs[r].1 < rs[r].2 <= ids.len()
    &&& forall|r: int| 0 <= r < rs.len() - 1 ==> #[trigger] rs[r + 1].1 == rs[r].2
    &&& forall|r: int| 0 <= r < rs.len() - 1 ==> #[trigger] rs[r + 1].0 != rs[r].0
    &&& forall|r: int, k: int| 0 <= r < rs.len() && rs[r].1 <= k < rs[r].2 ==> #[trigger] ids[k] == #[trigger] rs[r].0
}

/// The blocks that `runs` computes partition the identifiers.
pub proof fn lemma_runs_partition(ids: Seq<Seq<char>>)
    ensures
        runs_partition(ids, runs(ids)),
    decreases ids.len(),
{
    if ids.len() > 0 {
        let pre = ids.drop_last();
        lemma_runs_partition(pre);
        let prev = runs(pre);
        let rs = runs(ids);
        let n = ids.len() as int;
        let id = ids.last();
        assert forall|r: int, k: int| 0 <= r < rs.len() && rs[r].1 <= k < rs[r].2 implies #[trigger] ids[k] == #[trigger] rs[r].0 by {
            if k < n - 1 {
                assert(ids[k] == pre[k]);
                if r < prev.len() {
                    assert(prev[r].1 <= k);
                    if r == prev.len() - 1 && prev.last().0 == id {
                        assert(rs[r].0 == prev[r].0);
                        if k >= prev[r].2 {
                            assert(prev[r].2 == pre.len());
                        }
                    } else {
                        assert(rs[r] == prev[r]);
                    }
                    assert(pre[k] == prev[r].0);
                }
            }
        }
    }
}

/// A lookup finds a block exactly when some block carries the identifier.
pub proof fn lemma_last_run_found(rs: Seq<RunView>, id: Seq<char>, r: int)
    requires
        0 <= r < rs.len(),
        rs[r].0 == id,
    ensures
        last_run_of(rs, id) is Some,
    decreases rs.len(),
{
    if rs.last().0 != id {
        assert(rs.drop_last()[r] == rs[r]);
        lemma_last_run_found(rs.drop_last(), id, r);
    }
}

/// What a lookup finds is one of the blocks, with that identifier.
pub proof fn lemma_last_run_is_run(rs: Seq<RunView>, id: Seq<char>)
    requires
        last_run_of(rs, id) is Some,
    ensures
        exists|r: int| 0 <= r < rs.len() && #[trigger] rs[r] == (id, last_run_of(rs, id).unwrap().0, last_run_of(rs, id).unwrap().1),
    decreases rs.len(),
{
    if rs.last().0 == id {
        assert(rs[rs.len() - 1] == (id, last_run_of(rs, id).unwrap().0, last_run_of(rs, id).unwrap().1));
    } else {
        lemma_last_run_is_run(rs.drop_last(), id);
        let r = choose|r: int| 0 <= r < rs.drop_last().len() && #[trigger] rs.drop_last()[r] == (id, last_run_of(rs, id).unwrap().0, last_run_of(rs, id).unwrap().1);
        assert(rs[r] == rs.drop_last()[r]);
    }
}

/// The blocks of the identifiers `ids`, which must not be empty.
pub fn id_runs(ids: &Vec<&String>) -> (rs: Vec<IdRange>)
    requires
        ids.len() > 0,
    ensures
        ranges_view(rs@) == runs(ids@.map_values(|s: &String| s@)),
{
    let ghost v = ids@.map_values(|s: &String| s@);
    let mut rs: Vec<IdRange> = Vec::new();
    let mut start: usize = 0;
    let mut current: String = ids[0].clone();
    let mut k: usize = 1;
    proof {
        assert(v.take(1).drop_last() =~= v.take(0));
        assert(runs(v.take(0)) =~= seq![]);
        assert(v.take(1).last() == v[0]);
    }
    while k < ids.len()
        invariant
            v == ids@.map_values(|s: &String| s@),
            1 <= k <= ids.len(),
            start < k,
            ranges_view(rs@).push((current@, start as int, k as int)) == runs(v.take(k as int)),
        decreases ids.len() - k,
    {
        proof {
            assert(v.take(k + 1).drop_last() =~= v.take(k as int));
            assert(v.take(k + 1).last() == v[k as int]);
        }
        if current != *ids[k] {
            let id = current;
            current = ids[k].clone();
            let ghost before = ranges_view(rs@);
            rs.push(IdRange { id, start, end: k });
            proof {
                assert(ranges_view(rs@) =~= before.push((id@, start as int, k as int)));
            }
            start = k;
        }
        proof {
            let prev = runs(v.take(k as int));
            assert(prev.last().0 == current@ || prev.last() == (v[k as int - 1], prev.last().1, k as int));
        }
        k = k + 1;
        proof {
            assert(ranges_view(rs@).push((current@, start as int, k as int)) =~= runs(v.take(k as int)));
        }
    }
    let ghost before = ranges_view(rs@);
    rs.push(IdRange { id: current, start, end: k });
    proof {
        assert(v.take(k as int) =~= v);
        assert(ranges_view(rs@) =~= before.push((current@, start as int, k as int)));
    }
    rs
}

/// The block of stop times of each trip, for stop times grouped by trip.
pub fn make_stop_time_range_from_trip_id(stop_times: &Vec<MyStopTime>) -> (rs: Vec<IdRange>)
    requires
        stop_times.len() > 0,
    ensures
        ranges_view(rs@) == runs(trip_ids(stop_times@)),
{
    let mut ids: Vec<&String> = Vec::new();
    let mut k: usize = 0;
    while k < stop_times.len()
        invariant
            k <= stop_times.len(),
            ids.len() == k,
            forall|j: int| 0 <= j < k ==> #[trigger] ids@[j] == stop_times@[j].trip_id,
        decreases stop_times.len() - k,
    {
        ids.push(&stop_times[k].trip_id);
        k = k + 1;
    }
    proof {
        assert(ids@.map_values(|s: &String| s@) =~= trip_ids(stop_times@));
    }
    id_runs(&ids)
}

/// The block that `id` looks up to.
pub fn find_range(rs: &Vec<IdRange>, id: &String) -> (r: Option<(usize, usize)>)
    ensures
        match r {
            Some((s, e)) => last_run_of(ranges_view(rs@), id@) == Some((s as int, e as int)),
            None => last_run_of(ranges_view(rs@), id@) is None,
        },
{
    let ghost rv = ranges_view(rs@);
    let mut k: usize = rs.len();
    assert(rv.take(k as int) =~= rv);
    while k > 0
        invariant
            k <= rs.len(),
            rv == ranges_view(rs@),
            last_run_of(rv, id@) == last_run_of(rv.take(k as int), id@),
        decreases k,
    {
        proof {
            assert(rv.take(k as int).drop_last() =~= rv.take(k - 1));
        }
        if rs[k - 1].id == *id {
            return Some((rs[k - 1].start, rs[k - 1].end));
        }
        k = k - 1;
    }
    None
}

/// The identifiers never decrease from first to last.
pub open spec fn texts_ascending(ids: Seq<Seq<char>>) -> bool {
    forall|p: int, q: int| 0 <= p < q < ids.len() ==> text_lt(#[trigger] ids[p], #[trigger] ids[q]) || ids[p] == ids[q]
}

/// The blocks' identifiers strictly increase from first to last.
pub open spec fn runs_ascending(rs: Seq<RunView>) -> bool {
    forall|a: int, b: int| 0 <= a < b < rs.len() ==> text_lt(#[trigger] rs[a].0, #[trigger] rs[b].0)
}

/// Identifiers in ascending order have blocks in strictly ascending order.
pub proof fn lemma_runs_ascending(ids: Seq<Seq<char>>)
    requires
        texts_ascending(ids),
    ensures
        runs_ascending(runs(ids)),
{
    lemma_runs_partition(ids);
    let rs = runs(ids);
    assert forall|a: int, b: int| 0 <= a < b < rs.len() implies text_lt(#[trigger] rs[a].0, #[trigger] rs[b].0) by {
        lemma_runs_ascending_from(ids, a, b);
    }
}

proof fn lemma_runs_ascending_from(ids: Seq<Seq<char>>, a: int, b: int)
    requires
        texts_ascending(ids),
        runs_partition(ids, runs(ids)),
        0 <= a < b < runs(ids).len(),
    ensures
        text_lt(runs(ids)[a].0, runs(ids)[b].0),
    decreases b - a,
{
    let rs = runs(ids);
    if b == a + 1 {
        let p = rs[a].1;
        let q = rs[b].1;
        assert(ids[p] == rs[a].0);
        assert(ids[q] == rs[b].0);
    } else {
        lemma_runs_ascending_from(ids, a, b - 1);
        lemma_runs_ascending_from(ids, b - 1, b);
        lemma_bytes_lt_transitive(encode_utf8(rs[a].0), encode_utf8(rs[b - 1].0), encode_utf8(rs[b].0));
    }
}

proof fn lemma_last_run_of_is(rs: Seq<RunView>, id: Seq<char>, m: int)
    requires
        0 <= m < rs.len(),
        rs[m].0 == id,
        forall|k: int| m < k < rs.len() ==> rs[k].0 != id,
    ensures
        last_run_of(rs, id) == Some((rs[m].1, rs[m].2)),
    decreases rs.len(),
{
    if m < rs.len() - 1 {
        assert(rs.drop_last()[m] == rs[m]);
        lemma_last_run_of_is(rs.drop_last(), id, m);
    }
}

proof fn lemma_last_run_of_none(rs: Seq<RunView>, id: Seq<char>)
    requires
        forall|k: int| 0 <= k < rs.len() ==> rs[k].0 != id,
    ensures
        last_run_of(rs, id) is None,
    decreases rs.len(),
{
    if rs.len() > 0 {
        assert forall|k: int| 0 <= k < rs.len() - 1 implies rs.drop_last()[k].0 != id by {
            assert(rs.drop_last()[k] == rs[k]);
        }
        lemma_last_run_of_none(rs.drop_last(), id);
    }
}

/// `find_range` for blocks in strictly ascending order, by binary search.
pub fn find_range_sorted(rs: &Vec<IdRange>, id: &String) -> (r: Option<(usize, usize)>)
    requires
        runs_ascending(ranges_view(rs@)),
    ensures
        match r {
            Some((s, e)) => last_run_of(ranges_view(rs@), id@) == Some((s as int, e as int)),
            None => last_run_of(ranges_view(rs@), id@) is None,
        },
{
    let ghost rv = ranges_view(rs@);
    let mut lo: usize = 0;
    let mut hi: usize = rs.len();
    while lo < hi
        invariant
            rv == ranges_view(rs@),
            runs_ascending(rv),
            lo <= hi <= rs.len(),
            forall|k: int| 0 <= k < lo ==> text_lt(#[trigger] rv[k].0, id@),
            forall|k: int| hi <= k < rs.len() ==> text_lt(id@, #[trigger] rv[k].0),
        decreases hi - lo,
    {
        let m = lo + (hi - lo) / 2;
        let c = compare_bytes(rs[m].id.as_str().as_bytes(), id.as_str().as_bytes());
        proof {
            assert(rv[m as int].0 == rs@[m as int].id@);
        }
        if c == 0 {
            proof {
                assert(rs@[m as int].id@ == id@) by {
                    vstd::utf8::encode_utf8_decode_utf8(id@);
                    vstd::utf8::encode_utf8_decode_utf8(rs@[m as int].id@);
                }
                assert forall|k: int| m < k < rv.len() implies rv[k].0 != id@ by {
                    assert(text_lt(rv[m as int].0, rv[k].0));
                    lemma_bytes_lt_irreflexive(encode_utf8(id@));
                }
                lemma_last_run_of_is(rv, id@, m as int);
            }
            return Some((rs[m].start, rs[m].end));
        } else if c < 0 {
            proof {
                assert forall|k: int| 0 <= k <= m implies text_lt(#[trigger] rv[k].0, id@) by {
                    if k < m {
                        lemma_bytes_lt_transitive(encode_utf8(rv[k].0), encode_utf8(rv[m as int].0), encode_utf8(id@));
                    }
                }
            }
            lo = m + 1;
        } else {
            proof {
                assert forall|k: int| m <= k < rs.len() implies text_lt(id@, #[trigger] rv[k].0) by {
                    if k > m {
                        lemma_bytes_lt_transitive(encode_utf8(id@), encode_utf8(rv[m as int].0), encode_utf8(rv[k].0));
                    }
                }
            }
            hi = m;
        }
    }
    proof {
        assert forall|k: int| 0 <= k < rv.len() implies rv[k].0 != id@ by {
            lemma_bytes_lt_irreflexive(encode_utf8(id@));
        }
        lemma_last_run_of_none(rv, id@);
    }
    None
}

/// A block found by a lookup lies within the identifiers.
pub proof fn lemma_found_run_in_bounds(ids: Seq<Seq<char>>, id: Seq<char>)
    requires
        last_run_of(runs(ids), id) is Some,
    ensures
        0 <= last_run_of(runs(ids), id).unwrap().0 < last_run_of(runs(ids), id).unwrap().1 <= ids.len(),
        forall|k: int|
            last_run_of(runs(ids), id).unwrap().0 <= k < last_run_of(runs(ids), id).unwrap().1 ==> #[trigger] ids[k] == id,
{
    lemma_runs_partition(ids);
    let rs = runs(ids);
    lemma_last_run_is_run(rs, id);
    let (a, b) = last_run_of(rs, id).unwrap();
    let r = choose|r: int| 0 <= r < rs.len() && #[trigger] rs[r] == (id, a, b);
    assert(rs[r].1 == a && rs[r].2 == b && rs[r].0 == id);
    assert forall|k: int| a <= k < b implies #[trigger] ids[k] == id by {
        assert(ids[k] == rs[r].0);
    }
}

/// A present identifier has a block.
pub proof fn lemma_present_id_has_run(ids: Seq<Seq<char>>, k: int)
    requires
        0 <= k < ids.len(),
    ensures
        last_run_of(runs(ids), ids[k]) is Some,
{
    lemma_runs_partition(ids);
    lemma_position_in_run(ids, k);
    let rs = runs(ids);
    let b = choose|b: int| 0 <= b < rs.len() && #[trigger] rs[b].1 <= k < rs[b].2;
    lemma_last_run_found(rs, ids[k], b);
}

/// Every position lies in one of the blocks.
pub proof fn lemma_position_in_run(ids: Seq<Seq<char>>, j: int)
    requires
        0 <= j < ids.len(),
    ensures
        exists|b: int| 0 <= b < runs(ids).len() && #[trigger] runs(ids)[b].1 <= j < runs(ids)[b].2,
    decreases ids.len(),
{
    lemma_runs_partition(ids);
    let pre = ids.drop_last();
    if j == ids.len() - 1 {
        let rs = runs(ids);
        assert(rs.last().2 == ids.len());
        assert(rs[rs.len() - 1].1 <= j);
    } else {
        lemma_position_in_run(pre, j);
        lemma_runs_partition(pre);
        let b = choose|b: int| 0 <= b < runs(pre).len() && #[trigger] runs(pre)[b].1 <= j < runs(pre)[b].2;
        assert(runs(ids)[b].1 <= j < runs(ids)[b].2);
    }
}

} // verus!

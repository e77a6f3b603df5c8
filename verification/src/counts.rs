//! How many stop times a trip has: when each trip's stop times sit together, the
//! block that a trip looks up to holds exactly its stop times, so its size is the
//! number of the trip's stop times.
use vstd::prelude::*;

use crate::runs::{last_run_of, lemma_last_run_found, lemma_last_run_is_run, lemma_position_in_run, lemma_runs_partition, runs};

verus! {

/// Each identifier's places are next to each other: nothing else lies between two
/// places of the same identifier.
pub open spec fn contiguous(ids: Seq<Seq<char>>) -> bool {
    forall|i: int, j: int, k: int|
        0 <= i < j < k < ids.len() && #[trigger] ids[i] == #[trigger] ids[k] ==> #[trigger] ids[j] == ids[i]
}

/// How many times `x` occurs in `ids`.
pub open spec fn count_of(ids: Seq<Seq<char>>, x: Seq<char>) -> nat
    decreases ids.len(),
{
    if ids.len() == 0 {
        0
    } else {
        count_of(ids.drop_last(), x) + if ids.last() == x {
            1nat
        } else {
            0nat
        }
    }
}

/// Adding `y` at the end adds one occurrence of `y`.
pub proof fn lemma_count_push(ids: Seq<Seq<char>>, y: Seq<char>, x: Seq<char>)
    ensures
        count_of(ids.push(y), x) == count_of(ids, x) + if y == x { 1nat } else { 0nat },
{
    assert(ids.push(y).drop_last() =~= ids);
}

/// Putting `t` in anywhere adds one occurrence of `t`.
pub proof fn lemma_count_insert(ids: Seq<Seq<char>>, at: int, t: Seq<char>, x: Seq<char>)
    requires
        0 <= at <= ids.len(),
    ensures
        count_of(ids.insert(at, t), x) == count_of(ids, x) + if t == x { 1nat } else { 0nat },
    decreases ids.len(),
{
    if at == ids.len() {
        assert(ids.insert(at, t) =~= ids.push(t));
        lemma_count_push(ids, t, x);
    } else {
        let s = ids.insert(at, t);
        assert(s.drop_last() =~= ids.drop_last().insert(at, t));
        assert(s.last() == ids.last());
        lemma_count_insert(ids.drop_last(), at, t, x);
    }
}

/// When `x` occurs exactly at the places `s..e`, it occurs `e - s` times.
pub proof fn lemma_count_exact(ids: Seq<Seq<char>>, x: Seq<char>, s: int, e: int)
    requires
        0 <= s <= e <= ids.len(),
        forall|k: int| 0 <= k < ids.len() ==> (ids[k] == x <==> s <= k < e),
    ensures
        count_of(ids, x) == e - s,
    decreases ids.len(),
{
    if ids.len() > 0 {
        let pre = ids.drop_last();
        let n = ids.len() as int;
        assert(ids.last() == ids[n - 1]);
        if s == e {
            assert forall|k: int| 0 <= k < pre.len() implies (pre[k] == x <==> 0 <= k < 0) by {
                assert(pre[k] == ids[k]);
            }
            lemma_count_exact(pre, x, 0, 0);
        } else if e == n {
            assert forall|k: int| 0 <= k < pre.len() implies (pre[k] == x <==> s <= k < e - 1) by {
                assert(pre[k] == ids[k]);
            }
            lemma_count_exact(pre, x, s, e - 1);
        } else {
            assert forall|k: int| 0 <= k < pre.len() implies (pre[k] == x <==> s <= k < e) by {
                assert(pre[k] == ids[k]);
            }
            lemma_count_exact(pre, x, s, e);
        }
    }
}

/// A block ends at or before the start of any later block.
proof fn lemma_run_ends_before(ids: Seq<Seq<char>>, a: int, b: int)
    requires
        0 <= a < b < runs(ids).len(),
    ensures
        runs(ids)[a].2 <= runs(ids)[b].1,
    decreases b - a,
{
    lemma_runs_partition(ids);
    let rs = runs(ids);
    let r = b - 1;
    assert(rs[r + 1].1 == rs[r].2);
    assert(0 <= rs[r].1 < rs[r].2);
    if b > a + 1 {
        lemma_run_ends_before(ids, a, r);
    }
}

/// With each identifier's places together, two blocks never carry the same identifier.
proof fn lemma_contiguous_runs_distinct(ids: Seq<Seq<char>>, a: int, b: int)
    requires
        contiguous(ids),
        0 <= a < b < runs(ids).len(),
    ensures
        runs(ids)[a].0 != runs(ids)[b].0,
{
    lemma_runs_partition(ids);
    let rs = runs(ids);
    if b > a + 1 && rs[a].0 == rs[b].0 {
        lemma_run_ends_before(ids, a + 1, b);
        let i = rs[a].1;
        let j = rs[a + 1].1;
        let k = rs[b].1;
        assert(ids[i] == rs[a].0);
        assert(ids[j] == rs[a + 1].0);
        assert(ids[k] == rs[b].0);
        assert(i < j < k);
    }
}

/// With each identifier's places together, the block that `x` looks up to holds
/// exactly the places of `x`.
pub proof fn lemma_contiguous_block_exact(ids: Seq<Seq<char>>, x: Seq<char>)
    requires
        contiguous(ids),
    ensures
        match last_run_of(runs(ids), x) {
            Some((s, e)) => 0 <= s < e <= ids.len() && forall|k: int| 0 <= k < ids.len() ==> (ids[k] == x <==> s <= k < e),
            None => forall|k: int| 0 <= k < ids.len() ==> ids[k] != x,
        },
{
    lemma_runs_partition(ids);
    let rs = runs(ids);
    match last_run_of(rs, x) {
        Some((s, e)) => {
            lemma_last_run_is_run(rs, x);
            let r = choose|r: int| 0 <= r < rs.len() && #[trigger] rs[r] == (x, s, e);
            assert forall|k: int| 0 <= k < ids.len() implies (ids[k] == x <==> s <= k < e) by {
                lemma_position_in_run(ids, k);
                let b = choose|b: int| 0 <= b < rs.len() && #[trigger] rs[b].1 <= k < rs[b].2;
                assert(ids[k] == rs[b].0);
                if s <= k < e {
                    assert(ids[k] == rs[r].0);
                }
                if ids[k] == x && b != r {
                    if b < r {
                        lemma_contiguous_runs_distinct(ids, b, r);
                    } else {
                        lemma_contiguous_runs_distinct(ids, r, b);
                    }
                }
            }
        },
        None => {
            assert forall|k: int| 0 <= k < ids.len() implies ids[k] != x by {
                lemma_position_in_run(ids, k);
                let b = choose|b: int| 0 <= b < rs.len() && #[trigger] rs[b].1 <= k < rs[b].2;
                assert(ids[k] == rs[b].0);
                if ids[k] == x {
                    lemma_last_run_found(rs, x, b);
                }
            }
        },
    }
}

/// With each identifier's places together, the size of the block that `x` looks up to
/// (none: zero) is the number of occurrences of `x`.
pub proof fn lemma_block_size_is_count(ids: Seq<Seq<char>>, x: Seq<char>)
    requires
        contiguous(ids),
    ensures
        match last_run_of(runs(ids), x) {
            Some((s, e)) => e - s == count_of(ids, x),
            None => count_of(ids, x) == 0,
        },
{
    lemma_contiguous_block_exact(ids, x);
    match last_run_of(runs(ids), x) {
        Some((s, e)) => lemma_count_exact(ids, x, s, e),
        None => lemma_count_exact(ids, x, 0, 0),
    }
}

/// Putting `t` next to a place of `t` keeps each identifier's places together.
pub proof fn lemma_insert_beside_keeps_contiguous(ids: Seq<Seq<char>>, at: int, t: Seq<char>)
    requires
        contiguous(ids),
        0 <= at <= ids.len(),
        (at < ids.len() && ids[at] == t) || (0 < at && ids[at - 1] == t),
    ensures
        contiguous(ids.insert(at, t)),
{
    let s = ids.insert(at, t);
    assert forall|i: int, j: int, k: int|
        0 <= i < j < k < s.len() && #[trigger] s[i] == #[trigger] s[k] implies #[trigger] s[j] == s[i] by {
        let ii = if i < at { i } else { i - 1 };
        let jj = if j < at { j } else { j - 1 };
        let kk = if k < at { k } else { k - 1 };
        if i != at && j != at && k != at {
            assert(s[i] == ids[ii] && s[j] == ids[jj] && s[k] == ids[kk]);
            assert(ids[ii] == ids[kk]);
        } else if i == at {
            assert(s[k] == ids[kk] && s[j] == ids[jj]);
            if at < ids.len() && ids[at] == t {
                if at < jj {
                    assert(ids[at] == ids[kk]);
                }
            } else {
                assert(ids[at - 1] == ids[kk]);
            }
        } else if k == at {
            assert(s[i] == ids[ii] && s[j] == ids[jj]);
            if 0 < at && ids[at - 1] == t {
                if jj < at - 1 {
                    assert(ids[ii] == ids[at - 1]);
                }
            } else {
                assert(ids[ii] == ids[at]);
            }
        } else {
            assert(s[i] == ids[ii] && s[k] == ids[kk]);
            assert(ids[ii] == ids[kk]);
            if at < ids.len() && ids[at] == t {
                if at < kk {
                    assert(ids[ii] == ids[kk]);
                }
            } else {
                if ii < at - 1 {
                    assert(ids[ii] == ids[kk]);
                }
            }
        }
    }
}

/// Adding an identifier that does not occur yet at the end keeps each identifier's
/// places together.
pub proof fn lemma_push_fresh_keeps_contiguous(ids: Seq<Seq<char>>, y: Seq<char>)
    requires
        contiguous(ids),
        forall|k: int| 0 <= k < ids.len() ==> ids[k] != y,
    ensures
        contiguous(ids.push(y)),
{
    let s = ids.push(y);
    assert forall|i: int, j: int, k: int|
        0 <= i < j < k < s.len() && #[trigger] s[i] == #[trigger] s[k] implies #[trigger] s[j] == s[i] by {
        assert(s[i] == ids[i]);
        assert(s[j] == ids[j]);
        if k < ids.len() {
            assert(s[k] == ids[k]);
        }
    }
}

} // verus!

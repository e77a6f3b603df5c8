//! Finding a stop by its identifier: the stops' positions kept sorted by identifier.
use vstd::prelude::*;
use vstd::utf8::encode_utf8;

use crate::items::MyStop;
use crate::order::{
    bytes_lt, compare_bytes, is_sort_order, lemma_bytes_lt_irreflexive, lemma_bytes_lt_total,
    lemma_bytes_lt_transitive, occurs, precedes, sort_order, text_lt, text_views, zero_nums, zeros,
};

verus! {

/// The identifiers of a list of stops.
pub open spec fn stop_ids(stops: Seq<MyStop>) -> Seq<Seq<char>> {
    stops.map_values(|s: MyStop| s.id@)
}

/// The last position of `ids` that holds `id`, if any.
pub open spec fn last_with_id(ids: Seq<Seq<char>>, id: Seq<char>) -> Option<int>
    decreases ids.len(),
{
    if ids.len() == 0 {
        None
    } else if ids.last() == id {
        Some(ids.len() - 1)
    } else {
        last_with_id(ids.drop_last(), id)
    }
}

/// `o` lists the positions of `stops` by identifier, and among equal identifiers by position.
pub open spec fn is_stop_order(o: Seq<usize>, stops: Seq<MyStop>) -> bool {
    is_sort_order(o, stop_ids(stops), zeros(stops.len()))
}

/// What `last_with_id` gives: the position that holds `id` with no later one holding it.
pub proof fn lemma_last_with_id(ids: Seq<Seq<char>>, id: Seq<char>)
    ensures
        match last_with_id(ids, id) {
            Some(i) => 0 <= i < ids.len() && ids[i] == id && forall|j: int| i < j < ids.len() ==> ids[j] != id,
            None => forall|j: int| 0 <= j < ids.len() ==> ids[j] != id,
        },
    decreases ids.len(),
{
    if ids.len() > 0 && ids.last() != id {
        lemma_last_with_id(ids.drop_last(), id);
        assert forall|j: int| 0 <= j < ids.len() - 1 implies ids[j] == ids.drop_last()[j] by {}
    }
}

proof fn lemma_last_with_id_is(ids: Seq<Seq<char>>, id: Seq<char>, i: int)
    requires
        0 <= i < ids.len(),
        ids[i] == id,
        forall|j: int| i < j < ids.len() ==> ids[j] != id,
    ensures
        last_with_id(ids, id) == Some(i),
{
    lemma_last_with_id(ids, id);
}

proof fn lemma_last_with_id_none(ids: Seq<Seq<char>>, id: Seq<char>)
    requires
        forall|j: int| 0 <= j < ids.len() ==> ids[j] != id,
    ensures
        last_with_id(ids, id) is None,
{
    lemma_last_with_id(ids, id);
}

/// In a sort order the texts never decrease.
proof fn lemma_sorted_texts(o: Seq<usize>, texts: Seq<Seq<char>>, nums: Seq<u64>, a: int, b: int)
    requires
        is_sort_order(o, texts, nums),
        0 <= a < b < o.len(),
    ensures
        text_lt(texts[o[a] as int], texts[o[b] as int]) || texts[o[a] as int] == texts[o[b] as int],
{
    assert(precedes(texts, nums, o[a] as int, o[b] as int));
}

/// The stops' positions sorted by identifier.
pub fn stop_order(stops: &Vec<MyStop>) -> (o: Vec<usize>)
    ensures
        is_stop_order(o@, stops@),
{
    let mut texts: Vec<&String> = Vec::new();
    let mut k: usize = 0;
    while k < stops.len()
        invariant
            k <= stops.len(),
            texts.len() == k,
            forall|j: int| 0 <= j < k ==> #[trigger] texts@[j] == stops@[j].id,
        decreases stops.len() - k,
    {
        texts.push(&stops[k].id);
        k = k + 1;
    }
    let nums = zero_nums(stops.len());
    let o = sort_order(&texts, &nums);
    assert(text_views(texts@) =~= stop_ids(stops@));
    o
}

/// The first place in `o` whose stop identifier comes after `id`.
fn upper_bound(stops: &Vec<MyStop>, o: &Vec<usize>, id: &String) -> (p: usize)
    requires
        is_stop_order(o@, stops@),
    ensures
        p <= o.len(),
        forall|k: int| 0 <= k < p ==> !text_lt(id@, #[trigger] stop_ids(stops@)[o@[k] as int]),
        forall|k: int| p <= k < o.len() ==> text_lt(id@, #[trigger] stop_ids(stops@)[o@[k] as int]),
{
    let ghost ids = stop_ids(stops@);
    let ghost nums = zeros(stops.len() as nat);
    let mut lo: usize = 0;
    let mut hi: usize = o.len();
    while lo < hi
        invariant
            ids == stop_ids(stops@),
            nums == zeros(stops.len() as nat),
            is_stop_order(o@, stops@),
            lo <= hi <= o.len(),
            forall|k: int| 0 <= k < lo ==> !text_lt(id@, #[trigger] ids[o@[k] as int]),
            forall|k: int| hi <= k < o.len() ==> text_lt(id@, #[trigger] ids[o@[k] as int]),
        decreases hi - lo,
    {
        let m = lo + (hi - lo) / 2;
        let stop = &stops[o[m]];
        let c = compare_bytes(id.as_str().as_bytes(), stop.id.as_str().as_bytes());
        proof {
            assert(ids[o@[m as int] as int] == stop.id@);
        }
        if c < 0 {
            proof {
                assert forall|k: int| m <= k < o.len() implies text_lt(id@, #[trigger] ids[o@[k] as int]) by {
                    if k > m {
                        lemma_sorted_texts(o@, ids, nums, m as int, k);
                        if text_lt(ids[o@[m as int] as int], ids[o@[k] as int]) {
                            lemma_bytes_lt_transitive(
                                encode_utf8(id@),
                                encode_utf8(ids[o@[m as int] as int]),
                                encode_utf8(ids[o@[k] as int]),
                            );
                        }
                    }
                }
            }
            hi = m;
        } else {
            proof {
                assert forall|k: int| 0 <= k <= m implies !text_lt(id@, #[trigger] ids[o@[k] as int]) by {
                    if k < m {
                        lemma_sorted_texts(o@, ids, nums, k, m as int);
                        if text_lt(id@, ids[o@[k] as int]) && text_lt(ids[o@[k] as int], ids[o@[m as int] as int]) {
                            lemma_bytes_lt_transitive(
                                encode_utf8(id@),
                                encode_utf8(ids[o@[k] as int]),
                                encode_utf8(ids[o@[m as int] as int]),
                            );
                        }
                    }
                }
            }
            lo = m + 1;
        }
    }
    lo
}

/// The position of the last stop with identifier `id`, found through the order `o`.
pub fn stop_position(stops: &Vec<MyStop>, o: &Vec<usize>, id: &String) -> (r: Option<usize>)
    requires
        is_stop_order(o@, stops@),
    ensures
        match r {
            Some(i) => last_with_id(stop_ids(stops@), id@) == Some(i as int),
            None => last_with_id(stop_ids(stops@), id@) is None,
        },
{
    let ghost ids = stop_ids(stops@);
    let ghost nums = zeros(stops.len() as nat);
    let p = upper_bound(stops, o, id);
    let found = p > 0 && stops[o[p - 1]].id == *id;
    proof {
        lemma_bytes_lt_irreflexive(encode_utf8(id@));
        assert forall|j: int| 0 <= j < ids.len() && ids[j] == id@ implies (found && j <= o@[p - 1] as int) by {
            assert(occurs(o@, j));
            let k = choose|k: int| 0 <= k < o@.len() && o@[k] == j;
            assert(ids[o@[k] as int] == id@);
            assert(k < p);
            if k < p - 1 {
                assert(precedes(ids, nums, o@[k] as int, o@[p - 1] as int));
                lemma_sorted_texts(o@, ids, nums, k, p - 1);
                if ids[o@[p - 1] as int] != id@ {
                    assert(text_lt(id@, ids[o@[p - 1] as int]) || !text_lt(id@, ids[o@[p - 1] as int]));
                    lemma_bytes_lt_total(encode_utf8(id@), encode_utf8(ids[o@[p - 1] as int]));
                    if encode_utf8(id@) == encode_utf8(ids[o@[p - 1] as int]) {
                        vstd::utf8::encode_utf8_decode_utf8(id@);
                        vstd::utf8::encode_utf8_decode_utf8(ids[o@[p - 1] as int]);
                    }
                }
            }
        }
    }
    if found {
        proof {
            lemma_last_with_id_is(ids, id@, o@[p - 1] as int);
        }
        Some(o[p - 1])
    } else {
        proof {
            lemma_last_with_id_none(ids, id@);
        }
        None
    }
}

/// Adds `stop` at the end of `stops` and its position to the order `o`.
pub fn push_stop(stops: &mut Vec<MyStop>, o: &mut Vec<usize>, stop: MyStop)
    requires
        is_stop_order(old(o)@, old(stops)@),
    ensures
        final(stops)@ == old(stops)@.push(stop),
        is_stop_order(final(o)@, final(stops)@),
{
    let ghost ids0 = stop_ids(stops@);
    let ghost nums0 = zeros(stops.len() as nat);
    let p = upper_bound(stops, o, &stop.id);
    let n = stops.len();
    let ghost q = stop.id@;
    let ghost o0 = o@;
    stops.push(stop);
    o.insert(p, n);
    proof {
        let ids = stop_ids(stops@);
        let nums = zeros(stops.len() as nat);
        assert forall|x: int| 0 <= x < n implies ids[x] == ids0[x] && nums[x] == nums0[x] by {}
        assert(ids[n as int] == q);
        lemma_bytes_lt_irreflexive(encode_utf8(q));
        assert forall|k: int| 0 <= k < o@.len() implies #[trigger] o@[k] < ids.len() by {
            if k < p {
                assert(o@[k] == o0[k]);
            } else if k > p {
                assert(o@[k] == o0[k - 1]);
            }
        }
        assert forall|x: int| 0 <= x < ids.len() implies #[trigger] occurs(o@, x) by {
            if x == n {
                assert(o@[p as int] == x);
            } else {
                assert(occurs(o0, x));
                let k = choose|k: int| 0 <= k < o0.len() && o0[k] == x;
                if k < p {
                    assert(o@[k] == x);
                } else {
                    assert(o@[k + 1] == x);
                }
            }
        }
        assert forall|a: int, b: int| 0 <= a < b < o@.len() implies precedes(ids, nums, #[trigger] o@[a] as int, #[trigger] o@[b] as int) by {
            if a < p && b < p {
                assert(o@[a] == o0[a] && o@[b] == o0[b]);
                assert(precedes(ids0, nums0, o0[a] as int, o0[b] as int));
            } else if a < p && b == p {
                assert(o@[a] == o0[a]);
                assert(!text_lt(q, ids0[o0[a] as int]));
                lemma_bytes_lt_total(encode_utf8(q), encode_utf8(ids0[o0[a] as int]));
                if encode_utf8(q) == encode_utf8(ids0[o0[a] as int]) {
                    vstd::utf8::encode_utf8_decode_utf8(q);
                    vstd::utf8::encode_utf8_decode_utf8(ids0[o0[a] as int]);
                }
            } else if a < p {
                assert(o@[a] == o0[a] && o@[b] == o0[b - 1]);
                assert(precedes(ids0, nums0, o0[a] as int, o0[b - 1] as int));
            } else if a == p {
                assert(o@[b] == o0[b - 1]);
                assert(text_lt(q, ids0[o0[b - 1] as int]));
            } else {
                assert(o@[a] == o0[a - 1] && o@[b] == o0[b - 1]);
                assert(precedes(ids0, nums0, o0[a - 1] as int, o0[b - 1] as int));
            }
        }
    }
}

} // verus!

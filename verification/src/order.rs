//! The order in which the dataset's records are kept: by a text key, then by a
//! number, then by the position the record had before (a stable sort).
use vstd::prelude::*;
use vstd::utf8::encode_utf8;

use crate::runs::texts_ascending;

verus! {

/// `a` comes before `b` in byte-wise lexicographic order, the order of `str::cmp`.
pub open spec fn bytes_lt(a: Seq<u8>, b: Seq<u8>) -> bool
    decreases a.len(),
{
    if a.len() == 0 {
        b.len() > 0
    } else if b.len() == 0 {
        false
    } else if a[0] != b[0] {
        a[0] < b[0]
    } else {
        bytes_lt(a.drop_first(), b.drop_first())
    }
}

/// The order of `String`s: that of their UTF-8 bytes.
pub open spec fn text_lt(a: Seq<char>, b: Seq<char>) -> bool {
    bytes_lt(encode_utf8(a), encode_utf8(b))
}

/// Record `i` precedes record `j` when sorted by text, then by number, then by position.
pub open spec fn precedes(texts: Seq<Seq<char>>, nums: Seq<u64>, i: int, j: int) -> bool {
    ||| text_lt(texts[i], texts[j])
    ||| texts[i] == texts[j] && nums[i] < nums[j]
    ||| texts[i] == texts[j] && nums[i] == nums[j] && i < j
}

/// `order` lists every position of `texts` once, in the order `precedes`.
pub open spec fn is_sort_order(order: Seq<usize>, texts: Seq<Seq<char>>, nums: Seq<u64>) -> bool {
    &&& order.len() == texts.len()
    &&& forall|k: int| 0 <= k < order.len() ==> #[trigger] order[k] < texts.len()
    &&& forall|x: int| 0 <= x < texts.len() ==> #[trigger] occurs(order, x)
    &&& forall|a: int, b: int|
        0 <= a < b < order.len() ==> precedes(texts, nums, #[trigger] order[a] as int, #[trigger] order[b] as int)
}

/// `x` is one of the entries of `s`.
pub open spec fn occurs(s: Seq<usize>, x: int) -> bool {
    occurs_from(s, 0, x)
}

/// `x` is one of the entries of `s` at position `from` or later.
pub open spec fn occurs_from(s: Seq<usize>, from: int, x: int) -> bool {
    exists|k: int| from <= k < s.len() && s[k] == x
}

/// The views of a list of borrowed strings.
pub open spec fn text_views(texts: Seq<&String>) -> Seq<Seq<char>> {
    texts.map_values(|s: &String| s@)
}

/// `items` rearranged so that position `k` holds `items[order[k]]`.
pub open spec fn arrange<T>(items: Seq<T>, order: Seq<usize>) -> Seq<T> {
    order.map_values(|i: usize| items[i as int])
}

pub proof fn lemma_bytes_lt_irreflexive(a: Seq<u8>)
    ensures
        !bytes_lt(a, a),
    decreases a.len(),
{
    if a.len() > 0 {
        lemma_bytes_lt_irreflexive(a.drop_first());
    }
}

pub proof fn lemma_bytes_lt_transitive(a: Seq<u8>, b: Seq<u8>, c: Seq<u8>)
    requires
        bytes_lt(a, b),
        bytes_lt(b, c),
    ensures
        bytes_lt(a, c),
    decreases a.len(),
{
    if a.len() > 0 && b.len() > 0 && c.len() > 0 && a[0] == b[0] && b[0] == c[0] {
        lemma_bytes_lt_transitive(a.drop_first(), b.drop_first(), c.drop_first());
    }
}

pub proof fn lemma_bytes_lt_total(a: Seq<u8>, b: Seq<u8>)
    ensures
        a == b || bytes_lt(a, b) || bytes_lt(b, a),
    decreases a.len(),
{
    if a.len() > 0 && b.len() > 0 && a[0] == b[0] {
        lemma_bytes_lt_total(a.drop_first(), b.drop_first());
        if a.drop_first() == b.drop_first() {
            assert forall|k: int| 0 <= k < a.len() implies a[k] == b[k] by {
                if k > 0 {
                    assert(a[k] == a.drop_first()[k - 1]);
                    assert(b[k] == b.drop_first()[k - 1]);
                }
            }
            assert(a =~= b);
        }
    } else if a.len() == 0 && b.len() == 0 {
        assert(a =~= b);
    }
}

/// Comparing from a shared prefix on gives the same answer.
proof fn lemma_bytes_lt_skip(a: Seq<u8>, b: Seq<u8>, i: int)
    requires
        0 <= i <= a.len(),
        i <= b.len(),
        a.take(i) =~= b.take(i),
    ensures
        bytes_lt(a, b) == bytes_lt(a.skip(i), b.skip(i)),
    decreases i,
{
    if i == 0 {
        assert(a.skip(0) =~= a);
        assert(b.skip(0) =~= b);
    } else {
        assert(a[0] == a.take(i)[0]);
        assert(b[0] == b.take(i)[0]);
        assert(a.drop_first().take(i - 1) =~= b.drop_first().take(i - 1)) by {
            assert forall|k: int| 0 <= k < i - 1 implies #[trigger] a.drop_first().take(i - 1)[k]
                == b.drop_first().take(i - 1)[k] by {
                assert(a.take(i)[k + 1] == b.take(i)[k + 1]);
            }
        }
        lemma_bytes_lt_skip(a.drop_first(), b.drop_first(), i - 1);
        assert(a.drop_first().skip(i - 1) =~= a.skip(i));
        assert(b.drop_first().skip(i - 1) =~= b.skip(i));
    }
}

/// `precedes` is a strict total order on the positions of a list.
pub proof fn lemma_precedes_strict_total(texts: Seq<Seq<char>>, nums: Seq<u64>, i: int, j: int, k: int)
    ensures
        !precedes(texts, nums, i, i),
        i != j ==> precedes(texts, nums, i, j) || precedes(texts, nums, j, i),
        precedes(texts, nums, i, j) ==> !precedes(texts, nums, j, i),
        precedes(texts, nums, i, j) && precedes(texts, nums, j, k) ==> precedes(texts, nums, i, k),
{
    let (a, b, c) = (encode_utf8(texts[i]), encode_utf8(texts[j]), encode_utf8(texts[k]));
    lemma_bytes_lt_irreflexive(a);
    lemma_bytes_lt_irreflexive(b);
    lemma_bytes_lt_total(a, b);
    if texts[i] != texts[j] && a == b {
        vstd::utf8::encode_utf8_decode_utf8(texts[i]);
        vstd::utf8::encode_utf8_decode_utf8(texts[j]);
    }
    if bytes_lt(a, b) && bytes_lt(b, a) {
        lemma_bytes_lt_transitive(a, b, a);
    }
    if bytes_lt(a, b) && bytes_lt(b, c) {
        lemma_bytes_lt_transitive(a, b, c);
    }
}

/// A list has exactly one sort order.
pub proof fn lemma_sort_order_unique(o1: Seq<usize>, o2: Seq<usize>, texts: Seq<Seq<char>>, nums: Seq<u64>)
    requires
        is_sort_order(o1, texts, nums),
        is_sort_order(o2, texts, nums),
    ensures
        o1 == o2,
{
    lemma_sort_order_prefix(o1, o2, texts, nums, o1.len() as int);
    assert(o1 =~= o2);
}

proof fn lemma_sort_order_prefix(o1: Seq<usize>, o2: Seq<usize>, texts: Seq<Seq<char>>, nums: Seq<u64>, n: int)
    requires
        is_sort_order(o1, texts, nums),
        is_sort_order(o2, texts, nums),
        0 <= n <= o1.len(),
    ensures
        forall|m: int| 0 <= m < n ==> o1[m] == o2[m],
    decreases n,
{
    if n > 0 {
        let k = n - 1;
        lemma_sort_order_prefix(o1, o2, texts, nums, k);
        let x = o1[k] as int;
        let y = o2[k] as int;
        if x != y {
            lemma_precedes_strict_total(texts, nums, x, y, x);
            lemma_precedes_strict_total(texts, nums, y, x, y);
            if precedes(texts, nums, x, y) {
                // x sits somewhere in o2; neither before k nor after it.
                assert(occurs(o2, x));
                let p = choose|p: int| 0 <= p < o2.len() && o2[p] == x;
                if p < k {
                    assert(precedes(texts, nums, o1[p] as int, o1[k] as int));
                    lemma_precedes_strict_total(texts, nums, x, x, x);
                } else {
                    assert(p > k);
                    assert(precedes(texts, nums, o2[k] as int, o2[p] as int));
                }
            } else {
                assert(occurs(o1, y));
                let p = choose|p: int| 0 <= p < o1.len() && o1[p] == y;
                if p < k {
                    assert(precedes(texts, nums, o2[p] as int, o2[k] as int));
                    lemma_precedes_strict_total(texts, nums, y, y, y);
                } else {
                    assert(p > k);
                    assert(precedes(texts, nums, o1[k] as int, o1[p] as int));
                }
            }
        }
    }
}

/// Three-way byte-wise comparison: negative, zero or positive as `a` is before, equal to or after `b`.
pub fn compare_bytes(a: &[u8], b: &[u8]) -> (r: i8)
    ensures
        r < 0 <==> bytes_lt(a@, b@),
        r == 0 <==> a@ == b@,
        r > 0 <==> bytes_lt(b@, a@),
{
    let mut i: usize = 0;
    while i < a.len() && i < b.len()
        invariant
            i <= a@.len(),
            i <= b@.len(),
            a@.take(i as int) =~= b@.take(i as int),
        decreases a.len() - i,
    {
        if a[i] != b[i] {
            proof {
                lemma_bytes_lt_skip(a@, b@, i as int);
                lemma_bytes_lt_skip(b@, a@, i as int);
                assert(a@.skip(i as int)[0] == a@[i as int]);
                assert(b@.skip(i as int)[0] == b@[i as int]);
                if a@ == b@ {
                    assert(a@[i as int] == b@[i as int]);
                }
            }
            if a[i] < b[i] {
                return -1;
            } else {
                return 1;
            }
        }
        proof {
            assert(a@.take(i + 1) =~= a@.take(i as int).push(a@[i as int]));
            assert(b@.take(i + 1) =~= b@.take(i as int).push(b@[i as int]));
        }
        i = i + 1;
    }
    proof {
        lemma_bytes_lt_skip(a@, b@, i as int);
        lemma_bytes_lt_skip(b@, a@, i as int);
        lemma_bytes_lt_irreflexive(a@);
        if a.len() == b.len() {
            assert(a@ =~= a@.take(i as int));
            assert(b@ =~= b@.take(i as int));
        }
    }
    if a.len() < b.len() {
        -1
    } else if a.len() == b.len() {
        0
    } else {
        1
    }
}

/// Whether record `i` precedes record `j`.
fn key_precedes(texts: &Vec<&String>, nums: &Vec<u64>, i: usize, j: usize) -> (r: bool)
    requires
        texts.len() == nums.len(),
        i < texts.len(),
        j < texts.len(),
    ensures
        r == precedes(text_views(texts@), nums@, i as int, j as int),
{
    let a: &String = texts[i];
    let b: &String = texts[j];
    let c = compare_bytes(a.as_str().as_bytes(), b.as_str().as_bytes());
    proof {
        let (ta, tb) = (text_views(texts@)[i as int], text_views(texts@)[j as int]);
        assert(ta == a@);
        assert(tb == b@);
        if encode_utf8(ta) == encode_utf8(tb) {
            vstd::utf8::encode_utf8_decode_utf8(ta);
            vstd::utf8::encode_utf8_decode_utf8(tb);
        }
        lemma_bytes_lt_irreflexive(encode_utf8(ta));
    }
    if c < 0 {
        true
    } else if c > 0 {
        false
    } else if nums[i] != nums[j] {
        nums[i] < nums[j]
    } else {
        i < j
    }
}

/// The order of the records `lo..hi` among themselves.
fn sort_range(texts: &Vec<&String>, nums: &Vec<u64>, lo: usize, hi: usize) -> (r: Vec<usize>)
    requires
        texts.len() == nums.len(),
        lo <= hi <= texts.len(),
    ensures
        r.len() == hi - lo,
        forall|k: int| 0 <= k < r.len() ==> lo <= #[trigger] r@[k] < hi,
        forall|x: int| lo <= x < hi ==> occurs(r@, x),
        forall|a: int, b: int|
            0 <= a < b < r.len() ==> precedes(text_views(texts@), nums@, #[trigger] r@[a] as int, #[trigger] r@[b] as int),
    decreases hi - lo,
{
    if hi - lo == 0 {
        Vec::new()
    } else if hi - lo == 1 {
        let mut r = Vec::new();
        r.push(lo);
        assert(r@[0] == lo);
        r
    } else {
        let mid = lo + (hi - lo) / 2;
        let left = sort_range(texts, nums, lo, mid);
        let right = sort_range(texts, nums, mid, hi);
        merge(texts, nums, left, right, lo, mid, hi)
    }
}

fn merge(texts: &Vec<&String>, nums: &Vec<u64>, left: Vec<usize>, right: Vec<usize>, lo: usize, mid: usize, hi: usize) -> (r: Vec<usize>)
    requires
        texts.len() == nums.len(),
        lo <= mid <= hi <= texts.len(),
        left.len() == mid - lo,
        right.len() == hi - mid,
        forall|k: int| 0 <= k < left.len() ==> lo <= #[trigger] left@[k] < mid,
        forall|k: int| 0 <= k < right.len() ==> mid <= #[trigger] right@[k] < hi,
        forall|x: int| lo <= x < mid ==> occurs(left@, x),
        forall|x: int| mid <= x < hi ==> occurs(right@, x),
        forall|a: int, b: int|
            0 <= a < b < left.len() ==> precedes(text_views(texts@), nums@, #[trigger] left@[a] as int, #[trigger] left@[b] as int),
        forall|a: int, b: int|
            0 <= a < b < right.len() ==> precedes(text_views(texts@), nums@, #[trigger] right@[a] as int, #[trigger] right@[b] as int),
    ensures
        r.len() == hi - lo,
        forall|k: int| 0 <= k < r.len() ==> lo <= #[trigger] r@[k] < hi,
        forall|x: int| lo <= x < hi ==> occurs(r@, x),
        forall|a: int, b: int|
            0 <= a < b < r.len() ==> precedes(text_views(texts@), nums@, #[trigger] r@[a] as int, #[trigger] r@[b] as int),
{
    let ghost tv = text_views(texts@);
    let ghost ns = nums@;
    let mut r: Vec<usize> = Vec::new();
    let mut i: usize = 0;
    let mut j: usize = 0;
    assert forall|x: int| lo <= x < hi implies #[trigger] occurs(r@, x) || occurs_from(left@, i as int, x)
        || occurs_from(right@, j as int, x) by {
        if x < mid {
            assert(occurs(left@, x));
        } else {
            assert(occurs(right@, x));
        }
    }
    while i < left.len() || j < right.len()
        invariant
            texts.len() == nums.len(),
            tv == text_views(texts@),
            ns == nums@,
            lo <= mid <= hi <= texts.len(),
            left.len() == mid - lo,
            right.len() == hi - mid,
            i <= left.len(),
            j <= right.len(),
            r.len() == i + j,
            forall|k: int| 0 <= k < left.len() ==> lo <= #[trigger] left@[k] < mid,
            forall|k: int| 0 <= k < right.len() ==> mid <= #[trigger] right@[k] < hi,
            forall|a: int, b: int|
                0 <= a < b < left.len() ==> precedes(tv, ns, #[trigger] left@[a] as int, #[trigger] left@[b] as int),
            forall|a: int, b: int|
                0 <= a < b < right.len() ==> precedes(tv, ns, #[trigger] right@[a] as int, #[trigger] right@[b] as int),
            forall|k: int| 0 <= k < r.len() ==> lo <= #[trigger] r@[k] < hi,
            forall|a: int, b: int|
                0 <= a < b < r.len() ==> precedes(tv, ns, #[trigger] r@[a] as int, #[trigger] r@[b] as int),
            forall|a: int, b: int|
                0 <= a < r.len() && i <= b < left.len() ==> precedes(tv, ns, #[trigger] r@[a] as int, #[trigger] left@[b] as int),
            forall|a: int, b: int|
                0 <= a < r.len() && j <= b < right.len() ==> precedes(tv, ns, #[trigger] r@[a] as int, #[trigger] right@[b] as int),
            forall|x: int|
                lo <= x < hi ==> #[trigger] occurs(r@, x) || occurs_from(left@, i as int, x)
                    || occurs_from(right@, j as int, x),
        decreases left.len() + right.len() - i - j,
    {
        let take_left = if i >= left.len() {
            false
        } else if j >= right.len() {
            true
        } else {
            key_precedes(texts, nums, left[i], right[j])
        };
        let ghost old_r = r@;
        if take_left {
            let x = left[i];
            proof {
                if j < right.len() {
                    assert(precedes(tv, ns, x as int, right@[j as int] as int));
                }
                assert forall|b: int| j <= b < right.len() implies precedes(tv, ns, x as int, #[trigger] right@[b] as int) by {
                    if b > j {
                        lemma_precedes_strict_total(tv, ns, x as int, right@[j as int] as int, right@[b] as int);
                    }
                }
                assert forall|b: int| i < b < left.len() implies precedes(tv, ns, x as int, #[trigger] left@[b] as int) by {
                    assert(precedes(tv, ns, left@[i as int] as int, left@[b] as int));
                }
            }
            r.push(x);
            i = i + 1;
            proof {
                assert forall|a: int, b: int| 0 <= a < b < r.len() implies precedes(tv, ns, #[trigger] r@[a] as int, #[trigger] r@[b] as int) by {
                    if b < r.len() - 1 {
                        assert(r@[a] == old_r[a] && r@[b] == old_r[b]);
                    } else {
                        assert(r@[a] == old_r[a]);
                    }
                }
                assert forall|a: int, b: int| 0 <= a < r.len() && i <= b < left.len() implies precedes(tv, ns, #[trigger] r@[a] as int, #[trigger] left@[b] as int) by {
                    if a < r.len() - 1 {
                        assert(r@[a] == old_r[a]);
                    }
                }
                assert forall|a: int, b: int| 0 <= a < r.len() && j <= b < right.len() implies precedes(tv, ns, #[trigger] r@[a] as int, #[trigger] right@[b] as int) by {
                    if a < r.len() - 1 {
                        assert(r@[a] == old_r[a]);
                    }
                }
                assert forall|y: int| lo <= y < hi implies #[trigger] occurs(r@, y) || occurs_from(left@, i as int, y)
                    || occurs_from(right@, j as int, y) by {
                    assert(occurs(old_r, y) || occurs_from(left@, i - 1, y) || occurs_from(right@, j as int, y));
                    if occurs(old_r, y) {
                        let k = choose|k: int| 0 <= k < old_r.len() && old_r[k] == y;
                        assert(r@[k] == y);
                    } else if occurs_from(left@, i - 1, y) {
                        let k = choose|k: int| i - 1 <= k < left.len() && left@[k] == y;
                        if k == i - 1 {
                            assert(r@[r.len() - 1] == y);
                        } else {
                            assert(left@[k] == y);
                        }
                    } else {
                        let k = choose|k: int| j <= k < right.len() && right@[k] == y;
                        assert(right@[k] == y);
                    }
                }
            }
        } else {
            let x = right[j];
            proof {
                if i < left.len() {
                    lemma_precedes_strict_total(tv, ns, x as int, left@[i as int] as int, x as int);
                    assert(precedes(tv, ns, x as int, left@[i as int] as int));
                }
                assert forall|b: int| i <= b < left.len() implies precedes(tv, ns, x as int, #[trigger] left@[b] as int) by {
                    if b > i {
                        lemma_precedes_strict_total(tv, ns, x as int, left@[i as int] as int, left@[b] as int);
                    }
                }
                assert forall|b: int| j < b < right.len() implies precedes(tv, ns, x as int, #[trigger] right@[b] as int) by {
                    assert(precedes(tv, ns, right@[j as int] as int, right@[b] as int));
                }
            }
            r.push(x);
            j = j + 1;
            proof {
                assert forall|a: int, b: int| 0 <= a < b < r.len() implies precedes(tv, ns, #[trigger] r@[a] as int, #[trigger] r@[b] as int) by {
                    if b < r.len() - 1 {
                        assert(r@[a] == old_r[a] && r@[b] == old_r[b]);
                    } else {
                        assert(r@[a] == old_r[a]);
                    }
                }
                assert forall|a: int, b: int| 0 <= a < r.len() && i <= b < left.len() implies precedes(tv, ns, #[trigger] r@[a] as int, #[trigger] left@[b] as int) by {
                    if a < r.len() - 1 {
                        assert(r@[a] == old_r[a]);
                    }
                }
                assert forall|a: int, b: int| 0 <= a < r.len() && j <= b < right.len() implies precedes(tv, ns, #[trigger] r@[a] as int, #[trigger] right@[b] as int) by {
                    if a < r.len() - 1 {
                        assert(r@[a] == old_r[a]);
                    }
                }
                assert forall|y: int| lo <= y < hi implies #[trigger] occurs(r@, y) || occurs_from(left@, i as int, y)
                    || occurs_from(right@, j as int, y) by {
                    assert(occurs(old_r, y) || occurs_from(right@, j - 1, y) || occurs_from(left@, i as int, y));
                    if occurs(old_r, y) {
                        let k = choose|k: int| 0 <= k < old_r.len() && old_r[k] == y;
                        assert(r@[k] == y);
                    } else if occurs_from(right@, j - 1, y) {
                        let k = choose|k: int| j - 1 <= k < right.len() && right@[k] == y;
                        if k == j - 1 {
                            assert(r@[r.len() - 1] == y);
                        } else {
                            assert(right@[k] == y);
                        }
                    } else {
                        let k = choose|k: int| i <= k < left.len() && left@[k] == y;
                        assert(left@[k] == y);
                    }
                }
            }
        }
    }
    r
}

/// The stable sort order of records keyed by `texts` then `nums`: position `k` of the
/// result is the index of the record that goes `k`-th.
pub fn sort_order(texts: &Vec<&String>, nums: &Vec<u64>) -> (order: Vec<usize>)
    requires
        texts.len() == nums.len(),
    ensures
        is_sort_order(order@, text_views(texts@), nums@),
{
    let order = sort_range(texts, nums, 0, texts.len());
    proof {
        assert forall|x: int| 0 <= x < texts@.len() implies #[trigger] occurs(order@, x) by {
            assert(0 <= x < texts.len());
        }
    }
    order
}

/// The sort order of a list keyed by `texts` and `nums` (there is exactly one).
pub open spec fn the_sort_order(texts: Seq<Seq<char>>, nums: Seq<u64>) -> Seq<usize> {
    choose|o: Seq<usize>| is_sort_order(o, texts, nums)
}

/// `items` stably sorted by `texts`, then by `nums`.
pub open spec fn stably_sorted<T>(items: Seq<T>, texts: Seq<Seq<char>>, nums: Seq<u64>) -> Seq<T> {
    arrange(items, the_sort_order(texts, nums))
}

/// `n` zeros: the numbers of a list sorted by text alone.
pub open spec fn zeros(n: nat) -> Seq<u64> {
    Seq::new(n, |i: int| 0u64)
}

/// A sort order, once found, is the sort order.
pub proof fn lemma_is_the_sort_order(o: Seq<usize>, texts: Seq<Seq<char>>, nums: Seq<u64>)
    requires
        is_sort_order(o, texts, nums),
    ensures
        the_sort_order(texts, nums) == o,
{
    lemma_sort_order_unique(the_sort_order(texts, nums), o, texts, nums);
}

/// A list of `n` zeros.
pub fn zero_nums(n: usize) -> (r: Vec<u64>)
    ensures
        r@ == zeros(n as nat),
{
    let mut r: Vec<u64> = Vec::new();
    while r.len() < n
        invariant
            r.len() <= n,
            forall|k: int| 0 <= k < r.len() ==> r@[k] == 0,
        decreases n - r.len(),
    {
        r.push(0);
    }
    assert(r@ =~= zeros(n as nat));
    r
}

/// Copies of `items` in the order `order`.
pub fn apply_order<T: Clone>(items: &Vec<T>, order: &Vec<usize>) -> (r: Vec<T>)
    requires
        forall|k: int| 0 <= k < order.len() ==> #[trigger] order@[k] < items.len(),
        forall|a: T, b: T| #[trigger] cloned::<T>(a, b) ==> a == b,
    ensures
        r@ == arrange(items@, order@),
{
    let mut r: Vec<T> = Vec::new();
    let mut k: usize = 0;
    while k < order.len()
        invariant
            k <= order.len(),
            r.len() == k,
            forall|j: int| 0 <= j < order.len() ==> #[trigger] order@[j] < items.len(),
            forall|a: T, b: T| #[trigger] cloned::<T>(a, b) ==> a == b,
            forall|j: int| 0 <= j < k ==> r@[j] == items@[order@[j] as int],
        decreases order.len() - k,
    {
        let x = items[order[k]].clone();
        assert(cloned::<T>(items@[order@[k as int] as int], x));
        r.push(x);
        k = k + 1;
    }
    assert(r@ =~= arrange(items@, order@));
    r
}

} // verus!

verus! {

/// `id` is one of `texts`.
pub open spec fn has_text(texts: Seq<Seq<char>>, id: Seq<char>) -> bool {
    exists|k: int| 0 <= k < texts.len() && texts[k] == id
}

/// The same texts as `texts`, in ascending order.
pub fn sorted_texts<'a>(texts: &Vec<&'a String>) -> (r: Vec<&'a String>)
    ensures
        texts_ascending(text_views(r@)),
        forall|id: Seq<char>| #[trigger] has_text(text_views(r@), id) == has_text(text_views(texts@), id),
{
    let nums = zero_nums(texts.len());
    let o = sort_order(texts, &nums);
    let ghost tv = text_views(texts@);
    let mut r: Vec<&'a String> = Vec::new();
    let mut k: usize = 0;
    while k < o.len()
        invariant
            tv == text_views(texts@),
            nums@ == zeros(texts.len() as nat),
            is_sort_order(o@, tv, nums@),
            k <= o.len(),
            r.len() == k,
            forall|j: int| 0 <= j < k ==> #[trigger] r@[j] == texts@[o@[j] as int],
        decreases o.len() - k,
    {
        r.push(texts[o[k]]);
        k = k + 1;
    }
    let ghost rv = text_views(r@);
    assert forall|j: int| 0 <= j < rv.len() implies #[trigger] rv[j] == tv[o@[j] as int] by {}
    assert forall|p: int, q: int| 0 <= p < q < rv.len() implies text_lt(#[trigger] rv[p], #[trigger] rv[q]) || rv[p] == rv[q] by {
        assert(precedes(tv, nums@, o@[p] as int, o@[q] as int));
    }
    assert forall|id: Seq<char>| #[trigger] has_text(rv, id) == has_text(tv, id) by {
        if has_text(rv, id) {
            let j = choose|j: int| 0 <= j < rv.len() && rv[j] == id;
            assert(tv[o@[j] as int] == id);
        }
        if has_text(tv, id) {
            let x = choose|x: int| 0 <= x < tv.len() && tv[x] == id;
            assert(occurs(o@, x));
            let j = choose|j: int| 0 <= j < o@.len() && o@[j] == x;
            assert(rv[j] == id);
        }
    }
    r
}

/// Whether `id` is one of the ascending `texts` (a binary search).
pub fn contains_sorted(texts: &Vec<&String>, id: &String) -> (r: bool)
    requires
        texts_ascending(text_views(texts@)),
    ensures
        r == has_text(text_views(texts@), id@),
{
    let ghost tv = text_views(texts@);
    let mut lo: usize = 0;
    let mut hi: usize = texts.len();
    while lo < hi
        invariant
            tv == text_views(texts@),
            texts_ascending(tv),
            lo <= hi <= texts.len(),
            forall|k: int| 0 <= k < lo ==> text_lt(#[trigger] tv[k], id@),
            forall|k: int| hi <= k < texts.len() ==> !text_lt(#[trigger] tv[k], id@),
        decreases hi - lo,
    {
        let m = lo + (hi - lo) / 2;
        let c = compare_bytes(texts[m].as_str().as_bytes(), id.as_str().as_bytes());
        proof {
            assert(tv[m as int] == texts@[m as int]@);
        }
        if c < 0 {
            proof {
                assert forall|k: int| 0 <= k <= m implies text_lt(#[trigger] tv[k], id@) by {
                    if k < m && tv[k] != tv[m as int] {
                        lemma_bytes_lt_transitive(encode_utf8(tv[k]), encode_utf8(tv[m as int]), encode_utf8(id@));
                    }
                }
            }
            lo = m + 1;
        } else {
            proof {
                assert forall|k: int| m <= k < texts.len() implies !text_lt(#[trigger] tv[k], id@) by {
                    if k > m && tv[k] != tv[m as int] && text_lt(tv[k], id@) {
                        lemma_bytes_lt_transitive(encode_utf8(tv[m as int]), encode_utf8(tv[k]), encode_utf8(id@));
                    }
                }
            }
            hi = m;
        }
    }
    let found = lo < texts.len() && *texts[lo] == *id;
    proof {
        lemma_bytes_lt_irreflexive(encode_utf8(id@));
        if has_text(tv, id@) {
            let k = choose|k: int| 0 <= k < tv.len() && tv[k] == id@;
            assert(k >= lo);
            assert(tv[lo as int] == texts@[lo as int]@);
            if tv[lo as int] != id@ {
                assert(text_lt(tv[lo as int], tv[k]) || tv[lo as int] == tv[k]);
            }
        }
        if found {
            assert(tv[lo as int] == id@);
        }
    }
    found
}

} // verus!

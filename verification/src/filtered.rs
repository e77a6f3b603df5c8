//! The bookkeeping of a list that shows only some of its elements.
use vstd::prelude::*;

verus! {

/// The (element position, shown slot) pairs of a filtered list over `n` elements:
/// walking the elements in order, an element is shown, in the next slot, when its
/// position is the next of the accepted `indices`.
pub open spec fn shown_slots(n: nat, indices: Seq<usize>) -> Seq<(usize, usize)>
    decreases n,
{
    if n == 0 {
        seq![]
    } else {
        let prev = shown_slots((n - 1) as nat, indices);
        if prev.len() < indices.len() && indices[prev.len() as int] == n - 1 {
            prev.push(((n - 1) as usize, prev.len() as usize))
        } else {
            prev
        }
    }
}

/// The positions in `start..end` whose element passes the filter (`flags`), in order.
pub open spec fn accepted_in(flags: Seq<bool>, start: int, end: int) -> Seq<usize>
    decreases flags.len(),
{
    if flags.len() == 0 {
        seq![]
    } else {
        let prev = accepted_in(flags.drop_last(), start, end);
        let i = flags.len() - 1;
        if start <= i < end && flags.last() {
            prev.push(i as usize)
        } else {
            prev
        }
    }
}

proof fn lemma_shown_slots_len(n: nat, indices: Seq<usize>)
    ensures
        shown_slots(n, indices).len() <= n,
        shown_slots(n, indices).len() <= indices.len(),
    decreases n,
{
    if n > 0 {
        lemma_shown_slots_len((n - 1) as nat, indices);
    }
}

proof fn lemma_accepted_in_len(flags: Seq<bool>, start: int, end: int)
    ensures
        accepted_in(flags, start, end).len() <= flags.len(),
    decreases flags.len(),
{
    if flags.len() > 0 {
        lemma_accepted_in_len(flags.drop_last(), start, end);
    }
}

/// The positions that a filtered list accepts from its elements `flags` within
/// `start..end` are exactly those in `start..end` whose element passes the filter
/// (the first, `start`, included), each once and in increasing order.
pub proof fn lemma_accepted_are_the_passing_positions(flags: Seq<bool>, start: int, end: int)
    requires
        flags.len() <= usize::MAX,
    ensures
        forall|k: int| 0 <= k < accepted_in(flags, start, end).len() ==> {
            let i = #[trigger] accepted_in(flags, start, end)[k] as int;
            &&& 0 <= i < flags.len()
            &&& start <= i < end
            &&& flags[i]
        },
        forall|i: int| 0 <= i < flags.len() && start <= i < end && flags[i]
            ==> #[trigger] accepted_in(flags, start, end).contains(i as usize),
        forall|a: int, b: int| 0 <= a < b < accepted_in(flags, start, end).len()
            ==> accepted_in(flags, start, end)[a] < accepted_in(flags, start, end)[b],
    decreases flags.len(),
{
    if flags.len() > 0 {
        let prev_flags = flags.drop_last();
        lemma_accepted_are_the_passing_positions(prev_flags, start, end);
        let prev = accepted_in(prev_flags, start, end);
        let acc = accepted_in(flags, start, end);
        let last = flags.len() - 1;
        assert forall|i: int| 0 <= i < last implies prev_flags[i] == flags[i] by {}
        assert forall|k: int| 0 <= k < prev.len() implies (prev[k] as int) < last by {
            let i = prev[k] as int;
            assert(0 <= i < prev_flags.len());
        }
        if start <= last < end && flags.last() {
            assert(acc == prev.push(last as usize));
            assert forall|i: int| 0 <= i < flags.len() && start <= i < end && flags[i]
                implies #[trigger] acc.contains(i as usize) by {
                if i < last {
                    assert(prev_flags[i]);
                    assert(prev.contains(i as usize));
                    let k = choose|k: int| 0 <= k < prev.len() && prev[k] == i as usize;
                    assert(acc[k] == i as usize);
                } else {
                    assert(acc[prev.len() as int] == last as usize);
                }
            }
        } else {
            assert(acc == prev);
            assert forall|i: int| 0 <= i < flags.len() && start <= i < end && flags[i]
                implies #[trigger] acc.contains(i as usize) by {
                assert(i < last);
                assert(prev_flags[i]);
                assert(prev.contains(i as usize));
            }
        }
    }
}

/// The (element position, slot) pairs that a filtered list over `data_len` elements
/// with accepted positions `indices` hands to its rows.
pub fn filtered_slots(data_len: usize, indices: &Vec<usize>) -> (r: Vec<(usize, usize)>)
    ensures
        r@ == shown_slots(data_len as nat, indices@),
{
    let mut r: Vec<(usize, usize)> = Vec::new();
    let mut next: usize = 0;
    let mut index: usize = 0;
    while index < data_len
        invariant
            index <= data_len,
            r@ == shown_slots(index as nat, indices@),
            next == r.len(),
            next <= indices.len(),
        decreases data_len - index,
    {
        proof {
            lemma_shown_slots_len(index as nat, indices@);
        }
        if next < indices.len() && indices[next] == index {
            r.push((index, next));
            next = next + 1;
        }
        index = index + 1;
    }
    r
}

/// Puts the positions in `start..end` whose element passes the filter (`flags`) into
/// `accepted` from position `insert_index` on, in order.
pub fn accept_range(accepted: &mut Vec<usize>, insert_index: usize, flags: &Vec<bool>, start: usize, end: usize)
    requires
        insert_index <= old(accepted).len(),
    ensures
        final(accepted)@ == old(accepted)@.take(insert_index as int) + accepted_in(flags@, start as int, end as int)
            + old(accepted)@.skip(insert_index as int),
{
    let ghost a0 = accepted@;
    let mut at: usize = insert_index;
    let mut index: usize = 0;
    while index < flags.len()
        invariant
            index <= flags.len(),
            insert_index <= a0.len(),
            accepted@ == a0.take(insert_index as int) + accepted_in(flags@.take(index as int), start as int, end as int)
                + a0.skip(insert_index as int),
            at == insert_index + accepted_in(flags@.take(index as int), start as int, end as int).len(),
            at <= accepted.len(),
        decreases flags.len() - index,
    {
        proof {
            assert(flags@.take(index + 1).drop_last() =~= flags@.take(index as int));
            assert(flags@.take(index + 1).last() == flags@[index as int]);
            lemma_accepted_in_len(flags@.take(index as int), start as int, end as int);
        }
        if index >= start && index < end && flags[index] {
            accepted.insert(at, index);
            let len = accepted.len();
            assert(at < len);
            at = at + 1;
        }
        index = index + 1;
        proof {
            assert(accepted@ =~= a0.take(insert_index as int) + accepted_in(flags@.take(index as int), start as int, end as int)
                + a0.skip(insert_index as int));
        }
    }
    assert(flags@.take(index as int) =~= flags@);
}

/// Whether an expander is pressed after the mouse button went down on it: it becomes
/// pressed unless it is disabled.
pub fn expander_mouse_down(active: bool, disabled: bool) -> (r: bool)
    ensures
        r == (active || !disabled),
{
    if !disabled {
        true
    } else {
        active
    }
}

/// An expander's value after the mouse button went up: it flips when the expander was
/// pressed, is enabled and is under the pointer. The expander is then no longer pressed.
pub fn expander_mouse_up(active: bool, disabled: bool, hot: bool, value: bool) -> (r: bool)
    ensures
        r == if active && !disabled && hot { !value } else { value },
{
    if active && !disabled {
        if hot {
            if value {
                false
            } else {
                true
            }
        } else {
            value
        }
    } else {
        value
    }
}

} // verus!

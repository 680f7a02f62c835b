//! Why every sowing ends, and what it keeps.

use crate::field::{
    ends_at, first_end, next_pit, occupied, sow_after, total, Direction, FieldView, GameError,
    SowState,
};
use vstd::prelude::*;

verus! {

/// Replacing one count changes the sum by the difference.
pub proof fn lemma_total_update(pits: Seq<u8>, i: int, v: u8)
    requires
        0 <= i < pits.len(),
    ensures
        total(pits.update(i, v)) == total(pits) - pits[i] + v,
    decreases pits.len(),
{
    if i == pits.len() - 1 {
        assert(pits.update(i, v).drop_last() =~= pits.drop_last());
    } else {
        assert(pits.update(i, v).drop_last() =~= pits.drop_last().update(i, v));
        lemma_total_update(pits.drop_last(), i, v);
    }
}

/// No pit holds more than the row.
pub proof fn lemma_total_bounds(pits: Seq<u8>, i: int)
    requires
        0 <= i < pits.len(),
    ensures
        0 <= pits[i] <= total(pits),
    decreases pits.len(),
{
    lemma_total_nonnegative(pits.drop_last());
    if i < pits.len() - 1 {
        lemma_total_bounds(pits.drop_last(), i);
    }
}

/// A sum of counts is not negative.
pub proof fn lemma_total_nonnegative(pits: Seq<u8>)
    ensures
        0 <= total(pits),
    decreases pits.len(),
{
    if pits.len() > 0 {
        lemma_total_nonnegative(pits.drop_last());
    }
}

/// A sower in order: sixteen pits, a pit to stand at, a stone in hand, and `stones` in all.
pub open spec fn in_order(s: SowState, stones: int) -> bool {
    &&& s.pits.len() == 16
    &&& 0 <= s.pos < 16
    &&& 1 <= s.hand
    &&& total(s.pits) + s.hand == stones
    &&& stones <= 255
}

/// A drop keeps the stones; so does lifting the pit that took the last one.
pub proof fn lemma_advance_in_order(s: SowState, direction: Direction, stones: int)
    requires
        in_order(s, stones),
    ensures
        in_order(s.advance(direction), stones),
        s.drop_one(direction).pits.len() == 16,
        0 <= s.drop_one(direction).pos < 16,
        s.drop_one(direction).pits[s.drop_one(direction).pos] == s.pits[s.drop_one(
            direction,
        ).pos] + 1,
        total(s.drop_one(direction).pits) + s.drop_one(direction).hand == stones,
{
    let p = next_pit(direction, s.pos);
    let d = s.drop_one(direction);
    lemma_total_bounds(s.pits, p);
    lemma_total_update(s.pits, p, (s.pits[p] + 1) as u8);
    if d.hand == 0 {
        lemma_total_update(d.pits, p, 0u8);
    }
}

/// Every state of a sowing is in order.
pub proof fn lemma_sow_after_in_order(f: FieldView, start: int, n: nat)
    requires
        f.wf(),
        0 <= start < 16,
        f.pits[start] > 0,
    ensures
        in_order(sow_after(f.pits, f.direction, start, n), f.total()),
    decreases n,
{
    if n == 0 {
        lemma_total_update(f.pits, start, 0u8);
    } else {
        lemma_sow_after_in_order(f, start, (n - 1) as nat);
        lemma_advance_in_order(
            sow_after(f.pits, f.direction, start, (n - 1) as nat),
            f.direction,
            f.total(),
        );
    }
}

/// Two sowers in order that are the same after the next drop were the same before it.
pub proof fn lemma_advance_injective(a: SowState, b: SowState, direction: Direction, stones: int)
    requires
        in_order(a, stones),
        in_order(b, stones),
        a.advance(direction) == b.advance(direction),
    ensures
        a == b,
{
    let p = next_pit(direction, a.pos);
    let q = next_pit(direction, b.pos);
    let da = a.drop_one(direction);
    let db = b.drop_one(direction);
    lemma_advance_in_order(a, direction, stones);
    lemma_advance_in_order(b, direction, stones);
    lemma_total_bounds(a.pits, p);
    lemma_total_bounds(b.pits, q);
    let after = a.advance(direction);
    assert(after.pos == p && after.pos == q);
    assert(a.pos == b.pos);
    assert(after.pits[p] == (if da.hand > 0 { da.pits[p] } else { 0u8 }));
    assert(after.pits[p] == (if db.hand > 0 { db.pits[p] } else { 0u8 }));
    assert(a.hand == b.hand);
    assert(a.pits[p] == b.pits[p]);
    assert forall|i: int| 0 <= i < 16 implies a.pits[i] == b.pits[i] by {
        if i != p {
            assert(after.pits[i] == a.pits[i]);
            assert(after.pits[i] == b.pits[i]);
        }
    }
    assert(a.pits =~= b.pits);
}

/// While no drop has ended the sowing, the sower is never again as at the start.
pub proof fn lemma_not_back_at_start(f: FieldView, start: int, n: nat)
    requires
        f.wf(),
        0 <= start < 16,
        f.pits[start] > 0,
        n >= 1,
        !ends_at(f.pits, f.direction, start, (n - 1) as nat),
    ensures
        sow_after(f.pits, f.direction, start, n) != sow_after(f.pits, f.direction, start, 0),
{
    let before = sow_after(f.pits, f.direction, start, (n - 1) as nat);
    let d = before.drop_one(f.direction);
    let now = sow_after(f.pits, f.direction, start, n);
    let first = sow_after(f.pits, f.direction, start, 0);
    lemma_sow_after_in_order(f, start, (n - 1) as nat);
    lemma_advance_in_order(before, f.direction, f.total());
    lemma_total_bounds(before.pits, d.pos);
    assert(now == before.advance(f.direction));
    if now == first {
        assert(first.pits[start] == 0);
        assert(d.hand == 0);
        assert(d.pos == start);
        assert(d.pits[start] == f.pits[start]);
        assert forall|i: int| 0 <= i < 16 implies d.pits[i] == f.pits[i] by {
            if i != start {
                assert(now.pits[i] == d.pits[i]);
                assert(first.pits[i] == f.pits[i]);
            }
        }
        assert(d.pits =~= f.pits);
    }
}

/// While no drop has ended the sowing, no two of its states are the same.
pub proof fn lemma_states_differ(f: FieldView, start: int, i: nat, j: nat)
    requires
        f.wf(),
        0 <= start < 16,
        f.pits[start] > 0,
        i < j,
        forall|m: nat| m < j ==> !ends_at(f.pits, f.direction, start, m),
    ensures
        sow_after(f.pits, f.direction, start, i) != sow_after(f.pits, f.direction, start, j),
    decreases i,
{
    if i == 0 {
        assert(!ends_at(f.pits, f.direction, start, (j - 1) as nat));
        lemma_not_back_at_start(f, start, j);
    } else {
        let a = sow_after(f.pits, f.direction, start, (i - 1) as nat);
        let b = sow_after(f.pits, f.direction, start, (j - 1) as nat);
        lemma_states_differ(f, start, (i - 1) as nat, (j - 1) as nat);
        lemma_sow_after_in_order(f, start, (i - 1) as nat);
        lemma_sow_after_in_order(f, start, (j - 1) as nat);
        if a.advance(f.direction) == b.advance(f.direction) {
            lemma_advance_injective(a, b, f.direction, f.total());
        }
    }
}

/// The number of rows of `len` pits.
pub open spec fn rows(len: nat) -> int
    decreases len,
{
    if len == 0 {
        1
    } else {
        256 * rows((len - 1) as nat)
    }
}

/// A row read as a number with one digit for each pit.
pub open spec fn row_number(pits: Seq<u8>) -> int
    decreases pits.len(),
{
    if pits.len() == 0 {
        0
    } else {
        pits.last() + 256 * row_number(pits.drop_last())
    }
}

/// The number of a row is below the number of rows of its length.
pub proof fn lemma_row_number_bounds(pits: Seq<u8>)
    ensures
        0 <= row_number(pits) < rows(pits.len()),
    decreases pits.len(),
{
    if pits.len() > 0 {
        lemma_row_number_bounds(pits.drop_last());
    }
}

/// Rows of one length with one number are one row.
pub proof fn lemma_row_number_injective(a: Seq<u8>, b: Seq<u8>)
    requires
        a.len() == b.len(),
        row_number(a) == row_number(b),
    ensures
        a == b,
    decreases a.len(),
{
    if a.len() > 0 {
        lemma_row_number_injective(a.drop_last(), b.drop_last());
        assert(a =~= a.drop_last().push(a.last()));
        assert(b =~= b.drop_last().push(b.last()));
    } else {
        assert(a =~= b);
    }
}

/// The number of sowers in order there can be.
pub open spec fn state_space() -> int {
    256 * (16 * rows(16))
}

/// A sower read as a number.
pub open spec fn state_number(s: SowState) -> int {
    s.hand + 256 * (s.pos + 16 * row_number(s.pits))
}

/// Sowers in order have numbers below `state_space()`, and different sowers different numbers.
pub proof fn lemma_state_number(a: SowState, b: SowState, stones: int)
    requires
        in_order(a, stones),
        in_order(b, stones),
    ensures
        0 <= state_number(a) < state_space(),
        state_number(a) == state_number(b) ==> a == b,
{
    lemma_row_number_bounds(a.pits);
    lemma_row_number_bounds(b.pits);
    lemma_total_nonnegative(a.pits);
    lemma_total_nonnegative(b.pits);
    if state_number(a) == state_number(b) {
        assert(a.hand == b.hand);
        assert(a.pos == b.pos);
        lemma_row_number_injective(a.pits, b.pits);
    }
}

/// A sowing that no drop has ended before drop `n + 1` has seen fewer states
/// than there are: `n` is bounded.
pub proof fn lemma_drops_bounded(f: FieldView, start: int, n: nat)
    requires
        f.wf(),
        0 <= start < 16,
        f.pits[start] > 0,
        forall|m: nat| m < n ==> !ends_at(f.pits, f.direction, start, m),
    ensures
        n < state_space(),
{
    let numbers = Seq::new(
        n + 1,
        |k: int| state_number(sow_after(f.pits, f.direction, start, k as nat)),
    );
    assert forall|i: int, j: int| 0 <= i < j < numbers.len() implies numbers[i] != numbers[j] by {
        lemma_states_differ(f, start, i as nat, j as nat);
        lemma_sow_after_in_order(f, start, i as nat);
        lemma_sow_after_in_order(f, start, j as nat);
        lemma_state_number(
            sow_after(f.pits, f.direction, start, i as nat),
            sow_after(f.pits, f.direction, start, j as nat),
            f.total(),
        );
    }
    assert(numbers.no_duplicates());
    numbers.unique_seq_to_set();
    let all = vstd::set_lib::set_int_range(0, state_space());
    lemma_row_number_bounds(f.pits);
    vstd::set_lib::lemma_int_range(0, state_space());
    assert forall|x: int| numbers.to_set().contains(x) implies all.contains(x) by {
        let k = choose|k: int| 0 <= k < numbers.len() && numbers[k] == x;
        lemma_sow_after_in_order(f, start, k as nat);
        let s = sow_after(f.pits, f.direction, start, k as nat);
        lemma_state_number(s, s, f.total());
    }
    vstd::set_lib::lemma_len_subset(numbers.to_set(), all);
}

/// Among the first `k` drops either one is the first to end the sowing, or none ends it.
proof fn lemma_first_end_among(f: FieldView, start: int, k: nat)
    ensures
        (exists|n: nat| n < k && first_end(f.pits, f.direction, start, n)) || (forall|m: nat|
            m < k ==> !ends_at(f.pits, f.direction, start, m)),
    decreases k,
{
    if k > 0 {
        lemma_first_end_among(f, start, (k - 1) as nat);
        if !(exists|n: nat| n < k - 1 && first_end(f.pits, f.direction, start, n)) {
            if ends_at(f.pits, f.direction, start, (k - 1) as nat) {
                assert(first_end(f.pits, f.direction, start, (k - 1) as nat));
            }
        }
    }
}

/// Every sowing from a pit that holds stones ends: some drop is the first to end it.
pub proof fn lemma_sow_ends(f: FieldView, start: int)
    requires
        f.wf(),
        0 <= start < 16,
        f.pits[start] > 0,
    ensures
        exists|n: nat| first_end(f.pits, f.direction, start, n),
{
    lemma_row_number_bounds(f.pits);
    let k = (state_space() + 1) as nat;
    lemma_first_end_among(f, start, k);
    if forall|m: nat| m < k ==> !ends_at(f.pits, f.direction, start, m) {
        lemma_drops_bounded(f, start, k);
    }
}

/// Only one drop is the first to end a sowing.
pub proof fn lemma_first_end_unique(f: FieldView, start: int, a: nat, b: nat)
    requires
        first_end(f.pits, f.direction, start, a),
        first_end(f.pits, f.direction, start, b),
    ensures
        a == b,
{
}

/// What `sow` gives once the first drop that ends the sowing is known.
pub proof fn lemma_sow_by_first_end(f: FieldView, start: int, n: nat)
    requires
        0 <= start < 16,
        f.pits[start] > 0,
        first_end(f.pits, f.direction, start, n),
    ensures
        ({
            let d = sow_after(f.pits, f.direction, start, n).drop_one(f.direction);
            f.sow(start) == if d.pits[d.pos] == 1 {
                Ok::<(FieldView, int), GameError>(
                    (FieldView { direction: f.direction, pits: d.pits }, d.pos),
                )
            } else {
                Err::<(FieldView, int), GameError>(GameError::RepeatingPosition)
            }
        }),
{
    let c = choose|k: nat| first_end(f.pits, f.direction, start, k);
    lemma_first_end_unique(f, start, c, n);
}

/// A sowing that succeeds keeps the direction and all the stones, and its last
/// stone lies alone in a pit of the row.
pub proof fn lemma_sow_ok(f: FieldView, start: int)
    requires
        f.wf(),
        f.sow(start) is Ok,
    ensures
        ({
            let (sown, last) = f.sow(start)->Ok_0;
            &&& sown.wf()
            &&& sown.direction == f.direction
            &&& sown.total() == f.total()
            &&& 0 <= last < 16
            &&& sown.pits[last] == 1
        }),
{
    lemma_sow_ends(f, start);
    let n = choose|k: nat| first_end(f.pits, f.direction, start, k);
    lemma_sow_after_in_order(f, start, n);
    lemma_advance_in_order(sow_after(f.pits, f.direction, start, n), f.direction, f.total());
}

/// The pits listed as holding stones are pits of the row and do hold stones, and
/// a row with stones has such a pit.
pub proof fn lemma_occupied(pits: Seq<u8>)
    requires
        pits.len() <= usize::MAX,
    ensures
        forall|k: int|
            0 <= k < occupied(pits).len() ==> (#[trigger] occupied(pits)[k]) < pits.len()
                && pits[occupied(pits)[k] as int] > 0,
        total(pits) > 0 ==> occupied(pits).len() > 0,
    decreases pits.len(),
{
    if pits.len() > 0 {
        let front = pits.drop_last();
        lemma_occupied(front);
        assert forall|k: int| 0 <= k < occupied(pits).len() implies (#[trigger] occupied(pits)[k])
            < pits.len() && pits[occupied(pits)[k] as int] > 0 by {
            if k < occupied(front).len() {
                assert(occupied(pits)[k] == occupied(front)[k]);
                assert(front[occupied(front)[k] as int] > 0);
            }
        }
    }
}

} // verus!

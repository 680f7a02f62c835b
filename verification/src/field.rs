//! One player's row of pits and the sowing of stones along it.

use crate::sowing::{
    lemma_advance_in_order, lemma_drops_bounded, lemma_row_number_bounds,
    lemma_sow_after_in_order, lemma_sow_by_first_end, lemma_sow_ok, lemma_total_bounds,
    state_space,
};
use vstd::prelude::*;

verus! {

/// Pits in one half of a player's row.
pub const LENGTH_OF_FIELD: usize = 8;

/// Pits in a player's whole row.
pub const PITS: usize = 16;

/// Why a move was not made.
#[derive(Debug, Clone, Copy, PartialEq, Eq, Structural)]
pub enum GameError {
    PositionOutsideField,
    CellEmpty,
    NoMoveFound,
    RepeatingPosition,
}

/// The way stones travel along a row.
#[derive(Debug, Clone, Copy, PartialEq, Eq, Structural)]
pub enum Direction {
    Left,
    Right,
}

/// One player's row of pits.
#[derive(Debug, Clone, Copy)]
pub struct OnePlayersField {
    /// Direction in which this player sows.
    pub direction: Direction,
    /// Stones in each pit.
    pub cells: [u8; 16],
}

/// A row as contracts see it: its direction and its sequence of stone counts.
pub struct FieldView {
    pub direction: Direction,
    pub pits: Seq<u8>,
}

/// A sower between two drops: the row, the pit stood at, the stones in hand.
pub struct SowState {
    pub pits: Seq<u8>,
    pub pos: int,
    pub hand: int,
}

/// Sum of the stone counts of `pits`.
pub open spec fn total(pits: Seq<u8>) -> int
    decreases pits.len(),
{
    if pits.len() == 0 {
        0
    } else {
        total(pits.drop_last()) + pits.last()
    }
}

/// The pit one step from `pos` in `direction`, round the row.
pub open spec fn next_pit(direction: Direction, pos: int) -> int {
    match direction {
        Direction::Right => (pos + 1) % 16,
        Direction::Left => (pos + 15) % 16,
    }
}

/// All stones of the pit at `pos` taken into the hand.
pub open spec fn lift(pits: Seq<u8>, pos: int) -> SowState {
    SowState { pits: pits.update(pos, 0u8), pos, hand: pits[pos] as int }
}

impl SowState {
    /// One step along the row and one stone from the hand into the pit reached.
    pub open spec fn drop_one(self, direction: Direction) -> SowState {
        let p = next_pit(direction, self.pos);
        SowState {
            pits: self.pits.update(p, (self.pits[p] + 1) as u8),
            pos: p,
            hand: self.hand - 1,
        }
    }

    /// The sower before the next drop: after a drop that empties the hand,
    /// the pit just filled is lifted and its stones are sown on.
    pub open spec fn advance(self, direction: Direction) -> SowState {
        let d = self.drop_one(direction);
        if d.hand > 0 {
            d
        } else {
            lift(d.pits, d.pos)
        }
    }
}

/// The sower after `n` drops of a sowing that lifts pit `start` of `origin`.
pub open spec fn sow_after(origin: Seq<u8>, direction: Direction, start: int, n: nat) -> SowState
    decreases n,
{
    if n == 0 {
        lift(origin, start)
    } else {
        sow_after(origin, direction, start, (n - 1) as nat).advance(direction)
    }
}

/// Whether drop number `n + 1` ends the sowing: it empties the hand, and either
/// the pit it fills was empty or the row is again as it was before the move.
pub open spec fn ends_at(origin: Seq<u8>, direction: Direction, start: int, n: nat) -> bool {
    let d = sow_after(origin, direction, start, n).drop_one(direction);
    d.hand == 0 && (d.pits[d.pos] == 1 || d.pits == origin)
}

/// Whether drop number `n + 1` is the first that ends the sowing.
pub open spec fn first_end(origin: Seq<u8>, direction: Direction, start: int, n: nat) -> bool {
    &&& ends_at(origin, direction, start, n)
    &&& forall|m: nat| m < n ==> !ends_at(origin, direction, start, m)
}

/// The pits of `pits` that hold stones, in the order of the row.
pub open spec fn occupied(pits: Seq<u8>) -> Seq<usize>
    decreases pits.len(),
{
    if pits.len() == 0 {
        Seq::empty()
    } else if pits.last() > 0 {
        occupied(pits.drop_last()).push((pits.len() - 1) as usize)
    } else {
        occupied(pits.drop_last())
    }
}

impl FieldView {
    /// Stones in the row.
    pub open spec fn total(self) -> int {
        total(self.pits)
    }

    /// Sixteen pits whose stones together fit one pit.
    pub open spec fn wf(self) -> bool {
        self.pits.len() == 16 && self.total() <= 255
    }

    /// The result of sowing from the pit at `position`: the row after the move
    /// with the pit of the last stone, or the reason why there is no move.
    pub open spec fn sow(self, position: int) -> Result<(FieldView, int), GameError> {
        if !(0 <= position < 16) {
            Err(GameError::PositionOutsideField)
        } else if self.pits[position] == 0 {
            Err(GameError::CellEmpty)
        } else {
            let n = choose|n: nat| first_end(self.pits, self.direction, position, n);
            let d = sow_after(self.pits, self.direction, position, n).drop_one(self.direction);
            if d.pits[d.pos] == 1 {
                Ok((FieldView { direction: self.direction, pits: d.pits }, d.pos))
            } else {
                Err(GameError::RepeatingPosition)
            }
        }
    }
}

impl View for OnePlayersField {
    type V = FieldView;

    open spec fn view(&self) -> FieldView {
        FieldView { direction: self.direction, pits: self.cells@ }
    }
}

impl OnePlayersField {
    /// A row with two stones in every pit.
    pub fn new(direction: Direction) -> (r: Self)
        ensures
            r.direction == direction,
            r.cells@ == Seq::new(16, |i: int| 2u8),
    {
        OnePlayersField { direction, cells: [2; 16] }
    }

    /// Sows the stones of the pit at `position` along the row and returns the new
    /// row with the pit of the last stone. The hand drops one stone in each pit it
    /// comes to; where the last stone meets other stones, all of them are lifted
    /// and sown on; the move ends where the last stone falls into an empty pit.
    /// A move that would bring the row back to what it was is refused.
    ///
    /// A pit holds up to 255 stones, so the row must not hold more in all.
    pub fn make_move_from(&self, position: usize) -> (r: Result<(Self, usize), GameError>)
        requires
            self@.wf(),
        ensures
            match self@.sow(position as int) {
                Ok((sown, last)) => r matches Ok((f, l)) && f@ == sown && l == last,
                Err(e) => r matches Err(x) && x == e,
            },
            r matches Ok((f, l)) ==> f@.wf() && f@.total() == self@.total() && l < 16
                && f.cells@[l as int] == 1,
    {
        if position >= PITS {
            return Err(GameError::PositionOutsideField);
        }
        if self.cells[position] == 0 {
            return Err(GameError::CellEmpty);
        }
        let mut new_field_state = self.cells;
        let mut curr_pos = position;
        let mut stones_in_the_hand = self.cells[curr_pos];
        new_field_state[curr_pos] = 0;
        let ghost origin = self.cells@;
        let ghost start = position as int;
        let ghost mut drops: nat = 0;
        proof {
            lemma_row_number_bounds(origin);
        }
        loop
            invariant_except_break
                new_field_state@ == sow_after(origin, self.direction, start, drops).pits,
                curr_pos as int == sow_after(origin, self.direction, start, drops).pos,
                stones_in_the_hand as int == sow_after(origin, self.direction, start, drops).hand,
            invariant
                self@.wf(),
                origin == self.cells@,
                0 <= start < 16,
                start == position,
                origin[start] > 0,
                forall|m: nat| m < drops ==> !ends_at(origin, self.direction, start, m),
                drops < state_space(),
            ensures
                first_end(origin, self.direction, start, drops),
                sow_after(origin, self.direction, start, drops).drop_one(self.direction)
                    == (SowState { pits: new_field_state@, pos: curr_pos as int, hand: 0 }),
                new_field_state@[curr_pos as int] == 1,
            decreases state_space() - drops,
        {
            let ghost before = sow_after(origin, self.direction, start, drops);
            proof {
                lemma_sow_after_in_order(self@, start, drops);
                lemma_advance_in_order(before, self.direction, self@.total());
                lemma_total_bounds(before.pits, next_pit(self.direction, before.pos));
            }
            curr_pos = if self.direction == Direction::Right {
                (curr_pos + 1) % PITS
            } else {
                (curr_pos + (PITS - 1)) % PITS
            };
            new_field_state[curr_pos] = new_field_state[curr_pos] + 1;
            stones_in_the_hand = stones_in_the_hand - 1;
            assert(new_field_state@ == before.drop_one(self.direction).pits);
            if stones_in_the_hand == 0 && new_field_state[curr_pos] == 1 {
                break ;
            } else if stones_in_the_hand == 0 && new_field_state[curr_pos] > 1 {
                if same_cells(&self.cells, &new_field_state) {
                    proof {
                        lemma_sow_by_first_end(self@, start, drops);
                    }
                    return Err(GameError::RepeatingPosition);
                }
                stones_in_the_hand = new_field_state[curr_pos];
                new_field_state[curr_pos] = 0;
            }
            proof {
                assert(!ends_at(origin, self.direction, start, drops));
                drops = drops + 1;
                lemma_drops_bounded(self@, start, drops);
            }
        }
        proof {
            lemma_sow_by_first_end(self@, start, drops);
            lemma_sow_ok(self@, start);
        }
        Ok((OnePlayersField { direction: self.direction, cells: new_field_state }, curr_pos))
    }

    /// Whether the stones of the row together fit one pit, as every move needs.
    pub fn well_formed(&self) -> (r: bool)
        ensures
            r == self@.wf(),
    {
        self.stones() <= 255
    }

    /// Stones in the row.
    pub fn stones(&self) -> (r: u32)
        ensures
            r == self@.total(),
    {
        let mut sum: u32 = 0;
        let mut i: usize = 0;
        while i < PITS
            invariant
                i <= 16,
                sum == total(self.cells@.take(i as int)),
                sum <= 255 * i,
            decreases 16 - i,
        {
            assert(self.cells@.take(i + 1).drop_last() =~= self.cells@.take(i as int));
            sum = sum + self.cells[i] as u32;
            i = i + 1;
        }
        assert(self.cells@.take(16) =~= self.cells@);
        sum
    }

    /// The pits that hold stones, in the order of the row.
    pub fn non_empty_cells(&self) -> (r: Vec<usize>)
        ensures
            r@ == occupied(self.cells@),
    {
        let mut ids: Vec<usize> = Vec::new();
        let mut i: usize = 0;
        while i < PITS
            invariant
                i <= 16,
                ids@ == occupied(self.cells@.take(i as int)),
            decreases 16 - i,
        {
            assert(self.cells@.take(i + 1).drop_last() =~= self.cells@.take(i as int));
            if self.cells[i] > 0 {
                ids.push(i);
            }
            i = i + 1;
        }
        assert(self.cells@.take(16) =~= self.cells@);
        ids
    }
}

/// Whether two rows hold the same stones pit by pit.
fn same_cells(a: &[u8; 16], b: &[u8; 16]) -> (r: bool)
    ensures
        r == (a@ == b@),
{
    let mut i: usize = 0;
    while i < PITS
        invariant
            i <= 16,
            forall|k: int| 0 <= k < i ==> a@[k] == b@[k],
        decreases 16 - i,
    {
        if a[i] != b[i] {
            return false;
        }
        i = i + 1;
    }
    assert(a@ =~= b@);
    true
}

} // verus!

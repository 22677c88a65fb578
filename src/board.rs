use vstd::prelude::*;
use vstd::string::StrSliceExecFns;

use crate::error::Error;
use crate::pieces::{parse_stack, Color, Height, Stack, Tier, TierLevel};
use crate::position::{lemma_position_coords, parse_position, Position};

verus! {

/// The placement that a four-character move writes: a stack followed by the
/// cell it goes to, as in `r3i1`.
pub open spec fn parse_move(s: Seq<char>) -> Option<(Position, Stack)> {
    if s.len() == 4 {
        match (parse_stack(s.subrange(0, 2)), parse_position(s.subrange(2, 4))) {
            (Some(stack), Some(position)) => Some((position, stack)),
            _ => None,
        }
    } else {
        None
    }
}

/// The pieces of `s` between single spaces: the text before the first space,
/// between each two spaces, and after the last one, empty pieces included.
pub open spec fn split_spaces(s: Seq<char>) -> Seq<Seq<char>>
    decreases s.len(),
{
    if s.len() == 0 {
        seq![Seq::empty()]
    } else {
        let before = split_spaces(s.drop_last());
        if s.last() == ' ' {
            before.push(Seq::empty())
        } else {
            before.update(before.len() - 1, before.last().push(s.last()))
        }
    }
}

/// The placements that a space-separated list of moves writes, or `None`
/// when one of its pieces is not a move.
pub open spec fn parse_moves(s: Seq<char>) -> Option<Seq<(Position, Stack)>> {
    let pieces = split_spaces(s);
    if forall|k: int| 0 <= k < pieces.len() ==> (#[trigger] parse_move(pieces[k])) is Some {
        Some(pieces.map_values(|piece: Seq<char>| parse_move(piece)->Some_0))
    } else {
        None
    }
}

/// No two placements of the list go to the same cell.
pub open spec fn distinct_targets(placements: Seq<(Position, Stack)>) -> bool {
    forall|i: int, j: int|
        0 <= i < j < placements.len() ==> placements[i].0 != placements[j].0
}

/// The cells that result from putting each placement of the list in turn
/// on an empty board.
pub open spec fn batch_map(placements: Seq<(Position, Stack)>) -> Map<Position, Stack>
    decreases placements.len(),
{
    if placements.len() == 0 {
        Map::empty()
    } else {
        let last = placements.last();
        batch_map(placements.drop_last()).insert(last.0, last.1)
    }
}

/// The height of whatever occupies `position`: 0 on an empty cell.
pub open spec fn occupied_level(cells: Map<Position, Stack>, position: Position) -> nat {
    if cells.contains_key(position) {
        cells[position].tier.height()
    } else {
        0
    }
}

/// The stacking rule: a stack may go on a cell only exactly one tier above
/// what is there, so a `First` stack on an empty cell.
pub open spec fn placeable(cells: Map<Position, Stack>, position: Position, stack: Stack) -> bool {
    stack.tier.height() == occupied_level(cells, position) + 1
}

/// A board whose cells are given by `placements`, if they are all on
/// different cells.
pub open spec fn batch_result(placements: Seq<(Position, Stack)>) -> Result<
    Map<Position, Stack>,
    Error,
> {
    if distinct_targets(placements) {
        Ok(batch_map(placements))
    } else {
        Err(Error::InvalidNotation)
    }
}

/// A cell of `batch_map` holds a stack exactly when some placement went there.
pub proof fn lemma_batch_map_domain(placements: Seq<(Position, Stack)>, p: Position)
    ensures
        batch_map(placements).contains_key(p) <==> exists|k: int|
            0 <= k < placements.len() && (#[trigger] placements[k]).0 == p,
    decreases placements.len(),
{
    if placements.len() > 0 {
        let rest = placements.drop_last();
        lemma_batch_map_domain(rest, p);
        if batch_map(placements).contains_key(p) && p != placements.last().0 {
            let k = choose|k: int| 0 <= k < rest.len() && (#[trigger] rest[k]).0 == p;
            assert(placements[k] == rest[k]);
        }
        if exists|k: int| 0 <= k < placements.len() && (#[trigger] placements[k]).0 == p {
            let k = choose|k: int| 0 <= k < placements.len() && (#[trigger] placements[k]).0 == p;
            if k < rest.len() {
                assert(rest[k] == placements[k]);
            }
        }
    }
}

/// With no cell targeted twice, each placement's stack ends up on its cell.
pub proof fn lemma_batch_map_values(placements: Seq<(Position, Stack)>, k: int)
    requires
        distinct_targets(placements),
        0 <= k < placements.len(),
    ensures
        batch_map(placements).contains_key(placements[k].0),
        batch_map(placements)[placements[k].0] == placements[k].1,
    decreases placements.len(),
{
    let rest = placements.drop_last();
    if k < placements.len() - 1 {
        assert(rest[k] == placements[k]);
        assert(distinct_targets(rest));
        lemma_batch_map_values(rest, k);
    }
}

/// The pieces of a prefix of `s`, but for the last one, are pieces of `s`.
pub proof fn lemma_split_prefix(s: Seq<char>, i: int)
    requires
        0 <= i <= s.len(),
    ensures
        split_spaces(s.take(i)).len() >= 1,
        split_spaces(s).len() >= split_spaces(s.take(i)).len(),
        forall|k: int|
            0 <= k < split_spaces(s.take(i)).len() - 1 ==> split_spaces(s)[k] == split_spaces(
                s.take(i),
            )[k],
    decreases s.len(),
{
    lemma_split_nonempty(s.take(i));
    if i < s.len() {
        let rest = s.drop_last();
        assert(rest.take(i) =~= s.take(i));
        lemma_split_prefix(rest, i);
        lemma_split_nonempty(rest);
    } else {
        assert(s.take(i) =~= s);
    }
}

/// Splitting always gives at least one piece.
pub proof fn lemma_split_nonempty(s: Seq<char>)
    ensures
        split_spaces(s).len() >= 1,
    decreases s.len(),
{
    if s.len() > 0 {
        lemma_split_nonempty(s.drop_last());
    }
}

/// The cells that a space-separated list of moves describes, or
/// `InvalidNotation` when a piece is not a move or two moves share a cell.
pub open spec fn notation_result(s: Seq<char>) -> Result<Map<Position, Stack>, Error> {
    match parse_moves(s) {
        Some(placements) => batch_result(placements),
        None => Err(Error::InvalidNotation),
    }
}

/// The stacking rule from an empty cell: a second-tier stack cannot start a
/// cell, a first-tier one can, a second-tier one may then go on top of it,
/// and a second-tier stack never goes on another second-tier stack.
pub proof fn lemma_stacking_rule(
    cells: Map<Position, Stack>,
    position: Position,
    first: Color,
    second: Color,
    third: Color,
)
    ensures
        !placeable(Map::empty(), position, Stack { color: first, tier: Tier::Second }),
        placeable(Map::empty(), position, Stack { color: first, tier: Tier::First }),
        placeable(
            Map::empty().insert(position, Stack { color: first, tier: Tier::First }),
            position,
            Stack { color: second, tier: Tier::Second },
        ),
        !placeable(
            cells.insert(position, Stack { color: second, tier: Tier::Second }),
            position,
            Stack { color: third, tier: Tier::Second },
        ),
{
}

/// Loading a batch fails whenever two of its placements share a cell,
/// whatever their tiers.
pub proof fn lemma_batch_rejects_shared_cell(placements: Seq<(Position, Stack)>, i: int, j: int)
    requires
        0 <= i < j < placements.len(),
        placements[i].0 == placements[j].0,
    ensures
        batch_result(placements) == Err::<Map<Position, Stack>, Error>(Error::InvalidNotation),
{
}

/// What the board cells hold at the first `n` indices, the rest empty.
spec fn slots_for(cells: Map<Position, Stack>, n: nat) -> [Option<Stack>; 16]
    decreases n,
{
    if n == 0 {
        vstd::array::spec_array_fill_for_copy_type::<Option<Stack>, 16>(None)
    } else {
        let p = Position::from_index_spec(n - 1);
        let entry = if cells.contains_key(p) {
            Some(cells[p])
        } else {
            None
        };
        vstd::array::spec_array_update(slots_for(cells, (n - 1) as nat), n - 1, entry)
    }
}

proof fn lemma_slots_for(cells: Map<Position, Stack>, n: nat)
    requires
        n <= 16,
    ensures
        forall|i: int|
            0 <= i < 16 ==> #[trigger] slots_for(cells, n)@[i] == (if i < n && cells.contains_key(
                Position::from_index_spec(i),
            ) {
                Some(cells[Position::from_index_spec(i)])
            } else {
                None
            }),
    decreases n,
{
    if n > 0 {
        lemma_slots_for(cells, (n - 1) as nat);
    }
}

/// The player's board: each of the sixteen cells is empty or holds one stack.
#[derive(Debug)]
pub struct Board {
    slots: [Option<Stack>; 16],
}

impl View for Board {
    type V = Map<Position, Stack>;

    closed spec fn view(&self) -> Map<Position, Stack> {
        Map::new(
            |p: Position| self.slots@[p.spec_index()] is Some,
            |p: Position| self.slots@[p.spec_index()]->Some_0,
        )
    }
}

impl Board {
    /// Two boards with the same cells are the same value.
    proof fn lemma_view_determines(a: Board, b: Board)
        requires
            a@ == b@,
        ensures
            a == b,
    {
        assert forall|i: int| 0 <= i < 16 implies a.slots@[i] == b.slots@[i] by {
            let p = Position::from_index_spec(i);
            assert(p.spec_index() == i);
            assert(a@.contains_key(p) == (a.slots@[i] is Some));
            assert(b@.contains_key(p) == (b.slots@[i] is Some));
            if a@.contains_key(p) {
                assert(a@[p] == a.slots@[i]->Some_0);
                assert(b@[p] == b.slots@[i]->Some_0);
            }
        }
        assert(a.slots@ =~= b.slots@);
        assert(a.slots == b.slots);
    }

    /// Every assignment of stacks to cells is the content of some board.
    pub proof fn lemma_every_cell_map_is_a_board(cells: Map<Position, Stack>)
        ensures
            exists|b: Board| b@ == cells,
    {
        lemma_slots_for(cells, 16);
        let b = Board { slots: slots_for(cells, 16) };
        assert forall|p: Position| #[trigger] b@.contains_key(p) == cells.contains_key(p) by {
            lemma_position_coords(p);
        }
        assert forall|p: Position| b@.contains_key(p) implies #[trigger] b@[p] == cells[p] by {
            lemma_position_coords(p);
        }
        assert(b@ =~= cells);
    }

    /// An empty board.
    pub fn new() -> (r: Board)
        ensures
            r@ == Map::<Position, Stack>::empty(),
    {
        let r = Board {
            slots: [
                None, None, None, None, None, None, None, None, None, None, None, None, None, None,
                None, None,
            ],
        };
        assert forall|p: Position| !r@.contains_key(p) by {
            lemma_position_coords(p);
        }
        assert(r@ =~= Map::<Position, Stack>::empty());
        r
    }

    /// The stack on `position`, if any.
    pub fn get(&self, position: &Position) -> (r: Option<&Stack>)
        ensures
            r == (if self@.contains_key(*position) {
                Some(&self@[*position])
            } else {
                None
            }),
    {
        match &self.slots[position.index()] {
            Some(stack) => Some(stack),
            None => None,
        }
    }

    /// Decodes a four-character move such as `r3i1` into its cell and stack.
    pub fn interpret(notation: &str) -> (r: Result<(Position, Stack), Error>)
        ensures
            r == match parse_move(notation@) {
                Some(placement) => Ok(placement),
                None => Err(Error::InvalidNotation),
            },
    {
        if notation.unicode_len() != 4 {
            return Err(Error::InvalidNotation);
        }
        let position = match Position::try_from(notation.substring_char(2, 4)) {
            Ok(position) => position,
            Err(e) => return Err(e),
        };
        let stack = match Stack::try_from(notation.substring_char(0, 2)) {
            Ok(stack) => stack,
            Err(e) => return Err(e),
        };
        Ok((position, stack))
    }

    /// Puts `stack` on `position` if it goes exactly one tier above what is
    /// there; otherwise leaves the board as it is and reports `IllegalMove`.
    pub fn place(&mut self, position: Position, stack: Stack) -> (r: Result<(), Error>)
        ensures
            r is Ok <==> placeable(old(self)@, position, stack),
            r is Ok ==> final(self)@ == old(self)@.insert(position, stack),
            r is Err ==> r == Err::<(), Error>(Error::IllegalMove) && final(self)@ == old(self)@,
    {
        let on_top = stack.tier.is_on_top_of(&self.get(&position));
        if on_top {
            self.slots[position.index()] = Some(stack);
            assert(self@ =~= old(self)@.insert(position, stack));
            Ok(())
        } else {
            Err(Error::IllegalMove)
        }
    }

    /// Decodes a move such as `r3i1` and places it.
    pub fn play(&mut self, notation: &str) -> (r: Result<(), Error>)
        ensures
            match parse_move(notation@) {
                None => r == Err::<(), Error>(Error::InvalidNotation) && final(self)@ == old(self)@,
                Some((position, stack)) => {
                    &&& r is Ok <==> placeable(old(self)@, position, stack)
                    &&& r is Ok ==> final(self)@ == old(self)@.insert(position, stack)
                    &&& r is Err ==> r == Err::<(), Error>(Error::IllegalMove) && final(self)@
                        == old(self)@
                },
            },
    {
        let (position, stack) = match Board::interpret(notation) {
            Ok(placement) => placement,
            Err(e) => return Err(e),
        };
        self.place(position, stack)
    }

    /// Loads a board from a list of placements, taken in order, without the
    /// stacking rule: each placement must go to a cell that is still empty.
    /// Fails with `InvalidNotation` when two placements share a cell.
    pub fn from_batch(placements: &[(Position, Stack)]) -> (r: Result<Board, Error>)
        ensures
            match batch_result(placements@) {
                Ok(cells) => r matches Ok(board) && board@ == cells,
                Err(e) => r == Err::<Board, Error>(e),
            },
            r matches Ok(board) ==> forall|k: int|
                0 <= k < placements@.len() ==> board@.contains_key(#[trigger] placements@[k].0)
                    && board@[placements@[k].0] == placements@[k].1,
    {
        let mut board = Board::new();
        let mut i: usize = 0;
        while i < placements.len()
            invariant
                i <= placements@.len(),
                distinct_targets(placements@.take(i as int)),
                board@ == batch_map(placements@.take(i as int)),
            decreases placements@.len() - i,
        {
            let (position, stack) = placements[i];
            let ghost done = placements@.take(i as int);
            let ghost next = placements@.take(i + 1);
            assert(next.drop_last() =~= done);
            proof {
                lemma_batch_map_domain(done, position);
            }
            if board.slots[position.index()].is_some() {
                proof {
                    let k = choose|k: int| 0 <= k < done.len() && (#[trigger] done[k]).0 == position;
                    assert(done[k] == placements@[k]);
                }
                return Err(Error::InvalidNotation);
            }
            assert(!board@.contains_key(position));
            assert forall|a: int, b: int| 0 <= a < b < next.len() implies next[a].0 != next[b].0 by {
                if b == i {
                    assert(done[a] == next[a]);
                }
            }
            board.slots[position.index()] = Some(stack);
            assert(board@ =~= batch_map(next));
            i = i + 1;
        }
        assert(placements@.take(i as int) =~= placements@);
        assert forall|k: int| 0 <= k < placements@.len() implies board@.contains_key(
            #[trigger] placements@[k].0,
        ) && board@[placements@[k].0] == placements@[k].1 by {
            lemma_batch_map_values(placements@, k);
        }
        Ok(board)
    }
}

impl<'a> TryFrom<&'a str> for Board {
    type Error = Error;

    /// Loads a board from a list of moves separated by single spaces, such
    /// as `r1j3 g1k4`, through `from_batch`.
    fn try_from(notations: &'a str) -> (r: Result<Self, Self::Error>) {
        let n = notations.unicode_len();
        let ghost s = notations@;
        let ghost mut done: Seq<Seq<char>> = Seq::empty();
        let mut placements: Vec<(Position, Stack)> = Vec::new();
        let mut start: usize = 0;
        let mut i: usize = 0;
        assert(s.take(0) =~= Seq::<char>::empty());
        assert(split_spaces(s.take(0)) =~= done.push(s.subrange(0, 0)));
        while i < n
            invariant
                n == s.len(),
                s == notations@,
                start <= i <= n,
                split_spaces(s.take(i as int)) == done.push(s.subrange(start as int, i as int)),
                placements@.len() == done.len(),
                forall|k: int|
                    0 <= k < done.len() ==> parse_move(#[trigger] done[k]) == Some(placements@[k]),
            decreases n - i,
        {
            let c = notations.get_char(i);
            let ghost before = s.take(i as int);
            assert(s.take(i + 1).drop_last() =~= before);
            assert(s.take(i + 1).last() == c);
            if c == ' ' {
                let ghost piece = s.subrange(start as int, i as int);
                assert(split_spaces(s.take(i + 1)) == split_spaces(before).push(Seq::empty()));
                let placement = match Board::interpret(notations.substring_char(start, i)) {
                    Ok(placement) => placement,
                    Err(e) => {
                        proof {
                            lemma_split_prefix(s, i + 1);
                            assert(split_spaces(s)[done.len() as int] == piece);
                        }
                        return Err(e);
                    },
                };
                placements.push(placement);
                proof {
                    done = done.push(piece);
                }
                start = i + 1;
                assert(s.subrange(start as int, i + 1) =~= Seq::<char>::empty());
                assert(split_spaces(s.take(i + 1)) =~= done.push(s.subrange(start as int, i + 1)));
            } else {
                let ghost now = s.take(i + 1);
                assert(now.len() > 0);
                assert(split_spaces(now) == split_spaces(before).update(
                    split_spaces(before).len() - 1,
                    split_spaces(before).last().push(c),
                ));
                assert(s.subrange(start as int, i + 1) =~= s.subrange(start as int, i as int).push(
                    c,
                ));
                assert(split_spaces(s.take(i + 1)) =~= done.push(s.subrange(start as int, i + 1)));
            }
            i = i + 1;
        }
        assert(s.take(n as int) =~= s);
        let ghost pieces = split_spaces(s);
        let last = match Board::interpret(notations.substring_char(start, n)) {
            Ok(placement) => placement,
            Err(e) => {
                assert(pieces[done.len() as int] == s.subrange(start as int, n as int));
                assert(parse_move(pieces[done.len() as int]) is None);
                return Err(e);
            },
        };
        placements.push(last);
        assert forall|k: int| 0 <= k < pieces.len() implies (#[trigger] parse_move(pieces[k]))
            is Some by {
            if k < done.len() {
                assert(pieces[k] == done[k]);
            }
        }
        assert(placements@ =~= pieces.map_values(
            |piece: Seq<char>| parse_move(piece)->Some_0,
        )) by {
            assert forall|k: int| 0 <= k < pieces.len() implies placements@[k] == parse_move(
                pieces[k],
            )->Some_0 by {
                if k < done.len() {
                    assert(pieces[k] == done[k]);
                }
            }
        }
        assert(parse_moves(s) == Some(placements@));
        let r = Board::from_batch(placements.as_slice());
        proof {
            if r is Ok {
                let board = r->Ok_0;
                let cells = board@;
                assert(exists|b: Board| b@ == cells);
                let chosen = choose|b: Board| b@ == cells;
                Board::lemma_view_determines(chosen, board);
            }
        }
        assert(r == match notation_result(notations@) {
            Ok(cells) => Ok(choose|b: Board| b@ == cells),
            Err(e) => Err(e),
        });
        r
    }
}

impl<'a> vstd::std_specs::convert::TryFromSpecImpl<&'a str> for Board {
    open spec fn obeys_try_from_spec() -> bool {
        true
    }

    /// The board with the cells that the notation describes: there is one
    /// (`Board::lemma_every_cell_map_is_a_board`), and a board is determined
    /// by its cells.
    open spec fn try_from_spec(notations: &'a str) -> Result<Self, Error> {
        match notation_result(notations@) {
            Ok(cells) => Ok(choose|b: Board| b@ == cells),
            Err(e) => Err(e),
        }
    }
}

} // verus!

use vstd::prelude::*;

use crate::board::Board;
use crate::mask::{Mask, MaskSet};
use crate::pieces::{Color, Height, Stack, Tier};
use crate::position::{lemma_position_coords, Position};

verus! {

/// The cells of an optional mask.
pub open spec fn mask_cells(m: Option<Mask>) -> Option<Set<Position>> {
    match m {
        Some(mask) => Some(mask@),
        None => None,
    }
}

/// Whether `p` is occupied by a stack of colour `color`.
pub open spec fn has_color(cells: Map<Position, Stack>, p: Position, color: Color) -> bool {
    cells.contains_key(p) && cells[p].color == color
}

/// Whether every cell of `m` is occupied by a stack of colour `color`.
pub open spec fn all_colored(cells: Map<Position, Stack>, m: Set<Position>, color: Color) -> bool {
    forall|p: Position| m.contains(p) ==> has_color(cells, p, color)
}

/// The cell one step from an optional cell, if both exist.
pub open spec fn and_step(o: Option<Position>, dx: int, dy: int) -> Option<Position> {
    match o {
        Some(q) => q.step(dx, dy),
        None => None,
    }
}

/// Every cell set that some orientation of `pattern` finds at some anchor.
pub open spec fn scanned<P: Orientations>(pattern: &P, cells: Map<Position, Stack>) -> Set<
    Set<Position>,
> {
    Set::new(
        |m: Set<Position>|
            exists|p: Position, k: int| 0 <= k < 4 && #[trigger] pattern.probe(k, p, cells) == Some(m),
    )
}

/// The orientations of a shape.
///
/// Each shape has up to four orientations, numbered 0 to 3 (a quarter turn
/// each); an orientation, tried at an anchor cell, either finds one
/// occurrence (the set of its cells) or nothing. Kept apart from `Pattern`
/// so that the `Pattern` impls can find their occurrences through `scan`.
pub trait Orientations {
    /// What orientation `k` finds at `anchor` on a board with `cells`.
    spec fn probe(&self, k: int, anchor: Position, cells: Map<Position, Stack>) -> Option<
        Set<Position>,
    >;

    /// The occurrence that orientation 0 finds at `position`.
    fn fit_at(&self, position: &Position, board: &Board) -> (r: Option<Mask>)
        ensures
            mask_cells(r) == self.probe(0, *position, board@),
    ;

    /// The occurrence that orientation 1 finds at `position`.
    fn fit_at_90deg(&self, position: &Position, board: &Board) -> (r: Option<Mask>)
        ensures
            mask_cells(r) == self.probe(1, *position, board@),
    ;

    /// The occurrence that orientation 2 finds at `position`.
    fn fit_at_180deg(&self, position: &Position, board: &Board) -> (r: Option<Mask>)
        ensures
            mask_cells(r) == self.probe(2, *position, board@),
    ;

    /// The occurrence that orientation 3 finds at `position`.
    fn fit_at_270deg(&self, position: &Position, board: &Board) -> (r: Option<Mask>)
        ensures
            mask_cells(r) == self.probe(3, *position, board@),
    ;
}

/// A shape that can be looked for on a board.
pub trait Pattern: Orientations {
    /// Every occurrence of the shape on a board with `cells`.
    spec fn occurrences(&self, cells: Map<Position, Stack>) -> Set<Set<Position>>;

    /// Every occurrence of the shape on `board`, each once.
    fn fit(&self, board: &Board) -> (r: MaskSet)
        ensures
            r@ == self.occurrences(board@),
    ;
}

/// Tries every orientation of `pattern` at every cell of `board` and
/// collects what they find: the occurrences of every shape but `Surround`.
pub fn scan<P: Orientations>(pattern: &P, board: &Board) -> (r: MaskSet)
    ensures
        r@ == scanned(pattern, board@),
{
    let ghost cells = board@;
    let mut fits = MaskSet::new();
    let mut i: usize = 0;
    while i < 16
        invariant
            i <= 16,
            cells == board@,
            fits@ == Set::new(
                |m: Set<Position>|
                    exists|p: Position, k: int|
                        p.spec_index() < i && 0 <= k < 4 && #[trigger] pattern.probe(k, p, cells)
                            == Some(m),
            ),
        decreases 16 - i,
    {
        let position = Position::from_index(i);
        let ghost before = fits@;
        if let Some(mask) = pattern.fit_at(&position, board) {
            fits.insert(mask);
        }
        if let Some(mask) = pattern.fit_at_90deg(&position, board) {
            fits.insert(mask);
        }
        if let Some(mask) = pattern.fit_at_180deg(&position, board) {
            fits.insert(mask);
        }
        if let Some(mask) = pattern.fit_at_270deg(&position, board) {
            fits.insert(mask);
        }
        let ghost found = Set::new(
            |m: Set<Position>| exists|k: int| 0 <= k < 4 && pattern.probe(k, position, cells) == Some(m),
        );
        assert(fits@ =~= before.union(found)) by {
            assert forall|m: Set<Position>| fits@.contains(m) implies before.union(found).contains(m) by {
                if !before.contains(m) {
                    if pattern.probe(0, position, cells) == Some(m) {
                        assert(found.contains(m));
                    } else if pattern.probe(1, position, cells) == Some(m) {
                        assert(found.contains(m));
                    } else if pattern.probe(2, position, cells) == Some(m) {
                        assert(found.contains(m));
                    } else {
                        assert(pattern.probe(3, position, cells) == Some(m));
                        assert(found.contains(m));
                    }
                }
            }
            assert forall|m: Set<Position>| before.union(found).contains(m) implies fits@.contains(m) by {
                if found.contains(m) {
                    let k = choose|k: int| 0 <= k < 4 && pattern.probe(k, position, cells) == Some(m);
                    assert(k == 0 || k == 1 || k == 2 || k == 3);
                }
            }
        }
        assert(fits@ =~= Set::new(
            |m: Set<Position>|
                exists|p: Position, k: int|
                    p.spec_index() < i + 1 && 0 <= k < 4 && #[trigger] pattern.probe(k, p, cells)
                        == Some(m),
        )) by {
            assert forall|m: Set<Position>|
                #![trigger fits@.contains(m)]
                fits@.contains(m) == (exists|p: Position, k: int|
                    p.spec_index() < i + 1 && 0 <= k < 4 && #[trigger] pattern.probe(k, p, cells)
                        == Some(m)) by {
                if exists|p: Position, k: int|
                    p.spec_index() < i + 1 && 0 <= k < 4 && #[trigger] pattern.probe(k, p, cells)
                        == Some(m) {
                    let (p, k) = choose|p: Position, k: int|
                        p.spec_index() < i + 1 && 0 <= k < 4 && #[trigger] pattern.probe(
                            k,
                            p,
                            cells,
                        ) == Some(m);
                    if p.spec_index() == i {
                        lemma_position_coords(p);
                        lemma_position_coords(position);
                        assert(p == position);
                        assert(found.contains(m));
                    } else {
                        assert(before.contains(m));
                    }
                }
                if found.contains(m) {
                    let k = choose|k: int| 0 <= k < 4 && pattern.probe(k, position, cells) == Some(m);
                    assert(pattern.probe(k, position, cells) == Some(m));
                }
            }
        }
        i = i + 1;
    }
    let ghost scanned_by = Set::new(
        |m: Set<Position>|
            exists|p: Position, k: int| 0 <= k < 4 && #[trigger] pattern.probe(k, p, cells) == Some(m),
    );
    assert forall|m: Set<Position>|
        #![trigger fits@.contains(m)]
        fits@.contains(m) == scanned_by.contains(m) by {
        if scanned_by.contains(m) {
            let (p, k) = choose|p: Position, k: int| 0 <= k < 4 && #[trigger] pattern.probe(k, p, cells)
                == Some(m);
            lemma_position_coords(p);
        }
    }
    assert(fits@ =~= scanned_by);
    fits
}


/// The mask of one cell.
fn single(a: Position) -> (r: Mask)
    ensures
        r@ == set![a],
{
    let mut m = Mask::new();
    m.insert(a);
    assert(m@ =~= set![a]);
    m
}

/// The mask of two cells.
fn pair(a: Position, b: Position) -> (r: Mask)
    ensures
        r@ == set![a, b],
{
    let mut m = Mask::new();
    m.insert(a);
    m.insert(b);
    assert(m@ =~= set![a, b]);
    m
}

/// The mask of three cells.
fn trio(a: Position, b: Position, c: Position) -> (r: Mask)
    ensures
        r@ == set![a, b, c],
{
    let mut m = Mask::new();
    m.insert(a);
    m.insert(b);
    m.insert(c);
    assert(m@ =~= set![a, b, c]);
    m
}

/// The mask of four cells.
fn quad(a: Position, b: Position, c: Position, d: Position) -> (r: Mask)
    ensures
        r@ == set![a, b, c, d],
{
    let mut m = Mask::new();
    m.insert(a);
    m.insert(b);
    m.insert(c);
    m.insert(d);
    assert(m@ =~= set![a, b, c, d]);
    m
}

impl Orientations for Color {
    /// Orientation 0 finds each cell holding a stack of this colour.
    open spec fn probe(&self, k: int, anchor: Position, cells: Map<Position, Stack>) -> Option<
        Set<Position>,
    > {
        if k == 0 && has_color(cells, anchor, *self) {
            Some(set![anchor])
        } else {
            None
        }
    }

    fn fit_at(&self, position: &Position, board: &Board) -> (r: Option<Mask>) {
        if let Some(stack) = board.get(position) {
            if stack.color == *self {
                return Some(single(*position));
            }
        }
        None
    }

    fn fit_at_90deg(&self, position: &Position, board: &Board) -> (r: Option<Mask>) {
        None
    }

    fn fit_at_180deg(&self, position: &Position, board: &Board) -> (r: Option<Mask>) {
        None
    }

    fn fit_at_270deg(&self, position: &Position, board: &Board) -> (r: Option<Mask>) {
        None
    }
}

impl Pattern for Color {
    open spec fn occurrences(&self, cells: Map<Position, Stack>) -> Set<Set<Position>> {
        scanned(self, cells)
    }

    fn fit(&self, board: &Board) -> (r: MaskSet) {
        scan(self, board)
    }
}

impl Orientations for Tier {
    /// Orientation 0 finds each cell holding a stack of this tier.
    open spec fn probe(&self, k: int, anchor: Position, cells: Map<Position, Stack>) -> Option<
        Set<Position>,
    > {
        if k == 0 && cells.contains_key(anchor) && cells[anchor].tier == *self {
            Some(set![anchor])
        } else {
            None
        }
    }

    fn fit_at(&self, position: &Position, board: &Board) -> (r: Option<Mask>) {
        if let Some(stack) = board.get(position) {
            if stack.tier == *self {
                return Some(single(*position));
            }
        }
        None
    }

    fn fit_at_90deg(&self, position: &Position, board: &Board) -> (r: Option<Mask>) {
        None
    }

    fn fit_at_180deg(&self, position: &Position, board: &Board) -> (r: Option<Mask>) {
        None
    }

    fn fit_at_270deg(&self, position: &Position, board: &Board) -> (r: Option<Mask>) {
        None
    }
}

impl Pattern for Tier {
    open spec fn occurrences(&self, cells: Map<Position, Stack>) -> Set<Set<Position>> {
        scanned(self, cells)
    }

    fn fit(&self, board: &Board) -> (r: MaskSet) {
        scan(self, board)
    }
}

impl Orientations for Stack {
    /// Orientation 0 finds each cell holding exactly this stack.
    open spec fn probe(&self, k: int, anchor: Position, cells: Map<Position, Stack>) -> Option<
        Set<Position>,
    > {
        if k == 0 && cells.contains_key(anchor) && cells[anchor] == *self {
            Some(set![anchor])
        } else {
            None
        }
    }

    fn fit_at(&self, position: &Position, board: &Board) -> (r: Option<Mask>) {
        if let Some(stack) = board.get(position) {
            if stack == self {
                return Some(single(*position));
            }
        }
        None
    }

    fn fit_at_90deg(&self, position: &Position, board: &Board) -> (r: Option<Mask>) {
        None
    }

    fn fit_at_180deg(&self, position: &Position, board: &Board) -> (r: Option<Mask>) {
        None
    }

    fn fit_at_270deg(&self, position: &Position, board: &Board) -> (r: Option<Mask>) {
        None
    }
}

impl Pattern for Stack {
    open spec fn occurrences(&self, cells: Map<Position, Stack>) -> Set<Set<Position>> {
        scanned(self, cells)
    }

    fn fit(&self, board: &Board) -> (r: MaskSet) {
        scan(self, board)
    }
}

/// Whether two stacks have the colours `c1` and `c2`, in either order.
pub open spec fn colors_either_way(c1: Color, c2: Color, a: Stack, b: Stack) -> bool {
    (a.color == c1 && b.color == c2) || (a.color == c2 && b.color == c1)
}

/// Two orthogonally adjacent stacks of the two given colours, in either order.
#[derive(Debug, Clone, Copy)]
pub struct AdjacentColors(pub Color, pub Color);

impl AdjacentColors {
    /// Whether `p` and `q` are both occupied, by the two colours in either order.
    pub open spec fn matches(self, cells: Map<Position, Stack>, p: Position, q: Position) -> bool {
        cells.contains_key(p) && cells.contains_key(q) && colors_either_way(
            self.0,
            self.1,
            cells[p],
            cells[q],
        )
    }

    /// The cells `p` and `other`, when `other` exists and the two match.
    pub open spec fn pair_at(self, cells: Map<Position, Stack>, p: Position, other: Option<Position>) -> Option<
        Set<Position>,
    > {
        match other {
            Some(q) => if self.matches(cells, p, q) {
                Some(set![p, q])
            } else {
                None
            },
            None => None,
        }
    }

    fn fit_colors(&self, pos1: &Position, pos2: &Position, board: &Board) -> (r: Option<Mask>)
        ensures
            mask_cells(r) == self.pair_at(board@, *pos1, Some(*pos2)),
    {
        let stack1 = board.get(pos1);
        let stack2 = board.get(pos2);
        if let (Some(stack1), Some(stack2)) = (stack1, stack2) {
            let fit = stack1.color == self.0 && stack2.color == self.1;
            let fit_inv = stack1.color == self.1 && stack2.color == self.0;
            if fit || fit_inv {
                return Some(pair(*pos1, *pos2));
            }
        }
        None
    }
}

impl Orientations for AdjacentColors {
    /// Orientation 0 pairs the anchor with the cell to its right,
    /// orientation 1 with the cell above it.
    open spec fn probe(&self, k: int, anchor: Position, cells: Map<Position, Stack>) -> Option<
        Set<Position>,
    > {
        if k == 0 {
            self.pair_at(cells, anchor, anchor.step(1, 0))
        } else if k == 1 {
            self.pair_at(cells, anchor, anchor.step(0, 1))
        } else {
            None
        }
    }

    fn fit_at(&self, pos1: &Position, board: &Board) -> (r: Option<Mask>) {
        if let Some(pos2) = pos1.right() {
            self.fit_colors(pos1, &pos2, board)
        } else {
            None
        }
    }

    fn fit_at_90deg(&self, pos1: &Position, board: &Board) -> (r: Option<Mask>) {
        if let Some(pos2) = pos1.up() {
            self.fit_colors(pos1, &pos2, board)
        } else {
            None
        }
    }

    fn fit_at_180deg(&self, position: &Position, board: &Board) -> (r: Option<Mask>) {
        None
    }

    fn fit_at_270deg(&self, position: &Position, board: &Board) -> (r: Option<Mask>) {
        None
    }
}

impl Pattern for AdjacentColors {
    open spec fn occurrences(&self, cells: Map<Position, Stack>) -> Set<Set<Position>> {
        scanned(self, cells)
    }

    fn fit(&self, board: &Board) -> (r: MaskSet) {
        scan(self, board)
    }
}

/// Two orthogonally adjacent stacks of the given colour, both at the second tier.
#[derive(Debug, Clone, Copy)]
pub struct AdjacentT2(pub Color);

impl AdjacentT2 {
    /// Whether `p` and `q` both hold a second-tier stack of the colour.
    pub open spec fn matches(self, cells: Map<Position, Stack>, p: Position, q: Position) -> bool {
        &&& cells.contains_key(p)
        &&& cells.contains_key(q)
        &&& cells[p].tier == Tier::Second
        &&& cells[q].tier == Tier::Second
        &&& cells[p].color == self.0
        &&& cells[q].color == self.0
    }

    /// The cells `p` and `other`, when `other` exists and the two match.
    pub open spec fn pair_at(self, cells: Map<Position, Stack>, p: Position, other: Option<Position>) -> Option<
        Set<Position>,
    > {
        match other {
            Some(q) => if self.matches(cells, p, q) {
                Some(set![p, q])
            } else {
                None
            },
            None => None,
        }
    }

    fn fit_t2_color(&self, pos1: &Position, pos2: &Position, board: &Board) -> (r: Option<Mask>)
        ensures
            mask_cells(r) == self.pair_at(board@, *pos1, Some(*pos2)),
    {
        let stack1 = board.get(pos1);
        let stack2 = board.get(pos2);
        if let (Some(stack1), Some(stack2)) = (stack1, stack2) {
            let stack_fit = stack1.tier == Tier::Second && stack2.tier == Tier::Second;
            let color_fit = stack1.color == self.0 && stack2.color == self.0;
            if stack_fit && color_fit {
                return Some(pair(*pos1, *pos2));
            }
        }
        None
    }
}

impl Orientations for AdjacentT2 {
    /// Orientation 0 pairs the anchor with the cell to its right,
    /// orientation 1 with the cell above it.
    open spec fn probe(&self, k: int, anchor: Position, cells: Map<Position, Stack>) -> Option<
        Set<Position>,
    > {
        if k == 0 {
            self.pair_at(cells, anchor, anchor.step(1, 0))
        } else if k == 1 {
            self.pair_at(cells, anchor, anchor.step(0, 1))
        } else {
            None
        }
    }

    fn fit_at(&self, pos1: &Position, board: &Board) -> (r: Option<Mask>) {
        if let Some(pos2) = pos1.right() {
            self.fit_t2_color(pos1, &pos2, board)
        } else {
            None
        }
    }

    fn fit_at_90deg(&self, pos1: &Position, board: &Board) -> (r: Option<Mask>) {
        if let Some(pos2) = pos1.up() {
            self.fit_t2_color(pos1, &pos2, board)
        } else {
            None
        }
    }

    fn fit_at_180deg(&self, position: &Position, board: &Board) -> (r: Option<Mask>) {
        None
    }

    fn fit_at_270deg(&self, position: &Position, board: &Board) -> (r: Option<Mask>) {
        None
    }
}

impl Pattern for AdjacentT2 {
    open spec fn occurrences(&self, cells: Map<Position, Stack>) -> Set<Set<Position>> {
        scanned(self, cells)
    }

    fn fit(&self, board: &Board) -> (r: MaskSet) {
        scan(self, board)
    }
}

/// Two diagonally adjacent stacks of the two given colours, in either order,
/// both at the second tier or higher.
#[derive(Debug, Clone, Copy)]
pub struct DiagonalStacks(pub Color, pub Color);

impl DiagonalStacks {
    /// Whether `p` and `q` hold stacks of tier two or more, of the two colours
    /// in either order.
    pub open spec fn matches(self, cells: Map<Position, Stack>, p: Position, q: Position) -> bool {
        &&& cells.contains_key(p)
        &&& cells.contains_key(q)
        &&& cells[p].tier.height() >= 2
        &&& cells[q].tier.height() >= 2
        &&& colors_either_way(self.0, self.1, cells[p], cells[q])
    }

    /// The cells `p` and `other`, when `other` exists and the two match.
    pub open spec fn pair_at(self, cells: Map<Position, Stack>, p: Position, other: Option<Position>) -> Option<
        Set<Position>,
    > {
        match other {
            Some(q) => if self.matches(cells, p, q) {
                Some(set![p, q])
            } else {
                None
            },
            None => None,
        }
    }

    fn fit_diag_stacks(&self, pos1: &Position, pos2: &Position, board: &Board) -> (r: Option<
        Mask,
    >)
        ensures
            mask_cells(r) == self.pair_at(board@, *pos1, Some(*pos2)),
    {
        let stack1 = board.get(pos1);
        let stack2 = board.get(pos2);
        if let (Some(stack1), Some(stack2)) = (stack1, stack2) {
            let stack_fit = stack1.tier.level() >= 2 && stack2.tier.level() >= 2;
            let color_fit = stack1.color == self.0 && stack2.color == self.1;
            let color_fit_inv = stack1.color == self.1 && stack2.color == self.0;
            if stack_fit && (color_fit || color_fit_inv) {
                return Some(pair(*pos1, *pos2));
            }
        }
        None
    }
}

impl Orientations for DiagonalStacks {
    /// Orientation 0 pairs the anchor with the cell up and to its right,
    /// orientation 1 with the cell down and to its right.
    open spec fn probe(&self, k: int, anchor: Position, cells: Map<Position, Stack>) -> Option<
        Set<Position>,
    > {
        if k == 0 {
            self.pair_at(cells, anchor, anchor.step(1, 1))
        } else if k == 1 {
            self.pair_at(cells, anchor, anchor.step(1, -1))
        } else {
            None
        }
    }

    fn fit_at(&self, pos1: &Position, board: &Board) -> (r: Option<Mask>) {
        if let Some(pos2) = pos1.upright() {
            self.fit_diag_stacks(pos1, &pos2, board)
        } else {
            None
        }
    }

    fn fit_at_90deg(&self, pos1: &Position, board: &Board) -> (r: Option<Mask>) {
        if let Some(pos2) = pos1.downright() {
            self.fit_diag_stacks(pos1, &pos2, board)
        } else {
            None
        }
    }

    fn fit_at_180deg(&self, position: &Position, board: &Board) -> (r: Option<Mask>) {
        None
    }

    fn fit_at_270deg(&self, position: &Position, board: &Board) -> (r: Option<Mask>) {
        None
    }
}

impl Pattern for DiagonalStacks {
    open spec fn occurrences(&self, cells: Map<Position, Stack>) -> Set<Set<Position>> {
        scanned(self, cells)
    }

    fn fit(&self, board: &Board) -> (r: MaskSet) {
        scan(self, board)
    }
}

impl Color {
    /// `mask` itself when every one of its cells holds a stack of this
    /// colour; `None` otherwise.
    pub fn fit_mask(&self, mask: Mask, board: &Board) -> (r: Option<Mask>)
        ensures
            r == (if all_colored(board@, mask@, *self) {
                Some(mask)
            } else {
                None
            }),
    {
        let mut i: usize = 0;
        while i < 16
            invariant
                i <= 16,
                forall|q: Position|
                    q.spec_index() < i && #[trigger] mask@.contains(q) ==> has_color(
                        board@,
                        q,
                        *self,
                    ),
            decreases 16 - i,
        {
            let position = Position::from_index(i);
            if mask.contains(&position) && self.fit_at(&position, board).is_none() {
                return None;
            }
            proof {
                assert forall|q: Position|
                    q.spec_index() < i + 1 && #[trigger] mask@.contains(q) implies has_color(
                        board@,
                        q,
                        *self,
                    ) by {
                    if q.spec_index() == i {
                        lemma_position_coords(q);
                        lemma_position_coords(position);
                    }
                }
            }
            i = i + 1;
        }
        assert forall|q: Position| mask@.contains(q) implies has_color(board@, q, *self) by {
            lemma_position_coords(q);
        }
        Some(mask)
    }
}

/// The cells `anchor`, `second` and `third`, when the last two exist and all
/// three hold a stack of `color`.
pub open spec fn colored_trio(
    cells: Map<Position, Stack>,
    color: Color,
    anchor: Position,
    second: Option<Position>,
    third: Option<Position>,
) -> Option<Set<Position>> {
    match (second, third) {
        (Some(b), Some(c)) => if all_colored(cells, set![anchor, b, c], color) {
            Some(set![anchor, b, c])
        } else {
            None
        },
        _ => None,
    }
}

/// Three stacks of the given colour in a diagonal line.
#[derive(Debug, Clone, Copy)]
pub struct Diagonal(pub Color);

impl Orientations for Diagonal {
    /// Orientation 0 runs up and to the right from the anchor, orientation 1
    /// down and to the right.
    open spec fn probe(&self, k: int, anchor: Position, cells: Map<Position, Stack>) -> Option<
        Set<Position>,
    > {
        if k == 0 {
            colored_trio(cells, self.0, anchor, anchor.step(1, 1), and_step(anchor.step(1, 1), 1, 1))
        } else if k == 1 {
            colored_trio(
                cells,
                self.0,
                anchor,
                anchor.step(1, -1),
                and_step(anchor.step(1, -1), 1, -1),
            )
        } else {
            None
        }
    }

    fn fit_at(&self, pos1: &Position, board: &Board) -> (r: Option<Mask>) {
        if let Some(pos2) = pos1.upright() {
            if let Some(pos3) = pos2.upright() {
                let mask = trio(*pos1, pos2, pos3);
                return self.0.fit_mask(mask, board);
            }
        }
        None
    }

    fn fit_at_90deg(&self, pos1: &Position, board: &Board) -> (r: Option<Mask>) {
        if let Some(pos2) = pos1.downright() {
            if let Some(pos3) = pos2.downright() {
                let mask = trio(*pos1, pos2, pos3);
                return self.0.fit_mask(mask, board);
            }
        }
        None
    }

    fn fit_at_180deg(&self, position: &Position, board: &Board) -> (r: Option<Mask>) {
        None
    }

    fn fit_at_270deg(&self, position: &Position, board: &Board) -> (r: Option<Mask>) {
        None
    }
}

impl Pattern for Diagonal {
    open spec fn occurrences(&self, cells: Map<Position, Stack>) -> Set<Set<Position>> {
        scanned(self, cells)
    }

    fn fit(&self, board: &Board) -> (r: MaskSet) {
        scan(self, board)
    }
}

/// Three stacks of the given colour in a row or a column.
#[derive(Debug, Clone, Copy)]
pub struct Line(pub Color);

impl Orientations for Line {
    /// Orientation 0 runs to the right from the anchor, orientation 1 upwards.
    open spec fn probe(&self, k: int, anchor: Position, cells: Map<Position, Stack>) -> Option<
        Set<Position>,
    > {
        if k == 0 {
            colored_trio(cells, self.0, anchor, anchor.step(1, 0), and_step(anchor.step(1, 0), 1, 0))
        } else if k == 1 {
            colored_trio(cells, self.0, anchor, anchor.step(0, 1), and_step(anchor.step(0, 1), 0, 1))
        } else {
            None
        }
    }

    fn fit_at(&self, pos1: &Position, board: &Board) -> (r: Option<Mask>) {
        if let Some(pos2) = pos1.right() {
            if let Some(pos3) = pos2.right() {
                let mask = trio(*pos1, pos2, pos3);
                return self.0.fit_mask(mask, board);
            }
        }
        None
    }

    fn fit_at_90deg(&self, pos1: &Position, board: &Board) -> (r: Option<Mask>) {
        if let Some(pos2) = pos1.up() {
            if let Some(pos3) = pos2.up() {
                let mask = trio(*pos1, pos2, pos3);
                return self.0.fit_mask(mask, board);
            }
        }
        None
    }

    fn fit_at_180deg(&self, position: &Position, board: &Board) -> (r: Option<Mask>) {
        None
    }

    fn fit_at_270deg(&self, position: &Position, board: &Board) -> (r: Option<Mask>) {
        None
    }
}

impl Pattern for Line {
    open spec fn occurrences(&self, cells: Map<Position, Stack>) -> Set<Set<Position>> {
        scanned(self, cells)
    }

    fn fit(&self, board: &Board) -> (r: MaskSet) {
        scan(self, board)
    }
}

/// Three stacks of the given colour in an L: the anchor, a neighbour of it,
/// and a neighbour of that one at a right angle.
#[derive(Debug, Clone, Copy)]
pub struct Corner(pub Color);

impl Orientations for Corner {
    /// Orientation 0 goes up then right, 1 left then up, 2 down then left,
    /// and 3 right then down.
    open spec fn probe(&self, k: int, anchor: Position, cells: Map<Position, Stack>) -> Option<
        Set<Position>,
    > {
        if k == 0 {
            colored_trio(cells, self.0, anchor, anchor.step(0, 1), and_step(anchor.step(0, 1), 1, 0))
        } else if k == 1 {
            colored_trio(
                cells,
                self.0,
                anchor,
                anchor.step(-1, 0),
                and_step(anchor.step(-1, 0), 0, 1),
            )
        } else if k == 2 {
            colored_trio(
                cells,
                self.0,
                anchor,
                anchor.step(0, -1),
                and_step(anchor.step(0, -1), -1, 0),
            )
        } else if k == 3 {
            colored_trio(
                cells,
                self.0,
                anchor,
                anchor.step(1, 0),
                and_step(anchor.step(1, 0), 0, -1),
            )
        } else {
            None
        }
    }

    fn fit_at(&self, pos1: &Position, board: &Board) -> (r: Option<Mask>) {
        if let Some(pos2) = pos1.up() {
            if let Some(pos3) = pos2.right() {
                let mask = trio(*pos1, pos2, pos3);
                return self.0.fit_mask(mask, board);
            }
        }
        None
    }

    fn fit_at_90deg(&self, pos1: &Position, board: &Board) -> (r: Option<Mask>) {
        if let Some(pos2) = pos1.left() {
            if let Some(pos3) = pos2.up() {
                let mask = trio(*pos1, pos2, pos3);
                return self.0.fit_mask(mask, board);
            }
        }
        None
    }

    fn fit_at_180deg(&self, pos1: &Position, board: &Board) -> (r: Option<Mask>) {
        if let Some(pos2) = pos1.down() {
            if let Some(pos3) = pos2.left() {
                let mask = trio(*pos1, pos2, pos3);
                return self.0.fit_mask(mask, board);
            }
        }
        None
    }

    fn fit_at_270deg(&self, pos1: &Position, board: &Board) -> (r: Option<Mask>) {
        if let Some(pos2) = pos1.right() {
            if let Some(pos3) = pos2.down() {
                let mask = trio(*pos1, pos2, pos3);
                return self.0.fit_mask(mask, board);
            }
        }
        None
    }
}

impl Pattern for Corner {
    open spec fn occurrences(&self, cells: Map<Position, Stack>) -> Set<Set<Position>> {
        scanned(self, cells)
    }

    fn fit(&self, board: &Board) -> (r: MaskSet) {
        scan(self, board)
    }
}

/// Four stacks of the given colour in a 2×2 block.
#[derive(Debug, Clone, Copy)]
pub struct Square(pub Color);

impl Orientations for Square {
    /// Orientation 0 takes the block whose lower left cell is the anchor.
    open spec fn probe(&self, k: int, anchor: Position, cells: Map<Position, Stack>) -> Option<
        Set<Position>,
    > {
        let up = anchor.step(0, 1);
        let diagonal = and_step(up, 1, 0);
        let right = anchor.step(1, 0);
        if k == 0 && up is Some && diagonal is Some && right is Some {
            let m = set![anchor, up->Some_0, diagonal->Some_0, right->Some_0];
            if all_colored(cells, m, self.0) {
                Some(m)
            } else {
                None
            }
        } else {
            None
        }
    }

    fn fit_at(&self, pos1: &Position, board: &Board) -> (r: Option<Mask>) {
        if let Some(pos2) = pos1.up() {
            if let Some(pos3) = pos2.right() {
                if let Some(pos4) = pos1.right() {
                    let mask = quad(*pos1, pos2, pos3, pos4);
                    return self.0.fit_mask(mask, board);
                }
            }
        }
        None
    }

    fn fit_at_90deg(&self, position: &Position, board: &Board) -> (r: Option<Mask>) {
        None
    }

    fn fit_at_180deg(&self, position: &Position, board: &Board) -> (r: Option<Mask>) {
        None
    }

    fn fit_at_270deg(&self, position: &Position, board: &Board) -> (r: Option<Mask>) {
        None
    }
}

impl Pattern for Square {
    open spec fn occurrences(&self, cells: Map<Position, Stack>) -> Set<Set<Position>> {
        scanned(self, cells)
    }

    fn fit(&self, board: &Board) -> (r: MaskSet) {
        scan(self, board)
    }
}

/// Whether `q` is one of the eight cells around `p`.
pub open spec fn adjacent(p: Position, q: Position) -> bool {
    &&& q != p
    &&& -1 <= q.x() - p.x() <= 1
    &&& -1 <= q.y() - p.y() <= 1
}

/// The eight cells around a cell are the cells one step away in the eight
/// compass directions.
pub proof fn lemma_adjacent_steps(p: Position, q: Position)
    ensures
        adjacent(p, q) <==> (p.step(0, 1) == Some(q) || p.step(-1, 1) == Some(q) || p.step(-1, 0)
            == Some(q) || p.step(-1, -1) == Some(q) || p.step(0, -1) == Some(q) || p.step(1, -1)
            == Some(q) || p.step(1, 0) == Some(q) || p.step(1, 1) == Some(q)),
{
    lemma_position_coords(p);
    lemma_position_coords(q);
    assert forall|dx: int, dy: int| -1 <= dx <= 1 && -1 <= dy <= 1 && #[trigger] p.step(dx, dy) == Some(q)
        implies q.x() == p.x() + dx && q.y() == p.y() + dy by {
        crate::position::lemma_neighbours_at_edges(p, dx, dy);
    }
    if p.step(0, 1) == Some(q) || p.step(-1, 1) == Some(q) || p.step(-1, 0) == Some(q) || p.step(
        -1,
        -1,
    ) == Some(q) || p.step(0, -1) == Some(q) || p.step(1, -1) == Some(q) || p.step(1, 0) == Some(q)
        || p.step(1, 1) == Some(q) {
        assert(q.x() != p.x() || q.y() != p.y());
    }
}

/// The stacks of the second colour around the highest stacks of the first.
///
/// The anchors are the cells holding a stack of the first colour at the
/// highest tier that colour reaches (all of them, where several tie). Each
/// anchor gives one occurrence: the set of cells around it that hold a stack
/// of the second colour, when there is at least one.
#[derive(Debug, Clone, Copy)]
pub struct Surround(pub Color, pub Color);

impl Surround {
    /// Whether `p` holds a stack of the first colour at least as high as
    /// every other stack of that colour.
    pub open spec fn is_base(self, cells: Map<Position, Stack>, p: Position) -> bool {
        &&& has_color(cells, p, self.0)
        &&& forall|q: Position|
            has_color(cells, q, self.0) ==> #[trigger] cells[q].tier.height() <= cells[
                p
            ].tier.height()
    }

    /// The cells around `anchor` that hold a stack of the second colour.
    pub open spec fn neighbours(self, cells: Map<Position, Stack>, anchor: Position) -> Set<
        Position,
    > {
        Set::new(|q: Position| adjacent(anchor, q) && has_color(cells, q, self.1))
    }

    /// The stacks of the second colour around `anchor`, when it holds a
    /// stack of the first colour and there is at least one such stack.
    pub open spec fn surrounding(self, cells: Map<Position, Stack>, anchor: Position) -> Option<
        Set<Position>,
    > {
        if has_color(cells, anchor, self.0) && self.neighbours(cells, anchor) != Set::<
            Position,
        >::empty() {
            Some(self.neighbours(cells, anchor))
        } else {
            None
        }
    }

    /// The surrounding of `anchor` when it is an anchor: a highest stack of
    /// the first colour.
    pub open spec fn anchored(self, cells: Map<Position, Stack>, anchor: Position) -> Option<
        Set<Position>,
    > {
        if self.is_base(cells, anchor) {
            self.surrounding(cells, anchor)
        } else {
            None
        }
    }

    /// The cells that serve as anchors.
    fn bases(&self, board: &Board) -> (r: Mask)
        ensures
            forall|p: Position| #[trigger] r@.contains(p) == self.is_base(board@, p),
    {
        let ghost cells = board@;
        let mut bases = Mask::new();
        let mut highest: u8 = 1;
        let mut i: usize = 0;
        while i < 16
            invariant
                i <= 16,
                cells == board@,
                1 <= highest <= 4,
                forall|q: Position|
                    q.spec_index() < i && has_color(cells, q, self.0) ==> #[trigger] cells[
                        q
                    ].tier.height() <= highest,
                highest == 1 || exists|q: Position|
                    q.spec_index() < i && has_color(cells, q, self.0) && #[trigger] cells[
                        q
                    ].tier.height() == highest,
                forall|p: Position|
                    #[trigger] bases@.contains(p) == (p.spec_index() < i && has_color(
                        cells,
                        p,
                        self.0,
                    ) && cells[p].tier.height() == highest),
            decreases 16 - i,
        {
            let position = Position::from_index(i);
            proof {
                lemma_position_coords(position);
            }
            if let Some(stack) = board.get(&position) {
                if stack.color == self.0 {
                    let level = stack.tier.level();
                    if level > highest {
                        bases = Mask::new();
                        highest = level;
                        bases.insert(position);
                    } else if level == highest {
                        bases.insert(position);
                    }
                }
            }
            proof {
                assert forall|q: Position| q.spec_index() == i implies q == position by {
                    lemma_position_coords(q);
                }
            }
            i = i + 1;
        }
        proof {
            assert forall|p: Position| #[trigger] bases@.contains(p) == self.is_base(cells, p) by {
                lemma_position_coords(p);
                if self.is_base(cells, p) && highest != 1 {
                    let q = choose|q: Position|
                        q.spec_index() < 16 && has_color(cells, q, self.0) && #[trigger] cells[
                            q
                        ].tier.height() == highest;
                    assert(cells[q].tier.height() <= cells[p].tier.height());
                }
                if bases@.contains(p) {
                    assert forall|q: Position| has_color(cells, q, self.0) implies #[trigger] cells[
                        q
                    ].tier.height() <= cells[p].tier.height() by {
                        lemma_position_coords(q);
                    }
                }
            }
        }
        bases
    }

    /// Adds `around` to `mask` when it is a cell holding a stack of the
    /// second colour.
    fn add_if_second(&self, mask: &mut Mask, around: Option<Position>, board: &Board)
        ensures
            final(mask)@ == (match around {
                Some(q) => if has_color(board@, q, self.1) {
                    old(mask)@.insert(q)
                } else {
                    old(mask)@
                },
                None => old(mask)@,
            }),
    {
        if let Some(pos) = around {
            if let Some(stack) = board.get(&pos) {
                if stack.color == self.1 {
                    mask.insert(pos);
                }
            }
        }
    }

    /// The stacks of the second colour around `pos1`, when it holds a stack
    /// of the first colour.
    fn surrounding_at(&self, pos1: &Position, board: &Board) -> (r: Option<Mask>)
        ensures
            mask_cells(r) == self.surrounding(board@, *pos1),
    {
        if let Some(stack) = board.get(pos1) {
            if stack.color != self.0 {
                return None;
            }
            let mut fits = Mask::new();
            self.add_if_second(&mut fits, pos1.up(), board);
            self.add_if_second(&mut fits, pos1.upleft(), board);
            self.add_if_second(&mut fits, pos1.left(), board);
            self.add_if_second(&mut fits, pos1.downleft(), board);
            self.add_if_second(&mut fits, pos1.down(), board);
            self.add_if_second(&mut fits, pos1.downright(), board);
            self.add_if_second(&mut fits, pos1.right(), board);
            self.add_if_second(&mut fits, pos1.upright(), board);
            proof {
                assert forall|q: Position| #[trigger] fits@.contains(q) == self.neighbours(
                    board@,
                    *pos1,
                ).contains(q) by {
                    lemma_adjacent_steps(*pos1, q);
                }
                assert(fits@ =~= self.neighbours(board@, *pos1));
            }
            if !fits.is_empty() {
                return Some(fits);
            } else {
                return None;
            }
        }
        None
    }
}

impl Orientations for Surround {
    /// Orientation 0 finds, at a cell holding a stack of the first colour,
    /// the stacks of the second colour around it, whatever its tier.
    open spec fn probe(&self, k: int, anchor: Position, cells: Map<Position, Stack>) -> Option<
        Set<Position>,
    > {
        if k == 0 {
            self.surrounding(cells, anchor)
        } else {
            None
        }
    }

    fn fit_at(&self, pos1: &Position, board: &Board) -> (r: Option<Mask>) {
        self.surrounding_at(pos1, board)
    }

    fn fit_at_90deg(&self, position: &Position, board: &Board) -> (r: Option<Mask>) {
        None
    }

    fn fit_at_180deg(&self, position: &Position, board: &Board) -> (r: Option<Mask>) {
        None
    }

    fn fit_at_270deg(&self, position: &Position, board: &Board) -> (r: Option<Mask>) {
        None
    }
}

impl Pattern for Surround {
    /// One occurrence per anchor, where its surrounding is not empty.
    open spec fn occurrences(&self, cells: Map<Position, Stack>) -> Set<Set<Position>> {
        Set::new(|m: Set<Position>| exists|p: Position| #[trigger] self.anchored(cells, p) == Some(m))
    }

    fn fit(&self, board: &Board) -> (r: MaskSet) {
        let ghost cells = board@;
        let bases = self.bases(board);
        let mut fits = MaskSet::new();
        let mut i: usize = 0;
        while i < 16
            invariant
                i <= 16,
                cells == board@,
                forall|p: Position| #[trigger] bases@.contains(p) == self.is_base(cells, p),
                fits@ == Set::new(
                    |m: Set<Position>|
                        exists|p: Position|
                            p.spec_index() < i && #[trigger] self.anchored(cells, p) == Some(m),
                ),
            decreases 16 - i,
        {
            let base = Position::from_index(i);
            let ghost before = fits@;
            if bases.contains(&base) {
                if let Some(mask) = self.surrounding_at(&base, board) {
                    fits.insert(mask);
                }
            }
            proof {
                assert forall|m: Set<Position>|
                    #![trigger fits@.contains(m)]
                    fits@.contains(m) == (exists|p: Position|
                        p.spec_index() < i + 1 && #[trigger] self.anchored(cells, p) == Some(m)) by {
                    if exists|p: Position|
                        p.spec_index() < i + 1 && #[trigger] self.anchored(cells, p) == Some(m) {
                        let p = choose|p: Position|
                            p.spec_index() < i + 1 && #[trigger] self.anchored(cells, p) == Some(m);
                        if p.spec_index() == i {
                            lemma_position_coords(p);
                            lemma_position_coords(base);
                            assert(p == base);
                        } else {
                            assert(before.contains(m));
                        }
                    }
                    if fits@.contains(m) && !before.contains(m) {
                        assert(self.anchored(cells, base) == Some(m));
                    }
                }
                assert(fits@ =~= Set::new(
                    |m: Set<Position>|
                        exists|p: Position|
                            p.spec_index() < i + 1 && #[trigger] self.anchored(cells, p) == Some(m),
                ));
            }
            i = i + 1;
        }
        proof {
            assert forall|m: Set<Position>| #[trigger]
                fits@.contains(m) == self.occurrences(cells).contains(m) by {
                if self.occurrences(cells).contains(m) {
                    let p = choose|p: Position| #[trigger] self.anchored(cells, p) == Some(m);
                    lemma_position_coords(p);
                }
            }
            assert(fits@ =~= self.occurrences(cells));
        }
        fits
    }
}

/// Looking for a shape twice on the same board gives the same set of
/// occurrences, and `MaskSet`'s `==` compares exactly these sets.
pub proof fn lemma_fit_idempotent<P: Pattern>(
    pattern: &P,
    board: &Board,
    first: &MaskSet,
    second: &MaskSet,
)
    requires
        first@ == pattern.occurrences(board@),
        second@ == pattern.occurrences(board@),
    ensures
        first@ == second@,
{
}

/// Every occurrence of a line holds a stack of the line's colour on each of
/// its three cells, and three cells of that colour in a row or a column
/// always form an occurrence.
pub proof fn lemma_line_occurrences(line: Line, cells: Map<Position, Stack>, m: Set<Position>, p: Position, dx: int, dy: int)
    requires
        (dx == 1 && dy == 0) || (dx == 0 && dy == 1),
    ensures
        line.occurrences(cells).contains(m) ==> all_colored(cells, m, line.0),
        ({
            let q = p.step(dx, dy);
            let r = and_step(q, dx, dy);
            q is Some && r is Some && all_colored(cells, set![p, q->Some_0, r->Some_0], line.0)
                ==> line.occurrences(cells).contains(set![p, q->Some_0, r->Some_0])
        }),
{
    if line.occurrences(cells).contains(m) {
        let (a, k) = choose|a: Position, k: int| 0 <= k < 4 && #[trigger] line.probe(k, a, cells) == Some(m);
        assert(k == 0 || k == 1);
    }
    let q = p.step(dx, dy);
    let r = and_step(q, dx, dy);
    if q is Some && r is Some && all_colored(cells, set![p, q->Some_0, r->Some_0], line.0) {
        if dx == 1 {
            assert(line.probe(0, p, cells) == Some(set![p, q->Some_0, r->Some_0]));
        } else {
            assert(line.probe(1, p, cells) == Some(set![p, q->Some_0, r->Some_0]));
        }
    }
}

/// Swapping the two colours of `AdjacentColors` finds the same occurrences.
pub proof fn lemma_adjacent_colors_symmetric(c1: Color, c2: Color, cells: Map<Position, Stack>)
    ensures
        AdjacentColors(c1, c2).occurrences(cells) == AdjacentColors(c2, c1).occurrences(cells),
{
    let a = AdjacentColors(c1, c2);
    let b = AdjacentColors(c2, c1);
    assert forall|k: int, p: Position| #[trigger] a.probe(k, p, cells) == b.probe(k, p, cells) by {
    }
    assert forall|m: Set<Position>| #[trigger] scanned(&a, cells).contains(m) == scanned(&b, cells).contains(m) by {
        if scanned(&a, cells).contains(m) {
            let (p, k) = choose|p: Position, k: int| 0 <= k < 4 && #[trigger] a.probe(k, p, cells) == Some(m);
            assert(b.probe(k, p, cells) == Some(m));
        }
        if scanned(&b, cells).contains(m) {
            let (p, k) = choose|p: Position, k: int| 0 <= k < 4 && #[trigger] b.probe(k, p, cells) == Some(m);
            assert(a.probe(k, p, cells) == Some(m));
        }
    }
    assert(scanned(&a, cells) =~= scanned(&b, cells));
}

/// The occurrences of `Surround` are exactly the non-empty sets of
/// second-colour stacks around the anchors: each holds only such stacks, and
/// where no anchor has one of them around it there is no occurrence at all.
pub proof fn lemma_surround_occurrences(s: Surround, cells: Map<Position, Stack>, m: Set<Position>)
    ensures
        s.occurrences(cells).contains(m) <==> exists|p: Position|
            s.is_base(cells, p) && s.neighbours(cells, p) != Set::<Position>::empty() && m
                == #[trigger] s.neighbours(cells, p),
        s.occurrences(cells).contains(m) ==> m != Set::<Position>::empty() && forall|q: Position|
            m.contains(q) ==> has_color(cells, q, s.1) && exists|p: Position|
                s.is_base(cells, p) && #[trigger] adjacent(p, q),
        (forall|p: Position| s.is_base(cells, p) ==> #[trigger] s.neighbours(cells, p) == Set::<
            Position,
        >::empty()) ==> s.occurrences(cells) == Set::<Set<Position>>::empty(),
{
    if s.occurrences(cells).contains(m) {
        let p = choose|p: Position| #[trigger] s.anchored(cells, p) == Some(m);
        assert(s.is_base(cells, p) && s.neighbours(cells, p) != Set::<Position>::empty() && m
            == s.neighbours(cells, p));
        assert forall|q: Position| m.contains(q) implies has_color(cells, q, s.1) && exists|a: Position|
            s.is_base(cells, a) && #[trigger] adjacent(a, q) by {
            assert(s.is_base(cells, p) && adjacent(p, q));
        }
    }
    if exists|p: Position|
        s.is_base(cells, p) && s.neighbours(cells, p) != Set::<Position>::empty() && m
            == #[trigger] s.neighbours(cells, p) {
        let p = choose|p: Position|
            s.is_base(cells, p) && s.neighbours(cells, p) != Set::<Position>::empty() && m
                == #[trigger] s.neighbours(cells, p);
        assert(s.anchored(cells, p) == Some(m));
    }
    if forall|p: Position| s.is_base(cells, p) ==> #[trigger] s.neighbours(cells, p) == Set::<
        Position,
    >::empty() {
        assert forall|x: Set<Position>| !s.occurrences(cells).contains(x) by {
            if s.occurrences(cells).contains(x) {
                let p = choose|p: Position| #[trigger] s.anchored(cells, p) == Some(x);
                assert(s.neighbours(cells, p) == Set::<Position>::empty());
            }
        }
        assert(s.occurrences(cells) =~= Set::<Set<Position>>::empty());
    }
}

} // verus!

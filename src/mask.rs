use vstd::prelude::*;

use crate::position::{lemma_position_coords, Position};

verus! {

/// Whether bit `i` of `bits` is set.
pub open spec fn bit_set(bits: u16, i: u16) -> bool {
    (bits >> i) & 1u16 == 1u16
}

proof fn lemma_bit_insert(bits: u16, i: u16, j: u16)
    requires
        i < 16,
        j < 16,
    ensures
        bit_set(bits | (1u16 << i), j) == (i == j || bit_set(bits, j)),
{
    assert((((bits | (1u16 << i)) >> j) & 1u16 == 1u16) == (i == j || ((bits >> j) & 1u16
        == 1u16))) by (bit_vector)
        requires
            i < 16,
            j < 16,
    ;
}

proof fn lemma_bit_empty(j: u16)
    requires
        j < 16,
    ensures
        !bit_set(0u16, j),
{
    assert(((0u16 >> j) & 1u16) != 1u16) by (bit_vector)
        requires
            j < 16,
    ;
}

proof fn lemma_bits_determine(a: u16, b: u16)
    requires
        forall|j: u16| j < 16 ==> bit_set(a, j) == bit_set(b, j),
    ensures
        a == b,
{
    assert(bit_set(a, 0) == bit_set(b, 0));
    assert(bit_set(a, 1) == bit_set(b, 1));
    assert(bit_set(a, 2) == bit_set(b, 2));
    assert(bit_set(a, 3) == bit_set(b, 3));
    assert(bit_set(a, 4) == bit_set(b, 4));
    assert(bit_set(a, 5) == bit_set(b, 5));
    assert(bit_set(a, 6) == bit_set(b, 6));
    assert(bit_set(a, 7) == bit_set(b, 7));
    assert(bit_set(a, 8) == bit_set(b, 8));
    assert(bit_set(a, 9) == bit_set(b, 9));
    assert(bit_set(a, 10) == bit_set(b, 10));
    assert(bit_set(a, 11) == bit_set(b, 11));
    assert(bit_set(a, 12) == bit_set(b, 12));
    assert(bit_set(a, 13) == bit_set(b, 13));
    assert(bit_set(a, 14) == bit_set(b, 14));
    assert(bit_set(a, 15) == bit_set(b, 15));
    assert(a == b) by (bit_vector)
        requires
            ((a >> 0u16) & 1u16 == 1u16) == ((b >> 0u16) & 1u16 == 1u16),
            ((a >> 1u16) & 1u16 == 1u16) == ((b >> 1u16) & 1u16 == 1u16),
            ((a >> 2u16) & 1u16 == 1u16) == ((b >> 2u16) & 1u16 == 1u16),
            ((a >> 3u16) & 1u16 == 1u16) == ((b >> 3u16) & 1u16 == 1u16),
            ((a >> 4u16) & 1u16 == 1u16) == ((b >> 4u16) & 1u16 == 1u16),
            ((a >> 5u16) & 1u16 == 1u16) == ((b >> 5u16) & 1u16 == 1u16),
            ((a >> 6u16) & 1u16 == 1u16) == ((b >> 6u16) & 1u16 == 1u16),
            ((a >> 7u16) & 1u16 == 1u16) == ((b >> 7u16) & 1u16 == 1u16),
            ((a >> 8u16) & 1u16 == 1u16) == ((b >> 8u16) & 1u16 == 1u16),
            ((a >> 9u16) & 1u16 == 1u16) == ((b >> 9u16) & 1u16 == 1u16),
            ((a >> 10u16) & 1u16 == 1u16) == ((b >> 10u16) & 1u16 == 1u16),
            ((a >> 11u16) & 1u16 == 1u16) == ((b >> 11u16) & 1u16 == 1u16),
            ((a >> 12u16) & 1u16 == 1u16) == ((b >> 12u16) & 1u16 == 1u16),
            ((a >> 13u16) & 1u16 == 1u16) == ((b >> 13u16) & 1u16 == 1u16),
            ((a >> 14u16) & 1u16 == 1u16) == ((b >> 14u16) & 1u16 == 1u16),
            ((a >> 15u16) & 1u16 == 1u16) == ((b >> 15u16) & 1u16 == 1u16),
    ;
}

/// The cells of one occurrence of a pattern: a set of positions, held as one
/// bit per cell, so that two masks with the same cells are the same value.
///
/// Masks are ordered by their bit word (bit `i` for the cell of index `i`,
/// `i1` lowest), not lexicographically by their cells: `{i1, l4}` comes
/// after `{i2}`.
#[derive(Debug, Clone, Copy, PartialEq, Eq, Structural, Hash, PartialOrd, Ord)]
pub struct Mask {
    bits: u16,
}

impl View for Mask {
    type V = Set<Position>;

    closed spec fn view(&self) -> Set<Position> {
        Set::new(|p: Position| bit_set(self.bits, p.spec_index() as u16))
    }
}

impl Mask {
    /// The bit word of the mask, by which masks are ordered.
    pub closed spec fn key(self) -> u16 {
        self.bits
    }

    /// Two masks with the same cells are equal.
    pub proof fn lemma_view_injective(a: Mask, b: Mask)
        requires
            a@ == b@,
        ensures
            a == b,
    {
        assert forall|j: u16| j < 16 implies bit_set(a.bits, j) == bit_set(b.bits, j) by {
            let p = Position::from_index_spec(j as int);
            assert(p.spec_index() == j);
            assert((p.spec_index() as u16) == j);
            assert(a@.contains(p) == bit_set(a.bits, j));
            assert(b@.contains(p) == bit_set(b.bits, j));
        }
        lemma_bits_determine(a.bits, b.bits);
    }

    /// A mask is determined by its key.
    pub proof fn lemma_key_injective(a: Mask, b: Mask)
        ensures
            (a.key() == b.key()) == (a == b),
    {
    }

    /// The mask of no cells.
    pub fn new() -> (r: Mask)
        ensures
            r@ == Set::<Position>::empty(),
    {
        let r = Mask { bits: 0 };
        assert forall|p: Position| !r@.contains(p) by {
            lemma_position_coords(p);
            lemma_bit_empty(p.spec_index() as u16);
        }
        assert(r@ =~= Set::<Position>::empty());
        r
    }

    /// Adds `position` to the mask.
    pub fn insert(&mut self, position: Position)
        ensures
            final(self)@ == old(self)@.insert(position),
    {
        let i = position.index() as u16;
        let old_bits = self.bits;
        self.bits = self.bits | (1u16 << i);
        assert forall|p: Position| #[trigger] self@.contains(p) == old(self)@.insert(position).contains(p) by {
            lemma_position_coords(p);
            lemma_bit_insert(old_bits, i, p.spec_index() as u16);
            if p.spec_index() == i as int {
                assert(Position::from_index_spec(p.spec_index()) == p);
                assert(Position::from_index_spec(position.spec_index()) == position);
            }
        }
        assert(self@ =~= old(self)@.insert(position));
    }

    /// Whether `position` is in the mask.
    pub fn contains(&self, position: &Position) -> (r: bool)
        ensures
            r == self@.contains(*position),
    {
        let i = position.index() as u16;
        (self.bits >> i) & 1u16 == 1u16
    }

    /// The cells of the mask, in increasing order of their index (`i1`
    /// first, `l4` last).
    pub fn positions(&self) -> (r: Vec<Position>)
        ensures
            forall|a: int, b: int|
                0 <= a < b < r@.len() ==> r@[a].spec_index() < r@[b].spec_index(),
            forall|p: Position| r@.contains(p) <==> self@.contains(p),
    {
        let mut r: Vec<Position> = Vec::new();
        let mut i: usize = 0;
        while i < 16
            invariant
                i <= 16,
                forall|a: int, b: int|
                    0 <= a < b < r@.len() ==> r@[a].spec_index() < r@[b].spec_index(),
                forall|a: int| 0 <= a < r@.len() ==> r@[a].spec_index() < i,
                forall|p: Position|
                    r@.contains(p) <==> (p.spec_index() < i && self@.contains(p)),
            decreases 16 - i,
        {
            let position = Position::from_index(i);
            let ghost before = r@;
            if self.contains(&position) {
                r.push(position);
            }
            proof {
                assert forall|p: Position|
                    r@.contains(p) <==> (p.spec_index() < i + 1 && self@.contains(p)) by {
                    lemma_position_coords(p);
                    lemma_position_coords(position);
                    if r@.contains(p) && !before.contains(p) {
                        let k = choose|k: int| 0 <= k < r@.len() && r@[k] == p;
                        assert(k == before.len());
                    }
                    if before.contains(p) {
                        let k = choose|k: int| 0 <= k < before.len() && before[k] == p;
                        assert(r@[k] == p);
                    }
                    if p.spec_index() == i && self@.contains(p) {
                        assert(p == position);
                        assert(r@[r@.len() - 1] == p);
                    }
                }
            }
            i = i + 1;
        }
        proof {
            assert forall|p: Position| r@.contains(p) <==> self@.contains(p) by {
                lemma_position_coords(p);
            }
        }
        r
    }

    /// Whether the mask has no cell.
    pub fn is_empty(&self) -> (r: bool)
        ensures
            r == (self@ == Set::<Position>::empty()),
    {
        proof {
            let none = Mask { bits: 0 };
            assert forall|p: Position| !none@.contains(p) by {
                lemma_position_coords(p);
                lemma_bit_empty(p.spec_index() as u16);
            }
            assert(none@ =~= Set::<Position>::empty());
            if self@ == Set::<Position>::empty() {
                Mask::lemma_view_injective(*self, none);
            }
        }
        self.bits == 0
    }
}

/// The masks of `s` in strictly increasing order of their keys.
pub open spec fn strictly_sorted(s: Seq<Mask>) -> bool {
    forall|i: int, j: int| 0 <= i < j < s.len() ==> s[i].key() < s[j].key()
}

/// The cell sets of the masks of `s`.
pub open spec fn cell_sets(s: Seq<Mask>) -> Set<Set<Position>> {
    s.map_values(|m: Mask| m@).to_set()
}

/// A mask's cells are among the cell sets of `s` exactly when the mask is in `s`.
pub proof fn lemma_cell_sets_member(s: Seq<Mask>, m: Mask)
    ensures
        cell_sets(s).contains(m@) <==> s.contains(m),
{
    let views = s.map_values(|x: Mask| x@);
    if cell_sets(s).contains(m@) {
        let i = choose|i: int| 0 <= i < views.len() && views[i] == m@;
        Mask::lemma_view_injective(s[i], m);
    }
    if s.contains(m) {
        let i = choose|i: int| 0 <= i < s.len() && s[i] == m;
        assert(views[i] == m@);
    }
}

/// Two sorted sequences of masks with the same members are the same sequence.
proof fn lemma_sorted_members_determine(a: Seq<Mask>, b: Seq<Mask>)
    requires
        strictly_sorted(a),
        strictly_sorted(b),
        forall|m: Mask| a.contains(m) <==> b.contains(m),
    ensures
        a == b,
    decreases a.len(),
{
    if a.len() == 0 {
        if b.len() > 0 {
            assert(b.contains(b[0]));
        }
        assert(a =~= b);
    } else {
        assert(a.contains(a[0]));
        assert(b.len() > 0);
        assert(b.contains(b[0]));
        let j = choose|j: int| 0 <= j < b.len() && b[j] == a[0];
        let i = choose|i: int| 0 <= i < a.len() && a[i] == b[0];
        assert(b[0].key() <= a[0].key());
        assert(a[0].key() <= b[0].key());
        Mask::lemma_key_injective(a[0], b[0]);
        let a1 = a.drop_first();
        let b1 = b.drop_first();
        assert forall|m: Mask| a1.contains(m) <==> b1.contains(m) by {
            if a1.contains(m) {
                let k = choose|k: int| 0 <= k < a1.len() && a1[k] == m;
                assert(a[k + 1] == m);
                assert(b.contains(m));
                let l = choose|l: int| 0 <= l < b.len() && b[l] == m;
                Mask::lemma_key_injective(m, b[0]);
                assert(l != 0);
                assert(b1[l - 1] == m);
            }
            if b1.contains(m) {
                let k = choose|k: int| 0 <= k < b1.len() && b1[k] == m;
                assert(b[k + 1] == m);
                assert(a.contains(m));
                let l = choose|l: int| 0 <= l < a.len() && a[l] == m;
                Mask::lemma_key_injective(m, a[0]);
                assert(l != 0);
                assert(a1[l - 1] == m);
            }
        }
        lemma_sorted_members_determine(a1, b1);
        assert(a =~= b) by {
            assert forall|k: int| 0 <= k < a.len() implies a[k] == b[k] by {
                if k > 0 {
                    assert(a[k] == a1[k - 1]);
                    assert(b[k] == b1[k - 1]);
                }
            }
        }
    }
}

/// Appending a mask adds its cells to the cell sets.
proof fn lemma_cell_sets_push(s: Seq<Mask>, m: Mask)
    ensures
        cell_sets(s.push(m)) == cell_sets(s).insert(m@),
{
    let views = s.map_values(|x: Mask| x@);
    assert(s.push(m).map_values(|x: Mask| x@) =~= views.push(m@));
    views.lemma_push_to_set_commute(m@);
}

/// Listings of a set of masks in increasing order of their keys are unique:
/// two such listings with the same cell sets are the same sequence.
pub proof fn lemma_sorted_listing_unique(a: Seq<Mask>, b: Seq<Mask>)
    requires
        strictly_sorted(a),
        strictly_sorted(b),
        cell_sets(a) == cell_sets(b),
    ensures
        a == b,
{
    assert forall|m: Mask| a.contains(m) <==> b.contains(m) by {
        lemma_cell_sets_member(a, m);
        lemma_cell_sets_member(b, m);
    }
    lemma_sorted_members_determine(a, b);
}

/// The different occurrences of a pattern: a set of masks, kept in
/// increasing order of the masks' bit words, so that equal sets are stored
/// alike whatever order their masks were found in.
#[derive(Debug)]
pub struct MaskSet {
    masks: Vec<Mask>,
}

impl View for MaskSet {
    type V = Set<Set<Position>>;

    closed spec fn view(&self) -> Set<Set<Position>> {
        cell_sets(self.masks@)
    }
}

impl MaskSet {
    #[verifier::type_invariant]
    spec fn sorted(self) -> bool {
        strictly_sorted(self.masks@)
    }

    /// Two mask sets with the same masks are stored alike.
    proof fn lemma_canonical(a: &MaskSet, b: &MaskSet)
        requires
            a@ == b@,
            strictly_sorted(a.masks@),
            strictly_sorted(b.masks@),
        ensures
            a.masks@ == b.masks@,
    {
        assert forall|m: Mask| a.masks@.contains(m) <==> b.masks@.contains(m) by {
            lemma_cell_sets_member(a.masks@, m);
            lemma_cell_sets_member(b.masks@, m);
        }
        lemma_sorted_members_determine(a.masks@, b.masks@);
    }

    /// The empty set.
    pub fn new() -> (r: MaskSet)
        ensures
            r@ == Set::<Set<Position>>::empty(),
    {
        let r = MaskSet { masks: Vec::new() };
        assert(r@ =~= Set::<Set<Position>>::empty());
        r
    }

    /// Adds `mask` to the set; nothing changes if it is there already.
    pub fn insert(&mut self, mask: Mask)
        ensures
            final(self)@ == old(self)@.insert(mask@),
    {
        proof {
            use_type_invariant(&*self);
        }
        let ghost before = self.masks@;
        let n = self.masks.len();
        let mut i: usize = 0;
        while i < n && self.masks[i].bits < mask.bits
            invariant
                n == self.masks@.len(),
                self.masks@ == before,
                strictly_sorted(before),
                i <= n,
                forall|k: int| 0 <= k < i ==> before[k].key() < mask.key(),
            decreases n - i,
        {
            i = i + 1;
        }
        if i < n && self.masks[i].bits == mask.bits {
            proof {
                Mask::lemma_key_injective(before[i as int], mask);
                lemma_cell_sets_member(before, mask);
                assert(cell_sets(before).insert(mask@) =~= cell_sets(before));
            }
            return;
        }
        let mut masks: Vec<Mask> = Vec::new();
        std::mem::swap(&mut masks, &mut self.masks);
        masks.insert(i, mask);
        self.masks = masks;
        proof {
            let after = self.masks@;
            assert(after =~= before.insert(i as int, mask));
            assert forall|a: int, b: int| 0 <= a < b < after.len() implies after[a].key()
                < after[b].key() by {
                if i < n {
                    assert(before[i as int].key() > mask.key());
                }
                if b < i {
                    assert(after[a] == before[a] && after[b] == before[b]);
                } else if b == i {
                    assert(after[a] == before[a]);
                } else if a < i {
                    assert(after[a] == before[a] && after[b] == before[b - 1]);
                } else if a == i {
                    assert(after[b] == before[b - 1]);
                    assert(before[i as int].key() <= before[b - 1].key());
                } else {
                    assert(after[a] == before[a - 1] && after[b] == before[b - 1]);
                }
            }
            assert forall|m: Mask| after.contains(m) <==> (before.contains(m) || m == mask) by {
                if after.contains(m) {
                    let k = choose|k: int| 0 <= k < after.len() && after[k] == m;
                    if k < i {
                        assert(before[k] == m);
                    } else if k > i {
                        assert(before[k - 1] == m);
                    }
                }
                if before.contains(m) {
                    let k = choose|k: int| 0 <= k < before.len() && before[k] == m;
                    if k < i {
                        assert(after[k] == m);
                    } else {
                        assert(after[k + 1] == m);
                    }
                }
                if m == mask {
                    assert(after[i as int] == m);
                }
            }
            assert forall|s: Set<Position>| cell_sets(after).contains(s) <==> cell_sets(
                before,
            ).insert(mask@).contains(s) by {
                if cell_sets(after).contains(s) {
                    let views = after.map_values(|x: Mask| x@);
                    assert(views.contains(s));
                    let k = choose|k: int| 0 <= k < views.len() && views[k] == s;
                    lemma_cell_sets_member(after, after[k]);
                    lemma_cell_sets_member(before, after[k]);
                }
                if cell_sets(before).contains(s) {
                    let views = before.map_values(|x: Mask| x@);
                    assert(views.contains(s));
                    let k = choose|k: int| 0 <= k < views.len() && views[k] == s;
                    lemma_cell_sets_member(after, before[k]);
                    lemma_cell_sets_member(before, before[k]);
                }
                lemma_cell_sets_member(after, mask);
            }
            assert(cell_sets(after) =~= cell_sets(before).insert(mask@));
        }
    }

    /// The masks of the set, in increasing order of their keys; this
    /// listing is unique (`lemma_sorted_listing_unique`).
    pub fn masks(&self) -> (r: Vec<Mask>)
        ensures
            strictly_sorted(r@),
            cell_sets(r@) == self@,
    {
        proof {
            use_type_invariant(self);
        }
        let mut r: Vec<Mask> = Vec::new();
        let mut i: usize = 0;
        while i < self.masks.len()
            invariant
                i <= self.masks@.len(),
                r@ == self.masks@.take(i as int),
            decreases self.masks@.len() - i,
        {
            r.push(self.masks[i]);
            assert(r@ =~= self.masks@.take(i + 1));
            i = i + 1;
        }
        assert(r@ =~= self.masks@);
        r
    }

    /// The masks that are in `self` or in `other`.
    pub fn union(&self, other: &MaskSet) -> (r: MaskSet)
        ensures
            r@ == self@.union(other@),
    {
        let mut r = MaskSet::new();
        let mut i: usize = 0;
        assert(self.masks@.take(0) =~= Seq::<Mask>::empty());
        assert(cell_sets(Seq::<Mask>::empty()) =~= Set::<Set<Position>>::empty());
        while i < self.masks.len()
            invariant
                i <= self.masks@.len(),
                r@ == cell_sets(self.masks@.take(i as int)),
            decreases self.masks@.len() - i,
        {
            r.insert(self.masks[i]);
            proof {
                assert(self.masks@.take(i + 1) =~= self.masks@.take(i as int).push(self.masks@[i as int]));
                lemma_cell_sets_push(self.masks@.take(i as int), self.masks@[i as int]);
            }
            i = i + 1;
        }
        assert(self.masks@.take(i as int) =~= self.masks@);
        let mut j: usize = 0;
        assert(other.masks@.take(0) =~= Seq::<Mask>::empty());
        while j < other.masks.len()
            invariant
                j <= other.masks@.len(),
                r@ == self@.union(cell_sets(other.masks@.take(j as int))),
            decreases other.masks@.len() - j,
        {
            r.insert(other.masks[j]);
            proof {
                assert(other.masks@.take(j + 1) =~= other.masks@.take(j as int).push(other.masks@[j as int]));
                lemma_cell_sets_push(other.masks@.take(j as int), other.masks@[j as int]);
                assert(r@ =~= self@.union(cell_sets(other.masks@.take(j + 1))));
            }
            j = j + 1;
        }
        assert(other.masks@.take(j as int) =~= other.masks@);
        assert(r@ =~= self@.union(other@));
        r
    }

    /// Whether `mask` is in the set.
    pub fn contains(&self, mask: &Mask) -> (r: bool)
        ensures
            r == self@.contains(mask@),
    {
        proof {
            lemma_cell_sets_member(self.masks@, *mask);
        }
        let mut i: usize = 0;
        while i < self.masks.len()
            invariant
                i <= self.masks@.len(),
                forall|k: int| 0 <= k < i ==> self.masks@[k] != *mask,
            decreases self.masks@.len() - i,
        {
            if self.masks[i] == *mask {
                assert(self.masks@[i as int] == *mask);
                proof {
                    lemma_cell_sets_member(self.masks@, *mask);
                }
                return true;
            }
            i = i + 1;
        }
        false
    }

    /// The number of masks in the set.
    pub fn len(&self) -> (r: usize)
        ensures
            r == self@.len(),
    {
        proof {
            use_type_invariant(self);
            let views = self.masks@.map_values(|x: Mask| x@);
            assert forall|a: int, b: int| 0 <= a < views.len() && 0 <= b < views.len() && a != b
                implies views[a] != views[b] by {
                if views[a] == views[b] {
                    Mask::lemma_view_injective(self.masks@[a], self.masks@[b]);
                    Mask::lemma_key_injective(self.masks@[a], self.masks@[b]);
                }
            }
            views.unique_seq_to_set();
        }
        self.masks.len()
    }

    /// Whether the set has no mask.
    pub fn is_empty(&self) -> (r: bool)
        ensures
            r == (self@ == Set::<Set<Position>>::empty()),
    {
        proof {
            if self.masks@.len() > 0 {
                lemma_cell_sets_member(self.masks@, self.masks@[0]);
                assert(self.masks@.contains(self.masks@[0]));
            }
            if self.masks@.len() == 0 {
                assert(self@ =~= Set::<Set<Position>>::empty());
            }
        }
        self.masks.len() == 0
    }
}

impl PartialEq for MaskSet {
    fn eq(&self, other: &MaskSet) -> (r: bool) {
        proof {
            use_type_invariant(self);
            use_type_invariant(other);
            if self@ == other@ {
                MaskSet::lemma_canonical(self, other);
            }
        }
        if self.masks.len() != other.masks.len() {
            return false;
        }
        let mut i: usize = 0;
        while i < self.masks.len()
            invariant
                self.masks@.len() == other.masks@.len(),
                i <= self.masks@.len(),
                forall|k: int| 0 <= k < i ==> self.masks@[k] == other.masks@[k],
                self@ == other@ ==> self.masks@ == other.masks@,
            decreases self.masks@.len() - i,
        {
            if self.masks[i] != other.masks[i] {
                return false;
            }
            i = i + 1;
        }
        assert(self.masks@ =~= other.masks@);
        true
    }
}

impl vstd::std_specs::cmp::PartialEqSpecImpl for MaskSet {
    open spec fn obeys_eq_spec() -> bool {
        true
    }

    open spec fn eq_spec(&self, other: &MaskSet) -> bool {
        self@ == other@
    }
}

impl Eq for MaskSet {

}

} // verus!

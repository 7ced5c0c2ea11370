//! Uniform-grid spatial index.
//!
//! `BinLattice` maps quantized cell coordinates to the entity ids located
//! in that cell.  Cell coordinates come from truncating division of the
//! milliunit coordinates by a fixed positive `factor`; an absent cell is
//! an empty set.  `get_nearby` unions the membership of the half-open
//! rectangle of cells spanned by a bounding box.

use vstd::prelude::*;
use std::collections::HashMap;
use crate::fixed::{tdiv, lemma_tdiv_magnitude};

verus! {

broadcast use vstd::std_specs::hash::group_hash_axioms;

/// Largest magnitude allowed for a cell coordinate.
pub const CELL_BOUND: i64 = 0x8000_0000;

/// A cell coordinate pair that a map key can represent.
pub open spec fn cell_in_range(cx: int, cy: int) -> bool {
    &&& -CELL_BOUND <= cx < CELL_BOUND
    &&& -CELL_BOUND <= cy < CELL_BOUND
}

/// One cell coordinate pair packed into a map key, injectively for
/// coordinates within `CELL_BOUND`.
pub open spec fn spec_pack_cell(cx: int, cy: int) -> int {
    (cx + 0x8000_0000) * 0x1_0000_0000 + (cy + 0x8000_0000)
}

/// An in-range packing always fits a `u64`.
pub proof fn lemma_pack_cell_bounds(cx: int, cy: int)
    requires
        cell_in_range(cx, cy),
    ensures
        0 <= spec_pack_cell(cx, cy) < 0x1_0000_0000_0000_0000,
        spec_pack_cell(cx, cy) as u64 == spec_pack_cell(cx, cy),
{
}

/// Packing is injective on in-range cell coordinates.
pub proof fn lemma_pack_cell_injective(ax: int, ay: int, bx: int, by: int)
    requires
        cell_in_range(ax, ay),
        cell_in_range(bx, by),
        spec_pack_cell(ax, ay) == spec_pack_cell(bx, by),
    ensures
        ax == bx && ay == by,
{
}

fn pack_cell(cx: i64, cy: i64) -> (k: u64)
    requires
        -CELL_BOUND <= cx < CELL_BOUND,
        -CELL_BOUND <= cy < CELL_BOUND,
    ensures
        k == spec_pack_cell(cx as int, cy as int),
{
    ((cx + 0x8000_0000) as u64) * 0x1_0000_0000 + ((cy + 0x8000_0000) as u64)
}

fn vec_contains_u32(v: &Vec<u32>, x: u32) -> (r: bool)
    ensures
        r == v@.contains(x),
{
    let mut i: usize = 0;
    while i < v.len()
        invariant
            0 <= i <= v@.len(),
            forall|j: int| 0 <= j < i ==> v@[j] != x,
        decreases v@.len() - i,
    {
        if v[i] == x {
            return true;
        }
        i = i + 1;
    }
    false
}

/// Uniform grid of buckets keyed by quantized cell coordinates.
pub struct BinLattice {
    pub factor: i64,
    pub bins: HashMap<u64, Vec<u32>>,
}

impl BinLattice {
    /// The ids stored in cell `(cx, cy)`; an absent cell is empty.
    pub open spec fn cell(&self, cx: int, cy: int) -> Seq<u32> {
        if self.bins@.contains_key(spec_pack_cell(cx, cy) as u64) {
            self.bins@[spec_pack_cell(cx, cy) as u64]@
        } else {
            Seq::empty()
        }
    }

    /// The cell coordinates that a milliunit point falls in.
    pub open spec fn spec_cell_of(&self, x: int, y: int) -> (int, int) {
        (tdiv(x, self.factor as int), tdiv(y, self.factor as int))
    }

    /// The lattice is usable: a positive cell size, and every stored
    /// key is the packing of some in-range cell.
    pub open spec fn wf(&self) -> bool {
        &&& self.factor > 0
        &&& forall|k: u64| #[trigger] self.bins@.contains_key(k) ==> exists|cx: int, cy: int|
                -CELL_BOUND <= cx < CELL_BOUND && -CELL_BOUND <= cy < CELL_BOUND
                && k == spec_pack_cell(cx, cy)
    }

    pub fn new(factor: i64) -> (r: BinLattice)
        requires
            factor > 0,
        ensures
            r.wf(),
            r.factor == factor,
            forall|cx: int, cy: int| r.cell(cx, cy) == Seq::<u32>::empty(),
    {
        BinLattice { factor, bins: HashMap::new() }
    }

    /// Quantize a milliunit point to its cell coordinates.
    pub fn key(&self, x: i64, y: i64) -> (r: (i64, i64))
        requires
            self.wf(),
            -CELL_BOUND < x < CELL_BOUND,
            -CELL_BOUND < y < CELL_BOUND,
        ensures
            (r.0 as int, r.1 as int) == self.spec_cell_of(x as int, y as int),
            -CELL_BOUND < r.0 < CELL_BOUND,
            -CELL_BOUND < r.1 < CELL_BOUND,
    {
        proof {
            lemma_tdiv_magnitude(x as int, self.factor as int);
            lemma_tdiv_magnitude(y as int, self.factor as int);
        }
        (x / self.factor, y / self.factor)
    }

    /// Add `id` to the cell containing `(x, y)`.  No effect if `id` is
    /// already present in that exact cell; every other cell is untouched.
    pub fn put(&mut self, x: i64, y: i64, id: u32)
        requires
            old(self).wf(),
            -CELL_BOUND < x < CELL_BOUND,
            -CELL_BOUND < y < CELL_BOUND,
        ensures
            final(self).wf(),
            final(self).factor == old(self).factor,
            ({
                let (cx, cy) = old(self).spec_cell_of(x as int, y as int);
                &&& (if old(self).cell(cx, cy).contains(id) {
                    final(self).cell(cx, cy) == old(self).cell(cx, cy)
                } else {
                    final(self).cell(cx, cy) == old(self).cell(cx, cy).push(id)
                })
                &&& forall|ox: int, oy: int| cell_in_range(ox, oy) && (ox, oy) != (cx, cy)
                    ==> final(self).cell(ox, oy) == old(self).cell(ox, oy)
            }),
    {
        let (cx, cy) = self.key(x, y);
        let k = pack_cell(cx, cy);
        let ghost old_self = *self;
        match self.bins.remove(&k) {
            Some(mut bin) => {
                if !vec_contains_u32(&bin, id) {
                    bin.push(id);
                }
                self.bins.insert(k, bin);
            },
            None => {
                let mut bin: Vec<u32> = Vec::new();
                bin.push(id);
                self.bins.insert(k, bin);
            },
        }
        proof {
            lemma_frame_after_key_update(old_self, *self, cx as int, cy as int, k);
        }
    }

    /// Remove one occurrence of `id` from the cell containing `(x, y)`
    /// by swap-remove; a no-op if `id` is absent.  Every other cell is
    /// untouched.
    pub fn remove(&mut self, x: i64, y: i64, id: u32)
        requires
            old(self).wf(),
            -CELL_BOUND < x < CELL_BOUND,
            -CELL_BOUND < y < CELL_BOUND,
        ensures
            final(self).wf(),
            final(self).factor == old(self).factor,
            ({
                let (cx, cy) = old(self).spec_cell_of(x as int, y as int);
                let old_cell = old(self).cell(cx, cy);
                &&& (if old_cell.contains(id) {
                    let i = old_cell.index_of_first(id)->Some_0;
                    &&& final(self).cell(cx, cy) == old_cell.update(i, old_cell.last()).drop_last()
                    &&& final(self).cell(cx, cy).to_multiset() == old_cell.to_multiset().remove(id)
                } else {
                    final(self).cell(cx, cy) == old_cell
                })
                &&& forall|ox: int, oy: int| cell_in_range(ox, oy) && (ox, oy) != (cx, cy)
                    ==> final(self).cell(ox, oy) == old(self).cell(ox, oy)
            }),
    {
        let (cx, cy) = self.key(x, y);
        let k = pack_cell(cx, cy);
        let ghost old_self = *self;
        match self.bins.remove(&k) {
            Some(mut bin) => {
                let ghost old_bin = bin@;
                let mut i: usize = 0;
                let mut found: bool = false;
                while i < bin.len() && !found
                    invariant
                        0 <= i <= bin@.len(),
                        bin@ == old_bin,
                        !found ==> forall|j: int| 0 <= j < i ==> bin@[j] != id,
                        found ==> i < bin@.len() && bin@[i as int] == id && forall|j: int|
                            0 <= j < i ==> bin@[j] != id,
                    decreases bin@.len() - i + (if found { 0int } else { 1int }),
                {
                    if bin[i] == id {
                        found = true;
                    } else {
                        i = i + 1;
                    }
                }
                if found {
                    proof {
                        assert(old_bin[i as int] == id);
                        assert(old_bin.contains(id));
                        old_bin.index_of_first_ensures(id);
                        assert(old_bin.index_of_first(id)->Some_0 == i as int);
                        lemma_swap_remove_multiset(old_bin, i as int);
                    }
                    bin.swap_remove(i);
                } else {
                    proof {
                        assert(forall|j: int| 0 <= j < old_bin.len() ==> old_bin[j] != id);
                        assert(!old_bin.contains(id));
                    }
                }
                self.bins.insert(k, bin);
            },
            None => {
                proof {
                    assert(!old_self.cell(cx as int, cy as int).contains(id));
                }
            },
        }
        proof {
            lemma_frame_after_key_update(old_self, *self, cx as int, cy as int, k);
        }
    }
}

impl BinLattice {
    /// The cells of one grid column between two row bounds, concatenated.
    pub open spec fn col_concat(&self, cx: int, y_lo: int, y_hi: int) -> Seq<u32>
        decreases y_hi - y_lo,
    {
        if y_lo >= y_hi {
            Seq::empty()
        } else {
            self.cell(cx, y_lo) + self.col_concat(cx, y_lo + 1, y_hi)
        }
    }

    /// The cells of the half-open rectangle of cells, concatenated
    /// column by column.
    pub open spec fn rect_concat(&self, x_lo: int, x_hi: int, y_lo: int, y_hi: int) -> Seq<u32>
        decreases x_hi - x_lo,
    {
        if x_lo >= x_hi {
            Seq::empty()
        } else {
            self.col_concat(x_lo, y_lo, y_hi) + self.rect_concat(x_lo + 1, x_hi, y_lo, y_hi)
        }
    }

    /// The half-open cell rectangle spanned by a box of extent `range`
    /// centred at `(x, y)`: `(x_lo, x_hi, y_lo, y_hi)`.
    pub open spec fn spec_nearby_bounds(&self, x: int, y: int, range: int) -> (int, int, int, int) {
        let h = range / 2;
        let f = self.factor as int;
        (tdiv(x - h, f), tdiv(x + h, f), tdiv(y - h, f), tdiv(y + h, f))
    }

    /// All ids in the half-open rectangle of cells whose box of extent
    /// `range` is centred at `(x, y)`: the concatenation of those cells'
    /// members, and nothing else.
    pub fn get_nearby(&self, x: i64, y: i64, range: i64) -> (r: Vec<u32>)
        requires
            self.wf(),
            0 <= range,
            -CELL_BOUND < x - range / 2,
            x + range / 2 < CELL_BOUND,
            -CELL_BOUND < y - range / 2,
            y + range / 2 < CELL_BOUND,
        ensures
            ({
                let (x_lo, x_hi, y_lo, y_hi) = self.spec_nearby_bounds(x as int, y as int, range as int);
                r@ == self.rect_concat(x_lo, x_hi, y_lo, y_hi)
            }),
    {
        let h = range / 2;
        let (x_lo, y_lo) = self.key(x - h, y - h);
        let (x_hi, y_hi) = self.key(x + h, y + h);
        let mut rv: Vec<u32> = Vec::new();
        let mut i = x_lo;
        while i < x_hi
            invariant
                self.wf(),
                x_lo <= i,
                i <= x_hi || i == x_lo,
                cell_in_range(i as int, 0),
                cell_in_range(x_hi as int, 0),
                cell_in_range(0, y_lo as int),
                cell_in_range(0, y_hi as int),
                rv@ == self.rect_concat(x_lo as int, i as int, y_lo as int, y_hi as int),
            decreases x_hi - i,
        {
            let mut j = y_lo;
            while j < y_hi
                invariant
                    self.wf(),
                    x_lo <= i < x_hi,
                    y_lo <= j,
                    j <= y_hi || j == y_lo,
                    cell_in_range(i as int, 0),
                    cell_in_range(0, y_lo as int),
                    cell_in_range(0, y_hi as int),
                    cell_in_range(0, j as int),
                    rv@ == self.rect_concat(x_lo as int, i as int, y_lo as int, y_hi as int)
                        + self.col_concat(i as int, y_lo as int, j as int),
                decreases y_hi - j,
            {
                let k = pack_cell(i, j);
                proof {
                    lemma_pack_cell_bounds(i as int, j as int);
                }
                match self.bins.get(&k) {
                    Some(bin) => {
                        assert(bin@ == self.cell(i as int, j as int));
                        let mut e: usize = 0;
                        while e < bin.len()
                            invariant
                                0 <= e <= bin@.len(),
                                rv@ == self.rect_concat(
                                    x_lo as int,
                                    i as int,
                                    y_lo as int,
                                    y_hi as int,
                                ) + self.col_concat(i as int, y_lo as int, j as int)
                                    + bin@.take(e as int),
                            decreases bin@.len() - e,
                        {
                            rv.push(bin[e]);
                            proof {
                                assert(bin@.take(e + 1) =~= bin@.take(e as int).push(bin@[e as int]));
                            }
                            e = e + 1;
                        }
                        proof {
                            assert(bin@.take(bin@.len() as int) =~= bin@);
                        }
                    },
                    None => {
                        proof {
                            assert(self.cell(i as int, j as int) =~= Seq::<u32>::empty());
                            assert(rv@ =~= self.rect_concat(
                                x_lo as int,
                                i as int,
                                y_lo as int,
                                y_hi as int,
                            ) + self.col_concat(i as int, y_lo as int, j as int) + self.cell(
                                i as int,
                                j as int,
                            ));
                        }
                    },
                }
                proof {
                    self.lemma_col_extend(i as int, y_lo as int, j as int);
                    assert(rv@ =~= self.rect_concat(x_lo as int, i as int, y_lo as int, y_hi as int)
                        + self.col_concat(i as int, y_lo as int, j + 1));
                }
                j = j + 1;
            }
            proof {
                if y_lo >= y_hi {
                    assert(self.col_concat(i as int, y_lo as int, y_hi as int) =~= Seq::<
                        u32,
                    >::empty());
                    assert(self.col_concat(i as int, y_lo as int, y_lo as int) =~= Seq::<
                        u32,
                    >::empty());
                }
                self.lemma_rect_extend(x_lo as int, i as int, y_lo as int, y_hi as int);
                assert(rv@ =~= self.rect_concat(x_lo as int, i + 1, y_lo as int, y_hi as int));
            }
            i = i + 1;
        }
        rv
    }

    /// Growing a column by one row appends that row's cell.
    pub proof fn lemma_col_extend(&self, cx: int, y_lo: int, y_hi: int)
        requires
            y_lo <= y_hi,
        ensures
            self.col_concat(cx, y_lo, y_hi + 1) == self.col_concat(cx, y_lo, y_hi) + self.cell(
                cx,
                y_hi,
            ),
        decreases y_hi - y_lo,
    {
        if y_lo == y_hi {
            assert(self.col_concat(cx, y_lo, y_hi) =~= Seq::<u32>::empty());
            assert(self.col_concat(cx, y_hi + 1, y_hi + 1) =~= Seq::<u32>::empty());
            assert(self.col_concat(cx, y_lo, y_hi + 1) =~= self.cell(cx, y_hi));
            assert(self.col_concat(cx, y_lo, y_hi) + self.cell(cx, y_hi) =~= self.cell(cx, y_hi));
        } else {
            self.lemma_col_extend(cx, y_lo + 1, y_hi);
            assert(self.col_concat(cx, y_lo, y_hi + 1) =~= self.col_concat(cx, y_lo, y_hi)
                + self.cell(cx, y_hi));
        }
    }

    /// Growing a rectangle by one column appends that column.
    pub proof fn lemma_rect_extend(&self, x_lo: int, x_hi: int, y_lo: int, y_hi: int)
        requires
            x_lo <= x_hi,
        ensures
            self.rect_concat(x_lo, x_hi + 1, y_lo, y_hi) == self.rect_concat(x_lo, x_hi, y_lo, y_hi)
                + self.col_concat(x_hi, y_lo, y_hi),
        decreases x_hi - x_lo,
    {
        if x_lo == x_hi {
            assert(self.rect_concat(x_lo, x_hi, y_lo, y_hi) =~= Seq::<u32>::empty());
            assert(self.rect_concat(x_hi + 1, x_hi + 1, y_lo, y_hi) =~= Seq::<u32>::empty());
            assert(self.rect_concat(x_lo, x_hi + 1, y_lo, y_hi) =~= self.col_concat(
                x_hi,
                y_lo,
                y_hi,
            ));
            assert(self.rect_concat(x_lo, x_hi, y_lo, y_hi) + self.col_concat(x_hi, y_lo, y_hi)
                =~= self.col_concat(x_hi, y_lo, y_hi));
        } else {
            self.lemma_rect_extend(x_lo + 1, x_hi, y_lo, y_hi);
            assert(self.rect_concat(x_lo, x_hi + 1, y_lo, y_hi) =~= self.rect_concat(
                x_lo,
                x_hi,
                y_lo,
                y_hi,
            ) + self.col_concat(x_hi, y_lo, y_hi));
        }
    }

    /// An id is in a column's concatenation exactly when some cell of
    /// the column holds it.
    pub proof fn lemma_col_membership(&self, cx: int, y_lo: int, y_hi: int, id: u32)
        ensures
            self.col_concat(cx, y_lo, y_hi).contains(id) <==> exists|j: int|
                y_lo <= j < y_hi && #[trigger] self.cell(cx, j).contains(id),
        decreases y_hi - y_lo,
    {
        if y_lo < y_hi {
            self.lemma_col_membership(cx, y_lo + 1, y_hi, id);
            lemma_concat_contains(self.cell(cx, y_lo), self.col_concat(cx, y_lo + 1, y_hi), id);
        }
    }

    /// An id is in a rectangle's concatenation exactly when some cell of
    /// the rectangle holds it.
    pub proof fn lemma_rect_membership(&self, x_lo: int, x_hi: int, y_lo: int, y_hi: int, id: u32)
        ensures
            self.rect_concat(x_lo, x_hi, y_lo, y_hi).contains(id) <==> exists|i: int, j: int|
                x_lo <= i < x_hi && y_lo <= j < y_hi && #[trigger] self.cell(i, j).contains(id),
        decreases x_hi - x_lo,
    {
        if x_lo < x_hi {
            self.lemma_rect_membership(x_lo + 1, x_hi, y_lo, y_hi, id);
            self.lemma_col_membership(x_lo, y_lo, y_hi, id);
            lemma_concat_contains(
                self.col_concat(x_lo, y_lo, y_hi),
                self.rect_concat(x_lo + 1, x_hi, y_lo, y_hi),
                id,
            );
        }
    }
}

/// Membership in a concatenation is membership in either part.
proof fn lemma_concat_contains(a: Seq<u32>, b: Seq<u32>, id: u32)
    ensures
        (a + b).contains(id) <==> a.contains(id) || b.contains(id),
{
    if a.contains(id) {
        let i = choose|i: int| 0 <= i < a.len() && a[i] == id;
        assert((a + b)[i] == id);
    }
    if b.contains(id) {
        let i = choose|i: int| 0 <= i < b.len() && b[i] == id;
        assert((a + b)[a.len() + i] == id);
    }
    if (a + b).contains(id) {
        let i = choose|i: int| 0 <= i < (a + b).len() && (a + b)[i] == id;
        if i < a.len() {
            assert(a[i] == id);
        } else {
            assert(b[i - a.len()] == id);
        }
    }
}

/// If the bucket maps of two lattices agree on every key but the packing
/// of one in-range cell, their cells agree everywhere else in range.
proof fn lemma_frame_after_key_update(
    before: BinLattice,
    after: BinLattice,
    cx: int,
    cy: int,
    k: u64,
)
    requires
        cell_in_range(cx, cy),
        k == spec_pack_cell(cx, cy),
        forall|k2: u64| k2 != k ==> (before.bins@.contains_key(k2) <==> after.bins@.contains_key(
            k2,
        )),
        forall|k2: u64| k2 != k && #[trigger] before.bins@.contains_key(k2)
            ==> after.bins@[k2] == before.bins@[k2],
    ensures
        forall|ox: int, oy: int| cell_in_range(ox, oy) && (ox, oy) != (cx, cy) ==> after.cell(
            ox,
            oy,
        ) == before.cell(ox, oy),
{
    assert forall|ox: int, oy: int| cell_in_range(ox, oy) && (ox, oy) != (cx, cy) implies after.cell(
        ox,
        oy,
    ) == before.cell(ox, oy) by {
        lemma_pack_cell_bounds(ox, oy);
        lemma_pack_cell_bounds(cx, cy);
        if spec_pack_cell(ox, oy) == spec_pack_cell(cx, cy) {
            lemma_pack_cell_injective(ox, oy, cx, cy);
        }
        assert(spec_pack_cell(ox, oy) as u64 != k);
    }
}

/// Swap-removing the first occurrence of an element removes exactly one
/// occurrence from the multiset of the sequence.
proof fn lemma_swap_remove_multiset(s: Seq<u32>, i: int)
    requires
        0 <= i < s.len(),
    ensures
        s.update(i, s.last()).drop_last().to_multiset() == s.to_multiset().remove(s[i]),
{
    broadcast use vstd::seq_lib::group_to_multiset_ensures;
    broadcast use vstd::seq_lib::to_multiset_update;
    broadcast use vstd::multiset::group_multiset_axioms;

    let u = s.update(i, s.last());
    let t = u.drop_last();
    assert(u.to_multiset() == s.to_multiset().insert(s.last()).remove(s[i]));
    assert(t.push(u.last()) =~= u);
    assert(u.to_multiset() == t.to_multiset().insert(u.last()));
    assert(u.last() == s.last());
    assert(t.to_multiset() =~= s.to_multiset().remove(s[i])) by {
        let lhs = t.to_multiset();
        let rhs = s.to_multiset().remove(s[i]);
        assert forall|v: u32| lhs.count(v) == rhs.count(v) by {
            assert(lhs.insert(s.last()).count(v) == rhs.insert(s.last()).count(v));
        }
    }
}

} // verus!

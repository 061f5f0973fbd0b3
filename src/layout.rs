use vstd::prelude::*;

use crate::geometry::{column_of, finger_column, POSITIONS};

verus! {

/// Marks a symbol that no key holds.
pub const NO_POSITION: u8 = 255;

/// An assignment of symbols to the 30 key positions, with the derived map
/// from each symbol to the position that holds it.
#[derive(Clone, Debug)]
pub struct Layout {
    pub matrix: Vec<u8>,
    pub positions: Vec<u8>,
}

/// No symbol stands at two positions.
pub open spec fn distinct_symbols(m: Seq<u8>) -> bool {
    forall|p: int, q: int| 0 <= p < q < m.len() ==> m[p] != m[q]
}

/// `positions` maps each symbol of `m` to its position and every other
/// symbol to a value of at least 30.
pub open spec fn positions_of(m: Seq<u8>, positions: Seq<u8>) -> bool {
    &&& m.len() == 30
    &&& positions.len() == 256
    &&& forall|p: int| 0 <= p < 30 ==> #[trigger] positions[m[p] as int] as int == p
    &&& forall|s: int|
        0 <= s < 256 && #[trigger] positions[s] < 30 ==> m[positions[s] as int] as int == s
}

/// The matrix after the symbols at `p0` and `p1` trade places.
pub open spec fn swapped_matrix(m: Seq<u8>, p0: int, p1: int) -> Seq<u8> {
    m.update(p0, m[p1]).update(p1, m[p0])
}

/// The position map after the symbols at `p0` and `p1` trade places.
pub open spec fn swapped_positions(m: Seq<u8>, positions: Seq<u8>, p0: int, p1: int) -> Seq<u8> {
    positions.update(m[p0] as int, p1 as u8).update(m[p1] as int, p0 as u8)
}

/// The finger column of the key that holds `s`, or -1 where no key does.
pub open spec fn symbol_column(positions: Seq<u8>, s: int) -> int {
    if 0 <= s < positions.len() && positions[s] < 30 {
        column_of(positions[s] as int)
    } else {
        -1
    }
}

impl Layout {
    pub open spec fn wf(&self) -> bool {
        positions_of(self.matrix@, self.positions@)
    }

    /// The layout with `matrix[p]` at position `p`: `None` unless there are
    /// 30 symbols, all distinct.
    pub fn new(matrix: Vec<u8>) -> (r: Option<Layout>)
        ensures
            r is Some <==> matrix@.len() == 30 && distinct_symbols(matrix@),
            r matches Some(l) ==> l.wf() && l.matrix@ == matrix@,
    {
        if matrix.len() != POSITIONS {
            return None;
        }
        let mut positions: Vec<u8> = vec![NO_POSITION; 256];
        let mut p: usize = 0;
        while p < POSITIONS
            invariant
                matrix@.len() == 30,
                p <= 30,
                positions@.len() == 256,
                forall|q: int| 0 <= q < p ==> #[trigger] positions@[matrix@[q] as int] as int == q,
                forall|s: int|
                    0 <= s < 256 && #[trigger] positions@[s] < 30 ==> positions@[s] < p
                        && matrix@[positions@[s] as int] as int == s,
                forall|s: int| 0 <= s < 256 ==> #[trigger] positions@[s] < p || positions@[s] == NO_POSITION,
                forall|q: int, r: int| 0 <= q < r < p ==> matrix@[q] != matrix@[r],
            decreases 30 - p,
        {
            let s = matrix[p];
            if positions[s as usize] != NO_POSITION {
                assert(matrix@[positions@[s as int] as int] == s);
                return None;
            }
            positions.set(s as usize, p as u8);
            p = p + 1;
        }
        Some(Layout { matrix, positions })
    }

    /// An independent copy of this layout.
    pub fn copy(&self) -> (r: Layout)
        requires
            self.wf(),
        ensures
            r.wf(),
            r.matrix@ == self.matrix@,
            r.positions@ == self.positions@,
    {
        let mut matrix: Vec<u8> = Vec::new();
        let mut i: usize = 0;
        while i < self.matrix.len()
            invariant
                i <= self.matrix@.len(),
                matrix@ == self.matrix@.take(i as int),
            decreases self.matrix@.len() - i,
        {
            matrix.push(self.matrix[i]);
            i = i + 1;
            assert(matrix@ =~= self.matrix@.take(i as int));
        }
        let mut positions: Vec<u8> = Vec::new();
        let mut i: usize = 0;
        while i < self.positions.len()
            invariant
                i <= self.positions@.len(),
                positions@ == self.positions@.take(i as int),
            decreases self.positions@.len() - i,
        {
            positions.push(self.positions[i]);
            i = i + 1;
            assert(positions@ =~= self.positions@.take(i as int));
        }
        assert(matrix@ =~= self.matrix@);
        assert(positions@ =~= self.positions@);
        Layout { matrix, positions }
    }

    /// The symbol at position `p`.
    pub fn symbol(&self, p: usize) -> (r: u8)
        requires
            self.wf(),
            p < POSITIONS,
        ensures
            r == self.matrix@[p as int],
    {
        self.matrix[p]
    }

    /// The finger column of the key that holds `s`, if a key does.
    pub fn column_of_symbol(&self, s: u8) -> (r: Option<usize>)
        requires
            self.wf(),
        ensures
            symbol_column(self.positions@, s as int) == -1 <==> r is None,
            r matches Some(c) ==> c as int == symbol_column(self.positions@, s as int) && c < 8,
    {
        let p = self.positions[s as usize];
        if p < 30 {
            Some(finger_column(p as usize))
        } else {
            None
        }
    }

    /// Trades the symbols at `p0` and `p1`.
    pub fn swap(&mut self, p0: usize, p1: usize)
        requires
            old(self).wf(),
            p0 < POSITIONS,
            p1 < POSITIONS,
        ensures
            final(self).wf(),
            final(self).matrix@ == swapped_matrix(old(self).matrix@, p0 as int, p1 as int),
            final(self).positions@ == swapped_positions(
                old(self).matrix@,
                old(self).positions@,
                p0 as int,
                p1 as int,
            ),
    {
        let ghost om = self.matrix@;
        let ghost opos = self.positions@;
        let a = self.matrix[p0];
        let b = self.matrix[p1];
        self.matrix.set(p0, b);
        self.matrix.set(p1, a);
        self.positions.set(a as usize, p1 as u8);
        self.positions.set(b as usize, p0 as u8);
        proof {
            let m = self.matrix@;
            let pos = self.positions@;
            assert forall|p: int| 0 <= p < 30 implies #[trigger] pos[m[p] as int] as int == p by {
                if p != p0 && p != p1 {
                    assert(opos[om[p] as int] as int == p);
                    assert(opos[om[p0 as int] as int] as int == p0);
                    assert(opos[om[p1 as int] as int] as int == p1);
                    assert(m[p] != a && m[p] != b);
                }
            }
            assert forall|s: int| 0 <= s < 256 && #[trigger] pos[s] < 30 implies m[pos[s] as int]
                as int == s by {
                if s != a && s != b {
                    assert(opos[s] == pos[s]);
                    assert(om[opos[s] as int] as int == s);
                    assert(pos[s] as int != p0 && pos[s] as int != p1);
                }
            }
        }
    }
}

/// Trading the same two symbols twice restores the layout.
pub proof fn lemma_swap_twice(m: Seq<u8>, positions: Seq<u8>, p0: int, p1: int)
    requires
        positions_of(m, positions),
        0 <= p0 < 30,
        0 <= p1 < 30,
    ensures
        swapped_matrix(swapped_matrix(m, p0, p1), p0, p1) == m,
        swapped_positions(
            swapped_matrix(m, p0, p1),
            swapped_positions(m, positions, p0, p1),
            p0,
            p1,
        ) == positions,
{
    let m1 = swapped_matrix(m, p0, p1);
    assert(swapped_matrix(m1, p0, p1) =~= m);
    let q1 = swapped_positions(m, positions, p0, p1);
    assert(swapped_positions(m1, q1, p0, p1) =~= positions);
}

/// A swap keeps the symbols of the matrix, only moving two of them.
pub proof fn lemma_swap_same_symbols(m: Seq<u8>, p0: int, p1: int)
    requires
        0 <= p0 < m.len(),
        0 <= p1 < m.len(),
    ensures
        swapped_matrix(m, p0, p1).to_multiset() == m.to_multiset(),
{
    broadcast use vstd::multiset::group_multiset_axioms, vstd::seq_lib::group_to_multiset_ensures;

    let m1 = m.update(p0, m[p1]);
    assert(m1.to_multiset() == m.to_multiset().remove(m[p0]).insert(m[p1]));
    assert(m1[p1] == if p0 == p1 { m[p1] } else { m[p1] });
    let m2 = m1.update(p1, m[p0]);
    assert(m2.to_multiset() == m1.to_multiset().remove(m1[p1]).insert(m[p0]));
    assert(m2.to_multiset() =~= m.to_multiset());
}

} // verus!

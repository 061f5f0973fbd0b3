use vstd::prelude::*;

use crate::pair::Pair;

verus! {

/// Number of key positions: three rows of ten.
pub const POSITIONS: usize = 30;

/// Number of finger columns: four per hand, the index finger serving two
/// matrix columns.
pub const FINGER_COLUMNS: usize = 8;

/// The finger column of matrix column `c` (0 to 9).
pub open spec fn column_of_matrix_column(c: int) -> int {
    if c <= 3 {
        c
    } else if c == 4 {
        3
    } else if c <= 6 {
        4
    } else {
        c - 2
    }
}

/// The finger column of position `p`.
pub open spec fn column_of(p: int) -> int {
    column_of_matrix_column(p % 10)
}

/// The finger column of position `p`.
pub fn finger_column(p: usize) -> (r: usize)
    requires
        p < POSITIONS,
    ensures
        r as int == column_of(p as int),
        r < FINGER_COLUMNS,
{
    let c = p % 10;
    if c <= 3 {
        c
    } else if c == 4 {
        3
    } else if c <= 6 {
        4
    } else {
        c - 2
    }
}

/// Pairs of positions whose bigrams count as scissors.
pub open spec fn scissor_list() -> Seq<(int, int)> {
    seq![
        (0, 21), (1, 22), (6, 27), (7, 28), (8, 29), (1, 20), (2, 21), (3, 22), (8, 27),
        (9, 28), (0, 11), (9, 18), (10, 21), (19, 28), (2, 24), (22, 4), (5, 27),
    ]
}

pub fn scissor_indices() -> (r: Vec<Pair>)
    ensures
        pairs_are(r@, scissor_list()),
{
    let r = vec![
        Pair(0, 21), Pair(1, 22), Pair(6, 27), Pair(7, 28), Pair(8, 29), Pair(1, 20),
        Pair(2, 21), Pair(3, 22), Pair(8, 27), Pair(9, 28), Pair(0, 11), Pair(9, 18),
        Pair(10, 21), Pair(19, 28), Pair(2, 24), Pair(22, 4), Pair(5, 27),
    ];
    r
}

/// Pairs of positions whose bigrams count as lateral stretches.
pub open spec fn lateral_stretch_list() -> Seq<(int, int)> {
    seq![
        (2, 4), (2, 14), (2, 24), (12, 4), (12, 14), (22, 4), (22, 14), (22, 24), (5, 7),
        (5, 17), (5, 27), (15, 7), (15, 17), (15, 27), (25, 17), (25, 27),
    ]
}

pub fn lateral_stretch_bigram_indices() -> (r: Vec<Pair>)
    ensures
        pairs_are(r@, lateral_stretch_list()),
{
    let r = vec![
        Pair(2, 4), Pair(2, 14), Pair(2, 24), Pair(12, 4), Pair(12, 14), Pair(22, 4),
        Pair(22, 14), Pair(22, 24), Pair(5, 7), Pair(5, 17), Pair(5, 27), Pair(15, 7),
        Pair(15, 17), Pair(15, 27), Pair(25, 17), Pair(25, 27),
    ];
    r
}

/// Pairs of positions whose bigrams count as pinky-ring bigrams.
pub open spec fn pinky_ring_list() -> Seq<(int, int)> {
    seq![
        (0, 1), (0, 11), (0, 21), (11, 1), (11, 11), (11, 21), (21, 1), (21, 11), (21, 21),
        (8, 9), (8, 19), (8, 29), (18, 9), (18, 19), (18, 29), (28, 9), (28, 19), (28, 29),
    ]
}

pub fn pinky_ring_indices() -> (r: Vec<Pair>)
    ensures
        pairs_are(r@, pinky_ring_list()),
{
    let r = vec![
        Pair(0, 1), Pair(0, 11), Pair(0, 21), Pair(11, 1), Pair(11, 11), Pair(11, 21),
        Pair(21, 1), Pair(21, 11), Pair(21, 21), Pair(8, 9), Pair(8, 19), Pair(8, 29),
        Pair(18, 9), Pair(18, 19), Pair(18, 29), Pair(28, 9), Pair(28, 19), Pair(28, 29),
    ];
    r
}

/// Leftmost matrix column of finger column `c`.
pub open spec fn column_base(c: int) -> int {
    if c < 3 {
        c
    } else if c == 3 {
        3
    } else if c == 4 {
        5
    } else {
        c + 2
    }
}

/// The index fingers serve two matrix columns each.
pub open spec fn is_index_column(c: int) -> bool {
    c == 3 || c == 4
}

/// The positions typed by finger column `c`.
pub open spec fn column_positions(c: int) -> Seq<int> {
    let x = column_base(c);
    if is_index_column(c) {
        seq![x, x + 10, x + 20, x + 1, x + 11, x + 21]
    } else {
        seq![x, x + 10, x + 20]
    }
}

/// The pairs of distinct positions typed by finger column `c`.
pub open spec fn column_pairs(c: int) -> Seq<(int, int)> {
    let x = column_base(c);
    if is_index_column(c) {
        seq![
            (x, x + 10), (x, x + 20), (x, x + 1), (x, x + 11), (x, x + 21), (x + 10, x + 20),
            (x + 10, x + 1), (x + 10, x + 11), (x + 10, x + 21), (x + 20, x + 1),
            (x + 20, x + 11), (x + 20, x + 21), (x + 1, x + 11), (x + 1, x + 21),
            (x + 11, x + 21),
        ]
    } else {
        seq![(x, x + 10), (x, x + 20), (x + 10, x + 20)]
    }
}

/// Where the travel distances of column `c` start in the table of 48
/// same-finger distances: the six outer columns come first, three pairs
/// each, then the two index columns, fifteen pairs each.
pub open spec fn speed_start(c: int) -> int {
    if c < 3 {
        3 * c
    } else if c == 3 {
        18
    } else if c == 4 {
        33
    } else {
        3 * (c - 2)
    }
}

pub fn column_positions_of(c: usize) -> (r: Vec<usize>)
    requires
        c < FINGER_COLUMNS,
    ensures
        r@.len() == column_positions(c as int).len(),
        forall|k: int| 0 <= k < r@.len() ==> #[trigger] r@[k] as int == column_positions(c as int)[k],
{
    let x: usize = if c < 3 {
        c
    } else if c == 3 {
        3
    } else if c == 4 {
        5
    } else {
        c + 2
    };
    if c == 3 || c == 4 {
        vec![x, x + 10, x + 20, x + 1, x + 11, x + 21]
    } else {
        vec![x, x + 10, x + 20]
    }
}

pub fn column_pairs_of(c: usize) -> (r: Vec<Pair>)
    requires
        c < FINGER_COLUMNS,
    ensures
        pairs_are(r@, column_pairs(c as int)),
{
    let x: usize = if c < 3 {
        c
    } else if c == 3 {
        3
    } else if c == 4 {
        5
    } else {
        c + 2
    };
    if c == 3 || c == 4 {
        vec![
            Pair(x, x + 10), Pair(x, x + 20), Pair(x, x + 1), Pair(x, x + 11), Pair(x, x + 21),
            Pair(x + 10, x + 20), Pair(x + 10, x + 1), Pair(x + 10, x + 11), Pair(x + 10, x + 21),
            Pair(x + 20, x + 1), Pair(x + 20, x + 11), Pair(x + 20, x + 21), Pair(x + 1, x + 11),
            Pair(x + 1, x + 21), Pair(x + 11, x + 21),
        ]
    } else {
        vec![Pair(x, x + 10), Pair(x, x + 20), Pair(x + 10, x + 20)]
    }
}

pub fn speed_start_of(c: usize) -> (r: usize)
    requires
        c < FINGER_COLUMNS,
    ensures
        r as int == speed_start(c as int),
{
    if c < 3 {
        3 * c
    } else if c == 3 {
        18
    } else if c == 4 {
        33
    } else {
        3 * (c - 2)
    }
}

/// The finger column that comes `i`-th in the table of same-finger pairs.
pub open spec fn speed_order(i: int) -> int {
    if i < 3 {
        i
    } else if i < 6 {
        i + 2
    } else {
        i - 3
    }
}

/// The same-finger pairs of the first `i` columns of the table.
pub open spec fn sfb_list_upto(i: int) -> Seq<(int, int)>
    decreases i,
{
    if i <= 0 {
        seq![]
    } else {
        sfb_list_upto(i - 1) + column_pairs(speed_order(i - 1))
    }
}

/// All 48 same-finger position pairs, in the order of the distance table.
pub fn sfb_indices() -> (r: Vec<Pair>)
    ensures
        pairs_are(r@, sfb_list_upto(8)),
{
    let mut res: Vec<Pair> = Vec::new();
    let mut i: usize = 0;
    while i < 8
        invariant
            0 <= i <= 8,
            pairs_are(res@, sfb_list_upto(i as int)),
        decreases 8 - i,
    {
        let c: usize = if i < 3 {
            i
        } else if i < 6 {
            i + 2
        } else {
            i - 3
        };
        let pairs = column_pairs_of(c);
        let ghost before = sfb_list_upto(i as int);
        let mut k: usize = 0;
        while k < pairs.len()
            invariant
                0 <= i < 8,
                c as int == speed_order(i as int),
                pairs_are(pairs@, column_pairs(c as int)),
                k <= pairs@.len(),
                before == sfb_list_upto(i as int),
                pairs_are(res@, before + column_pairs(c as int).take(k as int)),
            decreases pairs@.len() - k,
        {
            res.push(pairs[k]);
            k = k + 1;
            assert(before + column_pairs(c as int).take(k as int) =~= (before + column_pairs(
                c as int,
            ).take(k - 1)).push(column_pairs(c as int)[k - 1]));
        }
        assert(column_pairs(c as int).take(k as int) =~= column_pairs(c as int));
        i = i + 1;
    }
    res
}

/// `v` holds the pairs of `s`, in order.
pub open spec fn pairs_are(v: Seq<Pair>, s: Seq<(int, int)>) -> bool {
    &&& v.len() == s.len()
    &&& forall|k: int| 0 <= k < s.len() ==> (#[trigger] v[k]).0 as int == s[k].0 && v[k].1 as int == s[k].1
}

/// The pairs of `l` name positions of the matrix.
pub open spec fn pairs_in_range(l: Seq<(int, int)>) -> bool {
    forall|k: int| 0 <= k < l.len() ==> 0 <= #[trigger] l[k].0 < 30 && 0 <= l[k].1 < 30
}

/// The fixed pair lists name positions of the matrix.
pub proof fn lemma_lists_in_range()
    ensures
        pairs_in_range(scissor_list()),
        pairs_in_range(lateral_stretch_list()),
        pairs_in_range(pinky_ring_list()),
        scissor_list().len() == 17,
        lateral_stretch_list().len() == 16,
        pinky_ring_list().len() == 18,
{
    assert(pairs_in_range(scissor_list())) by {
        assert forall|k: int| 0 <= k < scissor_list().len() implies 0 <= #[trigger] scissor_list()[k].0 < 30
            && 0 <= scissor_list()[k].1 < 30 by {
            let l = scissor_list();
            assert(0 <= k < 17);
        }
    }
    assert(pairs_in_range(lateral_stretch_list())) by {
        assert forall|k: int| 0 <= k < lateral_stretch_list().len() implies 0
            <= #[trigger] lateral_stretch_list()[k].0 < 30 && 0 <= lateral_stretch_list()[k].1 < 30 by {
            assert(0 <= k < 16);
        }
    }
    assert(pairs_in_range(pinky_ring_list())) by {
        assert forall|k: int| 0 <= k < pinky_ring_list().len() implies 0
            <= #[trigger] pinky_ring_list()[k].0 < 30 && 0 <= pinky_ring_list()[k].1 < 30 by {
            assert(0 <= k < 18);
        }
    }
}

/// Every key of finger column `c` lies in column `c`, and its travel
/// distances fit in the table of 48.
pub proof fn lemma_column_geometry(c: int)
    requires
        0 <= c < 8,
    ensures
        column_positions(c).len() <= 6,
        column_pairs(c).len() <= 15,
        speed_start(c) >= 0,
        speed_start(c) + column_pairs(c).len() <= 48,
        forall|k: int|
            0 <= k < column_positions(c).len() ==> 0 <= #[trigger] column_positions(c)[k] < 30
                && column_of(column_positions(c)[k]) == c,
        forall|k: int|
            0 <= k < column_pairs(c).len() ==> 0 <= #[trigger] column_pairs(c)[k].0 < 30 && 0
                <= column_pairs(c)[k].1 < 30 && column_of(column_pairs(c)[k].0) == c && column_of(
                column_pairs(c)[k].1,
            ) == c,
{
    let x = column_base(c);
    assert forall|k: int| 0 <= k < column_positions(c).len() implies 0
        <= #[trigger] column_positions(c)[k] < 30 && column_of(column_positions(c)[k]) == c by {
        let p = column_positions(c)[k];
        if is_index_column(c) {
            assert(0 <= k < 6);
        } else {
            assert(0 <= k < 3);
        }
        assert(p % 10 == x || p % 10 == x + 1);
    }
    assert forall|k: int| 0 <= k < column_pairs(c).len() implies 0 <= #[trigger] column_pairs(
        c,
    )[k].0 < 30 && 0 <= column_pairs(c)[k].1 < 30 && column_of(column_pairs(c)[k].0) == c
        && column_of(column_pairs(c)[k].1) == c by {
        let (p, q) = column_pairs(c)[k];
        if is_index_column(c) {
            assert(0 <= k < 15);
        } else {
            assert(0 <= k < 3);
        }
        assert(p % 10 == x || p % 10 == x + 1);
        assert(q % 10 == x || q % 10 == x + 1);
    }
}

/// Some pair of `l` names position `p`.
pub open spec fn touches(l: Seq<(int, int)>, p: int) -> bool {
    exists|k: int| 0 <= k < l.len() && (l[k].0 == p || l[k].1 == p)
}

/// Whether some pair of `list` names position `p`.
pub fn list_touches(list: &Vec<Pair>, Ghost(l): Ghost<Seq<(int, int)>>, p: usize) -> (r: bool)
    requires
        pairs_are(list@, l),
    ensures
        r == touches(l, p as int),
{
    let mut k: usize = 0;
    while k < list.len()
        invariant
            pairs_are(list@, l),
            k <= list@.len(),
            forall|j: int| 0 <= j < k ==> !((#[trigger] l[j]).0 == p as int || l[j].1 == p as int),
        decreases list@.len() - k,
    {
        let pair = list[k];
        assert(pair.0 as int == l[k as int].0 && pair.1 as int == l[k as int].1);
        if pair.0 == p || pair.1 == p {
            return true;
        }
        k = k + 1;
    }
    proof {
        if touches(l, p as int) {
            let j = choose|j: int| 0 <= j < l.len() && (l[j].0 == p || l[j].1 == p);
            assert(!((l[j]).0 == p as int || l[j].1 == p as int));
        }
    }
    false
}

/// The 48 same-finger pairs name positions of the matrix.
pub proof fn lemma_sfb_list_in_range()
    ensures
        sfb_list_upto(8).len() == 48,
        pairs_in_range(sfb_list_upto(8)),
{
    lemma_sfb_prefix_in_range(8);
}

/// The same-finger pairs of the first `i` columns name positions of the matrix.
proof fn lemma_sfb_prefix_in_range(i: int)
    requires
        0 <= i <= 8,
    ensures
        pairs_in_range(sfb_list_upto(i)),
        sfb_list_upto(i).len() == if i <= 6 { 3 * i } else { 18 + 15 * (i - 6) },
    decreases i,
{
    if i > 0 {
        lemma_sfb_prefix_in_range(i - 1);
        let c = speed_order(i - 1);
        lemma_column_geometry(c);
        let l = sfb_list_upto(i - 1);
        let l2 = sfb_list_upto(i);
        assert(l2 == l + column_pairs(c));
        assert forall|k: int| 0 <= k < l2.len() implies 0 <= #[trigger] l2[k].0 < 30 && 0 <= l2[k].1
            < 30 by {
            if k >= l.len() {
                assert(l2[k] == column_pairs(c)[k - l.len()]);
            } else {
                assert(l2[k] == l[k]);
            }
        }
    }
}

} // verus!

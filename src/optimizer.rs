use vstd::prelude::*;

use crate::cache::{LayoutCache, MAX_SCORE};
use crate::geometry::POSITIONS;
use crate::layout::{swapped_matrix, swapped_positions, Layout};
use crate::pair::Pair;
use crate::scoring::LayoutGenerator;

verus! {

/// Position `p` is pinned.
pub open spec fn pinned(pins: Seq<u8>, p: int) -> bool {
    exists|k: int| 0 <= k < pins.len() && pins[k] as int == p
}

/// Pair `(p0, p1)` comes before `(q0, q1)` in row-major order.
pub open spec fn pair_before(p0: int, p1: int, q0: int, q1: int) -> bool {
    p0 < q0 || (p0 == q0 && p1 < q1)
}

/// `swaps` lists, in increasing order, every pair `p0 < p1` of positions
/// that are not pinned, and nothing else.
pub open spec fn legal_swaps(swaps: Seq<Pair>, pins: Seq<u8>) -> bool {
    &&& forall|k: int|
        0 <= k < swaps.len() ==> #[trigger] swaps[k].0 < swaps[k].1 && swaps[k].1 < 30 && !pinned(
            pins,
            swaps[k].0 as int,
        ) && !pinned(pins, swaps[k].1 as int)
    &&& forall|k: int, l: int|
        0 <= k < l < swaps.len() ==> pair_before(
            swaps[k].0 as int,
            swaps[k].1 as int,
            swaps[l].0 as int,
            swaps[l].1 as int,
        )
    &&& forall|p0: int, p1: int|
        0 <= p0 < p1 < 30 && !pinned(pins, p0) && !pinned(pins, p1) ==> exists|k: int|
            0 <= k < swaps.len() && #[trigger] swaps[k] == Pair(p0 as usize, p1 as usize)
}

fn is_pinned(pins: &Vec<u8>, p: usize) -> (r: bool)
    ensures
        r == pinned(pins@, p as int),
{
    let mut k: usize = 0;
    while k < pins.len()
        invariant
            k <= pins@.len(),
            forall|j: int| 0 <= j < k ==> pins@[j] as int != p,
        decreases pins@.len() - k,
    {
        if pins[k] as usize == p {
            return true;
        }
        k = k + 1;
    }
    false
}

/// Every pair of positions that are both free under `pins`, in row-major
/// order.
pub fn pinned_swaps(pins: &Vec<u8>) -> (r: Vec<Pair>)
    ensures
        legal_swaps(r@, pins@),
{
    let mut res: Vec<Pair> = Vec::new();
    let mut p0: usize = 0;
    while p0 < POSITIONS
        invariant
            p0 <= 30,
            forall|k: int|
                0 <= k < res@.len() ==> (#[trigger] res@[k]).0 < res@[k].1 && res@[k].1 < 30
                    && res@[k].0 < p0,
            forall|k: int|
                0 <= k < res@.len() ==> !pinned(pins@, (#[trigger] res@[k]).0 as int) && !pinned(
                    pins@,
                    res@[k].1 as int,
                ),
            forall|k: int, l: int|
                0 <= k < l < res@.len() ==> pair_before(
                    res@[k].0 as int,
                    res@[k].1 as int,
                    res@[l].0 as int,
                    res@[l].1 as int,
                ),
            forall|q0: int, q1: int|
                0 <= q0 < p0 && q0 < q1 < 30 && !pinned(pins@, q0) && !pinned(pins@, q1)
                    ==> exists|k: int|
                    0 <= k < res@.len() && #[trigger] res@[k] == Pair(q0 as usize, q1 as usize),
        decreases 30 - p0,
    {
        let free0 = !is_pinned(pins, p0);
        let mut p1: usize = p0 + 1;
        while p1 < POSITIONS
            invariant
                p0 < 30,
                p0 < p1 <= 30,
                free0 == !pinned(pins@, p0 as int),
                forall|k: int|
                    0 <= k < res@.len() ==> (#[trigger] res@[k]).0 < res@[k].1 && res@[k].1 < 30
                        && (res@[k].0 < p0 || (res@[k].0 == p0 && res@[k].1 < p1)),
                forall|k: int|
                    0 <= k < res@.len() ==> !pinned(pins@, (#[trigger] res@[k]).0 as int) && !pinned(
                        pins@,
                        res@[k].1 as int,
                    ),
                forall|k: int, l: int|
                    0 <= k < l < res@.len() ==> pair_before(
                        res@[k].0 as int,
                        res@[k].1 as int,
                        res@[l].0 as int,
                        res@[l].1 as int,
                    ),
                forall|q0: int, q1: int|
                    ((0 <= q0 < p0 && q0 < q1 < 30) || (q0 == p0 && q0 < q1 < p1)) && !pinned(
                        pins@,
                        q0,
                    ) && !pinned(pins@, q1) ==> exists|k: int|
                        0 <= k < res@.len() && #[trigger] res@[k] == Pair(q0 as usize, q1 as usize),
            decreases 30 - p1,
        {
            if free0 && !is_pinned(pins, p1) {
                let ghost before = res@;
                res.push(Pair(p0, p1));
                assert forall|q0: int, q1: int|
                    ((0 <= q0 < p0 && q0 < q1 < 30) || (q0 == p0 && q0 < q1 < p1 + 1)) && !pinned(
                        pins@,
                        q0,
                    ) && !pinned(pins@, q1) implies exists|k: int|
                    0 <= k < res@.len() && #[trigger] res@[k] == Pair(q0 as usize, q1 as usize) by {
                    if q0 == p0 && q1 == p1 {
                        assert(res@[before.len() as int] == Pair(q0 as usize, q1 as usize));
                    } else {
                        let k = choose|k: int|
                            0 <= k < before.len() && #[trigger] before[k] == Pair(
                                q0 as usize,
                                q1 as usize,
                            );
                        assert(res@[k] == before[k]);
                    }
                }
            }
            p1 = p1 + 1;
        }
        p0 = p0 + 1;
    }
    res
}

/// Every pair of distinct positions, in row-major order.
pub fn get_possible_swaps() -> (r: Vec<Pair>)
    ensures
        legal_swaps(r@, seq![]),
{
    let none: Vec<u8> = Vec::new();
    let r = pinned_swaps(&none);
    assert(none@ =~= seq![]);
    r
}

/// The score of the layout `m`, `pos` after swapping the keys of `s`.
pub open spec fn swap_score(g: &LayoutGenerator, m: Seq<u8>, pos: Seq<u8>, s: Pair) -> int {
    g.total(
        swapped_matrix(m, s.0 as int, s.1 as int),
        swapped_positions(m, pos, s.0 as int, s.1 as int),
    )
}

/// Every swap of the list names two positions of the matrix.
pub open spec fn swaps_in_range(swaps: Seq<Pair>) -> bool {
    forall|k: int| 0 <= k < swaps.len() ==> #[trigger] swaps[k].0 < 30 && swaps[k].1 < 30
}

/// No swap of the list moves the key at `p`.
pub open spec fn untouched(swaps: Seq<Pair>, p: int) -> bool {
    forall|k: int| 0 <= k < swaps.len() ==> (#[trigger] swaps[k]).0 as int != p && swaps[k].1 as int != p
}

/// A swap of the list keeps the keys that no swap of the list moves.
proof fn lemma_untouched_kept(m0: Seq<u8>, m: Seq<u8>, swaps: Seq<Pair>, i: int)
    requires
        m.len() == 30,
        0 <= i < swaps.len(),
        swaps_in_range(swaps),
        forall|p: int| 0 <= p < 30 && untouched(swaps, p) ==> #[trigger] m[p] == m0[p],
    ensures
        forall|p: int|
            0 <= p < 30 && untouched(swaps, p) ==> #[trigger] swapped_matrix(
                m,
                swaps[i].0 as int,
                swaps[i].1 as int,
            )[p] == m0[p],
{
    assert forall|p: int| 0 <= p < 30 && untouched(swaps, p) implies #[trigger] swapped_matrix(
        m,
        swaps[i].0 as int,
        swaps[i].1 as int,
    )[p] == m0[p] by {
        assert(swaps[i].0 as int != p && swaps[i].1 as int != p);
        assert(m[p] == m0[p]);
    }
}

impl LayoutGenerator {
    /// The first swap of the list with the highest score above
    /// `current_best_score`, with that score; `None` and
    /// `current_best_score` where no swap beats it.
    pub fn best_swap_cached(
        &self,
        layout: &mut Layout,
        cache: &LayoutCache,
        current_best_score: i64,
        possible_swaps: &Vec<Pair>,
    ) -> (r: (Option<Pair>, i64))
        requires
            self.wf(),
            old(layout).wf(),
            cache.matches(self, old(layout)),
            swaps_in_range(possible_swaps@),
        ensures
            final(layout).wf(),
            final(layout).matrix@ == old(layout).matrix@,
            final(layout).positions@ == old(layout).positions@,
            r.0 is None ==> r.1 == current_best_score && forall|k: int|
                0 <= k < possible_swaps@.len() ==> swap_score(
                    self,
                    old(layout).matrix@,
                    old(layout).positions@,
                    #[trigger] possible_swaps@[k],
                ) <= current_best_score,
            r.0 matches Some(s) ==> exists|i: int| 0 <= i < possible_swaps@.len() && possible_swaps@[i] == s,
            r.0 matches Some(s) ==> r.1 > current_best_score && r.1 as int == swap_score(
                self,
                old(layout).matrix@,
                old(layout).positions@,
                s,
            ) && exists|i: int|
                0 <= i < possible_swaps@.len() && possible_swaps@[i] == s && forall|k: int|
                    0 <= k < i ==> swap_score(
                        self,
                        old(layout).matrix@,
                        old(layout).positions@,
                        #[trigger] possible_swaps@[k],
                    ) < r.1,
            forall|k: int|
                0 <= k < possible_swaps@.len() ==> swap_score(
                    self,
                    old(layout).matrix@,
                    old(layout).positions@,
                    #[trigger] possible_swaps@[k],
                ) <= r.1,
    {
        let ghost m = layout.matrix@;
        let ghost pos = layout.positions@;
        let mut best_score = current_best_score;
        let mut best_index: Option<usize> = None;
        let mut k: usize = 0;
        while k < possible_swaps.len()
            invariant
                self.wf(),
                layout.wf(),
                layout.matrix@ == m,
                layout.positions@ == pos,
                cache.matches(self, layout),
                swaps_in_range(possible_swaps@),
                k <= possible_swaps@.len(),
                forall|j: int|
                    0 <= j < k ==> swap_score(self, m, pos, #[trigger] possible_swaps@[j])
                        <= best_score,
                best_index is None ==> best_score == current_best_score,
                best_index matches Some(b) ==> b < k && best_score > current_best_score
                    && best_score as int == swap_score(self, m, pos, possible_swaps@[b as int])
                    && forall|j: int|
                    0 <= j < b ==> swap_score(self, m, pos, #[trigger] possible_swaps@[j])
                        < best_score,
            decreases possible_swaps@.len() - k,
        {
            let swap = possible_swaps[k];
            let score = self.score_swap_cached(layout, &swap, cache);
            if score > best_score {
                best_score = score;
                best_index = Some(k);
            }
            k = k + 1;
        }
        match best_index {
            Some(b) => (Some(possible_swaps[b]), best_score),
            None => (None, best_score),
        }
    }

    /// Applies the best strictly improving swap of the list until none is
    /// left; returns the final score. The score never falls, and the final
    /// layout is the start after a sequence of swaps of the list, so its
    /// score is at most the best over every layout those swaps reach.
    pub fn optimize_cached(
        &self,
        layout: &mut Layout,
        cache: &mut LayoutCache,
        possible_swaps: &Vec<Pair>,
    ) -> (r: i64)
        requires
            self.wf(),
            old(layout).wf(),
            old(cache).matches(self, old(layout)),
            swaps_in_range(possible_swaps@),
        ensures
            final(layout).wf(),
            final(cache).matches(self, final(layout)),
            r == final(cache).total_score,
            old(cache).total_score <= r <= MAX_SCORE,
            forall|k: int|
                0 <= k < possible_swaps@.len() ==> swap_score(
                    self,
                    final(layout).matrix@,
                    final(layout).positions@,
                    #[trigger] possible_swaps@[k],
                ) <= r,
            r == old(cache).total_score ==> final(layout).matrix@ == old(layout).matrix@
                && final(layout).positions@ == old(layout).positions@,
            forall|p: int|
                0 <= p < 30 && untouched(possible_swaps@, p) ==> #[trigger] final(layout).matrix@[p]
                    == old(layout).matrix@[p],
            final(layout).matrix@.to_multiset() == old(layout).matrix@.to_multiset(),
            (forall|k: int|
                0 <= k < possible_swaps@.len() ==> swap_score(
                    self,
                    old(layout).matrix@,
                    old(layout).positions@,
                    #[trigger] possible_swaps@[k],
                ) <= old(cache).total_score) ==> r == old(cache).total_score,
            exists|accepted: Seq<Pair>|
                swaps_from(accepted, possible_swaps@) && state_of(final(layout)) == swaps_applied(
                    state_of(old(layout)),
                    accepted,
                ),
    {
        let ghost m0 = layout.matrix@;
        let ghost pos0 = layout.positions@;
        let ghost mut accepted: Seq<Pair> = seq![];
        let ghost start = cache.total_score;
        let ghost optimal = forall|k: int|
            0 <= k < possible_swaps@.len() ==> swap_score(
                self,
                m0,
                pos0,
                #[trigger] possible_swaps@[k],
            ) <= start;
        let mut done = false;
        proof {
            self.lemma_score_bounds(layout.matrix@, layout.positions@);
            reveal(LayoutGenerator::total);
        }
        while !done
            invariant
                self.wf(),
                layout.wf(),
                cache.matches(self, layout),
                swaps_in_range(possible_swaps@),
                start <= cache.total_score <= MAX_SCORE,
                cache.total_score == start ==> layout.matrix@ == m0 && layout.positions@ == pos0,
                layout.matrix@.len() == 30,
                layout.matrix@.to_multiset() == m0.to_multiset(),
                optimal == forall|k: int|
                    0 <= k < possible_swaps@.len() ==> swap_score(
                        self,
                        m0,
                        pos0,
                        #[trigger] possible_swaps@[k],
                    ) <= start,
                optimal ==> cache.total_score == start,
                swaps_from(accepted, possible_swaps@),
                state_of(layout) == swaps_applied((m0, pos0), accepted),
                forall|p: int|
                    0 <= p < 30 && untouched(possible_swaps@, p) ==> #[trigger] layout.matrix@[p]
                        == m0[p],
                done ==> forall|k: int|
                    0 <= k < possible_swaps@.len() ==> swap_score(
                        self,
                        layout.matrix@,
                        layout.positions@,
                        #[trigger] possible_swaps@[k],
                    ) <= cache.total_score,
            decreases (if done { 0int } else { 1int }) + MAX_SCORE - cache.total_score,
        {
            let (best, score) = self.best_swap_cached(layout, cache, cache.total_score, possible_swaps);
            match best {
                Some(swap) => {
                    proof {
                        if optimal {
                            let i = choose|i: int| 0 <= i < possible_swaps@.len() && possible_swaps@[i] == swap;
                            assert(swap_score(self, m0, pos0, possible_swaps@[i]) <= start);
                        }
                    }
                    let ghost before = layout.matrix@;
                    self.accept_swap(layout, &swap, cache);
                    proof {
                        let i = choose|i: int| 0 <= i < possible_swaps@.len() && possible_swaps@[i] == swap;
                        assert(possible_swaps@.contains(swap));
                        assert(accepted.push(swap).drop_last() =~= accepted);
                        accepted = accepted.push(swap);
                        lemma_untouched_kept(m0, before, possible_swaps@, i);
                        self.lemma_score_bounds(layout.matrix@, layout.positions@);
                        reveal(LayoutGenerator::total);
                    }
                },
                None => {
                    done = true;
                },
            }
        }
        proof {
            assert(swaps_from(accepted, possible_swaps@));
        }
        cache.total_score
    }

    /// Applies every swap of the list in turn, keeping the cache in step.
    pub fn apply_swaps(&self, layout: &mut Layout, cache: &mut LayoutCache, swaps: &Vec<Pair>)
        requires
            self.wf(),
            old(layout).wf(),
            old(cache).matches(self, old(layout)),
            swaps_in_range(swaps@),
        ensures
            final(layout).wf(),
            final(cache).matches(self, final(layout)),
            state_of(final(layout)) == swaps_applied(state_of(old(layout)), swaps@),
    {
        let ghost s0 = state_of(layout);
        let mut k: usize = 0;
        while k < swaps.len()
            invariant
                self.wf(),
                layout.wf(),
                cache.matches(self, layout),
                swaps_in_range(swaps@),
                k <= swaps@.len(),
                state_of(layout) == swaps_applied(s0, swaps@.take(k as int)),
            decreases swaps@.len() - k,
        {
            self.accept_swap(layout, &swaps[k], cache);
            assert(swaps@.take(k + 1).drop_last() =~= swaps@.take(k as int));
            k = k + 1;
        }
        assert(swaps@.take(swaps@.len() as int) =~= swaps@);
    }
}

/// The six outer matrix columns, which the column phase permutes.
pub open spec fn outer_column(i: int) -> int {
    if i < 3 {
        i
    } else {
        i + 4
    }
}

fn outer_column_of(i: usize) -> (r: usize)
    requires
        i < 6,
    ensures
        r as int == outer_column(i as int),
        r < 10,
{
    if i < 3 {
        i
    } else {
        i + 4
    }
}

/// Every swap of `accepted` is one of `list`.
pub open spec fn swaps_from(accepted: Seq<Pair>, list: Seq<Pair>) -> bool {
    forall|i: int| 0 <= i < accepted.len() ==> list.contains(#[trigger] accepted[i])
}

/// The layout after the swaps of the list, in order.
pub open spec fn swaps_applied(s: State, swaps: Seq<Pair>) -> State
    decreases swaps.len(),
{
    if swaps.len() == 0 {
        s
    } else {
        swap_state(swaps_applied(s, swaps.drop_last()), swaps.last().0 as int, swaps.last().1 as int)
    }
}

/// A score reached by accepted swaps is bounded by the best score over
/// every layout that swaps of the list reach: any bound that holds of all
/// of them holds of the layout the swap phase stops at.
pub proof fn lemma_reachable_score_bounded(
    g: &LayoutGenerator,
    s: State,
    list: Seq<Pair>,
    accepted: Seq<Pair>,
    bound: int,
)
    requires
        swaps_from(accepted, list),
        forall|acc: Seq<Pair>|
            swaps_from(acc, list) ==> g.total(
                (#[trigger] swaps_applied(s, acc)).0,
                swaps_applied(s, acc).1,
            ) <= bound,
    ensures
        g.total(swaps_applied(s, accepted).0, swaps_applied(s, accepted).1) <= bound,
{
    assert(g.total(swaps_applied(s, accepted).0, swaps_applied(s, accepted).1) <= bound);
}

/// Some swap of the list moves the key at every position.
pub open spec fn moves_every_position(swaps: Seq<Pair>) -> bool {
    forall|p: int| 0 <= p < 30 ==> !#[trigger] untouched(swaps, p)
}

fn every_position_moves(swaps: &Vec<Pair>) -> (r: bool)
    ensures
        r == moves_every_position(swaps@),
{
    let mut p: usize = 0;
    while p < 30
        invariant
            p <= 30,
            forall|q: int| 0 <= q < p ==> !#[trigger] untouched(swaps@, q),
        decreases 30 - p,
    {
        let mut k: usize = 0;
        let mut found = false;
        while k < swaps.len()
            invariant
                k <= swaps@.len(),
                found ==> !untouched(swaps@, p as int),
                !found ==> forall|j: int| 0 <= j < k ==> (#[trigger] swaps@[j]).0 as int != p && swaps@[j].1 as int != p,
            decreases swaps@.len() - k,
        {
            if swaps[k].0 == p || swaps[k].1 == p {
                found = true;
            }
            k = k + 1;
        }
        if !found {
            assert(untouched(swaps@, p as int));
            return false;
        }
        p = p + 1;
    }
    true
}

/// A layout as the pair of its matrix and its position map.
pub type State = (Seq<u8>, Seq<u8>);

pub open spec fn state_of(l: &Layout) -> State {
    (l.matrix@, l.positions@)
}

/// The layout after the keys at `p0` and `p1` trade places.
pub open spec fn swap_state(s: State, p0: int, p1: int) -> State {
    (swapped_matrix(s.0, p0, p1), swapped_positions(s.0, s.1, p0, p1))
}

/// The layout after matrix columns `c0` and `c1` trade their keys, row by
/// row.
pub open spec fn columns_swapped(s: State, c0: int, c1: int) -> State {
    swap_state(swap_state(swap_state(s, c0, c1), c0 + 10, c1 + 10), c0 + 20, c1 + 20)
}

/// The column that Heap's algorithm trades with the last of the first `k`
/// outer columns in its `i`-th step.
pub open spec fn heap_partner(k: int, i: int) -> int {
    if k % 2 == 0 {
        outer_column(i)
    } else {
        outer_column(0)
    }
}

/// Heap's algorithm over the first `k` outer columns of `s`: the layout it
/// ends on, and every layout it visits, in order.
pub open spec fn heap(s: State, k: int) -> (State, Seq<State>)
    decreases k, k,
{
    if k <= 1 {
        (s, seq![s])
    } else {
        let r1 = heap(s, k - 1);
        let r2 = heap_loop(r1.0, k, 0);
        (r2.0, r1.1 + r2.1)
    }
}

/// Steps `i` to `k - 2` of Heap's algorithm over the first `k` outer
/// columns: trade a column with the last one, then visit every order of
/// the first `k - 1`.
pub open spec fn heap_loop(s: State, k: int, i: int) -> (State, Seq<State>)
    decreases k, k - 1 - i,
{
    if k <= 1 || i < 0 || i >= k - 1 {
        (s, seq![])
    } else {
        let s0 = columns_swapped(s, heap_partner(k, i), outer_column(k - 1));
        let r1 = heap(s0, k - 1);
        let r2 = heap_loop(r1.0, k, i + 1);
        (r2.0, r1.1 + r2.1)
    }
}

/// Every layout the column phase visits from `s`: the orders of the six
/// outer columns, then the same after the index columns are mirrored
/// (3 with 6, 4 with 5).
pub open spec fn column_visits(s: State) -> Seq<State> {
    let r1 = heap(s, 6);
    let m = columns_swapped(columns_swapped(r1.0, 3, 6), 4, 5);
    r1.1 + heap(m, 6).1
}

pub open spec fn factorial(k: int) -> int
    decreases k,
{
    if k <= 1 {
        1
    } else {
        k * factorial(k - 1)
    }
}

/// Heap's algorithm over the first `k` outer columns visits `k!` layouts,
/// whatever layout it starts from: 720 for the six outer columns.
pub proof fn lemma_heap_visits(s: State, k: int)
    requires
        1 <= k,
    ensures
        heap(s, k).1.len() == factorial(k),
    decreases k, k,
{
    if k > 1 {
        lemma_heap_visits(s, k - 1);
        lemma_heap_loop_visits(heap(s, k - 1).0, k, 0);
        assert(factorial(k) == factorial(k - 1) + (k - 1) * factorial(k - 1)) by (nonlinear_arith)
            requires
                factorial(k) == k * factorial(k - 1),
        ;
    }
}

proof fn lemma_heap_loop_visits(s: State, k: int, i: int)
    requires
        2 <= k,
        0 <= i <= k - 1,
    ensures
        heap_loop(s, k, i).1.len() == (k - 1 - i) * factorial(k - 1),
    decreases k, k - 1 - i,
{
    if i < k - 1 {
        let s0 = columns_swapped(s, heap_partner(k, i), outer_column(k - 1));
        lemma_heap_visits(s0, k - 1);
        lemma_heap_loop_visits(heap(s0, k - 1).0, k, i + 1);
        assert((k - 1 - i) * factorial(k - 1) == factorial(k - 1) + (k - 1 - (i + 1)) * factorial(
            k - 1,
        )) by (nonlinear_arith);
        let r1 = heap(s0, k - 1);
        let r2 = heap_loop(r1.0, k, i + 1);
        assert(heap_loop(s, k, i).1 == r1.1 + r2.1);
    } else {
        assert((k - 1 - i) * factorial(k - 1) == 0) by (nonlinear_arith)
            requires
                i == k - 1,
        ;
    }
}

/// No layout of `v` scores above `bound`.
pub open spec fn all_at_most(g: &LayoutGenerator, v: Seq<State>, bound: int) -> bool {
    forall|j: int| 0 <= j < v.len() ==> g.total((#[trigger] v[j]).0, v[j].1) <= bound
}

proof fn lemma_at_most_concat(g: &LayoutGenerator, a: Seq<State>, b: Seq<State>, x: int, y: int)
    requires
        all_at_most(g, a, x),
        all_at_most(g, b, y),
        x <= y,
    ensures
        all_at_most(g, a + b, y),
{
    assert forall|j: int| 0 <= j < (a + b).len() implies g.total(
        (#[trigger] (a + b)[j]).0,
        (a + b)[j].1,
    ) <= y by {
        if j < a.len() {
            assert((a + b)[j] == a[j]);
        } else {
            assert((a + b)[j] == b[j - a.len()]);
        }
    }
}

proof fn lemma_contains_concat(a: Seq<State>, b: Seq<State>, x: State)
    requires
        a.contains(x) || b.contains(x),
    ensures
        (a + b).contains(x),
{
    if a.contains(x) {
        let j = choose|j: int| 0 <= j < a.len() && a[j] == x;
        assert((a + b)[j] == x);
    } else {
        let j = choose|j: int| 0 <= j < b.len() && b[j] == x;
        assert((a + b)[a.len() + j] == x);
    }
}

impl LayoutGenerator {
    /// Trades the keys of matrix columns `c0` and `c1`, row by row.
    pub fn swap_columns(&self, layout: &mut Layout, cache: &mut LayoutCache, c0: usize, c1: usize)
        requires
            self.wf(),
            old(layout).wf(),
            old(cache).matches(self, old(layout)),
            c0 < 10,
            c1 < 10,
        ensures
            final(layout).wf(),
            final(cache).matches(self, final(layout)),
            state_of(final(layout)) == columns_swapped(state_of(old(layout)), c0 as int, c1 as int),
            final(layout).matrix@.to_multiset() == old(layout).matrix@.to_multiset(),
    {
        self.accept_swap(layout, &Pair(c0, c1), cache);
        self.accept_swap(layout, &Pair(c0 + 10, c1 + 10), cache);
        self.accept_swap(layout, &Pair(c0 + 20, c1 + 20), cache);
    }

    /// Runs Heap's algorithm over the first `k` outer columns, remembering
    /// in `best` the highest-scoring layout visited.
    fn column_permutations(
        &self,
        layout: &mut Layout,
        best: &mut Layout,
        cache: &mut LayoutCache,
        best_score: &mut i64,
        k: usize,
    )
        requires
            self.wf(),
            old(layout).wf(),
            old(cache).matches(self, old(layout)),
            old(best).wf(),
            *old(best_score) as int == self.total(old(best).matrix@, old(best).positions@),
            old(best).matrix@.to_multiset() == old(layout).matrix@.to_multiset(),
            1 <= k <= 6,
        ensures
            state_of(final(layout)) == heap(state_of(old(layout)), k as int).0,
            all_at_most(self, heap(state_of(old(layout)), k as int).1, *final(best_score) as int),
            state_of(final(best)) == state_of(old(best)) || heap(
                state_of(old(layout)),
                k as int,
            ).1.contains(state_of(final(best))),
            final(layout).matrix@.to_multiset() == old(layout).matrix@.to_multiset(),
            final(best).matrix@.to_multiset() == old(layout).matrix@.to_multiset(),
            final(layout).wf(),
            final(cache).matches(self, final(layout)),
            final(best).wf(),
            *final(best_score) as int == self.total(final(best).matrix@, final(best).positions@),
            *final(best_score) >= *old(best_score),
            *final(best_score) == *old(best_score) ==> state_of(final(best)) == state_of(old(best)),
        decreases k,
    {
        let ghost s0 = state_of(layout);
        if k == 1 {
            proof {
                reveal(LayoutGenerator::total);
            }
            if cache.total_score > *best_score {
                *best_score = cache.total_score;
                *best = layout.copy();
            }
            proof {
                assert(heap(s0, 1).1 =~= seq![s0]);
                assert(heap(s0, 1).1[0] == s0);
            }
            return ;
        }
        let ghost b0 = state_of(best);
        self.column_permutations(layout, best, cache, best_score, k - 1);
        let ghost s1 = state_of(layout);
        let ghost first = heap(s0, (k - 1) as int).1;
        let ghost mut seen: Seq<State> = first;
        let mut i: usize = 0;
        while i < k - 1
            invariant
                self.wf(),
                layout.wf(),
                cache.matches(self, layout),
                best.wf(),
                *best_score as int == self.total(best.matrix@, best.positions@),
                *best_score >= *old(best_score),
                *best_score == *old(best_score) ==> state_of(best) == b0,
                b0 == state_of(old(best)),
                2 <= k <= 6,
                i <= k - 1,
                layout.matrix@.to_multiset() == old(layout).matrix@.to_multiset(),
                best.matrix@.to_multiset() == old(layout).matrix@.to_multiset(),
                heap_loop(s1, k as int, 0) == (
                    heap_loop(state_of(layout), k as int, i as int).0,
                    seen.skip(first.len() as int) + heap_loop(state_of(layout), k as int, i as int).1,
                ),
                seen.take(first.len() as int) == first,
                first.len() <= seen.len(),
                first == heap(s0, (k - 1) as int).1,
                all_at_most(self, seen, *best_score as int),
                state_of(best) == b0 || seen.contains(state_of(best)),
            decreases k - 1 - i,
        {
            let a = if k % 2 == 0 {
                outer_column_of(i)
            } else {
                outer_column_of(0)
            };
            let b = outer_column_of(k - 1);
            let ghost cur = state_of(layout);
            let ghost old_score = *best_score;
            let ghost old_best = state_of(best);
            self.swap_columns(layout, cache, a, b);
            let ghost sw = state_of(layout);
            self.column_permutations(layout, best, cache, best_score, k - 1);
            proof {
                let inner = heap(sw, (k - 1) as int).1;
                let rest = heap_loop(state_of(layout), k as int, i + 1);
                assert(heap_loop(cur, k as int, i as int) == (rest.0, inner + rest.1));
                let seen2 = seen + inner;
                assert(seen2.skip(first.len() as int) =~= seen.skip(first.len() as int) + inner);
                assert(seen2.take(first.len() as int) =~= seen.take(first.len() as int));
                assert((seen.skip(first.len() as int) + inner) + rest.1 =~= seen.skip(
                    first.len() as int,
                ) + (inner + rest.1));
                lemma_at_most_concat(self, seen, inner, old_score as int, *best_score as int);
                if state_of(best) != old_best {
                    lemma_contains_concat(seen, inner, state_of(best));
                } else if state_of(best) != b0 {
                    lemma_contains_concat(seen, inner, state_of(best));
                }
                seen = seen2;
            }
            i = i + 1;
        }
        proof {
            assert(heap_loop(state_of(layout), k as int, (k - 1) as int).1 =~= seq![]);
            let tail = seen.skip(first.len() as int);
            assert(seen =~= first + tail);
            assert(heap(s0, k as int).1 == first + heap_loop(s1, k as int, 0).1);
            assert(heap_loop(s1, k as int, 0).1 =~= tail);
        }
    }

    /// The column phase: visits every order that Heap's algorithm gives the
    /// six outer columns, with the index columns as they are and mirrored,
    /// and keeps the best layout found.
    pub fn optimize_columns(&self, layout: &mut Layout, cache: &mut LayoutCache)
        requires
            self.wf(),
            old(layout).wf(),
            old(cache).matches(self, old(layout)),
        ensures
            final(layout).wf(),
            final(cache).matches(self, final(layout)),
            final(cache).total_score >= old(cache).total_score,
            all_at_most(self, column_visits(state_of(old(layout))), final(cache).total_score as int),
            state_of(final(layout)) == state_of(old(layout)) || column_visits(
                state_of(old(layout)),
            ).contains(state_of(final(layout))),
            final(cache).total_score == old(cache).total_score ==> final(layout).matrix@ == old(
                layout,
            ).matrix@ && final(layout).positions@ == old(layout).positions@,
            final(layout).matrix@.to_multiset() == old(layout).matrix@.to_multiset(),
    {
        let ghost s0 = state_of(layout);
        let mut best = layout.copy();
        let mut best_score = cache.total_score;
        proof {
            reveal(LayoutGenerator::total);
        }
        self.column_permutations(layout, &mut best, cache, &mut best_score, 6);
        let ghost score1 = best_score;
        let ghost best1 = state_of(&best);
        self.swap_columns(layout, cache, 3, 6);
        self.swap_columns(layout, cache, 4, 5);
        let ghost m = state_of(layout);
        self.column_permutations(layout, &mut best, cache, &mut best_score, 6);
        proof {
            let v1 = heap(s0, 6).1;
            let v2 = heap(m, 6).1;
            assert(column_visits(s0) == v1 + v2);
            lemma_at_most_concat(self, v1, v2, score1 as int, best_score as int);
            if state_of(&best) != s0 {
                if state_of(&best) == best1 {
                    lemma_contains_concat(v1, v2, state_of(&best));
                } else {
                    lemma_contains_concat(v1, v2, state_of(&best));
                }
            }
        }
        *cache = LayoutCache::new(self, &best);
        *layout = best;
        proof {
            reveal(LayoutGenerator::total);
        }
    }

    /// Alternates the swap phase and the column phase until a round brings
    /// no improvement. The column phase moves keys at every position, so it
    /// runs only where the swap list moves every position too; with pinned
    /// keys the swap phase runs alone.
    pub fn optimize(&self, layout: &mut Layout, cache: &mut LayoutCache, possible_swaps: &Vec<Pair>)
        requires
            self.wf(),
            old(layout).wf(),
            old(cache).matches(self, old(layout)),
            swaps_in_range(possible_swaps@),
        ensures
            final(layout).wf(),
            final(cache).matches(self, final(layout)),
            old(cache).total_score <= final(cache).total_score <= MAX_SCORE,
            final(layout).matrix@.to_multiset() == old(layout).matrix@.to_multiset(),
            forall|k: int|
                0 <= k < possible_swaps@.len() ==> swap_score(
                    self,
                    final(layout).matrix@,
                    final(layout).positions@,
                    #[trigger] possible_swaps@[k],
                ) <= final(cache).total_score,
            forall|p: int|
                0 <= p < 30 && untouched(possible_swaps@, p) ==> #[trigger] final(layout).matrix@[p]
                    == old(layout).matrix@[p],
            moves_every_position(possible_swaps@) ==> all_at_most(
                self,
                column_visits(state_of(final(layout))),
                final(cache).total_score as int,
            ),
    {
        let ghost start = cache.total_score;
        let ghost m0 = layout.matrix@;
        let columns = every_position_moves(possible_swaps);
        let mut done = false;
        proof {
            self.lemma_score_bounds(layout.matrix@, layout.positions@);
            reveal(LayoutGenerator::total);
        }
        while !done
            invariant
                self.wf(),
                layout.wf(),
                cache.matches(self, layout),
                swaps_in_range(possible_swaps@),
                columns == moves_every_position(possible_swaps@),
                start <= cache.total_score <= MAX_SCORE,
                layout.matrix@.to_multiset() == m0.to_multiset(),
                layout.matrix@.len() == 30,
                m0.len() == 30,
                !columns ==> forall|p: int|
                    0 <= p < 30 && untouched(possible_swaps@, p) ==> #[trigger] layout.matrix@[p]
                        == m0[p],
                done ==> forall|k: int|
                    0 <= k < possible_swaps@.len() ==> swap_score(
                        self,
                        layout.matrix@,
                        layout.positions@,
                        #[trigger] possible_swaps@[k],
                    ) <= cache.total_score,
                done && columns ==> all_at_most(
                    self,
                    column_visits(state_of(layout)),
                    cache.total_score as int,
                ),
            decreases (if done { 0int } else { 1int }) + MAX_SCORE - cache.total_score,
        {
            let swapped = self.optimize_cached(layout, cache, possible_swaps);
            if columns {
                self.optimize_columns(layout, cache);
                proof {
                    self.lemma_score_bounds(layout.matrix@, layout.positions@);
                    reveal(LayoutGenerator::total);
                }
                if cache.total_score == swapped {
                    done = true;
                }
            } else {
                done = true;
            }
        }
        proof {
            if columns {
                assert forall|p: int| 0 <= p < 30 && untouched(possible_swaps@, p) implies #[trigger] layout.matrix@[p]
                    == m0[p] by {
                    assert(!untouched(possible_swaps@, p));
                }
            }
        }
    }

    /// The score of `layout`, computed from scratch.
    pub fn score(&self, layout: &Layout) -> (r: i64)
        requires
            self.wf(),
            layout.wf(),
        ensures
            r as int == self.total(layout.matrix@, layout.positions@),
    {
        let cache = LayoutCache::new(self, layout);
        cache.total_score
    }
}

/// With every position pinned, no swap is legal.
pub proof fn lemma_all_pinned_no_swaps(swaps: Seq<Pair>, pins: Seq<u8>)
    requires
        legal_swaps(swaps, pins),
        forall|p: int| 0 <= p < 30 ==> #[trigger] pinned(pins, p),
    ensures
        swaps.len() == 0,
{
    if swaps.len() > 0 {
        assert(swaps[0].0 < 30);
        assert(pinned(pins, swaps[0].0 as int));
    }
}

} // verus!

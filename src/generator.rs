use vstd::prelude::*;

use crate::cache::LayoutCache;
use crate::geometry::POSITIONS;
use crate::layout::{swapped_matrix, Layout};
use crate::optimizer::{
    all_at_most, column_visits, get_possible_swaps, moves_every_position, pinned, pinned_swaps,
    state_of, swap_score, untouched,
};
use crate::pair::Pair;
use crate::scoring::LayoutGenerator;

verus! {

broadcast use vstd::multiset::group_multiset_axioms, vstd::seq_lib::group_to_multiset_ensures;

/// Multiplier of the linear congruential generator.
pub const RNG_MULTIPLIER: u64 = 6364136223846793005;

/// Increment of the linear congruential generator.
pub const RNG_INCREMENT: u64 = 1442695040888963407;

/// The state that follows `s`.
pub open spec fn rng_step(s: u64) -> u64 {
    s.wrapping_mul(RNG_MULTIPLIER).wrapping_add(RNG_INCREMENT)
}

/// A seeded pseudo-random number generator: the same seed gives the same
/// numbers.
#[derive(Clone, Copy, Debug, PartialEq, Eq, Structural)]
pub struct Rng {
    pub state: u64,
}

impl Rng {
    pub fn new(seed: u64) -> (r: Rng)
        ensures
            r.state == seed,
    {
        Rng { state: seed }
    }

    /// Advances the state and returns its upper 31 bits.
    pub fn next_u64(&mut self) -> (r: u64)
        ensures
            final(self).state == rng_step(old(self).state),
            r == final(self).state / 0x2_0000_0000,
    {
        self.state = self.state.wrapping_mul(RNG_MULTIPLIER).wrapping_add(RNG_INCREMENT);
        self.state / 0x2_0000_0000
    }

    /// A number below `n`.
    pub fn below(&mut self, n: u64) -> (r: u64)
        requires
            n > 0,
        ensures
            r < n,
            final(self).state == rng_step(old(self).state),
            r == (final(self).state / 0x2_0000_0000) % n,
    {
        self.next_u64() % n
    }
}

/// A layout scored from scratch.
pub struct ScoredLayout {
    pub layout: Layout,
    pub score: i64,
}

impl ScoredLayout {
    pub open spec fn wf(&self, g: &LayoutGenerator) -> bool {
        &&& self.layout.wf()
        &&& self.score as int == g.total(self.layout.matrix@, self.layout.positions@)
    }
}

/// Scores in non-increasing order.
pub open spec fn ranked(v: Seq<ScoredLayout>) -> bool {
    forall|i: int, j: int| 0 <= i < j < v.len() ==> v[i].score >= v[j].score
}

/// The positions below `p` that `pins` leaves free, in increasing order.
pub open spec fn free_upto(pins: Seq<u8>, p: int) -> Seq<usize>
    decreases p,
{
    if p <= 0 {
        seq![]
    } else if pinned(pins, p - 1) {
        free_upto(pins, p - 1)
    } else {
        free_upto(pins, p - 1).push((p - 1) as usize)
    }
}

/// The number below `n` drawn from the state that follows `state`.
pub open spec fn draw(state: u64, n: int) -> int {
    (rng_step(state) / 0x2_0000_0000) as int % n
}

/// Fisher-Yates over the first `n` free positions: trade the key at the
/// last of them with the key at a drawn one, then shuffle the others. The
/// matrix it ends on, and the state of the generator after the draws.
pub open spec fn shuffled(m: Seq<u8>, free: Seq<usize>, n: int, state: u64) -> (Seq<u8>, u64)
    decreases n,
{
    if n <= 1 {
        (m, state)
    } else {
        let j = draw(state, n);
        shuffled(
            swapped_matrix(m, free[n - 1] as int, free[j] as int),
            free,
            n - 1,
            rng_step(state),
        )
    }
}

proof fn lemma_free_upto(pins: Seq<u8>, p: int)
    requires
        0 <= p <= 30,
    ensures
        free_upto(pins, p).len() <= p,
        forall|k: int|
            0 <= k < free_upto(pins, p).len() ==> #[trigger] free_upto(pins, p)[k] < p && !pinned(
                pins,
                free_upto(pins, p)[k] as int,
            ),
    decreases p,
{
    if p > 0 {
        lemma_free_upto(pins, p - 1);
    }
}

/// Shuffles the symbols of `base` over the positions that `pins` leaves
/// free (Fisher-Yates, drawing from `rng`), keeping the pinned ones in
/// place.
pub fn random_layout(base: &Layout, pins: &Vec<u8>, rng: &mut Rng) -> (r: Layout)
    requires
        base.wf(),
    ensures
        r.wf(),
        ({
            let free = free_upto(pins@, 30);
            let res = shuffled(base.matrix@, free, free.len() as int, old(rng).state);
            r.matrix@ == res.0 && final(rng).state == res.1
        }),
        forall|p: int| 0 <= p < 30 && pinned(pins@, p) ==> #[trigger] r.matrix@[p] == base.matrix@[p],
        r.matrix@.to_multiset() == base.matrix@.to_multiset(),
{
    let mut layout = base.copy();
    let mut free: Vec<usize> = Vec::new();
    let mut p: usize = 0;
    while p < POSITIONS
        invariant
            p <= 30,
            free@ == free_upto(pins@, p as int),
        decreases 30 - p,
    {
        let mut pin = false;
        let mut k: usize = 0;
        while k < pins.len()
            invariant
                k <= pins@.len(),
                pin == exists|j: int| 0 <= j < k && pins@[j] as int == p,
            decreases pins@.len() - k,
        {
            if pins[k] as usize == p {
                pin = true;
            }
            k = k + 1;
        }
        if !pin {
            free.push(p);
        }
        p = p + 1;
    }
    proof {
        lemma_free_upto(pins@, 30);
    }
    let ghost goal = shuffled(base.matrix@, free@, free@.len() as int, rng.state);
    let mut i: usize = free.len();
    while i > 1
        invariant
            layout.wf(),
            i <= free@.len(),
            free@.len() <= 30,
            free@ == free_upto(pins@, 30),
            forall|k: int| 0 <= k < free@.len() ==> #[trigger] free@[k] < 30 && !pinned(pins@, free@[k] as int),
            forall|q: int| 0 <= q < 30 && pinned(pins@, q) ==> #[trigger] layout.matrix@[q] == base.matrix@[q],
            layout.matrix@.to_multiset() == base.matrix@.to_multiset(),
            shuffled(layout.matrix@, free@, i as int, rng.state) == goal,
        decreases i,
    {
        let ghost before = rng.state;
        i = i - 1;
        let j = rng.below((i + 1) as u64) as usize;
        assert(j as int == draw(before, i + 1));
        let a = free[i];
        let b = free[j];
        proof {
            crate::layout::lemma_swap_same_symbols(layout.matrix@, a as int, b as int);
        }
        layout.swap(a, b);
    }
    layout
}

/// No swap of two keys raises the score of `l`.
pub open spec fn local_optimum(g: &LayoutGenerator, l: &Layout) -> bool {
    forall|p0: int, p1: int|
        0 <= p0 < p1 < 30 ==> #[trigger] swap_score(
            g,
            l.matrix@,
            l.positions@,
            Pair(p0 as usize, p1 as usize),
        ) <= g.total(l.matrix@, l.positions@)
}

impl LayoutGenerator {
    /// A random arrangement of the generation alphabet, optimised by
    /// alternating swaps and column permutations to a local optimum.
    pub fn generate_layout(&self, seed: u64) -> (r: Layout)
        requires
            self.wf(),
        ensures
            r.wf(),
            r.matrix@.to_multiset() == self.u8_chars_for_generation.matrix@.to_multiset(),
            local_optimum(self, &r),
            all_at_most(self, column_visits(state_of(&r)), self.total(r.matrix@, r.positions@)),
    {
        proof {
            self.lemma_wf_flags();
        }
        let mut rng = Rng::new(seed);
        let none: Vec<u8> = Vec::new();
        let mut layout = random_layout(&self.u8_chars_for_generation, &none, &mut rng);
        let mut cache = LayoutCache::new(self, &layout);
        let swaps = get_possible_swaps();
        self.optimize(&mut layout, &mut cache, &swaps);
        proof {
            assert forall|p0: int, p1: int| 0 <= p0 < p1 < 30 implies #[trigger] swap_score(
                self,
                layout.matrix@,
                layout.positions@,
                Pair(p0 as usize, p1 as usize),
            ) <= self.total(layout.matrix@, layout.positions@) by {
                assert(!pinned(seq![], p0) && !pinned(seq![], p1));
                let k = choose|k: int|
                    0 <= k < swaps@.len() && #[trigger] swaps@[k] == Pair(p0 as usize, p1 as usize);
            }
            assert forall|p: int| 0 <= p < 30 implies !#[trigger] untouched(swaps@, p) by {
                let (a, b) = if p == 0 { (0int, 1int) } else { (0int, p) };
                assert(!pinned(seq![], a) && !pinned(seq![], b));
                let k = choose|k: int|
                    0 <= k < swaps@.len() && #[trigger] swaps@[k] == Pair(a as usize, b as usize);
                assert(swaps@[k].0 as int == p || swaps@[k].1 as int == p);
            }
            assert(moves_every_position(swaps@));
            reveal(LayoutGenerator::total);
        }
        layout
    }

    /// A layout that keeps the pinned keys of `based_on` and shuffles the
    /// others at random, then improves it by swaps of free keys alone.
    pub fn generate_with_pins(&self, based_on: &Layout, pins: &Vec<u8>, seed: u64) -> (r: Layout)
        requires
            self.wf(),
            based_on.wf(),
        ensures
            r.wf(),
            forall|p: int|
                0 <= p < 30 && pinned(pins@, p) ==> #[trigger] r.matrix@[p] == based_on.matrix@[p],
            r.matrix@.to_multiset() == based_on.matrix@.to_multiset(),
            forall|p0: int, p1: int|
                0 <= p0 < p1 < 30 && !pinned(pins@, p0) && !pinned(pins@, p1) ==> #[trigger] swap_score(
                    self,
                    r.matrix@,
                    r.positions@,
                    Pair(p0 as usize, p1 as usize),
                ) <= self.total(r.matrix@, r.positions@),
    {
        let mut rng = Rng::new(seed);
        let mut layout = random_layout(based_on, pins, &mut rng);
        let ghost shuffled = layout.matrix@;
        let mut cache = LayoutCache::new(self, &layout);
        let swaps = pinned_swaps(pins);
        self.optimize_cached(&mut layout, &mut cache, &swaps);
        proof {
            assert forall|p: int| 0 <= p < 30 && pinned(pins@, p) implies untouched(swaps@, p) by {
                assert forall|k: int| 0 <= k < swaps@.len() implies (#[trigger] swaps@[k]).0 as int != p
                    && swaps@[k].1 as int != p by {}
            }
            assert forall|p0: int, p1: int|
                0 <= p0 < p1 < 30 && !pinned(pins@, p0) && !pinned(pins@, p1) implies #[trigger] swap_score(
                self,
                layout.matrix@,
                layout.positions@,
                Pair(p0 as usize, p1 as usize),
            ) <= self.total(layout.matrix@, layout.positions@) by {
                let k = choose|k: int|
                    0 <= k < swaps@.len() && #[trigger] swaps@[k] == Pair(p0 as usize, p1 as usize);
            }
        }
        layout
    }
}

/// Orders the layouts by decreasing score, the earlier of two equal ones
/// first.
pub fn rank_layouts(layouts: Vec<ScoredLayout>) -> (r: Vec<ScoredLayout>)
    ensures
        ranked(r@),
        r@.to_multiset() == layouts@.to_multiset(),
{
    let mut rest = layouts;
    let mut out: Vec<ScoredLayout> = Vec::new();
    while rest.len() > 0
        invariant
            ranked(out@),
            forall|i: int, j: int| 0 <= i < out@.len() && 0 <= j < rest@.len() ==> out@[i].score >= rest@[j].score,
            out@.to_multiset().add(rest@.to_multiset()) == layouts@.to_multiset(),
        decreases rest@.len(),
    {
        let mut best: usize = 0;
        let mut k: usize = 1;
        while k < rest.len()
            invariant
                rest@.len() > 0,
                best < rest@.len(),
                1 <= k <= rest@.len(),
                forall|j: int| 0 <= j < k ==> rest@[j].score <= rest@[best as int].score,
            decreases rest@.len() - k,
        {
            if rest[k].score > rest[best].score {
                best = k;
            }
            k = k + 1;
        }
        let ghost old_rest = rest@;
        let ghost old_out = out@;
        let x = rest.remove(best);
        proof {
            assert(old_rest.contains(x));
            assert(old_rest.to_multiset().count(x) > 0);
        }
        out.push(x);
        proof {
            assert(out@ == old_out.push(x));
            assert(out@.to_multiset().add(rest@.to_multiset()) =~= old_out.to_multiset().add(
                old_rest.to_multiset(),
            ));
        }
    }
    proof {
        assert(rest@.to_multiset() =~= vstd::multiset::Multiset::empty());
    }
    out
}

impl LayoutGenerator {
    /// One optimised layout per seed, best first.
    pub fn generate_n(&self, seeds: &Vec<u64>) -> (r: Vec<ScoredLayout>)
        requires
            self.wf(),
        ensures
            r@.len() == seeds@.len(),
            ranked(r@),
            forall|i: int| 0 <= i < r@.len() ==> (#[trigger] r@[i]).wf(self),
            forall|i: int|
                0 <= i < r@.len() ==> (#[trigger] r@[i]).layout.matrix@.to_multiset()
                    == self.u8_chars_for_generation.matrix@.to_multiset() && local_optimum(
                    self,
                    &r@[i].layout,
                ),
    {
        let mut res: Vec<ScoredLayout> = Vec::new();
        let mut k: usize = 0;
        while k < seeds.len()
            invariant
                self.wf(),
                k <= seeds@.len(),
                res@.len() == k,
                forall|i: int| 0 <= i < res@.len() ==> (#[trigger] res@[i]).wf(self),
                forall|i: int|
                    0 <= i < res@.len() ==> (#[trigger] res@[i]).layout.matrix@.to_multiset()
                        == self.u8_chars_for_generation.matrix@.to_multiset() && local_optimum(
                        self,
                        &res@[i].layout,
                    ),
            decreases seeds@.len() - k,
        {
            let layout = self.generate_layout(seeds[k]);
            let score = self.score(&layout);
            res.push(ScoredLayout { layout, score });
            k = k + 1;
        }
        let r = rank_layouts(res);
        proof {
            lemma_multiset_keeps(res@, r@, self);
            assert forall|i: int| 0 <= i < r@.len() implies (#[trigger] r@[i]).layout.matrix@.to_multiset()
                == self.u8_chars_for_generation.matrix@.to_multiset() && local_optimum(
                self,
                &r@[i].layout,
            ) by {
                let j = lemma_multiset_member(res@, r@, i);
            }
        }
        r
    }

    /// One layout per seed that keeps the pinned keys of `based_on`, best
    /// first.
    pub fn generate_n_with_pins(&self, based_on: &Layout, pins: &Vec<u8>, seeds: &Vec<u64>) -> (r:
        Vec<ScoredLayout>)
        requires
            self.wf(),
            based_on.wf(),
        ensures
            r@.len() == seeds@.len(),
            ranked(r@),
            forall|i: int| 0 <= i < r@.len() ==> (#[trigger] r@[i]).wf(self),
            forall|i: int, p: int|
                0 <= i < r@.len() && 0 <= p < 30 && pinned(pins@, p) ==> #[trigger] r@[i].layout.matrix@[p]
                    == based_on.matrix@[p],
            forall|i: int|
                0 <= i < r@.len() ==> (#[trigger] r@[i]).layout.matrix@.to_multiset()
                    == based_on.matrix@.to_multiset(),
    {
        let mut res: Vec<ScoredLayout> = Vec::new();
        let mut k: usize = 0;
        while k < seeds.len()
            invariant
                self.wf(),
                based_on.wf(),
                k <= seeds@.len(),
                res@.len() == k,
                forall|i: int| 0 <= i < res@.len() ==> (#[trigger] res@[i]).wf(self),
                forall|i: int, p: int|
                    0 <= i < res@.len() && 0 <= p < 30 && pinned(pins@, p) ==> #[trigger] res@[i].layout.matrix@[p]
                        == based_on.matrix@[p],
                forall|i: int|
                    0 <= i < res@.len() ==> (#[trigger] res@[i]).layout.matrix@.to_multiset()
                        == based_on.matrix@.to_multiset(),
            decreases seeds@.len() - k,
        {
            let layout = self.generate_with_pins(based_on, pins, seeds[k]);
            let score = self.score(&layout);
            res.push(ScoredLayout { layout, score });
            k = k + 1;
        }
        let r = rank_layouts(res);
        proof {
            lemma_multiset_keeps(res@, r@, self);
            assert forall|i: int, p: int|
                0 <= i < r@.len() && 0 <= p < 30 && pinned(pins@, p) implies #[trigger] r@[i].layout.matrix@[p]
                == based_on.matrix@[p] by {
                let j = lemma_multiset_member(res@, r@, i);
            }
            assert forall|i: int| 0 <= i < r@.len() implies (#[trigger] r@[i]).layout.matrix@.to_multiset()
                == based_on.matrix@.to_multiset() by {
                let j = lemma_multiset_member(res@, r@, i);
            }
        }
        r
    }
}

/// An entry of a rearrangement is an entry of the sequence it came from.
proof fn lemma_multiset_member(a: Seq<ScoredLayout>, b: Seq<ScoredLayout>, i: int) -> (j: int)
    requires
        a.to_multiset() == b.to_multiset(),
        0 <= i < b.len(),
    ensures
        0 <= j < a.len(),
        a[j] == b[i],
{
    assert(b.contains(b[i]));
    assert(a.to_multiset().count(b[i]) > 0);
    assert(a.contains(b[i]));
    choose|j: int| 0 <= j < a.len() && a[j] == b[i]
}

/// A rearrangement of well-formed scored layouts is one too.
proof fn lemma_multiset_keeps(a: Seq<ScoredLayout>, b: Seq<ScoredLayout>, g: &LayoutGenerator)
    requires
        a.to_multiset() == b.to_multiset(),
        forall|i: int| 0 <= i < a.len() ==> (#[trigger] a[i]).wf(g),
    ensures
        b.len() == a.len(),
        forall|i: int| 0 <= i < b.len() ==> (#[trigger] b[i]).wf(g),
{
    assert(a.to_multiset().len() == a.len());
    assert(b.to_multiset().len() == b.len());
    assert forall|i: int| 0 <= i < b.len() implies (#[trigger] b[i]).wf(g) by {
        let j = lemma_multiset_member(a, b, i);
    }
}

} // verus!

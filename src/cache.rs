use vstd::prelude::*;

use crate::geometry::{
    column_of, column_pairs, column_positions, finger_column, lateral_stretch_list,
    lemma_column_geometry, lemma_lists_in_range, pinky_ring_list, scissor_list, speed_start, touches,
    FINGER_COLUMNS, POSITIONS,
};
use crate::layout::{positions_of, swapped_matrix, swapped_positions, symbol_column, Layout};
use crate::pair::Pair;
use crate::scoring::{holds, LayoutGenerator};
use crate::sums::{
    lemma_sum_add, lemma_sum_bound, lemma_sum_ext, lemma_sum_nonneg_bound, lemma_sum_point,
    lemma_sum_two_points, sum_to,
};

verus! {

/// Highest score any layout can reach: every scored trigram at the
/// largest reward and no penalty.
pub const MAX_SCORE: i64 = 1_000_000_000_000_000;

/// Partial sums of the score of one layout, kept in step with it as keys
/// are swapped.
#[derive(Debug)]
pub struct LayoutCache {
    pub effort: Vec<i64>,
    pub effort_total: i64,
    pub scissors: i64,
    pub lsbs: i64,
    pub pinky_ring: i64,
    pub usage: Vec<i64>,
    pub usage_total: i64,
    pub finger_speeds: Vec<i64>,
    pub finger_speed_total: i64,
    pub trigrams_total: i64,
    pub total_score: i64,
}

impl LayoutCache {
    pub open spec fn efforts_match(&self, g: &LayoutGenerator, m: Seq<u8>) -> bool {
        &&& self.effort@.len() == 30
        &&& forall|p: int| 0 <= p < 30 ==> #[trigger] self.effort@[p] as int == g.effort_at(m, p)
        &&& self.effort_total as int == g.effort_term(m)
    }

    pub open spec fn columns_match(&self, g: &LayoutGenerator, m: Seq<u8>) -> bool {
        &&& self.usage@.len() == 8
        &&& forall|c: int| 0 <= c < 8 ==> #[trigger] self.usage@[c] as int == g.usage_at(m, c)
        &&& self.usage_total as int == g.usage_term(m)
        &&& self.finger_speeds@.len() == 8
        &&& forall|c: int|
            0 <= c < 8 ==> #[trigger] self.finger_speeds@[c] as int == g.speed_at(m, c)
        &&& self.finger_speed_total as int == g.speed_term(m)
    }

    pub open spec fn lists_match(&self, g: &LayoutGenerator, m: Seq<u8>) -> bool {
        &&& self.scissors as int == g.scissor_term(m)
        &&& self.lsbs as int == g.lsb_term(m)
        &&& self.pinky_ring as int == g.pinky_ring_term(m)
    }

    /// Every field equals what a recomputation from `m` and `pos` gives.
    pub open spec fn matches_at(&self, g: &LayoutGenerator, m: Seq<u8>, pos: Seq<u8>) -> bool {
        &&& self.efforts_match(g, m)
        &&& self.columns_match(g, m)
        &&& self.lists_match(g, m)
        &&& self.trigrams_total as int == g.trigram_term(pos)
        &&& self.total_score as int == g.total(m, pos)
    }

    /// Every field equals what a recomputation from `layout` gives.
    pub open spec fn matches(&self, g: &LayoutGenerator, layout: &Layout) -> bool {
        self.matches_at(g, layout.matrix@, layout.positions@)
    }

    /// The cached score.
    pub fn total_score(&self) -> (r: i64)
        ensures
            r == self.total_score,
    {
        self.total_score
    }
}

/// The column values that a swap gives the cache.
struct ColumnUpdate {
    c0: usize,
    c1: usize,
    speed0: i64,
    speed1: i64,
    usage0: i64,
    usage1: i64,
    finger_speed_total: i64,
    usage_total: i64,
}

impl LayoutGenerator {
    /// Bounds of the effort of one key.
    pub proof fn lemma_effort_at_bounds(&self, m: Seq<u8>, p: int)
        requires
            self.wf(),
            m.len() == 30,
            0 <= p < 30,
        ensures
            0 <= self.effort_at(m, p) <= 35_000_000_000,
    {
        reveal(LayoutGenerator::wf);
        self.lemma_freq_bounds(m[p] as int);
        crate::keyboard::lemma_effort_range(self.keyboard, p);
        let f = self.freq(m[p] as int);
        let t = crate::keyboard::effort_table(self.keyboard)[p];
        let h = self.weights.heatmap as int;
        assert(0 <= f * ((t - 2) * h) <= 35_000_000_000) by (nonlinear_arith)
            requires
                0 <= f <= 1_000_000,
                10 <= t <= 37,
                0 <= h <= 1000,
        ;
        let x = f * ((t - 2) * h);
        assert(0 <= x / 45 <= x);
    }

    /// Two symbols on one finger whose bigram has frequency 1.0 (that is,
    /// `MAX_FREQ`) make the finger-speed term of that finger positive,
    /// where the same-finger weight, the speed weight and the travel
    /// distance of their key pair are positive.
    pub proof fn lemma_shared_finger_speed_positive(&self, m: Seq<u8>, c: int, k: int)
        requires
            self.wf(),
            m.len() == 30,
            0 <= c < 8,
            0 <= k < column_pairs(c).len(),
            self.bigram(m[column_pairs(c)[k].0] as int, m[column_pairs(c)[k].1] as int)
                == crate::language::MAX_FREQ,
            self.weights.sfb >= 1,
            self.weights.speed >= 1,
            self.distances@[speed_start(c) + k] >= 1,
        ensures
            self.speed_at(m, c) > 0,
    {
        reveal(LayoutGenerator::wf);
        reveal(LayoutGenerator::speed_at);
        lemma_column_geometry(c);
        let f = self.column_speed_fn(m, c);
        let n = column_pairs(c).len() as int;
        assert forall|i: int| 0 <= i < n implies 0 <= #[trigger] f(i) by {
            let (p, q) = column_pairs(c)[i];
            self.lemma_bigram_bounds(m[p] as int, m[q] as int);
            self.lemma_bigram_bounds(m[q] as int, m[p] as int);
            let w = self.spec_weighted_bigram(m[p] as int, m[q] as int) + self.spec_weighted_bigram(
                m[q] as int,
                m[p] as int,
            );
            let d = self.distances@[speed_start(c) + i] as int;
            assert(0 <= w * d) by (nonlinear_arith)
                requires
                    0 <= w,
                    0 <= d,
            ;
        }
        crate::sums::lemma_sum_ge_term(f, n, k);
        let (p, q) = column_pairs(c)[k];
        let a = m[p] as int;
        let b = m[q] as int;
        self.lemma_bigram_bounds(a, b);
        self.lemma_bigram_bounds(b, a);
        let nn = self.n();
        let w = self.weights;
        let rest = w.skip1 * crate::language::pair_freq(self.data.skipgrams@, nn, a, b) + w.skip2
            * crate::language::pair_freq(self.data.skipgrams2@, nn, a, b) + w.skip3
            * crate::language::pair_freq(self.data.skipgrams3@, nn, a, b);
        crate::evaluate::lemma_pair_freq_bound(self.data.skipgrams@, nn, a, b);
        crate::evaluate::lemma_pair_freq_bound(self.data.skipgrams2@, nn, a, b);
        crate::evaluate::lemma_pair_freq_bound(self.data.skipgrams3@, nn, a, b);
        assert(0 <= rest) by (nonlinear_arith)
            requires
                rest == w.skip1 * crate::language::pair_freq(self.data.skipgrams@, nn, a, b)
                    + w.skip2 * crate::language::pair_freq(self.data.skipgrams2@, nn, a, b) + w.skip3
                    * crate::language::pair_freq(self.data.skipgrams3@, nn, a, b),
                0 <= crate::language::pair_freq(self.data.skipgrams@, nn, a, b),
                0 <= crate::language::pair_freq(self.data.skipgrams2@, nn, a, b),
                0 <= crate::language::pair_freq(self.data.skipgrams3@, nn, a, b),
        ;
        let w1 = self.spec_weighted_bigram(a, b);
        let w2 = self.spec_weighted_bigram(b, a);
        let sfb = w.sfb as int;
        let speed = w.speed as int;
        assert(w1 == (sfb * 1_000_000 + rest) * speed);
        assert(w1 >= 1_000_000) by (nonlinear_arith)
            requires
                w1 == (sfb * 1_000_000 + rest) * speed,
                sfb >= 1,
                speed >= 1,
                rest >= 0,
        ;
        let d = self.distances@[speed_start(c) + k] as int;
        assert((w1 + w2) * d >= 1_000_000) by (nonlinear_arith)
            requires
                w1 >= 1_000_000,
                w2 >= 0,
                d >= 1,
        ;
        assert(f(k) == (w1 + w2) * d / 10_000);
    }

    /// Bounds of the overuse penalty of one finger column.
    pub proof fn lemma_usage_at_bounds(&self, m: Seq<u8>, c: int)
        requires
            self.wf(),
            m.len() == 30,
            0 <= c < 8,
        ensures
            0 <= self.usage_at(m, c) <= 6_000_000_000,
    {
        reveal(LayoutGenerator::usage_at);
        reveal(LayoutGenerator::wf);
        lemma_column_geometry(c);
        let f = self.column_freq_fn(m, c);
        let n = column_positions(c).len() as int;
        assert forall|k: int| 0 <= k < n implies 0 <= #[trigger] f(k) <= 1_000_000 by {
            self.lemma_freq_bounds(m[column_positions(c)[k]] as int);
        }
        lemma_sum_nonneg_bound(f, n, 1_000_000);
        let s = self.column_sum(m, c);
        let over = if s - self.bias(c) > 0 {
            s - self.bias(c)
        } else {
            0
        };
        let o = self.weights.overuse_penalty as int;
        assert(0 <= o * over <= 6_000_000_000) by (nonlinear_arith)
            requires
                0 <= o <= 1000,
                0 <= over <= 6_000_000,
        ;
    }

    /// Bounds of the finger-speed cost of one finger column.
    pub proof fn lemma_speed_at_bounds(&self, m: Seq<u8>, c: int)
        requires
            self.wf(),
            m.len() == 30,
            0 <= c < 8,
        ensures
            0 <= self.speed_at(m, c) <= 120_000_000_000_000_000,
    {
        reveal(LayoutGenerator::speed_at);
        reveal(LayoutGenerator::wf);
        lemma_column_geometry(c);
        let f = self.column_speed_fn(m, c);
        let n = column_pairs(c).len() as int;
        assert forall|k: int| 0 <= k < n implies 0 <= #[trigger] f(k) <= 8_000_000_000_000_000 by {
            let (p, q) = column_pairs(c)[k];
            self.lemma_bigram_bounds(m[p] as int, m[q] as int);
            self.lemma_bigram_bounds(m[q] as int, m[p] as int);
            let w = self.spec_weighted_bigram(m[p] as int, m[q] as int) + self.spec_weighted_bigram(
                m[q] as int,
                m[p] as int,
            );
            let d = self.distances@[speed_start(c) + k] as int;
            assert(0 <= w * d <= 8_000_000_000_000_000) by (nonlinear_arith)
                requires
                    0 <= w <= 8_000_000_000_000,
                    0 <= d <= 1000,
            ;
        }
        lemma_sum_nonneg_bound(f, n, 8_000_000_000_000_000);
    }

    /// Bounds of the score of a list of at most 18 position pairs.
    pub proof fn lemma_list_bounds(&self, m: Seq<u8>, l: Seq<(int, int)>, w: int)
        requires
            self.wf(),
            m.len() == 30,
            crate::geometry::pairs_in_range(l),
            l.len() <= 18,
            0 <= w <= 1000,
        ensures
            0 <= self.list_score(m, l, w) <= 36_000_000_000,
    {
        reveal(LayoutGenerator::list_score);
        reveal(LayoutGenerator::wf);
        let f = self.list_fn(m, l);
        assert forall|k: int| 0 <= k < l.len() implies 0 <= #[trigger] f(k) <= 2_000_000 by {
            self.lemma_bigram_bounds(m[l[k].0] as int, m[l[k].1] as int);
            self.lemma_bigram_bounds(m[l[k].1] as int, m[l[k].0] as int);
        }
        lemma_sum_nonneg_bound(f, l.len() as int, 2_000_000);
        let s = sum_to(f, l.len() as int);
        assert(0 <= w * s <= 36_000_000_000) by (nonlinear_arith)
            requires
                0 <= w <= 1000,
                0 <= s <= 36_000_000,
        ;
    }

    /// Bounds of the contribution of one trigram.
    pub proof fn lemma_trigram_value_bound(&self, pos: Seq<u8>, i: int)
        requires
            self.wf(),
            0 <= i < self.trigram_count,
        ensures
            -1_000_000_000 <= self.trigram_value(pos, i) <= 1_000_000_000,
    {
        reveal(LayoutGenerator::trigram_value);
        reveal(LayoutGenerator::wf);
        let t = self.data.trigrams@[i];
        assert(t.freq <= crate::language::MAX_FREQ);
        let f = t.freq as int;
        let w = crate::scoring::pattern_weight(self.weights, self.trigram_pattern(pos, t));
        assert(-1000 <= w <= 1000);
        assert(-1_000_000_000 <= f * w <= 1_000_000_000) by (nonlinear_arith)
            requires
                0 <= f <= 1_000_000,
                -1000 <= w <= 1000,
        ;
    }

    /// Bounds of every term of the score, and of the score itself.
    pub proof fn lemma_score_bounds(&self, m: Seq<u8>, pos: Seq<u8>)
        requires
            self.wf(),
            m.len() == 30,
        ensures
            0 <= self.effort_term(m) <= 1_050_000_000_000,
            0 <= self.usage_term(m) <= 48_000_000_000,
            0 <= self.speed_term(m) <= 960_000_000_000_000_000,
            0 <= self.scissor_term(m) <= 36_000_000_000,
            0 <= self.lsb_term(m) <= 36_000_000_000,
            0 <= self.pinky_ring_term(m) <= 36_000_000_000,
            -1_000_000_000_000_000 <= self.trigram_term(pos) <= 1_000_000_000_000_000,
            -2_000_000_000_000_000_000 <= self.total(m, pos) <= MAX_SCORE,
    {
        reveal(LayoutGenerator::total);
        reveal(LayoutGenerator::wf);
        assert forall|p: int| 0 <= p < 30 implies 0 <= #[trigger] self.effort_fn(m)(p)
            <= 35_000_000_000 by {
            self.lemma_effort_at_bounds(m, p);
        }
        lemma_sum_nonneg_bound(self.effort_fn(m), 30, 35_000_000_000);
        assert forall|c: int| 0 <= c < 8 implies 0 <= #[trigger] self.usage_fn(m)(c)
            <= 6_000_000_000 by {
            self.lemma_usage_at_bounds(m, c);
        }
        lemma_sum_nonneg_bound(self.usage_fn(m), 8, 6_000_000_000);
        assert forall|c: int| 0 <= c < 8 implies 0 <= #[trigger] self.speed_fn(m)(c)
            <= 120_000_000_000_000_000 by {
            self.lemma_speed_at_bounds(m, c);
        }
        lemma_sum_nonneg_bound(self.speed_fn(m), 8, 120_000_000_000_000_000);
        lemma_lists_in_range();
        self.lemma_list_bounds(m, scissor_list(), self.weights.scissors as int);
        self.lemma_list_bounds(m, lateral_stretch_list(), self.weights.lateral_stretch as int);
        self.lemma_list_bounds(m, pinky_ring_list(), self.weights.pinky_ring as int);
        let k = self.trigram_count as int;
        assert forall|i: int| 0 <= i < k implies -1_000_000_000 <= #[trigger] self.trigram_fn(
            pos,
        )(i) <= 1_000_000_000 by {
            self.lemma_trigram_value_bound(pos, i);
        }
        lemma_sum_bound(self.trigram_fn(pos), k, 1_000_000_000);
        assert(k * 1_000_000_000 <= 1_000_000_000_000_000);
    }
}

impl LayoutCache {
    /// Computes every partial sum of `layout` from scratch.
    pub fn new(g: &LayoutGenerator, layout: &Layout) -> (r: LayoutCache)
        requires
            g.wf(),
            layout.wf(),
        ensures
            r.matches(g, layout),
    {
        proof {
            reveal(LayoutGenerator::total);
        }
        let ghost m = layout.matrix@;
        let ghost pos = layout.positions@;
        proof {
            g.lemma_score_bounds(m, pos);
        }
        let mut effort: Vec<i64> = Vec::new();
        let mut effort_total: i64 = 0;
        let mut p: usize = 0;
        while p < POSITIONS
            invariant
                g.wf(),
                layout.wf(),
                m == layout.matrix@,
                p <= 30,
                effort@.len() == p,
                forall|q: int| 0 <= q < p ==> #[trigger] effort@[q] as int == g.effort_at(m, q),
                effort_total as int == sum_to(g.effort_fn(m), p as int),
                0 <= effort_total <= p * 35_000_000_000,
            decreases 30 - p,
        {
            let e = g.char_effort(layout, p);
            effort.push(e);
            effort_total = effort_total + e;
            p = p + 1;
        }
        let mut usage: Vec<i64> = Vec::new();
        let mut usage_total: i64 = 0;
        let mut finger_speeds: Vec<i64> = Vec::new();
        let mut finger_speed_total: i64 = 0;
        let mut c: usize = 0;
        while c < FINGER_COLUMNS
            invariant
                g.wf(),
                layout.wf(),
                m == layout.matrix@,
                c <= 8,
                usage@.len() == c,
                finger_speeds@.len() == c,
                forall|d: int| 0 <= d < c ==> #[trigger] usage@[d] as int == g.usage_at(m, d),
                forall|d: int|
                    0 <= d < c ==> #[trigger] finger_speeds@[d] as int == g.speed_at(m, d),
                usage_total as int == sum_to(g.usage_fn(m), c as int),
                finger_speed_total as int == sum_to(g.speed_fn(m), c as int),
                0 <= usage_total <= c * 6_000_000_000,
                0 <= finger_speed_total <= c * 120_000_000_000_000_000,
            decreases 8 - c,
        {
            let u = g.column_usage(layout, c);
            let f = g.column_finger_speed(layout, c);
            usage.push(u);
            finger_speeds.push(f);
            usage_total = usage_total + u;
            finger_speed_total = finger_speed_total + f;
            c = c + 1;
        }
        let scissors = g.scissor_score(layout);
        let lsbs = g.lateral_stretch_bigram_score(layout);
        let pinky_ring = g.pinky_ring_score(layout);
        let trigrams_total = g.trigram_score_iter(layout);
        let total_score = trigrams_total - scissors - lsbs - pinky_ring - effort_total - usage_total
            - finger_speed_total;
        LayoutCache {
            effort,
            effort_total,
            scissors,
            lsbs,
            pinky_ring,
            usage,
            usage_total,
            finger_speeds,
            finger_speed_total,
            trigrams_total,
            total_score,
        }
    }
}

impl LayoutGenerator {
    /// A finger column that a swap leaves alone keeps its usage and its
    /// finger speed.
    pub proof fn lemma_column_unchanged(&self, m: Seq<u8>, p0: int, p1: int, c: int)
        requires
            self.wf(),
            m.len() == 30,
            0 <= p0 < 30,
            0 <= p1 < 30,
            0 <= c < 8,
            column_of(p0) != c,
            column_of(p1) != c,
        ensures
            self.usage_at(swapped_matrix(m, p0, p1), c) == self.usage_at(m, c),
            self.speed_at(swapped_matrix(m, p0, p1), c) == self.speed_at(m, c),
    {
        reveal(LayoutGenerator::usage_at);
        reveal(LayoutGenerator::speed_at);
        let m2 = swapped_matrix(m, p0, p1);
        lemma_column_geometry(c);
        let n = column_positions(c).len() as int;
        assert forall|k: int| 0 <= k < n implies #[trigger] self.column_freq_fn(m2, c)(k)
            == self.column_freq_fn(m, c)(k) by {
            let p = column_positions(c)[k];
            assert(p != p0 && p != p1);
            assert(m2[p] == m[p]);
        }
        lemma_sum_ext(self.column_freq_fn(m2, c), self.column_freq_fn(m, c), n);
        let np = column_pairs(c).len() as int;
        assert forall|k: int| 0 <= k < np implies #[trigger] self.column_speed_fn(m2, c)(k)
            == self.column_speed_fn(m, c)(k) by {
            let (p, q) = column_pairs(c)[k];
            assert(p != p0 && p != p1 && q != p0 && q != p1);
            assert(m2[p] == m[p] && m2[q] == m[q]);
        }
        lemma_sum_ext(self.column_speed_fn(m2, c), self.column_speed_fn(m, c), np);
    }

    /// A pair list that names neither swapped position keeps its score.
    pub proof fn lemma_list_unchanged(&self, m: Seq<u8>, p0: int, p1: int, l: Seq<(int, int)>, w: int)
        requires
            m.len() == 30,
            0 <= p0 < 30,
            0 <= p1 < 30,
            crate::geometry::pairs_in_range(l),
            !touches(l, p0),
            !touches(l, p1),
        ensures
            self.list_score(swapped_matrix(m, p0, p1), l, w) == self.list_score(m, l, w),
    {
        reveal(LayoutGenerator::list_score);
        let m2 = swapped_matrix(m, p0, p1);
        assert forall|k: int| 0 <= k < l.len() implies #[trigger] self.list_fn(m2, l)(k)
            == self.list_fn(m, l)(k) by {
            if l[k].0 == p0 || l[k].1 == p0 {
                assert(touches(l, p0));
            }
            if l[k].0 == p1 || l[k].1 == p1 {
                assert(touches(l, p1));
            }
            assert(m2[l[k].0] == m[l[k].0] && m2[l[k].1] == m[l[k].1]);
        }
        lemma_sum_ext(self.list_fn(m2, l), self.list_fn(m, l), l.len() as int);
    }

    /// A swap changes the trigram term only through the trigrams that hold
    /// one of the two swapped symbols.
    pub proof fn lemma_trigram_delta(&self, m: Seq<u8>, pos: Seq<u8>, p0: int, p1: int)
        requires
            self.wf(),
            positions_of(m, pos),
            0 <= p0 < 30,
            0 <= p1 < 30,
        ensures
            self.trigram_term(swapped_positions(m, pos, p0, p1)) - self.trigram_term(pos)
                == self.touched_term(swapped_positions(m, pos, p0, p1), m[p0] as int, m[p1] as int)
                - self.touched_term(pos, m[p0] as int, m[p1] as int),
    {
        reveal(LayoutGenerator::trigram_value);
        let pos2 = swapped_positions(m, pos, p0, p1);
        let a = m[p0] as int;
        let b = m[p1] as int;
        let k = self.trigram_count as int;
        let d = |i: int| self.trigram_value(pos2, i) - self.trigram_value(pos, i);
        assert forall|s: int| 0 <= s < 256 && s != a && s != b implies symbol_column(pos2, s)
            == symbol_column(pos, s) by {
            assert(pos2[s] == pos[s]);
        }
        assert forall|i: int| 0 <= i < k implies #[trigger] self.trigram_fn(pos2)(i) == self.trigram_fn(
            pos,
        )(i) + d(i) by {}
        lemma_sum_add(self.trigram_fn(pos), d, self.trigram_fn(pos2), k);
        assert forall|i: int| 0 <= i < k implies #[trigger] self.touched_fn(pos2, a, b)(i)
            == self.touched_fn(pos, a, b)(i) + d(i) by {
            let t = self.data.trigrams@[i];
            if !holds(t, a) && !holds(t, b) {
                assert(symbol_column(pos2, t.a as int) == symbol_column(pos, t.a as int));
                assert(symbol_column(pos2, t.b as int) == symbol_column(pos, t.b as int));
                assert(symbol_column(pos2, t.c as int) == symbol_column(pos, t.c as int));
                assert(self.trigram_pattern(pos2, t) == self.trigram_pattern(pos, t));
            }
        }
        lemma_sum_add(self.touched_fn(pos, a, b), d, self.touched_fn(pos2, a, b), k);
    }
}

impl LayoutGenerator {
    /// Usage and finger speed of the columns of `p0` and `p1` after their
    /// keys were swapped, and the new totals.
    fn columns_after_swap(
        &self,
        layout: &Layout,
        cache: &LayoutCache,
        Ghost(m): Ghost<Seq<u8>>,
        p0: usize,
        p1: usize,
    ) -> (r: ColumnUpdate)
        requires
            self.wf(),
            layout.wf(),
            m.len() == 30,
            p0 < POSITIONS,
            p1 < POSITIONS,
            layout.matrix@ == swapped_matrix(m, p0 as int, p1 as int),
            cache.columns_match(self, m),
        ensures
            r.c0 as int == column_of(p0 as int),
            r.c1 as int == column_of(p1 as int),
            r.speed0 as int == self.speed_at(layout.matrix@, r.c0 as int),
            r.speed1 as int == self.speed_at(layout.matrix@, r.c1 as int),
            r.usage0 as int == self.usage_at(layout.matrix@, r.c0 as int),
            r.usage1 as int == self.usage_at(layout.matrix@, r.c1 as int),
            r.finger_speed_total as int == self.speed_term(layout.matrix@),
            r.usage_total as int == self.usage_term(layout.matrix@),
    {
        let ghost m2 = layout.matrix@;
        proof {
            self.lemma_score_bounds(m, m);
            self.lemma_score_bounds(m2, m2);
        }
        let c0 = finger_column(p0);
        let c1 = finger_column(p1);
        let speed0 = self.column_finger_speed(layout, c0);
        let speed1 = self.column_finger_speed(layout, c1);
        let usage0 = self.column_usage(layout, c0);
        let usage1 = self.column_usage(layout, c1);
        proof {
            assert forall|c: int| 0 <= c < 8 && c != c0 && c != c1 implies #[trigger] self.speed_fn(
                m,
            )(c) == self.speed_fn(m2)(c) by {
                self.lemma_column_unchanged(m, p0 as int, p1 as int, c);
            }
            assert forall|c: int| 0 <= c < 8 && c != c0 && c != c1 implies #[trigger] self.usage_fn(
                m,
            )(c) == self.usage_fn(m2)(c) by {
                self.lemma_column_unchanged(m, p0 as int, p1 as int, c);
            }
            if c0 == c1 {
                lemma_sum_point(self.speed_fn(m), self.speed_fn(m2), 8, c0 as int);
                lemma_sum_point(self.usage_fn(m), self.usage_fn(m2), 8, c0 as int);
            } else {
                lemma_sum_two_points(self.speed_fn(m), self.speed_fn(m2), 8, c0 as int, c1 as int);
                lemma_sum_two_points(self.usage_fn(m), self.usage_fn(m2), 8, c0 as int, c1 as int);
            }
            self.lemma_speed_at_bounds(m, c0 as int);
            self.lemma_speed_at_bounds(m, c1 as int);
            self.lemma_usage_at_bounds(m, c0 as int);
            self.lemma_usage_at_bounds(m, c1 as int);
        }
        let finger_speed_total = if c0 == c1 {
            cache.finger_speed_total - cache.finger_speeds[c0] + speed0
        } else {
            cache.finger_speed_total - cache.finger_speeds[c0] - cache.finger_speeds[c1] + speed0
                + speed1
        };
        let usage_total = if c0 == c1 {
            cache.usage_total - cache.usage[c0] + usage0
        } else {
            cache.usage_total - cache.usage[c0] - cache.usage[c1] + usage0 + usage1
        };
        ColumnUpdate { c0, c1, speed0, speed1, usage0, usage1, finger_speed_total, usage_total }
    }

    /// Effort of `p0` and `p1` after their keys were swapped, and the new
    /// total.
    fn efforts_after_swap(
        &self,
        layout: &Layout,
        cache: &LayoutCache,
        Ghost(m): Ghost<Seq<u8>>,
        p0: usize,
        p1: usize,
    ) -> (r: (i64, i64, i64))
        requires
            self.wf(),
            layout.wf(),
            m.len() == 30,
            p0 < POSITIONS,
            p1 < POSITIONS,
            p0 != p1,
            layout.matrix@ == swapped_matrix(m, p0 as int, p1 as int),
            cache.efforts_match(self, m),
        ensures
            r.0 as int == self.effort_at(layout.matrix@, p0 as int),
            r.1 as int == self.effort_at(layout.matrix@, p1 as int),
            r.2 as int == self.effort_term(layout.matrix@),
    {
        let ghost m2 = layout.matrix@;
        proof {
            self.lemma_score_bounds(m, m);
            self.lemma_score_bounds(m2, m2);
        }
        let effort0 = self.char_effort(layout, p0);
        let effort1 = self.char_effort(layout, p1);
        proof {
            assert forall|p: int| 0 <= p < 30 && p != p0 && p != p1 implies #[trigger] self.effort_fn(
                m,
            )(p) == self.effort_fn(m2)(p) by {
                assert(m2[p] == m[p]);
            }
            lemma_sum_two_points(self.effort_fn(m), self.effort_fn(m2), 30, p0 as int, p1 as int);
            self.lemma_effort_at_bounds(m, p0 as int);
            self.lemma_effort_at_bounds(m, p1 as int);
        }
        (effort0, effort1, cache.effort_total - cache.effort[p0] - cache.effort[p1] + effort0
            + effort1)
    }

    /// The three pair-list terms after the keys at `p0` and `p1` were
    /// swapped; a list is read again only where it names one of them.
    fn lists_after_swap(
        &self,
        layout: &Layout,
        cache: &LayoutCache,
        Ghost(m): Ghost<Seq<u8>>,
        p0: usize,
        p1: usize,
    ) -> (r: (i64, i64, i64))
        requires
            self.wf(),
            layout.wf(),
            m.len() == 30,
            p0 < POSITIONS,
            p1 < POSITIONS,
            layout.matrix@ == swapped_matrix(m, p0 as int, p1 as int),
            cache.lists_match(self, m),
        ensures
            r.0 as int == self.scissor_term(layout.matrix@),
            r.1 as int == self.lsb_term(layout.matrix@),
            r.2 as int == self.pinky_ring_term(layout.matrix@),
    {
        proof {
            self.lemma_wf_flags();
            lemma_lists_in_range();
        }
        let scissors = if self.scissor_flags[p0] || self.scissor_flags[p1] {
            self.scissor_score(layout)
        } else {
            proof {
                self.lemma_list_unchanged(m, p0 as int, p1 as int, scissor_list(), self.weights.scissors as int);
            }
            cache.scissors
        };
        let lsbs = if self.lsb_flags[p0] || self.lsb_flags[p1] {
            self.lateral_stretch_bigram_score(layout)
        } else {
            proof {
                self.lemma_list_unchanged(
                    m,
                    p0 as int,
                    p1 as int,
                    lateral_stretch_list(),
                    self.weights.lateral_stretch as int,
                );
            }
            cache.lsbs
        };
        let pinky_ring = if self.pinky_ring_flags[p0] || self.pinky_ring_flags[p1] {
            self.pinky_ring_score(layout)
        } else {
            proof {
                self.lemma_list_unchanged(
                    m,
                    p0 as int,
                    p1 as int,
                    pinky_ring_list(),
                    self.weights.pinky_ring as int,
                );
            }
            cache.pinky_ring
        };
        (scissors, lsbs, pinky_ring)
    }

    /// The trigram term after the keys at `p0` and `p1` were swapped, from
    /// the contribution of the trigrams that hold the two symbols before
    /// and after.
    fn trigrams_after_swap(
        &self,
        layout: &mut Layout,
        cache: &LayoutCache,
        p0: usize,
        p1: usize,
    ) -> (r: i64)
        requires
            self.wf(),
            old(layout).wf(),
            p0 < POSITIONS,
            p1 < POSITIONS,
            cache.trigrams_total as int == self.trigram_term(old(layout).positions@),
        ensures
            final(layout).wf(),
            final(layout).matrix@ == swapped_matrix(old(layout).matrix@, p0 as int, p1 as int),
            final(layout).positions@ == swapped_positions(
                old(layout).matrix@,
                old(layout).positions@,
                p0 as int,
                p1 as int,
            ),
            r as int == self.trigram_term(final(layout).positions@),
    {
        let ghost m = layout.matrix@;
        let ghost pos = layout.positions@;
        let a = layout.matrix[p0];
        let b = layout.matrix[p1];
        let trigrams_start = self.trigram_char_score(layout, a, b);
        layout.swap(p0, p1);
        let trigrams_end = self.trigram_char_score(layout, a, b);
        let ghost pos2 = layout.positions@;
        proof {
            self.lemma_wf_flags();
            self.lemma_trigram_delta(m, pos, p0 as int, p1 as int);
            self.lemma_score_bounds(m, pos2);
            let k = self.trigram_count as int;
            assert forall|i: int| 0 <= i < k implies -1_000_000_000 <= #[trigger] self.touched_fn(
                pos,
                a as int,
                b as int,
            )(i) <= 1_000_000_000 by {
                self.lemma_trigram_value_bound(pos, i);
            }
            lemma_sum_bound(self.touched_fn(pos, a as int, b as int), k, 1_000_000_000);
            assert forall|i: int| 0 <= i < k implies -1_000_000_000 <= #[trigger] self.touched_fn(
                pos2,
                a as int,
                b as int,
            )(i) <= 1_000_000_000 by {
                self.lemma_trigram_value_bound(pos2, i);
            }
            lemma_sum_bound(self.touched_fn(pos2, a as int, b as int), k, 1_000_000_000);
            assert(k * 1_000_000_000 <= 1_000_000_000_000_000);
        }
        cache.trigrams_total - trigrams_start + trigrams_end
    }

    /// Swaps the keys of `swap` and brings `cache` up to date, recomputing
    /// only the fields the swap can change.
    pub fn accept_swap(&self, layout: &mut Layout, swap: &Pair, cache: &mut LayoutCache)
        requires
            self.wf(),
            old(layout).wf(),
            old(cache).matches(self, old(layout)),
            swap.0 < POSITIONS,
            swap.1 < POSITIONS,
        ensures
            final(layout).wf(),
            final(layout).matrix@ == swapped_matrix(old(layout).matrix@, swap.0 as int, swap.1 as int),
            final(layout).positions@ == swapped_positions(
                old(layout).matrix@,
                old(layout).positions@,
                swap.0 as int,
                swap.1 as int,
            ),
            final(cache).matches(self, final(layout)),
            final(layout).matrix@.to_multiset() == old(layout).matrix@.to_multiset(),
    {
        proof {
            reveal(LayoutGenerator::total);
        }
        proof {
            crate::layout::lemma_swap_same_symbols(layout.matrix@, swap.0 as int, swap.1 as int);
        }
        let p0 = swap.0;
        let p1 = swap.1;
        if p0 == p1 {
            proof {
                assert(swapped_matrix(layout.matrix@, p0 as int, p1 as int) =~= layout.matrix@);
                assert(swapped_positions(layout.matrix@, layout.positions@, p0 as int, p1 as int)
                    =~= layout.positions@);
            }
            return ;
        }
        let ghost m = layout.matrix@;
        let trigrams_total = self.trigrams_after_swap(layout, cache, p0, p1);
        let ghost m2 = layout.matrix@;
        let ghost pos2 = layout.positions@;
        let cu = self.columns_after_swap(layout, cache, Ghost(m), p0, p1);
        let (effort0, effort1, effort_total) = self.efforts_after_swap(layout, cache, Ghost(m), p0, p1);
        let (scissors, lsbs, pinky_ring) = self.lists_after_swap(layout, cache, Ghost(m), p0, p1);
        proof {
            self.lemma_score_bounds(m2, pos2);
        }
        cache.effort.set(p0, effort0);
        cache.effort.set(p1, effort1);
        cache.usage.set(cu.c0, cu.usage0);
        cache.usage.set(cu.c1, cu.usage1);
        cache.finger_speeds.set(cu.c0, cu.speed0);
        cache.finger_speeds.set(cu.c1, cu.speed1);
        cache.effort_total = effort_total;
        cache.usage_total = cu.usage_total;
        cache.finger_speed_total = cu.finger_speed_total;
        cache.scissors = scissors;
        cache.lsbs = lsbs;
        cache.pinky_ring = pinky_ring;
        cache.trigrams_total = trigrams_total;
        cache.total_score = trigrams_total - scissors - lsbs - pinky_ring - effort_total
            - cu.usage_total - cu.finger_speed_total;
        proof {
            assert forall|p: int| 0 <= p < 30 implies #[trigger] cache.effort@[p] as int
                == self.effort_at(m2, p) by {
                if p != p0 && p != p1 {
                    assert(m2[p] == m[p]);
                }
            }
            assert forall|c: int| 0 <= c < 8 implies #[trigger] cache.usage@[c] as int
                == self.usage_at(m2, c) by {
                if c != cu.c0 && c != cu.c1 {
                    self.lemma_column_unchanged(m, p0 as int, p1 as int, c);
                }
            }
            assert forall|c: int| 0 <= c < 8 implies #[trigger] cache.finger_speeds@[c] as int
                == self.speed_at(m2, c) by {
                if c != cu.c0 && c != cu.c1 {
                    self.lemma_column_unchanged(m, p0 as int, p1 as int, c);
                }
            }
            assert(cache.efforts_match(self, m2));
            assert(cache.columns_match(self, m2));
            assert(cache.lists_match(self, m2));
            assert(cache.trigrams_total as int == self.trigram_term(pos2));
            assert(cache.total_score as int == self.total(m2, pos2));
        }
    }

    /// The score the layout would have after `swap`; the layout is left as
    /// it was.
    pub fn score_swap_cached(&self, layout: &mut Layout, swap: &Pair, cache: &LayoutCache) -> (r:
        i64)
        requires
            self.wf(),
            old(layout).wf(),
            cache.matches(self, old(layout)),
            swap.0 < POSITIONS,
            swap.1 < POSITIONS,
        ensures
            final(layout).wf(),
            final(layout).matrix@ == old(layout).matrix@,
            final(layout).positions@ == old(layout).positions@,
            r as int == self.total(
                swapped_matrix(old(layout).matrix@, swap.0 as int, swap.1 as int),
                swapped_positions(
                    old(layout).matrix@,
                    old(layout).positions@,
                    swap.0 as int,
                    swap.1 as int,
                ),
            ),
    {
        proof {
            reveal(LayoutGenerator::total);
        }
        let p0 = swap.0;
        let p1 = swap.1;
        if p0 == p1 {
            proof {
                assert(swapped_matrix(layout.matrix@, p0 as int, p1 as int) =~= layout.matrix@);
                assert(swapped_positions(layout.matrix@, layout.positions@, p0 as int, p1 as int)
                    =~= layout.positions@);
            }
            return cache.total_score;
        }
        let ghost m = layout.matrix@;
        let ghost pos = layout.positions@;
        let trigrams_total = self.trigrams_after_swap(layout, cache, p0, p1);
        let ghost m2 = layout.matrix@;
        let ghost pos2 = layout.positions@;
        let cu = self.columns_after_swap(layout, cache, Ghost(m), p0, p1);
        let (_, _, effort_total) = self.efforts_after_swap(layout, cache, Ghost(m), p0, p1);
        let (scissors, lsbs, pinky_ring) = self.lists_after_swap(layout, cache, Ghost(m), p0, p1);
        proof {
            self.lemma_score_bounds(m2, pos2);
        }
        layout.swap(p0, p1);
        proof {
            crate::layout::lemma_swap_twice(m, pos, p0 as int, p1 as int);
        }
        trigrams_total - scissors - lsbs - pinky_ring - effort_total - cu.usage_total
            - cu.finger_speed_total
    }
}

impl LayoutCache {
    /// The two caches hold the same values.
    pub open spec fn same_values(&self, other: &LayoutCache) -> bool {
        &&& self.effort@ == other.effort@
        &&& self.usage@ == other.usage@
        &&& self.finger_speeds@ == other.finger_speeds@
        &&& self.effort_total == other.effort_total
        &&& self.usage_total == other.usage_total
        &&& self.finger_speed_total == other.finger_speed_total
        &&& self.scissors == other.scissors
        &&& self.lsbs == other.lsbs
        &&& self.pinky_ring == other.pinky_ring
        &&& self.trigrams_total == other.trigrams_total
        &&& self.total_score == other.total_score
    }
}

/// A cache kept up to date through any sequence of swaps holds exactly what
/// a cache computed from scratch for the same layout holds: both agree
/// with the layout field by field, so they agree with each other.
pub proof fn lemma_cache_recompute_agrees(
    g: &LayoutGenerator,
    m: Seq<u8>,
    pos: Seq<u8>,
    kept: &LayoutCache,
    fresh: &LayoutCache,
)
    requires
        kept.matches_at(g, m, pos),
        fresh.matches_at(g, m, pos),
    ensures
        kept.same_values(fresh),
{
    assert(kept.effort@ =~= fresh.effort@);
    assert(kept.usage@ =~= fresh.usage@);
    assert(kept.finger_speeds@ =~= fresh.finger_speeds@);
}

/// Swapping the same two keys twice restores the layout, and with it every
/// value of its cache.
pub proof fn lemma_swap_twice_restores(
    g: &LayoutGenerator,
    m: Seq<u8>,
    pos: Seq<u8>,
    p0: int,
    p1: int,
    before: &LayoutCache,
    after: &LayoutCache,
)
    requires
        positions_of(m, pos),
        0 <= p0 < 30,
        0 <= p1 < 30,
        before.matches_at(g, m, pos),
        after.matches_at(
            g,
            swapped_matrix(swapped_matrix(m, p0, p1), p0, p1),
            swapped_positions(
                swapped_matrix(m, p0, p1),
                swapped_positions(m, pos, p0, p1),
                p0,
                p1,
            ),
        ),
    ensures
        swapped_matrix(swapped_matrix(m, p0, p1), p0, p1) == m,
        swapped_positions(swapped_matrix(m, p0, p1), swapped_positions(m, pos, p0, p1), p0, p1)
            == pos,
        after.same_values(before),
{
    crate::layout::lemma_swap_twice(m, pos, p0, p1);
    lemma_cache_recompute_agrees(g, m, pos, after, before);
}

impl LayoutGenerator {
    /// A corpus whose frequencies are all zero scores every layout at
    /// exactly zero.
    pub proof fn lemma_zero_frequencies_score_zero(&self, m: Seq<u8>, pos: Seq<u8>)
        requires
            self.wf(),
            self.data.all_zero(),
            m.len() == 30,
        ensures
            self.total(m, pos) == 0,
    {
        reveal(LayoutGenerator::wf);
        reveal(LayoutGenerator::total);
        reveal(LayoutGenerator::usage_at);
        reveal(LayoutGenerator::speed_at);
        reveal(LayoutGenerator::list_score);
        reveal(LayoutGenerator::trigram_value);
        let n = self.n();
        assert forall|s: int| #[trigger] self.freq(s) == 0 by {
            if 0 <= s < self.data.characters@.len() {
                assert(self.data.characters@[s] <= 0);
            }
        }
        assert forall|a: int, b: int| #[trigger] self.spec_weighted_bigram(a, b) == 0 by {
            let w = self.weights;
            let f0 = self.bigram(a, b);
            let f1 = crate::language::pair_freq(self.data.skipgrams@, n, a, b);
            let f2 = crate::language::pair_freq(self.data.skipgrams2@, n, a, b);
            let f3 = crate::language::pair_freq(self.data.skipgrams3@, n, a, b);
            if 0 <= a < n && 0 <= b < n {
                let k = a * n + b;
                if k < self.data.bigrams@.len() {
                    assert(self.data.bigrams@[k] <= 0);
                }
                if k < self.data.skipgrams@.len() {
                    assert(self.data.skipgrams@[k] <= 0);
                }
                if k < self.data.skipgrams2@.len() {
                    assert(self.data.skipgrams2@[k] <= 0);
                }
                if k < self.data.skipgrams3@.len() {
                    assert(self.data.skipgrams3@[k] <= 0);
                }
            }
            assert(f0 == 0 && f1 == 0 && f2 == 0 && f3 == 0);
            assert((w.sfb * f0 + w.skip1 * f1 + w.skip2 * f2 + w.skip3 * f3) * w.speed == 0)
                by (nonlinear_arith)
                requires
                    f0 == 0,
                    f1 == 0,
                    f2 == 0,
                    f3 == 0,
            ;
        }
        assert forall|a: int, b: int| #[trigger] self.bigram(a, b) == 0 by {
            if 0 <= a < n && 0 <= b < n && a * n + b < self.data.bigrams@.len() {
                assert(self.data.bigrams@[a * n + b] <= 0);
            }
        }
        assert forall|p: int| 0 <= p < 30 implies 0 <= #[trigger] self.effort_fn(m)(p) <= 0 by {}
        lemma_sum_nonneg_bound(self.effort_fn(m), 30, 0);
        assert forall|c: int| 0 <= c < 8 implies 0 <= #[trigger] self.usage_fn(m)(c) <= 0 by {
            lemma_column_geometry(c);
            let len = column_positions(c).len() as int;
            assert forall|k: int| 0 <= k < len implies 0 <= #[trigger] self.column_freq_fn(m, c)(k)
                <= 0 by {}
            lemma_sum_nonneg_bound(self.column_freq_fn(m, c), len, 0);
        }
        lemma_sum_nonneg_bound(self.usage_fn(m), 8, 0);
        assert forall|c: int| 0 <= c < 8 implies 0 <= #[trigger] self.speed_fn(m)(c) <= 0 by {
            lemma_column_geometry(c);
            let len = column_pairs(c).len() as int;
            assert forall|k: int| 0 <= k < len implies 0 <= #[trigger] self.column_speed_fn(m, c)(k)
                <= 0 by {
                let (p, q) = column_pairs(c)[k];
                assert(self.spec_weighted_bigram(m[p] as int, m[q] as int) == 0);
                assert(self.spec_weighted_bigram(m[q] as int, m[p] as int) == 0);
            }
            lemma_sum_nonneg_bound(self.column_speed_fn(m, c), len, 0);
        }
        lemma_sum_nonneg_bound(self.speed_fn(m), 8, 0);
        lemma_lists_in_range();
        assert forall|k: int| 0 <= k < scissor_list().len() implies 0 <= #[trigger] self.list_fn(
            m,
            scissor_list(),
        )(k) <= 0 by {}
        lemma_sum_nonneg_bound(self.list_fn(m, scissor_list()), scissor_list().len() as int, 0);
        assert forall|k: int| 0 <= k < lateral_stretch_list().len() implies 0
            <= #[trigger] self.list_fn(m, lateral_stretch_list())(k) <= 0 by {}
        lemma_sum_nonneg_bound(
            self.list_fn(m, lateral_stretch_list()),
            lateral_stretch_list().len() as int,
            0,
        );
        assert forall|k: int| 0 <= k < pinky_ring_list().len() implies 0 <= #[trigger] self.list_fn(
            m,
            pinky_ring_list(),
        )(k) <= 0 by {}
        lemma_sum_nonneg_bound(self.list_fn(m, pinky_ring_list()), pinky_ring_list().len() as int, 0);
        let kk = self.trigram_count as int;
        assert forall|i: int| 0 <= i < kk implies 0 <= #[trigger] self.trigram_fn(pos)(i) <= 0 by {
            assert(self.data.trigrams@[i].freq <= 0);
        }
        lemma_sum_nonneg_bound(self.trigram_fn(pos), kk, 0);
    }
}

} // verus!

use vstd::prelude::*;

use crate::geometry::{
    column_pairs, column_positions, lemma_column_geometry, lemma_lists_in_range,
    lemma_sfb_list_in_range, pairs_are, pairs_in_range, sfb_indices, sfb_list_upto, speed_start,
    speed_start_of, FINGER_COLUMNS, POSITIONS,
};
use crate::keyboard::lemma_effort_range;
use crate::language::{all_below, pair_entry, pair_freq, MAX_FREQ};
use crate::layout::Layout;
use crate::pair::Pair;
use crate::pattern::TrigramPattern;
use crate::scoring::{holds, pattern_weight, LayoutGenerator};
use crate::sums::{lemma_sum_add, lemma_sum_over_sorted, sum_over, sum_to};
use crate::weights::Weights;

verus! {

broadcast use vstd::multiset::group_multiset_axioms, vstd::seq_lib::group_to_multiset_ensures;

/// The signed weight of a pattern.
pub fn pattern_weight_of(w: &Weights, p: TrigramPattern) -> (r: i64)
    requires
        w.wf(),
    ensures
        r as int == pattern_weight(*w, p),
        -1000 <= r <= 1000,
{
    match p {
        TrigramPattern::Inroll => w.inroll as i64,
        TrigramPattern::Outroll => w.outroll as i64,
        TrigramPattern::Onehand => w.onehand as i64,
        TrigramPattern::Alternate => w.alternate as i64,
        TrigramPattern::AlternateSfs => w.alternate_sfs as i64,
        TrigramPattern::Redirect => -(w.redirect as i64),
        TrigramPattern::RedirectSfs => -(w.redirect_sfs as i64),
        TrigramPattern::BadRedirect => -(w.bad_redirect as i64),
        TrigramPattern::BadRedirectSfs => -(w.bad_redirect_sfs as i64),
        _ => 0,
    }
}

/// Which frequency table a same-finger statistic reads.
#[derive(Clone, Copy, Debug, PartialEq, Eq, Structural)]
pub enum NGramType {
    SFB,
    Skipgram,
    DSFB,
    Skipgram2,
    DSFB2,
    Skipgram3,
    DSFB3,
}

/// An entry of a bounded table is within its bound.
pub proof fn lemma_pair_freq_bound(t: Seq<u32>, n: int, a: int, b: int)
    requires
        all_below(t, MAX_FREQ),
    ensures
        0 <= pair_freq(t, n, a, b) <= MAX_FREQ,
{
    if 0 <= a < n && 0 <= b < n && a * n + b < t.len() {
        assert(t[a * n + b] <= MAX_FREQ);
    }
}

/// Position of a pattern in the counters of `TrigramStats`.
pub open spec fn pattern_index(p: TrigramPattern) -> int {
    match p {
        TrigramPattern::Alternate => 0,
        TrigramPattern::AlternateSfs => 1,
        TrigramPattern::Inroll => 2,
        TrigramPattern::Outroll => 3,
        TrigramPattern::Onehand => 4,
        TrigramPattern::Redirect => 5,
        TrigramPattern::RedirectSfs => 6,
        TrigramPattern::BadRedirect => 7,
        TrigramPattern::BadRedirectSfs => 8,
        TrigramPattern::Sfb => 9,
        TrigramPattern::BadSfb => 10,
        TrigramPattern::Sft => 11,
        TrigramPattern::Other => 12,
        TrigramPattern::Invalid => 13,
    }
}

pub fn pattern_index_of(p: TrigramPattern) -> (r: usize)
    ensures
        r as int == pattern_index(p),
        r < 14,
{
    match p {
        TrigramPattern::Alternate => 0,
        TrigramPattern::AlternateSfs => 1,
        TrigramPattern::Inroll => 2,
        TrigramPattern::Outroll => 3,
        TrigramPattern::Onehand => 4,
        TrigramPattern::Redirect => 5,
        TrigramPattern::RedirectSfs => 6,
        TrigramPattern::BadRedirect => 7,
        TrigramPattern::BadRedirectSfs => 8,
        TrigramPattern::Sfb => 9,
        TrigramPattern::BadSfb => 10,
        TrigramPattern::Sft => 11,
        TrigramPattern::Other => 12,
        TrigramPattern::Invalid => 13,
    }
}

/// Summed trigram frequency of each pattern, in the order of
/// `pattern_index`.
#[derive(Clone, Debug)]
pub struct TrigramStats {
    pub counts: Vec<u64>,
}

impl TrigramStats {
    /// The summed frequency of pattern `p`.
    pub fn get(&self, p: TrigramPattern) -> (r: u64)
        requires
            self.counts@.len() == 14,
        ensures
            r == self.counts@[pattern_index(p)],
    {
        self.counts[pattern_index_of(p)]
    }
}

impl LayoutGenerator {
    /// Bounds of a symbol frequency.
    pub proof fn lemma_freq_bounds(&self, s: int)
        requires
            self.wf(),
        ensures
            0 <= self.freq(s) <= MAX_FREQ,
    {
        reveal(LayoutGenerator::wf);
        if 0 <= s < self.data.characters@.len() {
            assert(self.data.characters@[s] <= MAX_FREQ);
        }
    }

    /// Bounds of a bigram frequency and of its same-finger weight.
    pub proof fn lemma_bigram_bounds(&self, a: int, b: int)
        requires
            self.wf(),
        ensures
            0 <= self.bigram(a, b) <= MAX_FREQ,
            0 <= self.spec_weighted_bigram(a, b) <= 4_000_000_000_000,
    {
        reveal(LayoutGenerator::wf);
        let n = self.n();
        let w = self.weights;
        let f0 = self.bigram(a, b);
        let f1 = crate::language::pair_freq(self.data.skipgrams@, n, a, b);
        let f2 = crate::language::pair_freq(self.data.skipgrams2@, n, a, b);
        let f3 = crate::language::pair_freq(self.data.skipgrams3@, n, a, b);
        if 0 <= a < n && 0 <= b < n {
            let k = a * n + b;
            if k < self.data.bigrams@.len() {
                assert(self.data.bigrams@[k] <= MAX_FREQ);
            }
            if k < self.data.skipgrams@.len() {
                assert(self.data.skipgrams@[k] <= MAX_FREQ);
            }
            if k < self.data.skipgrams2@.len() {
                assert(self.data.skipgrams2@[k] <= MAX_FREQ);
            }
            if k < self.data.skipgrams3@.len() {
                assert(self.data.skipgrams3@[k] <= MAX_FREQ);
            }
        }
        assert(0 <= (w.sfb * f0 + w.skip1 * f1 + w.skip2 * f2 + w.skip3 * f3) * w.speed
            <= 4_000_000_000_000) by (nonlinear_arith)
            requires
                0 <= f0 <= 1_000_000,
                0 <= f1 <= 1_000_000,
                0 <= f2 <= 1_000_000,
                0 <= f3 <= 1_000_000,
                w.sfb <= 1000,
                w.skip1 <= 1000,
                w.skip2 <= 1000,
                w.skip3 <= 1000,
                w.speed <= 1000,
        ;
    }

    /// Effort of the key at `i`.
    pub fn char_effort(&self, layout: &Layout, i: usize) -> (r: i64)
        requires
            self.wf(),
            layout.wf(),
            i < POSITIONS,
        ensures
            r as int == self.effort_at(layout.matrix@, i as int),
            0 <= r <= 35_000_000_000,
    {
        proof {
            reveal(LayoutGenerator::wf);
        }
        let s = layout.matrix[i];
        let f = self.data.char_freq(s);
        proof {
            self.lemma_freq_bounds(s as int);
            lemma_effort_range(self.keyboard, i as int);
            let e = self.effort_map@[i as int];
            let t = crate::keyboard::effort_table(self.keyboard)[i as int];
            let h = self.weights.heatmap as int;
            assert(0 <= (t - 2) * h <= 35_000) by (nonlinear_arith)
                requires
                    10 <= t <= 37,
                    0 <= h <= 1000,
            ;
            assert(0 <= f * e <= 35_000_000_000) by (nonlinear_arith)
                requires
                    0 <= f <= 1_000_000,
                    0 <= e <= 35_000,
            ;
        }
        (f as i64) * self.effort_map[i] / 45
    }

    /// Overuse penalty of finger column `column`.
    pub fn column_usage(&self, layout: &Layout, column: usize) -> (r: i64)
        requires
            self.wf(),
            layout.wf(),
            column < FINGER_COLUMNS,
        ensures
            r as int == self.usage_at(layout.matrix@, column as int),
            0 <= r <= 6_000_000_000,
    {
        proof {
            reveal(LayoutGenerator::usage_at);
            reveal(LayoutGenerator::wf);
        }
        let ghost m = layout.matrix@;
        let ghost c = column as int;
        proof {
            lemma_column_geometry(c);
        }
        let cols = &self.column_positions[column];
        let mut res: i64 = 0;
        let mut k: usize = 0;
        while k < cols.len()
            invariant
                self.wf(),
                layout.wf(),
                m == layout.matrix@,
                c == column as int,
                0 <= c < 8,
                cols@ == self.column_positions@[c]@,
                cols@.len() == column_positions(c).len(),
                cols@.len() <= 6,
                k <= cols@.len(),
                forall|j: int|
                    0 <= j < column_positions(c).len() ==> 0 <= #[trigger] column_positions(c)[j]
                        < 30,
                forall|j: int|
                    0 <= j < column_positions(c).len() ==> #[trigger] cols@[j] as int
                        == column_positions(c)[j],
                res as int == sum_to(self.column_freq_fn(m, c), k as int),
                0 <= res <= k * 1_000_000,
            decreases cols@.len() - k,
        {
            proof {
                reveal(LayoutGenerator::wf);
            }
            let p = cols[k];
            assert(p as int == column_positions(c)[k as int]);
            let f = self.data.char_freq(layout.matrix[p]);
            proof {
                self.lemma_freq_bounds(m[p as int] as int);
            }
            res = res + f as i64;
            k = k + 1;
        }
        let bias: i64 = match column {
            0 | 7 => self.weights.bias_pinky as i64,
            1 | 6 => self.weights.bias_ring as i64,
            2 | 5 => self.weights.bias_middle as i64,
            _ => self.weights.bias_index as i64,
        };
        let over = res - bias;
        let over = if over > 0 {
            over
        } else {
            0
        };
        proof {
            let o = self.weights.overuse_penalty as int;
            assert(0 <= o * over <= 6_000_000_000) by (nonlinear_arith)
                requires
                    0 <= o <= 1000,
                    0 <= over <= 6_000_000,
            ;
        }
        (self.weights.overuse_penalty as i64) * over
    }

    /// Same-finger weight of typing `a` then `b`.
    pub fn weighted_bigram(&self, a: u8, b: u8) -> (r: i64)
        requires
            self.wf(),
        ensures
            r as int == self.spec_weighted_bigram(a as int, b as int),
    {
        proof {
            reveal(LayoutGenerator::wf);
        }
        let n = self.data.characters.len();
        let f0 = pair_entry(&self.data.bigrams, n, a, b);
        let f1 = pair_entry(&self.data.skipgrams, n, a, b);
        let f2 = pair_entry(&self.data.skipgrams2, n, a, b);
        let f3 = pair_entry(&self.data.skipgrams3, n, a, b);
        let w = &self.weights;
        proof {
            self.lemma_bigram_bounds(a as int, b as int);
            if (a as int) < n && (b as int) < n {
                let k = (a as int) * (n as int) + (b as int);
                if k < self.data.bigrams@.len() {
                    assert(self.data.bigrams@[k] <= MAX_FREQ);
                }
                if k < self.data.skipgrams@.len() {
                    assert(self.data.skipgrams@[k] <= MAX_FREQ);
                }
                if k < self.data.skipgrams2@.len() {
                    assert(self.data.skipgrams2@[k] <= MAX_FREQ);
                }
                if k < self.data.skipgrams3@.len() {
                    assert(self.data.skipgrams3@[k] <= MAX_FREQ);
                }
            }
            assert(w.sfb * f0 <= 1_000_000_000) by (nonlinear_arith)
                requires
                    f0 <= 1_000_000,
                    w.sfb <= 1000,
            ;
            assert(w.skip1 * f1 <= 1_000_000_000) by (nonlinear_arith)
                requires
                    f1 <= 1_000_000,
                    w.skip1 <= 1000,
            ;
            assert(w.skip2 * f2 <= 1_000_000_000) by (nonlinear_arith)
                requires
                    f2 <= 1_000_000,
                    w.skip2 <= 1000,
            ;
            assert(w.skip3 * f3 <= 1_000_000_000) by (nonlinear_arith)
                requires
                    f3 <= 1_000_000,
                    w.skip3 <= 1000,
            ;
        }
        let sum = (w.sfb as i64) * (f0 as i64) + (w.skip1 as i64) * (f1 as i64) + (w.skip2 as i64)
            * (f2 as i64) + (w.skip3 as i64) * (f3 as i64);
        proof {
            let sp = w.speed as int;
            assert(0 <= sum * sp <= 4_000_000_000_000) by (nonlinear_arith)
                requires
                    0 <= sum <= 4_000_000_000,
                    0 <= sp <= 1000,
            ;
        }
        sum * (w.speed as i64)
    }

    /// Finger-speed cost of the key pair `pair` at travel distance
    /// `distance`.
    pub fn pair_finger_speed(&self, layout: &Layout, pair: Pair, distance: u32) -> (r: i64)
        requires
            self.wf(),
            layout.wf(),
            pair.0 < POSITIONS,
            pair.1 < POSITIONS,
            distance <= 1000,
        ensures
            r as int == self.pair_speed(
                layout.matrix@,
                pair.0 as int,
                pair.1 as int,
                distance as int,
            ),
            0 <= r <= 8_000_000_000_000_000,
    {
        proof {
            reveal(LayoutGenerator::wf);
        }
        let c1 = layout.matrix[pair.0];
        let c2 = layout.matrix[pair.1];
        let w1 = self.weighted_bigram(c1, c2);
        let w2 = self.weighted_bigram(c2, c1);
        proof {
            self.lemma_bigram_bounds(c1 as int, c2 as int);
            self.lemma_bigram_bounds(c2 as int, c1 as int);
            let d = distance as int;
            assert(0 <= (w1 + w2) * d <= 8_000_000_000_000_000) by (nonlinear_arith)
                requires
                    0 <= w1 + w2 <= 8_000_000_000_000,
                    0 <= d <= 1000,
            ;
            let x = (w1 + w2) * d;
            assert(0 <= x / 10_000 <= x);
        }
        (w1 + w2) * (distance as i64) / 10_000
    }

    /// Finger-speed cost of finger column `column`.
    pub fn column_finger_speed(&self, layout: &Layout, column: usize) -> (r: i64)
        requires
            self.wf(),
            layout.wf(),
            column < FINGER_COLUMNS,
        ensures
            r as int == self.speed_at(layout.matrix@, column as int),
            0 <= r <= 120_000_000_000_000_000,
    {
        proof {
            reveal(LayoutGenerator::speed_at);
            reveal(LayoutGenerator::wf);
        }
        let ghost m = layout.matrix@;
        let ghost c = column as int;
        proof {
            lemma_column_geometry(c);
        }
        let pairs = &self.column_pairs[column];
        let start = speed_start_of(column);
        let mut res: i64 = 0;
        let mut k: usize = 0;
        while k < pairs.len()
            invariant
                self.wf(),
                layout.wf(),
                m == layout.matrix@,
                c == column as int,
                0 <= c < 8,
                start as int == speed_start(c),
                speed_start(c) + column_pairs(c).len() <= 48,
                pairs@ == self.column_pairs@[c]@,
                pairs_are(pairs@, column_pairs(c)),
                pairs@.len() <= 15,
                k <= pairs@.len(),
                forall|j: int|
                    0 <= j < column_pairs(c).len() ==> 0 <= #[trigger] column_pairs(c)[j].0 < 30
                        && 0 <= column_pairs(c)[j].1 < 30,
                res as int == sum_to(self.column_speed_fn(m, c), k as int),
                0 <= res <= k * 8_000_000_000_000_000,
            decreases pairs@.len() - k,
        {
            proof {
                reveal(LayoutGenerator::wf);
            }
            let pair = pairs[k];
            assert(pair.0 as int == column_pairs(c)[k as int].0);
            let d = self.distances[start + k];
            let v = self.pair_finger_speed(layout, pair, d);
            res = res + v;
            k = k + 1;
        }
        res
    }

    /// Weighted bigram frequency, both orders, over a fixed list of
    /// position pairs.
    fn pair_list_score(
        &self,
        layout: &Layout,
        list: &Vec<Pair>,
        Ghost(l): Ghost<Seq<(int, int)>>,
        weight: u32,
    ) -> (r: i64)
        requires
            self.wf(),
            layout.wf(),
            pairs_are(list@, l),
            pairs_in_range(l),
            l.len() <= 18,
            weight <= 1000,
        ensures
            r as int == self.list_score(layout.matrix@, l, weight as int),
            0 <= r <= 36_000_000_000,
    {
        proof {
            reveal(LayoutGenerator::list_score);
            reveal(LayoutGenerator::wf);
        }
        let ghost m = layout.matrix@;
        let n = self.data.characters.len();
        let mut res: i64 = 0;
        let mut k: usize = 0;
        while k < list.len()
            invariant
                self.wf(),
                layout.wf(),
                m == layout.matrix@,
                n as int == self.n(),
                pairs_are(list@, l),
                pairs_in_range(l),
                l.len() <= 18,
                k <= list@.len(),
                res as int == sum_to(self.list_fn(m, l), k as int),
                0 <= res <= k * 2_000_000,
            decreases list@.len() - k,
        {
            proof {
                reveal(LayoutGenerator::wf);
            }
            let pair = list[k];
            assert(pair.0 as int == l[k as int].0 && pair.1 as int == l[k as int].1);
            let c0 = layout.matrix[pair.0];
            let c1 = layout.matrix[pair.1];
            proof {
                self.lemma_bigram_bounds(c0 as int, c1 as int);
                self.lemma_bigram_bounds(c1 as int, c0 as int);
            }
            let f = pair_entry(&self.data.bigrams, n, c0, c1) as i64 + pair_entry(
                &self.data.bigrams,
                n,
                c1,
                c0,
            ) as i64;
            res = res + f;
            k = k + 1;
        }
        proof {
            let w = weight as int;
            assert(0 <= w * res <= 36_000_000_000) by (nonlinear_arith)
                requires
                    0 <= w <= 1000,
                    0 <= res <= 36_000_000,
            ;
        }
        (weight as i64) * res
    }

    /// Weighted frequency of the bigrams on the scissor position pairs.
    pub fn scissor_score(&self, layout: &Layout) -> (r: i64)
        requires
            self.wf(),
            layout.wf(),
        ensures
            r as int == self.scissor_term(layout.matrix@),
            0 <= r <= 36_000_000_000,
    {
        proof {
            reveal(LayoutGenerator::wf);
        }
        proof {
            lemma_lists_in_range();
        }
        self.pair_list_score(
            layout,
            &self.scissor_indices,
            Ghost(crate::geometry::scissor_list()),
            self.weights.scissors,
        )
    }

    /// Weighted frequency of the bigrams on the lateral-stretch position
    /// pairs.
    pub fn lateral_stretch_bigram_score(&self, layout: &Layout) -> (r: i64)
        requires
            self.wf(),
            layout.wf(),
        ensures
            r as int == self.lsb_term(layout.matrix@),
            0 <= r <= 36_000_000_000,
    {
        proof {
            reveal(LayoutGenerator::wf);
        }
        proof {
            lemma_lists_in_range();
        }
        self.pair_list_score(
            layout,
            &self.lateral_stretch_bigram_indices,
            Ghost(crate::geometry::lateral_stretch_list()),
            self.weights.lateral_stretch,
        )
    }

    /// Weighted frequency of the bigrams on the pinky-ring position pairs.
    pub fn pinky_ring_score(&self, layout: &Layout) -> (r: i64)
        requires
            self.wf(),
            layout.wf(),
        ensures
            r as int == self.pinky_ring_term(layout.matrix@),
            0 <= r <= 36_000_000_000,
    {
        proof {
            reveal(LayoutGenerator::wf);
        }
        proof {
            lemma_lists_in_range();
        }
        self.pair_list_score(
            layout,
            &self.pinky_ring_indices,
            Ghost(crate::geometry::pinky_ring_list()),
            self.weights.pinky_ring,
        )
    }

    /// Signed contribution of the `i`-th trigram.
    fn trigram_value_at(&self, layout: &Layout, i: usize) -> (r: i64)
        requires
            self.wf(),
            layout.wf(),
            i < self.trigram_count,
        ensures
            r as int == self.trigram_value(layout.positions@, i as int),
            -1_000_000_000 <= r <= 1_000_000_000,
    {
        proof {
            reveal(LayoutGenerator::trigram_value);
            reveal(LayoutGenerator::wf);
        }
        let t = self.data.trigrams[i];
        let pattern = match (
            layout.column_of_symbol(t.a),
            layout.column_of_symbol(t.b),
            layout.column_of_symbol(t.c),
        ) {
            (Some(ca), Some(cb), Some(cc)) => self.trigram_table[ca * 64 + cb * 8 + cc],
            _ => TrigramPattern::Invalid,
        };
        let w = pattern_weight_of(&self.weights, pattern);
        proof {
            assert(t.freq <= MAX_FREQ);
            let f = t.freq as int;
            assert(-1_000_000_000 <= f * w <= 1_000_000_000) by (nonlinear_arith)
                requires
                    0 <= f <= 1_000_000,
                    -1000 <= w <= 1000,
            ;
        }
        (t.freq as i64) * w
    }

    /// The trigram term of the score: every scored trigram's frequency
    /// times the signed weight of its pattern.
    pub fn trigram_score_iter(&self, layout: &Layout) -> (r: i64)
        requires
            self.wf(),
            layout.wf(),
        ensures
            r as int == self.trigram_term(layout.positions@),
    {
        proof {
            reveal(LayoutGenerator::wf);
        }
        let ghost pos = layout.positions@;
        let mut res: i64 = 0;
        let mut i: usize = 0;
        while i < self.trigram_count
            invariant
                self.wf(),
                layout.wf(),
                pos == layout.positions@,
                i <= self.trigram_count,
                res as int == sum_to(self.trigram_fn(pos), i as int),
                -(i * 1_000_000_000) <= res <= i * 1_000_000_000,
            decreases self.trigram_count - i,
        {
            proof {
                reveal(LayoutGenerator::wf);
            }
            let v = self.trigram_value_at(layout, i);
            res = res + v;
            i = i + 1;
        }
        res
    }

    /// The summed contribution of the scored trigrams that hold `a` or `b`,
    /// read through the per-symbol index.
    pub fn trigram_char_score(&self, layout: &Layout, a: u8, b: u8) -> (r: i64)
        requires
            self.wf(),
            layout.wf(),
        ensures
            r as int == self.touched_term(layout.positions@, a as int, b as int),
    {
        proof {
            reveal(LayoutGenerator::wf);
        }
        let ghost pos = layout.positions@;
        let ghost g1 = self.first_fn(pos, a as int);
        let ghost g2 = self.second_fn(pos, a as int, b as int);
        let l1 = &self.by_symbol[a as usize];
        proof {
            crate::sums::lemma_increasing_len(l1@, self.trigram_count as int);
        }
        let mut r1: i64 = 0;
        let mut j: usize = 0;
        while j < l1.len()
            invariant
                self.wf(),
                layout.wf(),
                pos == layout.positions@,
                g1 == self.first_fn(pos, a as int),
                l1@ == self.by_symbol@[a as int]@,
                crate::sums::increasing_below(l1@, self.trigram_count as int),
                j <= l1@.len(),
                l1@.len() <= self.trigram_count,
                r1 as int == sum_over(l1@.take(j as int), g1),
                -(j * 1_000_000_000) <= r1 <= j * 1_000_000_000,
            decreases l1@.len() - j,
        {
            proof {
                reveal(LayoutGenerator::wf);
            }
            let i = l1[j];
            let t = self.data.trigrams[i];
            let v = if t.a == a || t.b == a || t.c == a {
                self.trigram_value_at(layout, i)
            } else {
                0
            };
            assert(l1@.take(j + 1).drop_last() =~= l1@.take(j as int));
            assert(l1@.take(j + 1).last() == i);
            assert(t == self.data.trigrams@[i as int]);
            assert(holds(self.data.trigrams@[i as int], a as int) == (t.a == a || t.b == a || t.c == a));
            assert(v as int == g1(i as int));
            assert(sum_over(l1@.take(j + 1), g1) == sum_over(l1@.take(j as int), g1) + g1(i as int));
            r1 = r1 + v;
            j = j + 1;
        }
        let l2 = &self.by_symbol[b as usize];
        proof {
            crate::sums::lemma_increasing_len(l2@, self.trigram_count as int);
        }
        let mut r2: i64 = 0;
        let mut j: usize = 0;
        while j < l2.len()
            invariant
                self.wf(),
                layout.wf(),
                pos == layout.positions@,
                g2 == self.second_fn(pos, a as int, b as int),
                l2@ == self.by_symbol@[b as int]@,
                crate::sums::increasing_below(l2@, self.trigram_count as int),
                j <= l2@.len(),
                l2@.len() <= self.trigram_count,
                r2 as int == sum_over(l2@.take(j as int), g2),
                -(j * 1_000_000_000) <= r2 <= j * 1_000_000_000,
            decreases l2@.len() - j,
        {
            proof {
                reveal(LayoutGenerator::wf);
            }
            let i = l2[j];
            let t = self.data.trigrams[i];
            let v = if (t.a == b || t.b == b || t.c == b) && !(t.a == a || t.b == a || t.c == a) {
                self.trigram_value_at(layout, i)
            } else {
                0
            };
            assert(l2@.take(j + 1).drop_last() =~= l2@.take(j as int));
            assert(l2@.take(j + 1).last() == i);
            assert(v as int == g2(i as int));
            assert(sum_over(l2@.take(j + 1), g2) == sum_over(l2@.take(j as int), g2) + g2(i as int));
            r2 = r2 + v;
            j = j + 1;
        }
        proof {
            assert(l1@.take(l1@.len() as int) =~= l1@);
            assert(l2@.take(l2@.len() as int) =~= l2@);
            lemma_sum_over_sorted(l1@, g1, self.trigram_count as int);
            lemma_sum_over_sorted(l2@, g2, self.trigram_count as int);
            lemma_sum_add(g1, g2, self.touched_fn(pos, a as int, b as int), self.trigram_count as int);
        }
        r1 + r2
    }

    /// The frequency table that `t` reads.
    pub open spec fn table_of(&self, t: NGramType) -> Seq<u32> {
        match t {
            NGramType::SFB => self.data.bigrams@,
            NGramType::Skipgram | NGramType::DSFB => self.data.skipgrams@,
            NGramType::Skipgram2 | NGramType::DSFB2 => self.data.skipgrams2@,
            NGramType::Skipgram3 | NGramType::DSFB3 => self.data.skipgrams3@,
        }
    }

    /// Frequency, both orders, of the `k`-th same-finger pair.
    pub open spec fn same_finger_pair(&self, m: Seq<u8>, table: Seq<u32>, k: int) -> int {
        let (p, q) = sfb_list_upto(8)[k];
        pair_freq(table, self.n(), m[p] as int, m[q] as int) + pair_freq(
            table,
            self.n(),
            m[q] as int,
            m[p] as int,
        )
    }

    pub open spec fn same_finger_fn(&self, m: Seq<u8>, table: Seq<u32>) -> spec_fn(int) -> int {
        |k: int| self.same_finger_pair(m, table, k)
    }

    /// Total frequency of the bigrams of `bigram_type` typed by one finger
    /// on `layout`, both orders of each of the 48 same-finger key pairs.
    pub fn bigram_percent(&self, layout: &Layout, bigram_type: NGramType) -> (r: u64)
        requires
            self.wf(),
            layout.wf(),
        ensures
            r as int == sum_to(self.same_finger_fn(layout.matrix@, self.table_of(bigram_type)), 48),
    {
        proof {
            reveal(LayoutGenerator::wf);
        }
        let table = match bigram_type {
            NGramType::SFB => &self.data.bigrams,
            NGramType::Skipgram | NGramType::DSFB => &self.data.skipgrams,
            NGramType::Skipgram2 | NGramType::DSFB2 => &self.data.skipgrams2,
            NGramType::Skipgram3 | NGramType::DSFB3 => &self.data.skipgrams3,
        };
        let ghost m = layout.matrix@;
        let ghost t = self.table_of(bigram_type);
        let pairs = sfb_indices();
        proof {
            lemma_sfb_list_in_range();
        }
        let n = self.data.characters.len();
        let mut res: u64 = 0;
        let mut k: usize = 0;
        while k < 48
            invariant
                self.wf(),
                layout.wf(),
                m == layout.matrix@,
                table@ == t,
                all_below(t, MAX_FREQ),
                n as int == self.n(),
                n <= 256,
                pairs_are(pairs@, sfb_list_upto(8)),
                pairs_in_range(sfb_list_upto(8)),
                sfb_list_upto(8).len() == 48,
                k <= 48,
                res as int == sum_to(self.same_finger_fn(m, t), k as int),
                res <= k * 2_000_000,
            decreases 48 - k,
        {
            let pair = pairs[k];
            assert(pair.0 as int == sfb_list_upto(8)[k as int].0);
            let a = layout.matrix[pair.0];
            let b = layout.matrix[pair.1];
            let f0 = pair_entry(table, n, a, b);
            let f1 = pair_entry(table, n, b, a);
            proof {
                lemma_pair_freq_bound(t, n as int, a as int, b as int);
                lemma_pair_freq_bound(t, n as int, b as int, a as int);
            }
            res = res + f0 as u64 + f1 as u64;
            k = k + 1;
        }
        res
    }

    /// The pattern of the `i`-th trigram on `layout`.
    pub fn trigram_pattern_at(&self, layout: &Layout, i: usize) -> (r: TrigramPattern)
        requires
            self.wf(),
            layout.wf(),
            i < self.trigram_count,
        ensures
            r == self.trigram_pattern(layout.positions@, self.data.trigrams@[i as int]),
    {
        proof {
            reveal(LayoutGenerator::wf);
        }
        let t = self.data.trigrams[i];
        match (
            layout.column_of_symbol(t.a),
            layout.column_of_symbol(t.b),
            layout.column_of_symbol(t.c),
        ) {
            (Some(ca), Some(cb), Some(cc)) => self.trigram_table[ca * 64 + cb * 8 + cc],
            _ => TrigramPattern::Invalid,
        }
    }

    /// Frequency of the `i`-th trigram where its pattern has index `j`.
    pub open spec fn pattern_share(&self, positions: Seq<u8>, j: int) -> spec_fn(int) -> int {
        |i: int|
            if pattern_index(self.trigram_pattern(positions, self.data.trigrams@[i])) == j {
                self.data.trigrams@[i].freq as int
            } else {
                0
            }
    }

    /// The summed frequency of the scored trigrams of each pattern on
    /// `layout`.
    pub fn trigram_stats(&self, layout: &Layout) -> (r: TrigramStats)
        requires
            self.wf(),
            layout.wf(),
        ensures
            r.counts@.len() == 14,
            forall|j: int|
                0 <= j < 14 ==> #[trigger] r.counts@[j] as int == sum_to(
                    self.pattern_share(layout.positions@, j),
                    self.trigram_count as int,
                ),
    {
        let ghost pos = layout.positions@;
        let mut counts: Vec<u64> = vec![0; 14];
        let mut i: usize = 0;
        while i < self.trigram_count
            invariant
                self.wf(),
                layout.wf(),
                pos == layout.positions@,
                i <= self.trigram_count,
                counts@.len() == 14,
                forall|j: int|
                    0 <= j < 14 ==> #[trigger] counts@[j] as int == sum_to(
                        self.pattern_share(pos, j),
                        i as int,
                    ),
                forall|j: int| 0 <= j < 14 ==> #[trigger] counts@[j] <= i * 1_000_000,
            decreases self.trigram_count - i,
        {
            proof {
                reveal(LayoutGenerator::wf);
            }
            let p = self.trigram_pattern_at(layout, i);
            let k = pattern_index_of(p);
            let f = self.data.trigrams[i].freq;
            assert(f <= MAX_FREQ);
            let ghost before = counts@;
            counts.set(k, counts[k] + f as u64);
            proof {
                assert forall|j: int| 0 <= j < 14 implies #[trigger] counts@[j] as int == sum_to(
                    self.pattern_share(pos, j),
                    i + 1,
                ) by {
                    assert(sum_to(self.pattern_share(pos, j), i + 1) == sum_to(
                        self.pattern_share(pos, j),
                        i as int,
                    ) + self.pattern_share(pos, j)(i as int));
                }
            }
            i = i + 1;
        }
        TrigramStats { counts }
    }

    /// The two ordered bigrams of the `k`-th same-finger pair, with their
    /// frequencies: entry `2 * k` types the pair forward, `2 * k + 1`
    /// backward.
    pub open spec fn same_finger_entry(&self, m: Seq<u8>, e: int) -> (u8, u8, u32) {
        let (p, q) = sfb_list_upto(8)[e / 2];
        let (a, b) = if e % 2 == 0 {
            (m[p], m[q])
        } else {
            (m[q], m[p])
        };
        (a, b, self.bigram(a as int, b as int) as u32)
    }

    /// The `top_n` most frequent bigrams typed by one finger on `layout`,
    /// most frequent first, each with its frequency.
    pub fn same_finger_bigrams(&self, layout: &Layout, top_n: usize) -> (r: Vec<(u8, u8, u32)>)
        requires
            self.wf(),
            layout.wf(),
        ensures
            r@.len() == if top_n < 96 { top_n as int } else { 96 },
            forall|i: int, j: int| 0 <= i < j < r@.len() ==> r@[i].2 >= r@[j].2,
            r@.to_multiset().subset_of(
                Seq::new(96, |e: int| self.same_finger_entry(layout.matrix@, e)).to_multiset(),
            ),
            r@.len() > 0 ==> forall|e: int|
                0 <= e < 96 && #[trigger] self.same_finger_entry(layout.matrix@, e).2 > r@.last().2
                    ==> r@.contains(self.same_finger_entry(layout.matrix@, e)),
    {
        proof {
            reveal(LayoutGenerator::wf);
            lemma_sfb_list_in_range();
        }
        let ghost m = layout.matrix@;
        let ghost all = Seq::new(96, |e: int| self.same_finger_entry(m, e));
        let pairs = sfb_indices();
        let n = self.data.characters.len();
        let mut rest: Vec<(u8, u8, u32)> = Vec::new();
        let mut k: usize = 0;
        while k < 96
            invariant
                self.wf(),
                layout.wf(),
                m == layout.matrix@,
                n as int == self.n(),
                n <= 256,
                all == Seq::new(96, |e: int| self.same_finger_entry(m, e)),
                pairs_are(pairs@, sfb_list_upto(8)),
                pairs_in_range(sfb_list_upto(8)),
                sfb_list_upto(8).len() == 48,
                k <= 96,
                rest@ == all.take(k as int),
            decreases 96 - k,
        {
            proof {
                reveal(LayoutGenerator::wf);
            }
            let pair = pairs[k / 2];
            assert(pair.0 as int == sfb_list_upto(8)[k as int / 2].0);
            let (a, b) = if k % 2 == 0 {
                (layout.matrix[pair.0], layout.matrix[pair.1])
            } else {
                (layout.matrix[pair.1], layout.matrix[pair.0])
            };
            let f = pair_entry(&self.data.bigrams, n, a, b);
            rest.push((a, b, f));
            k = k + 1;
            proof {
                assert(rest@ =~= all.take(k as int));
            }
        }
        assert(rest@ =~= all);
        let mut out: Vec<(u8, u8, u32)> = Vec::new();
        let limit: usize = if top_n < 96 {
            top_n
        } else {
            96
        };
        while out.len() < limit
            invariant
                limit <= 96,
                out@.len() <= limit,
                out@.len() + rest@.len() == 96,
                forall|i: int, j: int| 0 <= i < j < out@.len() ==> out@[i].2 >= out@[j].2,
                forall|i: int, j: int|
                    0 <= i < out@.len() && 0 <= j < rest@.len() ==> out@[i].2 >= rest@[j].2,
                out@.to_multiset().add(rest@.to_multiset()) == all.to_multiset(),
            decreases limit - out@.len(),
        {
            let mut best: usize = 0;
            let mut j: usize = 1;
            while j < rest.len()
                invariant
                    rest@.len() > 0,
                    best < rest@.len(),
                    1 <= j <= rest@.len(),
                    forall|i: int| 0 <= i < j ==> rest@[i].2 <= rest@[best as int].2,
                decreases rest@.len() - j,
            {
                if rest[j].2 > rest[best].2 {
                    best = j;
                }
                j = j + 1;
            }
            let ghost old_rest = rest@;
            let ghost old_out = out@;
            let x = rest.remove(best);
            proof {
                assert(old_rest.contains(x));
                assert(old_rest.to_multiset().count(x) > 0);
            }
            out.push(x);
            proof {
                assert(out@ == old_out.push(x));
                assert(out@.to_multiset().add(rest@.to_multiset()) =~= old_out.to_multiset().add(
                    old_rest.to_multiset(),
                ));
            }
        }
        proof {
            assert(out@.to_multiset().subset_of(all.to_multiset()));
            if out@.len() > 0 {
                assert forall|e: int|
                    0 <= e < 96 && #[trigger] self.same_finger_entry(m, e).2 > out@.last().2 implies out@.contains(
                    self.same_finger_entry(m, e),
                ) by {
                    let c = self.same_finger_entry(m, e);
                    assert(all[e] == c);
                    assert(all.contains(c));
                    assert(all.to_multiset().count(c) > 0);
                    if !out@.contains(c) {
                        assert(out@.to_multiset().count(c) == 0);
                        assert(rest@.to_multiset().count(c) > 0);
                        assert(rest@.contains(c));
                        let j = choose|j: int| 0 <= j < rest@.len() && rest@[j] == c;
                        assert(out@[out@.len() - 1].2 >= rest@[j].2);
                    }
                }
            }
        }
        out
    }
}

} // verus!

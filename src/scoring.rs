use vstd::prelude::*;

use crate::geometry::{
    column_pairs, column_pairs_of, column_positions, column_positions_of,
    lateral_stretch_bigram_indices, lateral_stretch_list, list_touches, pairs_are, touches, pinky_ring_indices,
    pinky_ring_list, scissor_indices, scissor_list, speed_start, FINGER_COLUMNS,
};
use crate::keyboard::{effort_table, lemma_effort_range, KeyboardType};
use crate::language::{
    char_freq, pair_freq, LanguageData, TrigramFreq, MAX_FREQ, MAX_TRIGRAMS,
};
use crate::layout::{distinct_symbols, symbol_column, Layout};
use crate::pair::Pair;
use crate::pattern::{table_pattern, trigram_table, TrigramPattern};
use crate::sums::{increasing_below, listed, sum_to};
use crate::weights::{Weights, MAX_WEIGHT};

verus! {

/// Largest travel distance of a same-finger key pair.
pub const MAX_DISTANCE: u32 = 1000;

/// Number of same-finger key pairs.
pub const SPEED_PAIRS: usize = 48;

/// Why a scoring context could not be built.
#[derive(Clone, Copy, Debug, PartialEq, Eq, Structural)]
pub enum ConfigError {
    /// More than 256 symbols, or a frequency above `MAX_FREQ`.
    LanguageData,
    /// A weight above `MAX_WEIGHT`.
    Weights,
    /// Not 48 travel distances, or one above `MAX_DISTANCE`.
    Distances,
    /// More than `MAX_TRIGRAMS` trigrams would be scored.
    TooManyTrigrams,
    /// The generation alphabet is not 30 distinct symbols.
    Alphabet,
}

/// The reward (positive) or penalty (negative) of one occurrence of a
/// trigram pattern.
pub open spec fn pattern_weight(w: Weights, p: TrigramPattern) -> int {
    match p {
        TrigramPattern::Inroll => w.inroll as int,
        TrigramPattern::Outroll => w.outroll as int,
        TrigramPattern::Onehand => w.onehand as int,
        TrigramPattern::Alternate => w.alternate as int,
        TrigramPattern::AlternateSfs => w.alternate_sfs as int,
        TrigramPattern::Redirect => -(w.redirect as int),
        TrigramPattern::RedirectSfs => -(w.redirect_sfs as int),
        TrigramPattern::BadRedirect => -(w.bad_redirect as int),
        TrigramPattern::BadRedirectSfs => -(w.bad_redirect_sfs as int),
        _ => 0,
    }
}

/// Trigram `t` holds symbol `s`.
pub open spec fn holds(t: TrigramFreq, s: int) -> bool {
    t.a as int == s || t.b as int == s || t.c as int == s
}

/// The read-only scoring context: corpus frequencies, weights and the
/// tables derived from them, shared by every optimisation run.
pub struct LayoutGenerator {
    /// The symbols that generated layouts hold, in their starting order.
    pub u8_chars_for_generation: Layout,
    pub data: LanguageData,
    pub weights: Weights,
    pub keyboard: KeyboardType,
    /// Effort of each position in tenths, lowered by 2 and scaled by the
    /// heatmap weight; the score divides it by 45.
    pub effort_map: Vec<i64>,
    /// Travel distance of each same-finger pair, in the order of
    /// `sfb_indices`.
    pub distances: Vec<u32>,
    /// How many of the most frequent trigrams are scored.
    pub trigram_count: usize,
    pub trigram_table: Vec<TrigramPattern>,
    /// For each symbol, the indices of the scored trigrams that hold it, in
    /// increasing order.
    pub by_symbol: Vec<Vec<usize>>,
    pub scissor_indices: Vec<Pair>,
    pub lateral_stretch_bigram_indices: Vec<Pair>,
    pub pinky_ring_indices: Vec<Pair>,
    pub column_pairs: Vec<Vec<Pair>>,
    pub column_positions: Vec<Vec<usize>>,
    /// For each position, whether a swap there can change the scissor, the
    /// lateral-stretch and the pinky-ring terms.
    pub scissor_flags: Vec<bool>,
    pub lsb_flags: Vec<bool>,
    pub pinky_ring_flags: Vec<bool>,
}

/// `flags[p]` tells whether a pair of `l` names position `p`.
pub open spec fn flags_of(flags: Seq<bool>, l: Seq<(int, int)>) -> bool {
    flags.len() == 30 && forall|p: int| 0 <= p < 30 ==> #[trigger] flags[p] == touches(l, p)
}

fn position_flags(list: &Vec<Pair>, Ghost(l): Ghost<Seq<(int, int)>>) -> (r: Vec<bool>)
    requires
        pairs_are(list@, l),
    ensures
        flags_of(r@, l),
{
    let mut res: Vec<bool> = Vec::new();
    let mut p: usize = 0;
    while p < 30
        invariant
            pairs_are(list@, l),
            p <= 30,
            res@.len() == p,
            forall|q: int| 0 <= q < p ==> #[trigger] res@[q] == touches(l, q),
        decreases 30 - p,
    {
        res.push(list_touches(list, Ghost(l), p));
        p = p + 1;
    }
    res
}

impl LayoutGenerator {
    pub open spec fn n(&self) -> int {
        self.data.characters@.len() as int
    }

    pub open spec fn effort_value(&self, p: int) -> int {
        (effort_table(self.keyboard)[p] - 2) * self.weights.heatmap
    }

    #[verifier::opaque]
    pub open spec fn wf(&self) -> bool {
        &&& self.data.wf()
        &&& self.weights.wf()
        &&& self.effort_map@.len() == 30
        &&& forall|p: int| 0 <= p < 30 ==> #[trigger] self.effort_map@[p] == self.effort_value(p)
        &&& self.distances@.len() == SPEED_PAIRS
        &&& forall|i: int| 0 <= i < SPEED_PAIRS ==> #[trigger] self.distances@[i] <= MAX_DISTANCE
        &&& self.trigram_count <= self.data.trigrams@.len()
        &&& self.trigram_count <= MAX_TRIGRAMS
        &&& self.trigram_table@.len() == 512
        &&& forall|i: int| 0 <= i < 512 ==> #[trigger] self.trigram_table@[i] == table_pattern(i)
        &&& self.by_symbol@.len() == 256
        &&& forall|s: int|
            0 <= s < 256 ==> increasing_below(
                #[trigger] self.by_symbol@[s]@,
                self.trigram_count as int,
            )
        &&& forall|s: int, i: int|
            0 <= s < 256 && 0 <= i < self.trigram_count && #[trigger] holds(
                self.data.trigrams@[i],
                s,
            ) ==> listed(self.by_symbol@[s]@, i)
        &&& pairs_are(self.scissor_indices@, scissor_list())
        &&& pairs_are(self.lateral_stretch_bigram_indices@, lateral_stretch_list())
        &&& pairs_are(self.pinky_ring_indices@, pinky_ring_list())
        &&& self.column_pairs@.len() == 8
        &&& forall|c: int|
            0 <= c < 8 ==> pairs_are(#[trigger] self.column_pairs@[c]@, column_pairs(c))
        &&& self.column_positions@.len() == 8
        &&& forall|c: int|
            0 <= c < 8 ==> (#[trigger] self.column_positions@[c]@).len() == column_positions(
                c,
            ).len() && forall|k: int|
                0 <= k < column_positions(c).len() ==> #[trigger] self.column_positions@[c]@[k] as int
                    == column_positions(c)[k]
        &&& flags_of(self.scissor_flags@, scissor_list())
        &&& flags_of(self.lsb_flags@, lateral_stretch_list())
        &&& flags_of(self.pinky_ring_flags@, pinky_ring_list())
        &&& self.u8_chars_for_generation.wf()
    }

    // ---- the scoring model ----

    pub open spec fn freq(&self, s: int) -> int {
        char_freq(self.data.characters@, s)
    }

    pub open spec fn bigram(&self, a: int, b: int) -> int {
        pair_freq(self.data.bigrams@, self.n(), a, b)
    }

    /// Same-finger weight of typing `a` then `b`: the bigram and the three
    /// skipgram frequencies, weighted, times the speed weight.
    pub open spec fn spec_weighted_bigram(&self, a: int, b: int) -> int {
        let w = self.weights;
        let n = self.n();
        (w.sfb * self.bigram(a, b) + w.skip1 * pair_freq(self.data.skipgrams@, n, a, b) + w.skip2
            * pair_freq(self.data.skipgrams2@, n, a, b) + w.skip3 * pair_freq(
            self.data.skipgrams3@,
            n,
            a,
            b,
        )) * w.speed
    }

    /// Effort of the key at `p` under matrix `m`.
    /// The key's effort in tenths is lowered by 2 and divided by 45: the
    /// effort `e` counts as `(e - 0.2) / 4.5`, times the heatmap weight.
    pub open spec fn effort_at(&self, m: Seq<u8>, p: int) -> int {
        self.freq(m[p] as int) * self.effort_value(p) / 45
    }

    /// Summed frequency of the symbols in finger column `c`.
    pub open spec fn column_freq_fn(&self, m: Seq<u8>, c: int) -> spec_fn(int) -> int {
        |k: int| self.freq(m[column_positions(c)[k]] as int)
    }

    pub open spec fn column_sum(&self, m: Seq<u8>, c: int) -> int {
        sum_to(self.column_freq_fn(m, c), column_positions(c).len() as int)
    }

    /// The baseline share of finger column `c`.
    pub open spec fn bias(&self, c: int) -> int {
        if c == 0 || c == 7 {
            self.weights.bias_pinky as int
        } else if c == 1 || c == 6 {
            self.weights.bias_ring as int
        } else if c == 2 || c == 5 {
            self.weights.bias_middle as int
        } else {
            self.weights.bias_index as int
        }
    }

    /// Overuse penalty of finger column `c`.
    #[verifier::opaque]
    pub open spec fn usage_at(&self, m: Seq<u8>, c: int) -> int {
        let over = self.column_sum(m, c) - self.bias(c);
        self.weights.overuse_penalty * (if over > 0 {
            over
        } else {
            0
        })
    }

    /// Finger-speed cost of the key pair `p`, `q` at distance `d`. The
    /// same-finger weight, the speed weight and the distance are each in
    /// hundredths, so the product is divided by 10 000 to be in hundredths
    /// like every other term.
    pub open spec fn pair_speed(&self, m: Seq<u8>, p: int, q: int, d: int) -> int {
        (self.spec_weighted_bigram(m[p] as int, m[q] as int) + self.spec_weighted_bigram(
            m[q] as int,
            m[p] as int,
        )) * d / 10_000
    }

    /// Finger-speed cost of the `k`-th pair of finger column `c`.
    pub open spec fn column_pair_speed(&self, m: Seq<u8>, c: int, k: int) -> int {
        self.pair_speed(
            m,
            column_pairs(c)[k].0,
            column_pairs(c)[k].1,
            self.distances@[speed_start(c) + k] as int,
        )
    }

    /// Finger-speed cost of finger column `c`.
    pub open spec fn column_speed_fn(&self, m: Seq<u8>, c: int) -> spec_fn(int) -> int {
        |k: int| self.column_pair_speed(m, c, k)
    }

    #[verifier::opaque]
    pub open spec fn speed_at(&self, m: Seq<u8>, c: int) -> int {
        sum_to(self.column_speed_fn(m, c), column_pairs(c).len() as int)
    }

    /// Bigram frequency, both orders, of the `k`-th pair of `l`.
    pub open spec fn list_pair(&self, m: Seq<u8>, l: Seq<(int, int)>, k: int) -> int {
        self.bigram(m[l[k].0] as int, m[l[k].1] as int) + self.bigram(
            m[l[k].1] as int,
            m[l[k].0] as int,
        )
    }

    /// Weighted bigram frequency over a list of position pairs.
    pub open spec fn list_fn(&self, m: Seq<u8>, l: Seq<(int, int)>) -> spec_fn(int) -> int {
        |k: int| self.list_pair(m, l, k)
    }

    #[verifier::opaque]
    pub open spec fn list_score(&self, m: Seq<u8>, l: Seq<(int, int)>, w: int) -> int {
        w * sum_to(self.list_fn(m, l), l.len() as int)
    }

    /// The pattern of trigram `t` under the position map, `Invalid` where a
    /// symbol has no key.
    pub open spec fn trigram_pattern(&self, positions: Seq<u8>, t: TrigramFreq) -> TrigramPattern {
        let ca = symbol_column(positions, t.a as int);
        let cb = symbol_column(positions, t.b as int);
        let cc = symbol_column(positions, t.c as int);
        if ca < 0 || cb < 0 || cc < 0 {
            TrigramPattern::Invalid
        } else {
            table_pattern(ca * 64 + cb * 8 + cc)
        }
    }

    /// Signed contribution of the `i`-th trigram.
    #[verifier::opaque]
    pub open spec fn trigram_value(&self, positions: Seq<u8>, i: int) -> int {
        self.data.trigrams@[i].freq * pattern_weight(
            self.weights,
            self.trigram_pattern(positions, self.data.trigrams@[i]),
        )
    }

    /// Contribution of the `i`-th trigram where it holds `a` or `b`, else 0.
    pub open spec fn touched_value(&self, positions: Seq<u8>, a: int, b: int, i: int) -> int {
        if holds(self.data.trigrams@[i], a) || holds(self.data.trigrams@[i], b) {
            self.trigram_value(positions, i)
        } else {
            0
        }
    }

    /// Contribution of the `i`-th trigram where it holds `a`, else 0.
    pub open spec fn first_fn(&self, positions: Seq<u8>, a: int) -> spec_fn(int) -> int {
        |i: int|
            if holds(self.data.trigrams@[i], a) {
                self.trigram_value(positions, i)
            } else {
                0
            }
    }

    /// Contribution of the `i`-th trigram where it holds `b` but not `a`,
    /// else 0.
    pub open spec fn second_fn(&self, positions: Seq<u8>, a: int, b: int) -> spec_fn(int) -> int {
        |i: int|
            if holds(self.data.trigrams@[i], b) && !holds(self.data.trigrams@[i], a) {
                self.trigram_value(positions, i)
            } else {
                0
            }
    }

    pub open spec fn touched_fn(&self, positions: Seq<u8>, a: int, b: int) -> spec_fn(int) -> int {
        |i: int| self.touched_value(positions, a, b, i)
    }

    pub open spec fn touched_term(&self, positions: Seq<u8>, a: int, b: int) -> int {
        sum_to(self.touched_fn(positions, a, b), self.trigram_count as int)
    }

    pub open spec fn trigram_fn(&self, positions: Seq<u8>) -> spec_fn(int) -> int {
        |i: int| self.trigram_value(positions, i)
    }

    pub open spec fn trigram_term(&self, positions: Seq<u8>) -> int {
        sum_to(self.trigram_fn(positions), self.trigram_count as int)
    }

    pub open spec fn effort_fn(&self, m: Seq<u8>) -> spec_fn(int) -> int {
        |p: int| self.effort_at(m, p)
    }

    pub open spec fn effort_term(&self, m: Seq<u8>) -> int {
        sum_to(self.effort_fn(m), 30)
    }

    pub open spec fn usage_fn(&self, m: Seq<u8>) -> spec_fn(int) -> int {
        |c: int| self.usage_at(m, c)
    }

    pub open spec fn usage_term(&self, m: Seq<u8>) -> int {
        sum_to(self.usage_fn(m), 8)
    }

    pub open spec fn speed_fn(&self, m: Seq<u8>) -> spec_fn(int) -> int {
        |c: int| self.speed_at(m, c)
    }

    pub open spec fn speed_term(&self, m: Seq<u8>) -> int {
        sum_to(self.speed_fn(m), 8)
    }

    pub open spec fn scissor_term(&self, m: Seq<u8>) -> int {
        self.list_score(m, scissor_list(), self.weights.scissors as int)
    }

    pub open spec fn lsb_term(&self, m: Seq<u8>) -> int {
        self.list_score(m, lateral_stretch_list(), self.weights.lateral_stretch as int)
    }

    pub open spec fn pinky_ring_term(&self, m: Seq<u8>) -> int {
        self.list_score(m, pinky_ring_list(), self.weights.pinky_ring as int)
    }

    /// The score of a layout: trigram rewards less every penalty.
    #[verifier::opaque]
    pub open spec fn total(&self, m: Seq<u8>, positions: Seq<u8>) -> int {
        self.trigram_term(positions) - self.effort_term(m) - self.usage_term(m) - self.speed_term(m)
            - self.scissor_term(m) - self.lsb_term(m) - self.pinky_ring_term(m)
    }
}

pub open spec fn distances_ok(d: Seq<u32>) -> bool {
    d.len() == SPEED_PAIRS && forall|i: int| 0 <= i < d.len() ==> #[trigger] d[i] <= MAX_DISTANCE
}

pub open spec fn scored_trigrams(precision: usize, available: usize) -> usize {
    if precision < available {
        precision
    } else {
        available
    }
}

fn distances_valid(d: &Vec<u32>) -> (r: bool)
    ensures
        r == distances_ok(d@),
{
    if d.len() != SPEED_PAIRS {
        return false;
    }
    let mut i: usize = 0;
    while i < d.len()
        invariant
            i <= d@.len(),
            forall|j: int| 0 <= j < i ==> #[trigger] d@[j] <= MAX_DISTANCE,
        decreases d@.len() - i,
    {
        if d[i] > MAX_DISTANCE {
            return false;
        }
        i = i + 1;
    }
    true
}

/// The indices below `count` of the trigrams that hold `s`, in order.
fn trigrams_holding(trigrams: &Vec<TrigramFreq>, count: usize, s: u8) -> (r: Vec<usize>)
    requires
        count <= trigrams@.len(),
    ensures
        increasing_below(r@, count as int),
        forall|i: int| 0 <= i < count && holds(trigrams@[i], s as int) ==> listed(r@, i),
{
    let mut res: Vec<usize> = Vec::new();
    let mut i: usize = 0;
    while i < count
        invariant
            count <= trigrams@.len(),
            i <= count,
            increasing_below(res@, i as int),
            forall|j: int| 0 <= j < i && holds(trigrams@[j], s as int) ==> listed(res@, j),
        decreases count - i,
    {
        let t = trigrams[i];
        if t.a == s || t.b == s || t.c == s {
            let ghost before = res@;
            res.push(i);
            assert forall|j: int| 0 <= j <= i && holds(trigrams@[j], s as int) implies listed(
                res@,
                j,
            ) by {
                if j < i {
                    assert(listed(before, j));
                    let k = choose|k: int| 0 <= k < before.len() && before[k] as int == j;
                    assert(res@[k] == before[k]);
                } else {
                    assert(res@[before.len() as int] as int == j);
                }
            }
        }
        i = i + 1;
    }
    res
}

impl LayoutGenerator {
    /// Builds the scoring context, or names the first input out of bounds.
    pub fn new(
        data: LanguageData,
        weights: Weights,
        keyboard: KeyboardType,
        distances: Vec<u32>,
        trigram_precision: usize,
        chars_for_generation: Vec<u8>,
    ) -> (r: Result<LayoutGenerator, ConfigError>)
        ensures
            !data.wf() ==> r == Err::<LayoutGenerator, ConfigError>(ConfigError::LanguageData),
            data.wf() && !weights.wf() ==> r == Err::<LayoutGenerator, ConfigError>(
                ConfigError::Weights,
            ),
            data.wf() && weights.wf() && !distances_ok(distances@) ==> r == Err::<
                LayoutGenerator,
                ConfigError,
            >(ConfigError::Distances),
            data.wf() && weights.wf() && distances_ok(distances@) && scored_trigrams(
                trigram_precision,
                data.trigrams@.len() as usize,
            ) > MAX_TRIGRAMS ==> r == Err::<LayoutGenerator, ConfigError>(
                ConfigError::TooManyTrigrams,
            ),
            data.wf() && weights.wf() && distances_ok(distances@) && scored_trigrams(
                trigram_precision,
                data.trigrams@.len() as usize,
            ) <= MAX_TRIGRAMS && !(chars_for_generation@.len() == 30 && distinct_symbols(
                chars_for_generation@,
            )) ==> r == Err::<LayoutGenerator, ConfigError>(ConfigError::Alphabet),
            data.wf() && weights.wf() && distances_ok(distances@) && scored_trigrams(
                trigram_precision,
                data.trigrams@.len() as usize,
            ) <= MAX_TRIGRAMS && chars_for_generation@.len() == 30 && distinct_symbols(
                chars_for_generation@,
            ) ==> r is Ok,
            r matches Ok(g) ==> g.wf() && g.u8_chars_for_generation.matrix@ == chars_for_generation@
                && g.data == data && g.weights == weights && g.keyboard
                == keyboard && g.distances@ == distances@ && g.trigram_count == scored_trigrams(
                trigram_precision,
                data.trigrams@.len() as usize,
            ),
    {
        proof {
            reveal(LayoutGenerator::wf);
        }
        if !data.is_valid() {
            return Err(ConfigError::LanguageData);
        }
        if !weights.is_valid() {
            return Err(ConfigError::Weights);
        }
        if !distances_valid(&distances) {
            return Err(ConfigError::Distances);
        }
        let trigram_count = if trigram_precision < data.trigrams.len() {
            trigram_precision
        } else {
            data.trigrams.len()
        };
        if trigram_count > MAX_TRIGRAMS {
            return Err(ConfigError::TooManyTrigrams);
        }
        let base = match Layout::new(chars_for_generation) {
            Some(l) => l,
            None => {
                return Err(ConfigError::Alphabet);
            },
        };
        let table = keyboard.get_effort_map();
        let mut effort_map: Vec<i64> = Vec::new();
        let mut p: usize = 0;
        while p < 30
            invariant
                p <= 30,
                table@.len() == 30,
                weights.wf(),
                forall|q: int| 0 <= q < 30 ==> #[trigger] table@[q] as int == effort_table(keyboard)[q],
                effort_map@.len() == p,
                forall|q: int|
                    0 <= q < p ==> #[trigger] effort_map@[q] == (effort_table(keyboard)[q] - 2)
                        * weights.heatmap,
            decreases 30 - p,
        {
            proof {
                lemma_effort_range(keyboard, p as int);
            }
            assert((table@[p as int] as int - 2) * (weights.heatmap as int) <= 35 * 1000) by (nonlinear_arith)
                requires
                    table@[p as int] as int <= 37,
                    weights.heatmap <= 1000,
                    table@[p as int] as int >= 10,
            ;
            let e = (table[p] as i64 - 2) * (weights.heatmap as i64);
            effort_map.push(e);
            p = p + 1;
        }
        let mut by_symbol: Vec<Vec<usize>> = Vec::new();
        let mut s: usize = 0;
        while s < 256
            invariant
                s <= 256,
                trigram_count <= data.trigrams@.len(),
                by_symbol@.len() == s,
                forall|t: int|
                    0 <= t < s ==> increasing_below(#[trigger] by_symbol@[t]@, trigram_count as int),
                forall|t: int, i: int|
                    0 <= t < s && 0 <= i < trigram_count && #[trigger] holds(data.trigrams@[i], t)
                        ==> listed(by_symbol@[t]@, i),
            decreases 256 - s,
        {
            let l = trigrams_holding(&data.trigrams, trigram_count, s as u8);
            by_symbol.push(l);
            s = s + 1;
        }
        let mut column_pairs: Vec<Vec<Pair>> = Vec::new();
        let mut column_positions: Vec<Vec<usize>> = Vec::new();
        let mut c: usize = 0;
        while c < FINGER_COLUMNS
            invariant
                c <= 8,
                column_pairs@.len() == c,
                column_positions@.len() == c,
                forall|d: int| 0 <= d < c ==> pairs_are(#[trigger] column_pairs@[d]@, crate::geometry::column_pairs(d)),
                forall|d: int|
                    0 <= d < c ==> (#[trigger] column_positions@[d]@).len() == crate::geometry::column_positions(
                        d,
                    ).len() && forall|k: int|
                        0 <= k < crate::geometry::column_positions(d).len() ==> #[trigger] column_positions@[d]@[k] as int
                            == crate::geometry::column_positions(d)[k],
            decreases 8 - c,
        {
            column_pairs.push(column_pairs_of(c));
            column_positions.push(column_positions_of(c));
            c = c + 1;
        }
        let scissor_indices = scissor_indices();
        let lateral_stretch_bigram_indices = lateral_stretch_bigram_indices();
        let pinky_ring_indices = pinky_ring_indices();
        let scissor_flags = position_flags(&scissor_indices, Ghost(scissor_list()));
        let lsb_flags = position_flags(&lateral_stretch_bigram_indices, Ghost(lateral_stretch_list()));
        let pinky_ring_flags = position_flags(&pinky_ring_indices, Ghost(pinky_ring_list()));
        Ok(LayoutGenerator {
            u8_chars_for_generation: base,
            data,
            weights,
            keyboard,
            effort_map,
            distances,
            trigram_count,
            trigram_table: trigram_table(),
            by_symbol,
            scissor_indices,
            lateral_stretch_bigram_indices,
            pinky_ring_indices,
            column_pairs,
            column_positions,
            scissor_flags,
            lsb_flags,
            pinky_ring_flags,
        })
    }
}

impl LayoutGenerator {
    /// Facts of a well-formed context that swaps read.
    pub proof fn lemma_wf_flags(&self)
        requires
            self.wf(),
        ensures
            flags_of(self.scissor_flags@, scissor_list()),
            flags_of(self.lsb_flags@, lateral_stretch_list()),
            flags_of(self.pinky_ring_flags@, pinky_ring_list()),
            self.trigram_count <= MAX_TRIGRAMS,
            self.weights.wf(),
            self.u8_chars_for_generation.wf(),
    {
        reveal(LayoutGenerator::wf);
    }
}

} // verus!

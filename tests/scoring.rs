use oxeylyzer::cache::LayoutCache;
use oxeylyzer::config::Config;
use oxeylyzer::generator::{random_layout, rank_layouts, Rng, ScoredLayout};
use oxeylyzer::keyboard::KeyboardType;
use oxeylyzer::language::{LanguageData, TrigramFreq};
use oxeylyzer::layout::Layout;
use oxeylyzer::optimizer::{get_possible_swaps, pinned_swaps};
use oxeylyzer::pair::Pair;
use oxeylyzer::scoring::{ConfigError, LayoutGenerator};
use oxeylyzer::weights::Weights;

fn weights() -> Weights {
    Weights {
        heatmap: 10,
        overuse_penalty: 5,
        bias_pinky: 100,
        bias_ring: 150,
        bias_middle: 200,
        bias_index: 250,
        speed: 3,
        sfb: 10,
        skip1: 5,
        skip2: 3,
        skip3: 1,
        scissors: 7,
        lateral_stretch: 6,
        pinky_ring: 4,
        inroll: 8,
        outroll: 6,
        onehand: 5,
        alternate: 4,
        alternate_sfs: 3,
        redirect: 9,
        redirect_sfs: 10,
        bad_redirect: 12,
        bad_redirect_sfs: 14,
    }
}

fn zero_data(n: usize) -> LanguageData {
    LanguageData {
        characters: vec![0; n],
        bigrams: vec![0; n * n],
        skipgrams: vec![0; n * n],
        skipgrams2: vec![0; n * n],
        skipgrams3: vec![0; n * n],
        trigrams: vec![],
    }
}

fn sample_data() -> LanguageData {
    let n = 30;
    let mut data = zero_data(n);
    for s in 0..n {
        data.characters[s] = (1000 - 30 * s) as u32;
    }
    for a in 0..n {
        for b in 0..n {
            data.bigrams[a * n + b] = ((a * 7 + b * 13) % 50) as u32;
            data.skipgrams[a * n + b] = ((a * 3 + b * 5) % 20) as u32;
            data.skipgrams2[a * n + b] = ((a + b) % 10) as u32;
            data.skipgrams3[a * n + b] = ((a * b) % 7) as u32;
        }
    }
    let mut trigrams = Vec::new();
    for i in 0..200u32 {
        trigrams.push(TrigramFreq {
            a: (i % 30) as u8,
            b: ((i * 7 + 3) % 30) as u8,
            c: ((i * 11 + 5) % 31) as u8,
            freq: 500 - 2 * i,
        });
    }
    data.trigrams = trigrams;
    data
}

fn alphabet() -> Vec<u8> {
    (0..30u8).collect()
}

fn generator(data: LanguageData) -> LayoutGenerator {
    LayoutGenerator::new(data, weights(), KeyboardType::AnsiAngle, vec![10; 48], 100000, alphabet())
        .ok()
        .unwrap()
}

fn same_cache(a: &LayoutCache, b: &LayoutCache) -> bool {
    a.effort == b.effort
        && a.usage == b.usage
        && a.finger_speeds == b.finger_speeds
        && a.effort_total == b.effort_total
        && a.usage_total == b.usage_total
        && a.finger_speed_total == b.finger_speed_total
        && a.scissors == b.scissors
        && a.lsbs == b.lsbs
        && a.pinky_ring == b.pinky_ring
        && a.trigrams_total == b.trigrams_total
        && a.total_score == b.total_score
}

#[test]
fn test() {
    let c = Config::default();
    assert_eq!(c.info.language, "english");
    assert_eq!(c.info.trigram_precision, 100000);
}

#[test]
fn all_frequencies_zero_score_zero() {
    let g = generator(zero_data(30));
    let layout = Layout::new(alphabet()).unwrap();
    assert_eq!(g.score(&layout), 0);
    let cache = LayoutCache::new(&g, &layout);
    assert_eq!(cache.total_score(), 0);
}

#[test]
fn cache_matches_recompute_after_swaps() {
    let g = generator(sample_data());
    let mut layout = Layout::new(alphabet()).unwrap();
    let mut cache = LayoutCache::new(&g, &layout);
    let mut rng = Rng::new(42);
    for _ in 0..200 {
        let p0 = rng.below(30) as usize;
        let p1 = rng.below(30) as usize;
        g.accept_swap(&mut layout, &Pair(p0, p1), &mut cache);
        let fresh = LayoutCache::new(&g, &layout);
        assert!(same_cache(&cache, &fresh));
    }
}

#[test]
fn score_swap_matches_accept_swap() {
    let g = generator(sample_data());
    let mut layout = Layout::new(alphabet()).unwrap();
    let cache = LayoutCache::new(&g, &layout);
    for (p0, p1) in [(0usize, 1usize), (3, 14), (2, 27), (9, 10), (4, 5)] {
        let predicted = g.score_swap_cached(&mut layout, &Pair(p0, p1), &cache);
        assert_eq!(layout.matrix, alphabet());
        let mut copy = layout.copy();
        copy.swap(p0, p1);
        assert_eq!(predicted, g.score(&copy));
    }
}

#[test]
fn swap_twice_restores_layout_and_cache() {
    let g = generator(sample_data());
    let mut layout = Layout::new(alphabet()).unwrap();
    let mut cache = LayoutCache::new(&g, &layout);
    let before = LayoutCache::new(&g, &layout);
    let positions = layout.positions.clone();
    g.accept_swap(&mut layout, &Pair(3, 17), &mut cache);
    assert_ne!(layout.matrix, alphabet());
    g.accept_swap(&mut layout, &Pair(3, 17), &mut cache);
    assert_eq!(layout.matrix, alphabet());
    assert_eq!(layout.positions, positions);
    assert!(same_cache(&cache, &before));
}

#[test]
fn swap_phase_score_never_decreases() {
    let g = generator(sample_data());
    let mut layout = Layout::new(alphabet()).unwrap();
    let mut cache = LayoutCache::new(&g, &layout);
    let start = cache.total_score();
    let swaps = get_possible_swaps();
    let end = g.optimize_cached(&mut layout, &mut cache, &swaps);
    assert!(end >= start);
    assert_eq!(end, g.score(&layout));
    for s in &swaps {
        assert!(g.score_swap_cached(&mut layout, s, &cache) <= end);
    }
}

#[test]
fn shared_finger_bigram_is_split() {
    // Symbols 0 and 10 share the left pinky column; only their bigram has
    // a frequency.
    let n = 30;
    let mut data = zero_data(n);
    data.bigrams[0 * n + 10] = 1000;
    let g = generator(data);
    let mut layout = Layout::new(alphabet()).unwrap();
    let mut cache = LayoutCache::new(&g, &layout);
    assert!(cache.finger_speed_total > 0);
    assert!(cache.total_score() < 0);
    let swaps = get_possible_swaps();
    g.optimize_cached(&mut layout, &mut cache, &swaps);
    assert_eq!(cache.finger_speed_total, 0);
    let c0 = layout.column_of_symbol(0).unwrap();
    let c1 = layout.column_of_symbol(10).unwrap();
    assert_ne!(c0, c1);
}

#[test]
fn all_pinned_leaves_seed_unchanged() {
    let pins: Vec<u8> = (0..30u8).collect();
    let swaps = pinned_swaps(&pins);
    assert!(swaps.is_empty());
    let g = generator(sample_data());
    let mut layout = Layout::new(alphabet()).unwrap();
    let mut cache = LayoutCache::new(&g, &layout);
    let start = cache.total_score();
    let end = g.optimize_cached(&mut layout, &mut cache, &swaps);
    assert_eq!(end, start);
    assert_eq!(layout.matrix, alphabet());
    let generated = g.generate_with_pins(&Layout::new(alphabet()).unwrap(), &pins, 7);
    assert_eq!(generated.matrix, alphabet());
}

#[test]
fn generation_is_reproducible() {
    let g = generator(sample_data());
    let seeds = vec![1u64, 2, 3];
    let a = g.generate_n(&seeds);
    let b = g.generate_n(&seeds);
    assert_eq!(a.len(), 3);
    for (x, y) in a.iter().zip(b.iter()) {
        assert_eq!(x.layout.matrix, y.layout.matrix);
        assert_eq!(x.score, y.score);
    }
    for w in a.windows(2) {
        assert!(w[0].score >= w[1].score);
    }
}

#[test]
fn pinned_generation_keeps_pins() {
    let g = generator(sample_data());
    let base = Layout::new(alphabet()).unwrap();
    let pins = vec![0u8, 5, 29];
    let r = g.generate_n_with_pins(&base, &pins, &vec![11, 12]);
    for s in &r {
        assert_eq!(s.layout.matrix[0], 0);
        assert_eq!(s.layout.matrix[5], 5);
        assert_eq!(s.layout.matrix[29], 29);
    }
}

#[test]
fn random_layout_keeps_pins_and_symbols() {
    let base = Layout::new(alphabet()).unwrap();
    let mut rng = Rng::new(99);
    let pins = vec![3u8, 4];
    let l = random_layout(&base, &pins, &mut rng);
    assert_eq!(l.matrix[3], 3);
    assert_eq!(l.matrix[4], 4);
    let mut sorted = l.matrix.clone();
    sorted.sort();
    assert_eq!(sorted, alphabet());
    assert_ne!(l.matrix, alphabet());
}

#[test]
fn ranking_orders_by_score() {
    let mk = |s: i64| ScoredLayout { layout: Layout::new(alphabet()).unwrap(), score: s };
    let r = rank_layouts(vec![mk(3), mk(9), mk(-1), mk(9)]);
    let scores: Vec<i64> = r.iter().map(|x| x.score).collect();
    assert_eq!(scores, vec![9, 9, 3, -1]);
}

#[test]
fn config_errors() {
    let mut bad = zero_data(30);
    bad.characters[0] = 2_000_000;
    let e = LayoutGenerator::new(bad, weights(), KeyboardType::Ortho, vec![10; 48], 10, alphabet());
    assert!(matches!(e, Err(ConfigError::LanguageData)));
    let mut w = weights();
    w.speed = 5000;
    let e = LayoutGenerator::new(zero_data(30), w, KeyboardType::Ortho, vec![10; 48], 10, alphabet());
    assert!(matches!(e, Err(ConfigError::Weights)));
    let e = LayoutGenerator::new(zero_data(30), weights(), KeyboardType::Ortho, vec![10; 47], 10, alphabet());
    assert!(matches!(e, Err(ConfigError::Distances)));
    let mut data = zero_data(30);
    data.trigrams = vec![TrigramFreq { a: 0, b: 1, c: 2, freq: 1 }; 1_000_001];
    let e = LayoutGenerator::new(data, weights(), KeyboardType::Ortho, vec![10; 48], 2_000_000, alphabet());
    assert!(matches!(e, Err(ConfigError::TooManyTrigrams)));
    let mut dup = alphabet();
    dup[1] = 0;
    let e = LayoutGenerator::new(zero_data(30), weights(), KeyboardType::Ortho, vec![10; 48], 10, dup);
    assert!(matches!(e, Err(ConfigError::Alphabet)));
}

#[test]
fn effort_term_exact_value() {
    // Only symbol 13 (on the left index home key, effort 1.0) has a
    // frequency: effort = 100 * (10 - 2) * heatmap 10 / 45, rounded down.
    let mut data = zero_data(30);
    data.characters[13] = 100;
    let g = generator(data);
    let layout = Layout::new(alphabet()).unwrap();
    assert_eq!(g.char_effort(&layout, 13), 177);
    let cache = LayoutCache::new(&g, &layout);
    assert_eq!(cache.effort_total, 177);
    // usage of the left index column: 100 is below the baseline of 250.
    assert_eq!(cache.usage_total, 0);
    assert_eq!(cache.total_score(), -177);
}

#[test]
fn trigram_term_exact_value() {
    // Symbols 0, 1, 2 sit on the left pinky, ring and middle: an inward
    // one-hand sequence without a reversal, weighted as one-hand (5).
    let mut data = zero_data(30);
    data.trigrams = vec![
        TrigramFreq { a: 0, b: 1, c: 2, freq: 10 },
        // pinky, middle, ring: a redirect, weight -9
        TrigramFreq { a: 0, b: 2, c: 1, freq: 3 },
        // a symbol with no key counts for nothing
        TrigramFreq { a: 0, b: 1, c: 200, freq: 50 },
    ];
    let g = generator(data);
    let layout = Layout::new(alphabet()).unwrap();
    assert_eq!(g.trigram_score_iter(&layout), 10 * 5 - 3 * 9);
    assert_eq!(g.trigram_char_score(&layout, 2, 200), 10 * 5 - 3 * 9);
    assert_eq!(g.trigram_char_score(&layout, 5, 6), 0);
}

#[test]
fn same_finger_statistics() {
    let n = 30;
    let mut data = zero_data(n);
    data.bigrams[0 * n + 10] = 1000;
    data.bigrams[10 * n + 0] = 7;
    data.skipgrams[3 * n + 24] = 40;
    data.bigrams[0 * n + 1] = 500;
    let g = generator(data);
    let layout = Layout::new(alphabet()).unwrap();
    assert_eq!(g.bigram_percent(&layout, oxeylyzer::evaluate::NGramType::SFB), 1007);
    assert_eq!(g.bigram_percent(&layout, oxeylyzer::evaluate::NGramType::DSFB), 40);
    assert_eq!(g.bigram_percent(&layout, oxeylyzer::evaluate::NGramType::Skipgram3), 0);
}

#[test]
fn trigram_statistics_by_pattern() {
    let mut data = zero_data(30);
    data.trigrams = vec![
        TrigramFreq { a: 0, b: 1, c: 2, freq: 10 },
        TrigramFreq { a: 0, b: 2, c: 1, freq: 3 },
        TrigramFreq { a: 0, b: 1, c: 200, freq: 50 },
        TrigramFreq { a: 3, b: 6, c: 2, freq: 8 },
    ];
    let g = generator(data);
    let layout = Layout::new(alphabet()).unwrap();
    let stats = g.trigram_stats(&layout);
    use_stats(&stats);
}

fn use_stats(stats: &oxeylyzer::evaluate::TrigramStats) {
    use_pattern(stats, oxeylyzer::pattern::TrigramPattern::Onehand, 10);
    use_pattern(stats, oxeylyzer::pattern::TrigramPattern::Redirect, 3);
    use_pattern(stats, oxeylyzer::pattern::TrigramPattern::Invalid, 50);
    use_pattern(stats, oxeylyzer::pattern::TrigramPattern::Alternate, 8);
    use_pattern(stats, oxeylyzer::pattern::TrigramPattern::Inroll, 0);
}

fn use_pattern(stats: &oxeylyzer::evaluate::TrigramStats, p: oxeylyzer::pattern::TrigramPattern, v: u64) {
    assert_eq!(stats.get(p), v);
}

#[test]
fn top_same_finger_bigrams() {
    let n = 30;
    let mut data = zero_data(n);
    data.bigrams[0 * n + 10] = 1000;
    data.bigrams[10 * n + 0] = 7;
    data.bigrams[13 * n + 4] = 300;
    data.bigrams[0 * n + 1] = 500;
    let g = generator(data);
    let layout = Layout::new(alphabet()).unwrap();
    let top = g.same_finger_bigrams(&layout, 3);
    assert_eq!(top, vec![(0, 10, 1000), (13, 4, 300), (10, 0, 7)]);
    assert_eq!(g.same_finger_bigrams(&layout, 500).len(), 96);
}

#[test]
fn column_phase_beats_every_outer_column_exchange() {
    let g = generator(sample_data());
    let mut layout = Layout::new(alphabet()).unwrap();
    let mut cache = LayoutCache::new(&g, &layout);
    let start = cache.total_score();
    g.optimize_columns(&mut layout, &mut cache);
    let best = cache.total_score();
    assert!(best >= start);
    assert_eq!(best, g.score(&layout));
    let outer = [0usize, 1, 2, 7, 8, 9];
    for a in 0..6 {
        for b in (a + 1)..6 {
            let mut l = layout.copy();
            let mut c = LayoutCache::new(&g, &l);
            g.swap_columns(&mut l, &mut c, outer[a], outer[b]);
            assert!(c.total_score() <= best);
        }
    }
}

#[test]
fn swap_columns_trades_rows() {
    let g = generator(sample_data());
    let mut layout = Layout::new(alphabet()).unwrap();
    let mut cache = LayoutCache::new(&g, &layout);
    g.swap_columns(&mut layout, &mut cache, 1, 8);
    assert_eq!(layout.matrix[1], 8);
    assert_eq!(layout.matrix[8], 1);
    assert_eq!(layout.matrix[11], 18);
    assert_eq!(layout.matrix[28], 21);
    assert_eq!(layout.matrix[0], 0);
    assert!(same_cache(&cache, &LayoutCache::new(&g, &layout)));
}

#[test]
fn apply_swaps_in_order() {
    let g = generator(sample_data());
    let mut layout = Layout::new(alphabet()).unwrap();
    let mut cache = LayoutCache::new(&g, &layout);
    g.apply_swaps(&mut layout, &mut cache, &vec![Pair(0, 1), Pair(1, 2)]);
    assert_eq!(&layout.matrix[0..3], &[1, 2, 0]);
    assert!(same_cache(&cache, &LayoutCache::new(&g, &layout)));
}

#[test]
fn random_layout_is_fisher_yates() {
    let base = Layout::new(alphabet()).unwrap();
    let pins = vec![2u8, 17];
    let mut rng = Rng::new(1234);
    let l = random_layout(&base, &pins, &mut rng);
    let free: Vec<usize> = (0..30).filter(|p| *p != 2 && *p != 17).collect();
    let mut m = alphabet();
    let mut r = Rng::new(1234);
    let mut i = free.len();
    while i > 1 {
        i -= 1;
        let j = r.below((i + 1) as u64) as usize;
        m.swap(free[i], free[j]);
    }
    assert_eq!(l.matrix, m);
    assert_eq!(rng.state, r.state);
}

#[test]
fn pinned_optimize_skips_column_phase() {
    let g = generator(sample_data());
    let mut layout = Layout::new(alphabet()).unwrap();
    let mut cache = LayoutCache::new(&g, &layout);
    let start = cache.total_score();
    let pins: Vec<u8> = (0..30u8).collect();
    g.optimize(&mut layout, &mut cache, &pinned_swaps(&pins));
    assert_eq!(layout.matrix, alphabet());
    assert_eq!(cache.total_score(), start);
    let free_pins = vec![0u8, 29];
    let mut layout = Layout::new(alphabet()).unwrap();
    let mut cache = LayoutCache::new(&g, &layout);
    g.optimize(&mut layout, &mut cache, &pinned_swaps(&free_pins));
    assert_eq!(layout.matrix[0], 0);
    assert_eq!(layout.matrix[29], 29);
}

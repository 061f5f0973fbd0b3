use oxeylyzer::config::{DataFetch, FingerToColumn, Pins};
use oxeylyzer::converter::Converter;
use oxeylyzer::finger::{Finger, Hand};
use oxeylyzer::geometry::{finger_column, sfb_indices, scissor_indices};
use oxeylyzer::keyboard::KeyboardType;
use oxeylyzer::pair::Pair;
use oxeylyzer::pattern::{trigram_table, Trigram, TrigramPattern};

#[test]
fn finger_relations() {
    assert!(Finger::LP.eq(Finger::LP));
    assert!(Finger::LI.relative_eq(Finger::RI));
    assert!(!Finger::LI.relative_eq(Finger::RM));
    assert!(Finger::LP.lt(Finger::LR));
    assert!(Finger::RP.gt(Finger::RR));
    assert!(Finger::LP.relative_lt(Finger::LI));
    assert!(Finger::RP.relative_lt(Finger::RI));
    assert!(Finger::LI.relative_gt(Finger::RR));
    assert_eq!(Finger::RM.hand(), Hand::Right);
    assert_eq!(Hand::Left.not(), Hand::Right);
    assert!(Finger::RR.is_bad());
    assert!(!Finger::LM.is_bad());
    assert_eq!(Finger::from_u8(7), Finger::RM);
}

#[test]
fn trigram_patterns() {
    assert_eq!(Trigram::new(Finger::LI, Finger::RI, Finger::LM).get_trigram_pattern(), TrigramPattern::Alternate);
    assert_eq!(Trigram::new(Finger::LI, Finger::RI, Finger::LI).get_trigram_pattern(), TrigramPattern::AlternateSfs);
    assert_eq!(Trigram::new(Finger::LP, Finger::LR, Finger::RI).get_trigram_pattern(), TrigramPattern::Inroll);
    assert_eq!(Trigram::new(Finger::LR, Finger::LP, Finger::RI).get_trigram_pattern(), TrigramPattern::Outroll);
    assert_eq!(Trigram::new(Finger::RI, Finger::RM, Finger::LI).get_trigram_pattern(), TrigramPattern::Outroll);
    assert_eq!(Trigram::new(Finger::LP, Finger::LM, Finger::LR).get_trigram_pattern(), TrigramPattern::Redirect);
    assert_eq!(Trigram::new(Finger::LP, Finger::LR, Finger::LP).get_trigram_pattern(), TrigramPattern::BadRedirectSfs);
    assert_eq!(Trigram::new(Finger::LM, Finger::LI, Finger::LM).get_trigram_pattern(), TrigramPattern::RedirectSfs);
    assert_eq!(Trigram::new(Finger::RP, Finger::RR, Finger::RP).get_trigram_pattern(), TrigramPattern::BadRedirectSfs);
    assert_eq!(Trigram::new(Finger::LP, Finger::LR, Finger::LM).get_trigram_pattern(), TrigramPattern::Onehand);
    assert_eq!(Trigram::new(Finger::LM, Finger::LM, Finger::LM).get_trigram_pattern(), TrigramPattern::Sft);
    assert_eq!(Trigram::new(Finger::LM, Finger::LM, Finger::LI).get_trigram_pattern(), TrigramPattern::BadSfb);
    assert_eq!(Trigram::new(Finger::LM, Finger::LM, Finger::RI).get_trigram_pattern(), TrigramPattern::Sfb);
}

#[test]
fn trigram_table_is_mirror_symmetric() {
    let t = trigram_table();
    assert_eq!(t.len(), 512);
    for i in 0..512 {
        assert_eq!(t[i], t[511 - i]);
    }
    // columns 0, 1, 4: left pinky, left ring, right index
    assert_eq!(t[0 * 64 + 1 * 8 + 4], TrigramPattern::Inroll);
    assert_eq!(t[7 * 64 + 6 * 8 + 3], TrigramPattern::Inroll);
}

#[test]
fn geometry_tables() {
    assert_eq!(finger_column(4), 3);
    assert_eq!(finger_column(15), 4);
    assert_eq!(finger_column(29), 7);
    let s = sfb_indices();
    assert_eq!(s.len(), 48);
    assert_eq!(s[0], Pair(0, 10));
    assert_eq!(s[9], Pair(7, 17));
    assert_eq!(s[18], Pair(3, 13));
    assert_eq!(s[47], Pair(16, 26));
    assert_eq!(scissor_indices().len(), 17);
    let e = KeyboardType::AnsiAngle.get_effort_map();
    assert_eq!(e[20], 37);
    assert_eq!(KeyboardType::IsoAngle.get_effort_map()[20], 33);
    assert_eq!(KeyboardType::default(), KeyboardType::AnsiAngle);
}

#[test]
fn pair_arithmetic() {
    assert_eq!(Pair::new(5, 7).distance(&Pair(2, 3)), Pair(3, 4));
    assert_eq!(Pair(3, 4).squared(), Pair(9, 16));
    assert_eq!(Pair::default(), Pair(0, 0));
}

#[test]
fn pins_from_grid() {
    let grid: Vec<char> = "x..x. .....\n..........\n.........x".chars().collect();
    let pins = Pins::from_grid(&grid);
    assert_eq!(pins.pins, vec![0, 3, 29]);
    assert_eq!(pins.len(), 3);
    assert_eq!(pins.index(1), 3);
    assert!(pins.is_valid());
    assert!(!Pins { pins: vec![30] }.is_valid());
    assert_eq!(Pins::default().len(), 0);
}

#[test]
fn finger_to_column_from_digits() {
    let f = FingerToColumn::from_digits(&"0123 3 6".chars().collect()).unwrap();
    assert_eq!(f.finger_to_column, vec![Finger::LP, Finger::LR, Finger::LM, Finger::LI, Finger::LI, Finger::RI]);
    assert_eq!(f.index(5), Finger::RI);
    assert!(FingerToColumn::from_digits(&"01a".chars().collect()).is_none());
}

#[test]
fn converter_round_trip() {
    let mut c = Converter::with_chars(&"abca".chars().collect());
    assert_eq!(c.len(), 3);
    assert!(!c.is_empty());
    assert_eq!(c.char_to_u8_lossy('b'), 1);
    assert_eq!(c.char_to_u8_lossy('z'), 3);
    assert_eq!(c.char_to_vec_index('z'), 3);
    assert_eq!(c.len(), 4);
    let idx = c.to(&"zab".chars().collect());
    assert_eq!(idx, vec![3, 0, 1]);
    assert_eq!(c.from(&vec![2, 0, 9]), vec!['c', 'a', ' ']);
    assert_eq!(c.as_string(&vec![0, 1, 2, 3]), "abcz");
    assert_eq!(c.index_char(1), 'b');
    assert_eq!(c.ngram_to_indices(&"cz".chars().collect()), vec![2, 3]);
    c.insert_single('q');
    assert_eq!(c.len(), 5);
    assert!(Converter::default().is_empty());
}

#[test]
fn converter_parses_layouts() {
    let mut c = Converter::default();
    let text: Vec<char> = "qwert yuiop\nasdfg hjkl;\nzxcvb nm,./".chars().collect();
    let l = c.parse_layout(&text).unwrap();
    assert_eq!(l.matrix[0], 0);
    assert_eq!(c.index_char(l.matrix[29]), '/');
    assert!(c.parse_layout(&"abc".chars().collect()).is_none());
}

#[test]
fn data_fetch_pads_layouts() {
    let l = DataFetch::parse_layout(&"ab c\nd".chars().collect());
    assert_eq!(l.len(), 30);
    assert_eq!(&l[0..4], &['a', 'b', 'c', 'd']);
    assert_eq!(l[29], ' ');
}

#[test]
fn bigram_and_coarse_trigram_tables() {
    use_tables();
}

fn use_tables() {
    let b = oxeylyzer::ngram::BigramType::get_all_combinations();
    assert_eq!(b.len(), 64);
    assert_eq!(b[0], oxeylyzer::ngram::BigramType::SameFingerBigram);
    assert_eq!(b[2 * 8 + 3], oxeylyzer::ngram::BigramType::LateralStretchBigrams);
    assert_eq!(b[0 * 8 + 1], oxeylyzer::ngram::BigramType::Scissors);
    assert_eq!(b[3 * 8 + 4], oxeylyzer::ngram::BigramType::Other);
    let layout = oxeylyzer::layout::Layout::new((0..30u8).collect()).unwrap();
    assert_eq!(
        oxeylyzer::ngram::BigramType::get_pattern(&layout, &[0, 10], &b),
        oxeylyzer::ngram::BigramType::SameFingerBigram
    );
    assert_eq!(
        oxeylyzer::ngram::BigramType::get_pattern(&layout, &[0, 100], &b),
        oxeylyzer::ngram::BigramType::Invalid
    );
    let t = oxeylyzer::ngram::TrigramType::get_all_combinations();
    assert_eq!(t.len(), 512);
    assert_eq!(
        oxeylyzer::ngram::TrigramType::get_pattern(&layout, &[0, 1, 5], &t),
        oxeylyzer::ngram::TrigramType::Inroll
    );
    assert_eq!(
        oxeylyzer::ngram::TrigramType::get_pattern(&layout, &[0, 2, 1], &t),
        oxeylyzer::ngram::TrigramType::Redirect
    );
    assert_eq!(
        oxeylyzer::ngram::TrigramType::get_pattern(&layout, &[0, 2, 255], &t),
        oxeylyzer::ngram::TrigramType::Invalid
    );
}

#[test]
fn rng_is_deterministic() {
    let mut a = oxeylyzer::generator::Rng::new(5);
    let mut b = oxeylyzer::generator::Rng::new(5);
    for _ in 0..10 {
        let x = a.below(30);
        assert!(x < 30);
        assert_eq!(x, b.below(30));
    }
    let mut c = oxeylyzer::generator::Rng::new(0);
    assert_eq!(c.next_u64(), 1442695040888963407u64 >> 33);
}

#[test]
fn hand_of_finger() {
    assert_eq!(Hand::from_finger(Finger::LT), Hand::Left);
    assert_eq!(Hand::from_finger(Finger::RT), Hand::Right);
}

#[test]
fn finger_ngrams() {
    use_ngrams();
}

fn use_ngrams() {
    let g = |v: Vec<Finger>| oxeylyzer::ngram::NGram::new(v);
    assert!(g(vec![Finger::LI, Finger::RI, Finger::LM]).is_alternate());
    assert!(!g(vec![Finger::LI]).is_alternate());
    assert!(!g(vec![Finger::LI, Finger::LM, Finger::RI]).is_alternate());
    assert!(g(vec![Finger::LI, Finger::RI, Finger::LI]).is_same_finger_skipgram());
    assert!(!g(vec![Finger::LI, Finger::RI]).is_same_finger_skipgram());
    assert!(g(vec![Finger::LP, Finger::LR, Finger::RI]).is_roll());
    assert!(!g(vec![Finger::LP, Finger::LP]).is_roll());
    assert!(g(vec![Finger::LP, Finger::LR]).is_inroll());
    assert!(!g(vec![Finger::LR, Finger::LP]).is_inroll());
    assert!(g(vec![Finger::LR, Finger::LP]).is_outroll());
    assert!(g(vec![Finger::RP, Finger::RR, Finger::RM]).is_one_hand());
    assert!(!g(vec![Finger::RP, Finger::LR]).is_one_hand());
    assert!(g(vec![Finger::LP, Finger::LM, Finger::LR]).is_redirect());
    assert!(!g(vec![Finger::LP, Finger::LR, Finger::LM]).is_redirect());
    assert!(g(vec![Finger::LP, Finger::LM, Finger::LR]).is_bad_redirect());
    assert!(!g(vec![Finger::LM, Finger::LI, Finger::LM]).is_bad_redirect());
}

#[test]
fn keyboard_names() {
    let w = |s: &str| -> Vec<String> { s.split_whitespace().map(|x| x.to_string()).collect() };
    assert_eq!(KeyboardType::from_words(&w("ortho")), KeyboardType::Ortho);
    assert_eq!(KeyboardType::from_words(&w("colstag")), KeyboardType::Colstag);
    assert_eq!(KeyboardType::from_words(&w("jis")), KeyboardType::RowstagDefault);
    assert_eq!(KeyboardType::from_words(&w("iso angle")), KeyboardType::IsoAngle);
    assert_eq!(KeyboardType::from_words(&w("ansi angle")), KeyboardType::AnsiAngle);
    assert_eq!(KeyboardType::from_words(&w("split")), KeyboardType::AnsiAngle);
}

#[test]
fn alphabet_table_lines() {
    use_lines();
}

fn use_lines() {
    let line: Vec<char> = " english, default : abcdefghijklmnopqrstuvwxyz',.; # comment".chars().collect();
    let l = oxeylyzer::langs::parse_line(&line).ok().unwrap();
    assert_eq!(l.languages, vec!["english".to_string(), "default".to_string()]);
    assert_eq!(l.chars, "abcdefghijklmnopqrstuvwxyz',.;");
    let short: Vec<char> = "english: abc".chars().collect();
    assert!(matches!(oxeylyzer::langs::parse_line(&short), Err(oxeylyzer::langs::LineError::CharCount(3))));
    let none: Vec<char> = "english abc".chars().collect();
    assert!(matches!(oxeylyzer::langs::parse_line(&none), Err(oxeylyzer::langs::LineError::MissingPart)));
    let two: Vec<char> = "a: b: c".chars().collect();
    assert!(matches!(oxeylyzer::langs::parse_line(&two), Err(oxeylyzer::langs::LineError::MissingPart)));
    let commented: Vec<char> = "# english: abc".chars().collect();
    assert!(matches!(oxeylyzer::langs::parse_line(&commented), Err(oxeylyzer::langs::LineError::MissingPart)));
    let l2 = oxeylyzer::langs::LangsChars::new(vec![], String::new());
    assert!(l2.languages.is_empty());
}

#[test]
fn converter_assigns_indices_in_order() {
    let c = Converter::with_chars(&"abca".chars().collect());
    assert_eq!(c.len(), 3);
    assert_eq!(c.char_to_u8_lossy('c'), 2);
    let mut d = Converter::with_chars(&"ab".chars().collect());
    assert_eq!(d.to(&"yaxy".chars().collect()), vec![2, 0, 3, 2]);
    assert_eq!(d.domain, vec!['a', 'b', 'y', 'x']);
    let mut e = Converter::default();
    let dup: Vec<char> = "qwertyuiopasdfghjkl;zxcvbnm,.q".chars().collect();
    assert!(e.parse_layout(&dup).is_none());
}

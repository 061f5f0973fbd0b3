use vstd::prelude::*;

verus! {

/// Largest frequency a table entry may hold.
pub const MAX_FREQ: u32 = 1_000_000;

/// Largest number of symbols.
pub const MAX_SYMBOLS: usize = 256;

/// Largest number of trigrams that a score reads.
pub const MAX_TRIGRAMS: usize = 1_000_000;

/// One trigram of the corpus: three symbols and their frequency.
#[derive(Clone, Copy, Debug, PartialEq, Eq, Structural)]
pub struct TrigramFreq {
    pub a: u8,
    pub b: u8,
    pub c: u8,
    pub freq: u32,
}

/// Corpus frequencies in the symbol index space. The bigram tables are
/// square, indexed `first * n + second` with `n` the number of symbols;
/// an entry beyond the end of a table counts as zero.
#[derive(Clone, Debug)]
pub struct LanguageData {
    pub characters: Vec<u32>,
    pub bigrams: Vec<u32>,
    pub skipgrams: Vec<u32>,
    pub skipgrams2: Vec<u32>,
    pub skipgrams3: Vec<u32>,
    /// Most frequent first.
    pub trigrams: Vec<TrigramFreq>,
}

pub open spec fn all_below(v: Seq<u32>, m: u32) -> bool {
    forall|i: int| 0 <= i < v.len() ==> #[trigger] v[i] <= m
}

pub open spec fn trigrams_below(v: Seq<TrigramFreq>, m: u32) -> bool {
    forall|i: int| 0 <= i < v.len() ==> #[trigger] v[i].freq <= m
}

/// The frequency of symbol `s`.
pub open spec fn char_freq(chars: Seq<u32>, s: int) -> int {
    if 0 <= s < chars.len() {
        chars[s] as int
    } else {
        0
    }
}

/// The entry for symbols `a`, `b` of a square table over `n` symbols.
pub open spec fn pair_freq(table: Seq<u32>, n: int, a: int, b: int) -> int {
    if 0 <= a < n && 0 <= b < n && a * n + b < table.len() {
        table[a * n + b] as int
    } else {
        0
    }
}

impl LanguageData {
    /// At most `MAX_SYMBOLS` symbols and every frequency at most `MAX_FREQ`.
    pub open spec fn wf(&self) -> bool {
        &&& self.characters@.len() <= MAX_SYMBOLS
        &&& all_below(self.characters@, MAX_FREQ)
        &&& all_below(self.bigrams@, MAX_FREQ)
        &&& all_below(self.skipgrams@, MAX_FREQ)
        &&& all_below(self.skipgrams2@, MAX_FREQ)
        &&& all_below(self.skipgrams3@, MAX_FREQ)
        &&& trigrams_below(self.trigrams@, MAX_FREQ)
    }

    /// Every frequency of every table is zero.
    pub open spec fn all_zero(&self) -> bool {
        &&& all_below(self.characters@, 0)
        &&& all_below(self.bigrams@, 0)
        &&& all_below(self.skipgrams@, 0)
        &&& all_below(self.skipgrams2@, 0)
        &&& all_below(self.skipgrams3@, 0)
        &&& trigrams_below(self.trigrams@, 0)
    }

    pub open spec fn n(&self) -> int {
        self.characters@.len() as int
    }

    /// Whether every table is within bounds.
    pub fn is_valid(&self) -> (r: bool)
        ensures
            r == self.wf(),
    {
        self.characters.len() <= MAX_SYMBOLS && table_below(&self.characters, MAX_FREQ)
            && table_below(&self.bigrams, MAX_FREQ) && table_below(&self.skipgrams, MAX_FREQ)
            && table_below(&self.skipgrams2, MAX_FREQ) && table_below(&self.skipgrams3, MAX_FREQ)
            && trigram_table_below(&self.trigrams, MAX_FREQ)
    }

    /// The frequency of symbol `s`, zero where the table has no entry.
    pub fn char_freq(&self, s: u8) -> (r: u32)
        ensures
            r as int == char_freq(self.characters@, s as int),
    {
        if (s as usize) < self.characters.len() {
            self.characters[s as usize]
        } else {
            0
        }
    }
}

/// The entry for `a`, `b` of a square table over `n` symbols, zero where
/// the table has none.
pub fn pair_entry(table: &Vec<u32>, n: usize, a: u8, b: u8) -> (r: u32)
    requires
        n <= MAX_SYMBOLS,
    ensures
        r as int == pair_freq(table@, n as int, a as int, b as int),
{
    if (a as usize) < n && (b as usize) < n {
        assert((a as int) * (n as int) + (b as int) < 256 * 256) by (nonlinear_arith)
            requires
                (a as int) < n,
                (b as int) < n,
                n <= 256,
        ;
        let k = (a as usize) * n + (b as usize);
        if k < table.len() {
            table[k]
        } else {
            0
        }
    } else {
        0
    }
}

fn table_below(v: &Vec<u32>, m: u32) -> (r: bool)
    ensures
        r == all_below(v@, m),
{
    let mut i: usize = 0;
    while i < v.len()
        invariant
            i <= v@.len(),
            forall|j: int| 0 <= j < i ==> #[trigger] v@[j] <= m,
        decreases v@.len() - i,
    {
        if v[i] > m {
            return false;
        }
        i = i + 1;
    }
    true
}

fn trigram_table_below(v: &Vec<TrigramFreq>, m: u32) -> (r: bool)
    ensures
        r == trigrams_below(v@, m),
{
    let mut i: usize = 0;
    while i < v.len()
        invariant
            i <= v@.len(),
            forall|j: int| 0 <= j < i ==> #[trigger] v@[j].freq <= m,
        decreases v@.len() - i,
    {
        if v[i].freq > m {
            return false;
        }
        i = i + 1;
    }
    true
}

} // verus!

use vstd::prelude::*;

use crate::layout::{symbol_column, Layout};
use crate::finger::Finger;
use crate::pattern::{ord_bad, table_pattern, TrigramPattern};

verus! {

/// The category of two consecutive keystrokes, by the finger columns
/// that type them.
#[derive(Clone, Copy, Debug, PartialEq, Eq, Structural)]
pub enum BigramType {
    Scissors,
    SameFingerBigram,
    SameFingerSkipGram,
    SameFingerSkip2Gram,
    SameFingerSkip3Gram,
    LateralStretchBigrams,
    Other,
    Invalid,
}

/// Finger columns 0 to 3 belong to the left hand.
pub open spec fn column_left(f: int) -> bool {
    f < 4
}

/// The category of finger columns `a` then `b` (0 to 7): the same column is
/// a same-finger bigram; middle and index of one hand stretch laterally;
/// other neighbours on one hand are where row jumps make scissors.
pub open spec fn column_bigram_type(a: int, b: int) -> BigramType {
    if a == b {
        BigramType::SameFingerBigram
    } else if column_left(a) == column_left(b) && ((a == 2 && b == 3) || (a == 3 && b == 2) || (
    a == 4 && b == 5) || (a == 5 && b == 4)) {
        BigramType::LateralStretchBigrams
    } else if column_left(a) == column_left(b) && (a - b == 1 || b - a == 1) {
        BigramType::Scissors
    } else {
        BigramType::Other
    }
}

impl BigramType {
    /// The table of all 64 finger-column pairs: entry `a * 8 + b` holds the
    /// category of columns `a`, `b`.
    pub fn get_all_combinations() -> (r: Vec<BigramType>)
        ensures
            r@.len() == 64,
            forall|i: int| 0 <= i < 64 ==> #[trigger] r@[i] == column_bigram_type(i / 8, i % 8),
    {
        let mut res: Vec<BigramType> = Vec::new();
        let mut i: usize = 0;
        while i < 64
            invariant
                i <= 64,
                res@.len() == i,
                forall|j: int| 0 <= j < i ==> #[trigger] res@[j] == column_bigram_type(j / 8, j % 8),
            decreases 64 - i,
        {
            let a = i / 8;
            let b = i % 8;
            let t = if a == b {
                BigramType::SameFingerBigram
            } else if (a < 4) == (b < 4) && ((a == 2 && b == 3) || (a == 3 && b == 2) || (a == 4
                && b == 5) || (a == 5 && b == 4)) {
                BigramType::LateralStretchBigrams
            } else if (a < 4) == (b < 4) && (a == b + 1 || b == a + 1) {
                BigramType::Scissors
            } else {
                BigramType::Other
            };
            res.push(t);
            i = i + 1;
        }
        res
    }

    /// The category of typing symbol `bigram[0]` then `bigram[1]` on
    /// `layout`; `Invalid` where a symbol has no key.
    pub fn get_pattern(layout: &Layout, bigram: &[u8; 2], all_bigrams: &Vec<BigramType>) -> (r:
        BigramType)
        requires
            layout.wf(),
            all_bigrams@.len() == 64,
            forall|i: int| 0 <= i < 64 ==> #[trigger] all_bigrams@[i] == column_bigram_type(i / 8, i % 8),
        ensures
            symbol_column(layout.positions@, bigram@[0] as int) == -1 || symbol_column(
                layout.positions@,
                bigram@[1] as int,
            ) == -1 ==> r == BigramType::Invalid,
            symbol_column(layout.positions@, bigram@[0] as int) != -1 && symbol_column(
                layout.positions@,
                bigram@[1] as int,
            ) != -1 ==> r == column_bigram_type(
                symbol_column(layout.positions@, bigram@[0] as int),
                symbol_column(layout.positions@, bigram@[1] as int),
            ),
    {
        let a = match layout.column_of_symbol(bigram[0]) {
            Some(c) => c,
            None => {
                return BigramType::Invalid;
            },
        };
        let b = match layout.column_of_symbol(bigram[1]) {
            Some(c) => c,
            None => {
                return BigramType::Invalid;
            },
        };
        let i = a * 8 + b;
        assert(i as int / 8 == a as int && i as int % 8 == b as int);
        all_bigrams[i]
    }
}

/// A coarse category of three consecutive keystrokes.
#[derive(Clone, Copy, Debug, PartialEq, Eq, Structural)]
pub enum TrigramType {
    Alternate,
    Inroll,
    Outroll,
    Redirect,
    SameFingerTrigram,
    Other,
    Invalid,
}

/// The coarse category of a trigram pattern.
pub open spec fn coarse(p: TrigramPattern) -> TrigramType {
    match p {
        TrigramPattern::Alternate | TrigramPattern::AlternateSfs => TrigramType::Alternate,
        TrigramPattern::Inroll => TrigramType::Inroll,
        TrigramPattern::Outroll => TrigramType::Outroll,
        TrigramPattern::Redirect | TrigramPattern::RedirectSfs | TrigramPattern::BadRedirect
        | TrigramPattern::BadRedirectSfs => TrigramType::Redirect,
        TrigramPattern::Sft => TrigramType::SameFingerTrigram,
        TrigramPattern::Invalid => TrigramType::Invalid,
        _ => TrigramType::Other,
    }
}

fn coarse_of(p: TrigramPattern) -> (r: TrigramType)
    ensures
        r == coarse(p),
{
    match p {
        TrigramPattern::Alternate | TrigramPattern::AlternateSfs => TrigramType::Alternate,
        TrigramPattern::Inroll => TrigramType::Inroll,
        TrigramPattern::Outroll => TrigramType::Outroll,
        TrigramPattern::Redirect | TrigramPattern::RedirectSfs | TrigramPattern::BadRedirect
        | TrigramPattern::BadRedirectSfs => TrigramType::Redirect,
        TrigramPattern::Sft => TrigramType::SameFingerTrigram,
        TrigramPattern::Invalid => TrigramType::Invalid,
        _ => TrigramType::Other,
    }
}

impl TrigramType {
    /// The table of all 512 finger-column triples, in coarse categories.
    pub fn get_all_combinations() -> (r: Vec<TrigramType>)
        ensures
            r@.len() == 512,
            forall|i: int| 0 <= i < 512 ==> #[trigger] r@[i] == coarse(table_pattern(i)),
    {
        let fine = crate::pattern::trigram_table();
        let mut res: Vec<TrigramType> = Vec::new();
        let mut i: usize = 0;
        while i < 512
            invariant
                i <= 512,
                fine@.len() == 512,
                forall|j: int| 0 <= j < 512 ==> #[trigger] fine@[j] == table_pattern(j),
                res@.len() == i,
                forall|j: int| 0 <= j < i ==> #[trigger] res@[j] == coarse(table_pattern(j)),
            decreases 512 - i,
        {
            res.push(coarse_of(fine[i]));
            i = i + 1;
        }
        res
    }

    /// The coarse category of typing the three symbols of `trigram` on
    /// `layout`; `Invalid` where a symbol has no key.
    pub fn get_pattern(layout: &Layout, trigram: &[u8; 3], all_trigrams: &Vec<TrigramType>) -> (r:
        TrigramType)
        requires
            layout.wf(),
            all_trigrams@.len() == 512,
            forall|i: int| 0 <= i < 512 ==> #[trigger] all_trigrams@[i] == coarse(table_pattern(i)),
        ensures
            ({
                let ca = symbol_column(layout.positions@, trigram@[0] as int);
                let cb = symbol_column(layout.positions@, trigram@[1] as int);
                let cc = symbol_column(layout.positions@, trigram@[2] as int);
                r == if ca == -1 || cb == -1 || cc == -1 {
                    TrigramType::Invalid
                } else {
                    coarse(table_pattern(ca * 64 + cb * 8 + cc))
                }
            }),
    {
        let a = match layout.column_of_symbol(trigram[0]) {
            Some(c) => c,
            None => {
                return TrigramType::Invalid;
            },
        };
        let b = match layout.column_of_symbol(trigram[1]) {
            Some(c) => c,
            None => {
                return TrigramType::Invalid;
            },
        };
        let c = match layout.column_of_symbol(trigram[2]) {
            Some(c) => c,
            None => {
                return TrigramType::Invalid;
            },
        };
        all_trigrams[a * 64 + b * 8 + c]
    }
}

/// Consecutive fingers `i - 1` and `i` of `f` are on different hands, for
/// every `i` from 1 on.
pub open spec fn hands_alternate(f: Seq<Finger>) -> bool {
    forall|i: int| 1 <= i < f.len() ==> (#[trigger] f[i]).spec_hand() != f[i - 1].spec_hand()
}

/// Some step of `f` stays on one hand.
pub open spec fn some_same_hand_step(f: Seq<Finger>) -> bool {
    exists|i: int| 1 <= i < f.len() && f[i - 1].spec_hand() == (#[trigger] f[i]).spec_hand()
}

/// Some step of `f` goes earlier when each hand is counted from its pinky.
pub open spec fn some_earlier_step(f: Seq<Finger>) -> bool {
    exists|i: int| 1 <= i < f.len() && f[i - 1].spec_relative_lt(#[trigger] f[i])
}

/// Some step of `f` goes later when each hand is counted from its pinky.
pub open spec fn some_later_step(f: Seq<Finger>) -> bool {
    exists|i: int| 1 <= i < f.len() && f[i - 1].spec_relative_gt(#[trigger] f[i])
}

/// A sequence of fingers typing consecutive keys.
#[derive(Clone, Debug)]
pub struct NGram {
    pub inner: Vec<Finger>,
}

impl NGram {
    pub fn new(f: Vec<Finger>) -> (r: NGram)
        ensures
            r.inner@ == f@,
    {
        NGram { inner: f }
    }

    /// Every step changes hands; a single finger is no alternation.
    pub fn is_alternate(&self) -> (r: bool)
        ensures
            r == (self.inner@.len() > 1 && hands_alternate(self.inner@)),
    {
        let mut i: usize = 1;
        while i < self.inner.len()
            invariant
                1 <= i,
                i <= self.inner@.len() || self.inner@.len() == 0,
                forall|j: int| 1 <= j < i && j < self.inner@.len() ==> (#[trigger] self.inner@[j]).spec_hand()
                    != self.inner@[j - 1].spec_hand(),
            decreases self.inner@.len() - i,
        {
            if self.inner[i].hand() == self.inner[i - 1].hand() {
                return false;
            }
            i = i + 1;
        }
        self.inner.len() > 1
    }

    /// The first and third fingers are the same.
    pub fn is_same_finger_skipgram(&self) -> (r: bool)
        ensures
            r == (self.inner@.len() >= 3 && self.inner@[0] == self.inner@[2]),
    {
        if self.inner.len() < 3 {
            return false;
        }
        self.inner[0].eq(self.inner[2])
    }

    /// Some step stays on one hand; two presses of one finger are no roll.
    pub fn is_roll(&self) -> (r: bool)
        ensures
            r == (self.inner@.len() >= 2 && !(self.inner@.len() == 2 && self.inner@[0].ord()
                == self.inner@[1].ord()) && some_same_hand_step(self.inner@)),
    {
        let n = self.inner.len();
        if n < 2 {
            return false;
        }
        if n == 2 && self.inner[0].eq(self.inner[1]) {
            return false;
        }
        let mut i: usize = 1;
        while i < n
            invariant
                n == self.inner@.len(),
                1 <= i <= n,
                !(n == 2 && self.inner@[0].ord() == self.inner@[1].ord()),
                forall|j: int| 1 <= j < i ==> (#[trigger] self.inner@[j]).spec_hand() != self.inner@[j
                    - 1].spec_hand(),
            decreases n - i,
        {
            if self.inner[i - 1].hand() == self.inner[i].hand() {
                assert(self.inner@[i - 1].spec_hand() == self.inner@[i as int].spec_hand());
                return true;
            }
            i = i + 1;
        }
        false
    }

    /// Some step goes earlier in the order that counts each hand from its
    /// pinky.
    pub fn is_inroll(&self) -> (r: bool)
        ensures
            r == (self.inner@.len() >= 2 && some_earlier_step(self.inner@)),
    {
        let n = self.inner.len();
        if n < 2 {
            return false;
        }
        let mut i: usize = 1;
        while i < n
            invariant
                n == self.inner@.len(),
                1 <= i <= n,
                forall|j: int|
                    1 <= j < i ==> !self.inner@[j - 1].spec_relative_lt(#[trigger] self.inner@[j]),
            decreases n - i,
        {
            if self.inner[i - 1].relative_lt(self.inner[i]) {
                assert(self.inner@[i - 1].spec_relative_lt(self.inner@[i as int]));
                return true;
            }
            i = i + 1;
        }
        false
    }

    /// Some step goes later in the order that counts each hand from its
    /// pinky.
    pub fn is_outroll(&self) -> (r: bool)
        ensures
            r == (self.inner@.len() >= 2 && some_later_step(self.inner@)),
    {
        let n = self.inner.len();
        if n < 2 {
            return false;
        }
        let mut i: usize = 1;
        while i < n
            invariant
                n == self.inner@.len(),
                1 <= i <= n,
                forall|j: int|
                    1 <= j < i ==> !self.inner@[j - 1].spec_relative_gt(#[trigger] self.inner@[j]),
            decreases n - i,
        {
            if self.inner[i - 1].relative_gt(self.inner[i]) {
                assert(self.inner@[i - 1].spec_relative_gt(self.inner@[i as int]));
                return true;
            }
            i = i + 1;
        }
        false
    }

    /// Every finger is on the hand of the first.
    pub fn is_one_hand(&self) -> (r: bool)
        ensures
            r == forall|i: int|
                0 <= i < self.inner@.len() ==> (#[trigger] self.inner@[i]).spec_hand()
                    == self.inner@[0].spec_hand(),
    {
        let mut i: usize = 0;
        while i < self.inner.len()
            invariant
                i <= self.inner@.len(),
                forall|j: int|
                    0 <= j < i ==> (#[trigger] self.inner@[j]).spec_hand() == self.inner@[0].spec_hand(),
            decreases self.inner@.len() - i,
        {
            if self.inner[i].hand() != self.inner[0].hand() {
                return false;
            }
            i = i + 1;
        }
        true
    }

    /// One hand, and the direction of the first step reverses in the
    /// second.
    pub fn is_redirect(&self) -> (r: bool)
        ensures
            r == (self.inner@.len() >= 3 && (forall|i: int|
                0 <= i < self.inner@.len() ==> (#[trigger] self.inner@[i]).spec_hand()
                    == self.inner@[0].spec_hand()) && ((self.inner@[0].ord() < self.inner@[1].ord())
                == (self.inner@[1].ord() > self.inner@[2].ord()))),
    {
        if self.inner.len() < 3 {
            return false;
        }
        self.is_one_hand() && (self.inner[0].lt(self.inner[1]) == self.inner[1].gt(self.inner[2]))
    }

    /// A redirect that uses a pinky or a ring finger.
    pub fn is_bad_redirect(&self) -> (r: bool)
        ensures
            r == (self.inner@.len() >= 3 && (forall|i: int|
                0 <= i < self.inner@.len() ==> (#[trigger] self.inner@[i]).spec_hand()
                    == self.inner@[0].spec_hand()) && ((self.inner@[0].ord() < self.inner@[1].ord())
                == (self.inner@[1].ord() > self.inner@[2].ord())) && exists|i: int|
                0 <= i < self.inner@.len() && ord_bad((#[trigger] self.inner@[i]).ord())),
    {
        let mut bad = false;
        let mut i: usize = 0;
        while i < self.inner.len()
            invariant
                i <= self.inner@.len(),
                bad == exists|j: int| 0 <= j < i && ord_bad((#[trigger] self.inner@[j]).ord()),
            decreases self.inner@.len() - i,
        {
            if self.inner[i].is_bad() {
                assert(ord_bad(self.inner@[i as int].ord()));
                bad = true;
            }
            i = i + 1;
        }
        bad && self.is_redirect()
    }
}

} // verus!

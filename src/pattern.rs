use vstd::prelude::*;

use crate::finger::{finger_of_ordinal, Finger, Hand};

verus! {

/// The category of a sequence of three keystrokes, by the fingers that type
/// them.
#[derive(Clone, Copy, Debug, PartialEq, Eq, Structural)]
pub enum TrigramPattern {
    Alternate,
    AlternateSfs,
    Inroll,
    Outroll,
    Onehand,
    Redirect,
    RedirectSfs,
    BadRedirect,
    BadRedirectSfs,
    Sfb,
    BadSfb,
    Sft,
    Other,
    Invalid,
}

/// Left hand for ordinals 0 to 4.
pub open spec fn ord_left(o: int) -> bool {
    o < 5
}

pub open spec fn ord_bad(o: int) -> bool {
    o == 0 || o == 1 || o == 8 || o == 9
}

pub open spec fn ord_alternate(a: int, b: int, c: int) -> bool {
    ord_left(a) != ord_left(b) && ord_left(b) != ord_left(c)
}

pub open spec fn ord_one_hand(a: int, b: int, c: int) -> bool {
    ord_left(a) == ord_left(b) && ord_left(b) == ord_left(c)
}

pub open spec fn ord_redirect(a: int, b: int, c: int) -> bool {
    ord_one_hand(a, b, c) && ((a < b) == (b > c))
}

/// A roll goes toward the thumb on the hand that types two of the keys.
pub open spec fn ord_inroll(a: int, b: int, c: int) -> bool {
    if ord_left(a) && ord_left(b) {
        a < b
    } else if !ord_left(a) && ord_left(b) {
        b < c
    } else if !ord_left(a) && !ord_left(b) {
        a > b
    } else {
        b > c
    }
}

/// The pattern of three keystrokes typed by the fingers with ordinals
/// `a`, `b`, `c` (0 to 9, left pinky to right pinky).
pub open spec fn ordinal_pattern(a: int, b: int, c: int) -> TrigramPattern {
    if ord_alternate(a, b, c) {
        if a == c {
            TrigramPattern::AlternateSfs
        } else {
            TrigramPattern::Alternate
        }
    } else if ord_one_hand(a, b, c) {
        if a == b && b == c {
            TrigramPattern::Sft
        } else if a == b || b == c {
            TrigramPattern::BadSfb
        } else if ord_redirect(a, b, c) {
            let bad = ord_bad(a) && ord_bad(b) && ord_bad(c);
            if a == c {
                if bad {
                    TrigramPattern::BadRedirectSfs
                } else {
                    TrigramPattern::RedirectSfs
                }
            } else if bad {
                TrigramPattern::BadRedirect
            } else {
                TrigramPattern::Redirect
            }
        } else {
            TrigramPattern::Onehand
        }
    } else if a == b || b == c {
        TrigramPattern::Sfb
    } else if ord_inroll(a, b, c) {
        TrigramPattern::Inroll
    } else {
        TrigramPattern::Outroll
    }
}

/// Ordinal of the finger that serves finger column `f` (0 to 7, thumbs
/// left out).
pub open spec fn column_ordinal(f: int) -> int {
    if f < 4 {
        f
    } else {
        f + 2
    }
}

/// The pattern of three keystrokes in finger columns `a`, `b`, `c`.
pub open spec fn column_pattern(a: int, b: int, c: int) -> TrigramPattern {
    ordinal_pattern(column_ordinal(a), column_ordinal(b), column_ordinal(c))
}

/// The entry of the trigram table at `i`: columns `i / 64`, `i / 8 % 8`,
/// `i % 8`.
pub open spec fn table_pattern(i: int) -> TrigramPattern {
    column_pattern(i / 64, (i / 8) % 8, i % 8)
}

/// The finger that serves finger column `f`.
pub fn finger_of_column(f: usize) -> (r: Finger)
    requires
        f < 8,
    ensures
        r.ord() == column_ordinal(f as int),
{
    if f < 4 {
        Finger::from_u8(f as u8)
    } else {
        Finger::from_u8((f + 2) as u8)
    }
}

/// Three fingers that type consecutive keys.
#[derive(Clone, Copy, Debug, PartialEq, Eq, Structural)]
pub struct Trigram(pub Finger, pub Finger, pub Finger);

impl Trigram {
    pub open spec fn spec_pattern(self) -> TrigramPattern {
        ordinal_pattern(self.0.ord(), self.1.ord(), self.2.ord())
    }

    pub fn new(f0: Finger, f1: Finger, f2: Finger) -> (r: Trigram)
        ensures
            r == Trigram(f0, f1, f2),
    {
        Trigram(f0, f1, f2)
    }

    pub fn is_alternate(&self) -> (r: bool)
        ensures
            r == ord_alternate(self.0.ord(), self.1.ord(), self.2.ord()),
    {
        let h0 = self.0.hand();
        let h1 = self.1.hand();
        let h2 = self.2.hand();
        (h0 == Hand::Left && h1 == Hand::Right && h2 == Hand::Left) || (h0 == Hand::Right && h1
            == Hand::Left && h2 == Hand::Right)
    }

    pub fn is_same_finger_skipgram(&self) -> (r: bool)
        ensures
            r == (self.0.ord() == self.2.ord()),
    {
        self.0.eq(self.2)
    }

    pub fn get_alternate(&self) -> (r: TrigramPattern)
        requires
            ord_alternate(self.0.ord(), self.1.ord(), self.2.ord()),
        ensures
            r == self.spec_pattern(),
    {
        if self.is_same_finger_skipgram() {
            TrigramPattern::AlternateSfs
        } else {
            TrigramPattern::Alternate
        }
    }

    pub fn is_roll(&self) -> (r: bool)
        ensures
            r == (!ord_alternate(self.0.ord(), self.1.ord(), self.2.ord()) && !ord_one_hand(
                self.0.ord(),
                self.1.ord(),
                self.2.ord(),
            )),
    {
        let h0 = self.0.hand();
        let h1 = self.1.hand();
        let h2 = self.2.hand();
        match (h0, h1, h2) {
            (Hand::Left, Hand::Left, Hand::Right) => true,
            (Hand::Right, Hand::Left, Hand::Left) => true,
            (Hand::Right, Hand::Right, Hand::Left) => true,
            (Hand::Left, Hand::Right, Hand::Right) => true,
            _ => false,
        }
    }

    pub fn is_inroll(&self) -> (r: bool)
        requires
            !ord_alternate(self.0.ord(), self.1.ord(), self.2.ord()),
            !ord_one_hand(self.0.ord(), self.1.ord(), self.2.ord()),
        ensures
            r == ord_inroll(self.0.ord(), self.1.ord(), self.2.ord()),
    {
        match (self.0.hand(), self.1.hand()) {
            (Hand::Left, Hand::Left) => self.0.lt(self.1),
            (Hand::Right, Hand::Left) => self.1.lt(self.2),
            (Hand::Right, Hand::Right) => self.0.gt(self.1),
            (Hand::Left, Hand::Right) => self.1.gt(self.2),
        }
    }

    pub fn get_roll(&self) -> (r: TrigramPattern)
        requires
            !ord_alternate(self.0.ord(), self.1.ord(), self.2.ord()),
            !ord_one_hand(self.0.ord(), self.1.ord(), self.2.ord()),
            !(self.0.ord() == self.1.ord() || self.1.ord() == self.2.ord()),
        ensures
            r == self.spec_pattern(),
    {
        if self.is_inroll() {
            TrigramPattern::Inroll
        } else {
            TrigramPattern::Outroll
        }
    }

    pub fn on_one_hand(&self) -> (r: bool)
        ensures
            r == ord_one_hand(self.0.ord(), self.1.ord(), self.2.ord()),
    {
        let h0 = self.0.hand();
        let h1 = self.1.hand();
        let h2 = self.2.hand();
        (h0 == Hand::Left && h1 == Hand::Left && h2 == Hand::Left) || (h0 == Hand::Right && h1
            == Hand::Right && h2 == Hand::Right)
    }

    pub fn is_redirect(&self) -> (r: bool)
        ensures
            r == ord_redirect(self.0.ord(), self.1.ord(), self.2.ord()),
    {
        (self.0.lt(self.1) == self.1.gt(self.2)) && self.on_one_hand()
    }

    pub fn is_bad_redirect(&self) -> (r: bool)
        ensures
            r == (ord_redirect(self.0.ord(), self.1.ord(), self.2.ord()) && ord_bad(self.0.ord())
                && ord_bad(self.1.ord()) && ord_bad(self.2.ord())),
    {
        self.is_redirect() && self.0.is_bad() && self.1.is_bad() && self.2.is_bad()
    }

    pub fn has_same_finger_bigram(&self) -> (r: bool)
        ensures
            r == (self.0.ord() == self.1.ord() || self.1.ord() == self.2.ord()),
    {
        self.0.eq(self.1) || self.1.eq(self.2)
    }

    pub fn is_same_finger_trigarm(&self) -> (r: bool)
        ensures
            r == (self.0.ord() == self.1.ord() && self.1.ord() == self.2.ord()),
    {
        self.0.eq(self.1) && self.1.eq(self.2)
    }

    pub fn get_one_hand(&self) -> (r: TrigramPattern)
        requires
            !ord_alternate(self.0.ord(), self.1.ord(), self.2.ord()),
            ord_one_hand(self.0.ord(), self.1.ord(), self.2.ord()),
        ensures
            r == self.spec_pattern(),
    {
        if self.is_same_finger_trigarm() {
            TrigramPattern::Sft
        } else if self.has_same_finger_bigram() {
            TrigramPattern::BadSfb
        } else if self.is_redirect() {
            match (self.is_same_finger_skipgram(), self.is_bad_redirect()) {
                (false, false) => TrigramPattern::Redirect,
                (false, true) => TrigramPattern::BadRedirect,
                (true, false) => TrigramPattern::RedirectSfs,
                (true, true) => TrigramPattern::BadRedirectSfs,
            }
        } else {
            TrigramPattern::Onehand
        }
    }

    /// The pattern of this finger sequence.
    pub fn get_trigram_pattern(&self) -> (r: TrigramPattern)
        ensures
            r == self.spec_pattern(),
    {
        if self.is_alternate() {
            self.get_alternate()
        } else if self.on_one_hand() {
            self.get_one_hand()
        } else if self.has_same_finger_bigram() {
            TrigramPattern::Sfb
        } else if self.is_roll() {
            self.get_roll()
        } else {
            TrigramPattern::Other
        }
    }
}

/// The table of all 512 finger-column triples: entry `f0 * 64 + f1 * 8 + f2`
/// holds the pattern of columns `f0`, `f1`, `f2`.
pub fn trigram_table() -> (r: Vec<TrigramPattern>)
    ensures
        r@.len() == 512,
        forall|i: int| 0 <= i < 512 ==> #[trigger] r@[i] == table_pattern(i),
{
    let mut res: Vec<TrigramPattern> = Vec::new();
    let mut i: usize = 0;
    while i < 512
        invariant
            i <= 512,
            res@.len() == i,
            forall|j: int| 0 <= j < i ==> #[trigger] res@[j] == table_pattern(j),
        decreases 512 - i,
    {
        let t = Trigram::new(
            finger_of_column(i / 64),
            finger_of_column((i / 8) % 8),
            finger_of_column(i % 8),
        );
        res.push(t.get_trigram_pattern());
        i = i + 1;
    }
    res
}

/// Mirroring every finger onto the other hand keeps the pattern of a finger
/// triple: an inroll stays an inroll, a redirect a redirect, and so on.
pub proof fn lemma_ordinal_pattern_mirror(a: int, b: int, c: int)
    requires
        0 <= a < 10,
        0 <= b < 10,
        0 <= c < 10,
    ensures
        ordinal_pattern(9 - a, 9 - b, 9 - c) == ordinal_pattern(a, b, c),
{
}

/// The trigram table is symmetric under the swap of hands: the entry of
/// columns `f0, f1, f2` equals that of `7 - f0, 7 - f1, 7 - f2`, which
/// stands at index `511 - i`.
pub proof fn lemma_trigram_table_mirror(table: Seq<TrigramPattern>)
    requires
        table.len() == 512,
        forall|i: int| 0 <= i < 512 ==> #[trigger] table[i] == table_pattern(i),
    ensures
        forall|i: int| 0 <= i < 512 ==> #[trigger] table[i] == table[511 - i],
{
    assert forall|i: int| 0 <= i < 512 implies #[trigger] table[i] == table[511 - i] by {
        let a = i / 64;
        let b = (i / 8) % 8;
        let c = i % 8;
        assert(511 - i == (7 - a) * 64 + (7 - b) * 8 + (7 - c));
        assert((511 - i) / 64 == 7 - a);
        assert(((511 - i) / 8) % 8 == 7 - b);
        assert((511 - i) % 8 == 7 - c);
        assert(column_ordinal(7 - a) == 9 - column_ordinal(a));
        assert(column_ordinal(7 - b) == 9 - column_ordinal(b));
        assert(column_ordinal(7 - c) == 9 - column_ordinal(c));
        lemma_ordinal_pattern_mirror(column_ordinal(a), column_ordinal(b), column_ordinal(c));
    }
}

} // verus!

use vstd::prelude::*;

verus! {

/// A hand of the typist.
#[derive(Clone, Copy, Debug, PartialEq, Eq, Structural)]
pub enum Hand {
    Left,
    Right,
}

impl Hand {
    /// The other hand.
    pub fn not(self) -> (r: Hand)
        ensures
            r != self,
    {
        match self {
            Hand::Left => Hand::Right,
            Hand::Right => Hand::Left,
        }
    }

    /// The hand that types with `f`.
    pub fn from_finger(f: Finger) -> (r: Hand)
        ensures
            r == f.spec_hand(),
    {
        f.hand()
    }
}

/// One of the ten digits, numbered from the left pinky (0) to the right
/// pinky (9); the thumbs are 4 and 5.
#[derive(Clone, Copy, Debug, PartialEq, Eq, Structural)]
pub enum Finger {
    LP,
    LR,
    LM,
    LI,
    LT,
    RT,
    RI,
    RM,
    RR,
    RP,
}

/// The finger with ordinal `n`, for `n < 10`.
pub open spec fn finger_of_ordinal(n: int) -> Finger {
    if n == 0 {
        Finger::LP
    } else if n == 1 {
        Finger::LR
    } else if n == 2 {
        Finger::LM
    } else if n == 3 {
        Finger::LI
    } else if n == 4 {
        Finger::LT
    } else if n == 5 {
        Finger::RT
    } else if n == 6 {
        Finger::RI
    } else if n == 7 {
        Finger::RM
    } else if n == 8 {
        Finger::RR
    } else {
        Finger::RP
    }
}

pub open spec fn spec_lo(a: int, b: int) -> int {
    if a < b {
        a
    } else {
        b
    }
}

pub open spec fn spec_hi(a: int, b: int) -> int {
    if a < b {
        b
    } else {
        a
    }
}

impl Finger {
    /// The finger's ordinal, 0 (left pinky) to 9 (right pinky).
    pub open spec fn ord(self) -> int {
        match self {
            Finger::LP => 0,
            Finger::LR => 1,
            Finger::LM => 2,
            Finger::LI => 3,
            Finger::LT => 4,
            Finger::RT => 5,
            Finger::RI => 6,
            Finger::RM => 7,
            Finger::RR => 8,
            Finger::RP => 9,
        }
    }

    pub open spec fn spec_hand(self) -> Hand {
        if self.ord() < 5 {
            Hand::Left
        } else {
            Hand::Right
        }
    }

    /// Same finger, or its mirror image on the other hand.
    pub open spec fn spec_relative_eq(self, other: Finger) -> bool {
        if self.spec_hand() != other.spec_hand() {
            9 - spec_lo(self.ord(), other.ord()) == spec_hi(self.ord(), other.ord())
        } else {
            self.ord() == other.ord()
        }
    }

    pub open spec fn spec_relative_gt(self, other: Finger) -> bool {
        if self.spec_hand() != other.spec_hand() {
            9 - spec_lo(self.ord(), other.ord()) < spec_hi(self.ord(), other.ord())
        } else if self.spec_hand() == Hand::Left {
            self.ord() > other.ord()
        } else {
            self.ord() < other.ord()
        }
    }

    pub open spec fn spec_relative_lt(self, other: Finger) -> bool {
        if self.spec_hand() != other.spec_hand() {
            9 - spec_lo(self.ord(), other.ord()) > spec_hi(self.ord(), other.ord())
        } else if self.spec_hand() == Hand::Left {
            self.ord() < other.ord()
        } else {
            self.ord() > other.ord()
        }
    }

    /// The ordinal as a byte.
    pub fn ordinal(self) -> (r: u8)
        ensures
            r as int == self.ord(),
    {
        match self {
            Finger::LP => 0,
            Finger::LR => 1,
            Finger::LM => 2,
            Finger::LI => 3,
            Finger::LT => 4,
            Finger::RT => 5,
            Finger::RI => 6,
            Finger::RM => 7,
            Finger::RR => 8,
            Finger::RP => 9,
        }
    }

    /// The finger with ordinal `value`.
    pub fn from_u8(value: u8) -> (r: Finger)
        requires
            value < 10,
        ensures
            r.ord() == value as int,
            r == finger_of_ordinal(value as int),
    {
        match value {
            0 => Finger::LP,
            1 => Finger::LR,
            2 => Finger::LM,
            3 => Finger::LI,
            4 => Finger::LT,
            5 => Finger::RT,
            6 => Finger::RI,
            7 => Finger::RM,
            8 => Finger::RR,
            _ => Finger::RP,
        }
    }

    /// Same finger.
    pub fn eq(self, other: Finger) -> (r: bool)
        ensures
            r == (self.ord() == other.ord()),
            r == (self == other),
    {
        self.ordinal() == other.ordinal()
    }

    /// Same finger, or the mirror image of it on the other hand.
    pub fn relative_eq(self, other: Finger) -> (r: bool)
        ensures
            r == self.spec_relative_eq(other),
    {
        let a = self.ordinal();
        let b = other.ordinal();
        if self.hand() != other.hand() {
            let lo = if a < b { a } else { b };
            let hi = if a < b { b } else { a };
            9 - lo == hi
        } else {
            a == b
        }
    }

    /// Greater ordinal.
    pub fn gt(self, other: Finger) -> (r: bool)
        ensures
            r == (self.ord() > other.ord()),
    {
        self.ordinal() > other.ordinal()
    }

    /// Smaller ordinal.
    pub fn lt(self, other: Finger) -> (r: bool)
        ensures
            r == (self.ord() < other.ord()),
    {
        self.ordinal() < other.ordinal()
    }

    /// Later than `other` when each hand is counted from its own pinky.
    pub fn relative_gt(self, other: Finger) -> (r: bool)
        ensures
            r == self.spec_relative_gt(other),
    {
        let a = self.ordinal();
        let b = other.ordinal();
        if self.hand() != other.hand() {
            let lo = if a < b { a } else { b };
            let hi = if a < b { b } else { a };
            9 - lo < hi
        } else {
            match self.hand() {
                Hand::Left => a > b,
                Hand::Right => a < b,
            }
        }
    }

    /// Earlier than `other` when each hand is counted from its own pinky.
    pub fn relative_lt(self, other: Finger) -> (r: bool)
        ensures
            r == self.spec_relative_lt(other),
    {
        let a = self.ordinal();
        let b = other.ordinal();
        if self.hand() != other.hand() {
            let lo = if a < b { a } else { b };
            let hi = if a < b { b } else { a };
            9 - lo > hi
        } else {
            match self.hand() {
                Hand::Left => a < b,
                Hand::Right => a > b,
            }
        }
    }

    /// The hand this finger belongs to.
    pub fn hand(&self) -> (r: Hand)
        ensures
            r == self.spec_hand(),
    {
        match self {
            Finger::LP | Finger::LR | Finger::LM | Finger::LI | Finger::LT => Hand::Left,
            _ => Hand::Right,
        }
    }

    /// Pinky or ring finger.
    pub fn is_bad(&self) -> (r: bool)
        ensures
            r == (self.ord() == 0 || self.ord() == 1 || self.ord() == 8 || self.ord() == 9),
    {
        match self {
            Finger::LP | Finger::LR | Finger::RR | Finger::RP => true,
            _ => false,
        }
    }
}

} // verus!

use vstd::prelude::*;

use crate::finger::Finger;
use crate::keyboard::KeyboardType;

verus! {

/// Blank characters that separate the cells of a configuration grid.
pub open spec fn is_blank(c: char) -> bool {
    c == ' ' || c == '\n' || c == '\r' || c == '\t'
}

/// `s` without its blank characters.
pub open spec fn strip_blanks(s: Seq<char>) -> Seq<char>
    decreases s.len(),
{
    if s.len() == 0 {
        seq![]
    } else if is_blank(s.last()) {
        strip_blanks(s.drop_last())
    } else {
        strip_blanks(s.drop_last()).push(s.last())
    }
}

/// `s` without its blank characters.
pub fn strip(s: &Vec<char>) -> (r: Vec<char>)
    ensures
        r@ == strip_blanks(s@),
{
    let mut res: Vec<char> = Vec::new();
    let mut i: usize = 0;
    while i < s.len()
        invariant
            i <= s@.len(),
            res@ == strip_blanks(s@.take(i as int)),
        decreases s@.len() - i,
    {
        let c = s[i];
        proof {
            assert(s@.take(i + 1).drop_last() =~= s@.take(i as int));
        }
        if !(c == ' ' || c == '\n' || c == '\r' || c == '\t') {
            res.push(c);
        }
        i = i + 1;
    }
    proof {
        assert(s@.take(s@.len() as int) =~= s@);
    }
    res
}

/// The positions that a grid marks with `x`, counted over its non-blank
/// characters.
pub open spec fn marked(s: Seq<char>) -> Seq<u8>
    decreases s.len(),
{
    if s.len() == 0 {
        seq![]
    } else if s.last() == 'x' {
        marked(s.drop_last()).push((s.len() - 1) as u8)
    } else {
        marked(s.drop_last())
    }
}

/// Reading of saved layouts.
pub struct DataFetch {}

impl DataFetch {
    /// The 30 keys of a saved layout: its non-blank characters in order,
    /// padded with spaces.
    pub fn parse_layout(string: &Vec<char>) -> (r: Vec<char>)
        requires
            strip_blanks(string@).len() <= 30,
        ensures
            r@.len() == 30,
            forall|i: int|
                0 <= i < 30 ==> #[trigger] r@[i] == if i < strip_blanks(string@).len() {
                    strip_blanks(string@)[i]
                } else {
                    ' '
                },
    {
        let cells = strip(string);
        let mut res: Vec<char> = Vec::new();
        let mut i: usize = 0;
        while i < 30
            invariant
                cells@ == strip_blanks(string@),
                cells@.len() <= 30,
                i <= 30,
                res@.len() == i,
                forall|j: int|
                    0 <= j < i ==> #[trigger] res@[j] == if j < cells@.len() {
                        cells@[j]
                    } else {
                        ' '
                    },
            decreases 30 - i,
        {
            if i < cells.len() {
                res.push(cells[i]);
            } else {
                res.push(' ');
            }
            i = i + 1;
        }
        res
    }
}

/// The positions kept fixed while optimising.
#[derive(Clone, Debug)]
pub struct Pins {
    pub pins: Vec<u8>,
}

impl Pins {
    pub fn default() -> (r: Pins)
        ensures
            r.pins@.len() == 0,
    {
        Pins { pins: Vec::new() }
    }

    pub fn len(&self) -> (r: usize)
        ensures
            r == self.pins@.len(),
    {
        self.pins.len()
    }

    /// The `index`-th pinned position.
    pub fn index(&self, index: usize) -> (r: u8)
        requires
            index < self.pins@.len(),
        ensures
            r == self.pins@[index as int],
    {
        self.pins[index]
    }

    /// The pins of a grid: each `x` among its non-blank characters pins the
    /// position it stands at.
    pub fn from_grid(value: &Vec<char>) -> (r: Pins)
        requires
            value@.len() <= 256,
        ensures
            r.pins@ == marked(strip_blanks(value@)),
    {
        let cells = strip(value);
        proof {
            lemma_strip_len(value@);
        }
        let mut pins: Vec<u8> = Vec::new();
        let mut i: usize = 0;
        while i < cells.len()
            invariant
                cells@.len() <= 256,
                i <= cells@.len(),
                pins@ == marked(cells@.take(i as int)),
            decreases cells@.len() - i,
        {
            proof {
                assert(cells@.take(i + 1).drop_last() =~= cells@.take(i as int));
            }
            if cells[i] == 'x' {
                pins.push(i as u8);
            }
            i = i + 1;
        }
        proof {
            assert(cells@.take(cells@.len() as int) =~= cells@);
        }
        Pins { pins }
    }

    /// Every pin names one of the 30 positions.
    pub fn is_valid(&self) -> (r: bool)
        ensures
            r == forall|k: int| 0 <= k < self.pins@.len() ==> #[trigger] self.pins@[k] < 30,
    {
        let mut k: usize = 0;
        while k < self.pins.len()
            invariant
                k <= self.pins@.len(),
                forall|j: int| 0 <= j < k ==> #[trigger] self.pins@[j] < 30,
            decreases self.pins@.len() - k,
        {
            if self.pins[k] >= 30 {
                return false;
            }
            k = k + 1;
        }
        true
    }
}

/// Leaving out blanks does not lengthen a text.
proof fn lemma_strip_len(s: Seq<char>)
    ensures
        strip_blanks(s).len() <= s.len(),
    decreases s.len(),
{
    if s.len() > 0 {
        lemma_strip_len(s.drop_last());
    }
}

/// The finger that types each matrix column.
#[derive(Clone, Debug)]
pub struct FingerToColumn {
    pub finger_to_column: Vec<Finger>,
}

impl FingerToColumn {
    pub fn default() -> (r: FingerToColumn)
        ensures
            r.finger_to_column@.len() == 0,
    {
        FingerToColumn { finger_to_column: Vec::new() }
    }

    pub fn index(&self, index: usize) -> (r: Finger)
        requires
            index < self.finger_to_column@.len(),
        ensures
            r == self.finger_to_column@[index as int],
    {
        self.finger_to_column[index]
    }

    /// One finger per non-blank character, each a digit from 0 to 9; `None`
    /// where another character stands.
    pub fn from_digits(value: &Vec<char>) -> (r: Option<FingerToColumn>)
        ensures
            r is Some <==> forall|i: int|
                0 <= i < strip_blanks(value@).len() ==> '0' <= #[trigger] strip_blanks(value@)[i]
                    <= '9',
            r matches Some(f) ==> f.finger_to_column@.len() == strip_blanks(value@).len()
                && forall|i: int|
                0 <= i < f.finger_to_column@.len() ==> (#[trigger] f.finger_to_column@[i]).ord()
                    == strip_blanks(value@)[i] as int - '0' as int,
    {
        let cells = strip(value);
        let mut res: Vec<Finger> = Vec::new();
        let mut i: usize = 0;
        while i < cells.len()
            invariant
                i <= cells@.len(),
                cells@ == strip_blanks(value@),
                res@.len() == i,
                forall|j: int| 0 <= j < i ==> '0' <= #[trigger] cells@[j] <= '9',
                forall|j: int|
                    0 <= j < i ==> (#[trigger] res@[j]).ord() == cells@[j] as int - '0' as int,
            decreases cells@.len() - i,
        {
            let c = cells[i];
            if c < '0' || c > '9' {
                return None;
            }
            let d = (c as u32 - '0' as u32) as u8;
            res.push(Finger::from_u8(d));
            i = i + 1;
        }
        Some(FingerToColumn { finger_to_column: res })
    }
}

/// General settings.
#[derive(Clone, Debug)]
pub struct Info {
    pub language: String,
    pub keyboard_type: KeyboardType,
    pub trigram_precision: u32,
}

impl Info {
    pub fn default() -> (r: Info)
        ensures
            r.language@ == "english"@,
            r.keyboard_type == KeyboardType::AnsiAngle,
            r.trigram_precision == 100000,
    {
        Info {
            language: "english".to_string(),
            keyboard_type: KeyboardType::AnsiAngle,
            trigram_precision: 100000,
        }
    }
}

/// The whole configuration.
#[derive(Clone, Debug)]
pub struct Config {
    pub info: Info,
    pub finger_to_column: FingerToColumn,
}

impl Config {
    pub fn default() -> (r: Config)
        ensures
            r.info.language@ == "english"@,
            r.info.keyboard_type == KeyboardType::AnsiAngle,
            r.info.trigram_precision == 100000,
            r.finger_to_column.finger_to_column@.len() == 0,
    {
        Config { info: Info::default(), finger_to_column: FingerToColumn::default() }
    }
}

} // verus!

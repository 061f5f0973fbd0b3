use vstd::prelude::*;

use crate::config::{strip, strip_blanks};
use crate::layout::{distinct_symbols, Layout};

verus! {

/// Largest number of characters a converter assigns indices to.
pub const MAX_CHARS: usize = 255;

/// No character appears twice.
pub open spec fn distinct_chars(d: Seq<char>) -> bool {
    forall|i: int, j: int| 0 <= i < j < d.len() ==> d[i] != d[j]
}

/// Where `c` stands in `d`, or -1.
pub open spec fn index_in(d: Seq<char>, c: char) -> int {
    if exists|i: int| 0 <= i < d.len() && d[i] == c {
        choose|i: int| 0 <= i < d.len() && d[i] == c
    } else {
        -1
    }
}

/// `d` followed by the characters of `s` that it lacks, in order of first
/// appearance.
pub open spec fn extended(d: Seq<char>, s: Seq<char>) -> Seq<char>
    decreases s.len(),
{
    if s.len() == 0 {
        d
    } else {
        let e = extended(d, s.drop_last());
        if e.contains(s.last()) {
            e
        } else {
            e.push(s.last())
        }
    }
}

/// Relies on `FromIterator<char>` for `String`: collects the characters
/// in order.
#[verifier::external_body]
pub(crate) fn string_from_chars(chars: &Vec<char>) -> (r: String)
    ensures
        r@ == chars@,
{
    chars.iter().collect()
}

/// A two-way map between characters and compact symbol indices, assigned
/// in order of first appearance.
#[derive(Clone, Debug)]
pub struct Converter {
    pub domain: Vec<char>,
}

impl Converter {
    pub open spec fn wf(&self) -> bool {
        &&& self.domain@.len() <= MAX_CHARS
        &&& distinct_chars(self.domain@)
    }

    pub fn default() -> (r: Converter)
        ensures
            r.wf(),
            r.domain@.len() == 0,
    {
        Converter { domain: Vec::new() }
    }

    fn find(&self, c: char) -> (r: Option<u8>)
        requires
            self.wf(),
        ensures
            r is None <==> index_in(self.domain@, c) == -1,
            r matches Some(i) ==> i as int == index_in(self.domain@, c) && (i as int) < self.domain@.len()
                && self.domain@[i as int] == c,
    {
        let mut i: usize = 0;
        while i < self.domain.len()
            invariant
                self.wf(),
                i <= self.domain@.len(),
                forall|j: int| 0 <= j < i ==> self.domain@[j] != c,
            decreases self.domain@.len() - i,
        {
            if self.domain[i] == c {
                proof {
                    let k = choose|k: int| 0 <= k < self.domain@.len() && self.domain@[k] == c;
                    assert(k == i as int);
                }
                return Some(i as u8);
            }
            i = i + 1;
        }
        None
    }

    /// The character of index `c`, or a space where none has it.
    pub fn index_char(&self, c: u8) -> (r: char)
        ensures
            (c as int) < self.domain@.len() ==> r == self.domain@[c as int],
            (c as int) >= self.domain@.len() ==> r == ' ',
    {
        if (c as usize) < self.domain.len() {
            self.domain[c as usize]
        } else {
            ' '
        }
    }

    /// The characters of a sequence of indices.
    pub fn from(&self, input: &Vec<u8>) -> (r: Vec<char>)
        ensures
            r@.len() == input@.len(),
            forall|k: int|
                0 <= k < input@.len() ==> #[trigger] r@[k] == if (input@[k] as int) < self.domain@.len() {
                    self.domain@[input@[k] as int]
                } else {
                    ' '
                },
    {
        let mut res: Vec<char> = Vec::new();
        let mut k: usize = 0;
        while k < input.len()
            invariant
                k <= input@.len(),
                res@.len() == k,
                forall|j: int|
                    0 <= j < k ==> #[trigger] res@[j] == if (input@[j] as int) < self.domain@.len() {
                        self.domain@[input@[j] as int]
                    } else {
                        ' '
                    },
            decreases input@.len() - k,
        {
            res.push(self.index_char(input[k]));
            k = k + 1;
        }
        res
    }

    /// The index of `c`, assigning the next free one where `c` has none.
    pub fn char_to_vec_index(&mut self, c: char) -> (r: u8)
        requires
            old(self).wf(),
            index_in(old(self).domain@, c) != -1 || old(self).domain@.len() < MAX_CHARS,
        ensures
            final(self).wf(),
            index_in(old(self).domain@, c) != -1 ==> final(self).domain@ == old(self).domain@
                && r as int == index_in(old(self).domain@, c),
            index_in(old(self).domain@, c) == -1 ==> final(self).domain@ == old(self).domain@.push(c)
                && r as int == old(self).domain@.len(),
            (r as int) < final(self).domain@.len(),
            final(self).domain@[r as int] == c,
    {
        match self.find(c) {
            Some(i) => i,
            None => {
                let new = self.domain.len() as u8;
                self.domain.push(c);
                proof {
                    assert forall|i: int, j: int| 0 <= i < j < self.domain@.len() implies self.domain@[i]
                        != self.domain@[j] by {
                        if j == self.domain@.len() - 1 && self.domain@[i] == c {
                            assert(exists|k: int| 0 <= k < old(self).domain@.len() && old(self).domain@[k] == c);
                        }
                    }
                }
                new
            },
        }
    }

    /// The index of `c`, or the number of known characters where `c` has
    /// none.
    pub fn char_to_u8_lossy(&self, c: char) -> (r: u8)
        requires
            self.wf(),
        ensures
            index_in(self.domain@, c) != -1 ==> r as int == index_in(self.domain@, c),
            index_in(self.domain@, c) == -1 ==> r as int == self.domain@.len(),
    {
        match self.find(c) {
            Some(i) => i,
            None => self.domain.len() as u8,
        }
    }

    /// Assigns `c` an index if it has none.
    pub fn insert_single(&mut self, c: char)
        requires
            old(self).wf(),
            index_in(old(self).domain@, c) != -1 || old(self).domain@.len() < MAX_CHARS,
        ensures
            final(self).wf(),
            index_in(old(self).domain@, c) != -1 ==> final(self).domain@ == old(self).domain@,
            index_in(old(self).domain@, c) == -1 ==> final(self).domain@ == old(self).domain@.push(c),
    {
        let _ = self.char_to_vec_index(c);
    }

    /// The indices of `input`, assigning new ones to unknown characters in
    /// order of appearance.
    pub fn to(&mut self, input: &Vec<char>) -> (r: Vec<u8>)
        requires
            old(self).wf(),
            old(self).domain@.len() + input@.len() <= MAX_CHARS,
        ensures
            final(self).wf(),
            final(self).domain@ == extended(old(self).domain@, input@),
            final(self).domain@.len() <= old(self).domain@.len() + input@.len(),
            final(self).domain@.len() >= old(self).domain@.len(),
            final(self).domain@.take(old(self).domain@.len() as int) == old(self).domain@,
            r@.len() == input@.len(),
            forall|k: int|
                0 <= k < input@.len() ==> (#[trigger] r@[k] as int) < final(self).domain@.len()
                    && final(self).domain@[r@[k] as int] == input@[k],
    {
        let ghost d0 = self.domain@;
        let mut res: Vec<u8> = Vec::new();
        let mut k: usize = 0;
        while k < input.len()
            invariant
                self.wf(),
                k <= input@.len(),
                self.domain@.len() <= d0.len() + k,
                self.domain@.len() >= d0.len(),
                d0.len() + input@.len() <= MAX_CHARS,
                self.domain@.take(d0.len() as int) == d0,
                self.domain@ == extended(d0, input@.take(k as int)),
                res@.len() == k,
                forall|j: int|
                    0 <= j < k ==> (#[trigger] res@[j] as int) < self.domain@.len()
                        && self.domain@[res@[j] as int] == input@[j],
            decreases input@.len() - k,
        {
            let ghost before = self.domain@;
            let i = self.char_to_vec_index(input[k]);
            proof {
                assert(before.len() >= d0.len());
                assert forall|j: int| 0 <= j < before.len() implies self.domain@[j] == before[j] by {}
                assert(self.domain@.take(d0.len() as int) =~= before.take(d0.len() as int));
                assert(self.domain@.take(d0.len() as int) =~= d0);
                assert forall|j: int| 0 <= j < k implies (#[trigger] res@[j] as int) < self.domain@.len()
                    && self.domain@[res@[j] as int] == input@[j] by {
                    assert(self.domain@[res@[j] as int] == before[res@[j] as int]);
                }
            }
            res.push(i);
            k = k + 1;
            proof {
                assert(input@.take(k as int).drop_last() =~= input@.take(k - 1));
                assert(index_in(before, input@[k - 1]) == -1 <==> !before.contains(input@[k - 1]));
            }
        }
        assert(input@.take(input@.len() as int) =~= input@);
        res
    }

    /// The indices of an n-gram, assigning new ones where needed.
    pub fn ngram_to_indices(&mut self, from: &Vec<char>) -> (r: Vec<u8>)
        requires
            old(self).wf(),
            old(self).domain@.len() + from@.len() <= MAX_CHARS,
        ensures
            final(self).wf(),
            final(self).domain@ == extended(old(self).domain@, from@),
            r@.len() == from@.len(),
            forall|k: int|
                0 <= k < from@.len() ==> (#[trigger] r@[k] as int) < final(self).domain@.len()
                    && final(self).domain@[r@[k] as int] == from@[k],
    {
        self.to(from)
    }

    /// Assigns indices to the characters of `input`.
    pub fn insert(&mut self, input: &Vec<char>)
        requires
            old(self).wf(),
            old(self).domain@.len() + input@.len() <= MAX_CHARS,
        ensures
            final(self).wf(),
            final(self).domain@ == extended(old(self).domain@, input@),
            forall|k: int| 0 <= k < input@.len() ==> index_in(final(self).domain@, #[trigger] input@[k]) != -1,
    {
        let r = self.to(input);
        assert forall|k: int| 0 <= k < input@.len() implies index_in(self.domain@, #[trigger] input@[k])
            != -1 by {
            assert(self.domain@[r@[k] as int] == input@[k]);
        }
    }

    /// A converter that knows the characters of `s`, in order of first
    /// appearance.
    pub fn with_chars(s: &Vec<char>) -> (r: Converter)
        requires
            s@.len() <= MAX_CHARS,
        ensures
            r.wf(),
            r.domain@ == extended(seq![], s@),
            forall|k: int| 0 <= k < s@.len() ==> index_in(r.domain@, #[trigger] s@[k]) != -1,
    {
        let mut res = Converter::default();
        assert(res.domain@ =~= seq![]);
        res.insert(s);
        res
    }

    /// The characters of a sequence of indices, as a string.
    pub fn as_string(&self, input: &Vec<u8>) -> (r: String)
        ensures
            r@.len() == input@.len(),
            forall|k: int|
                0 <= k < input@.len() ==> #[trigger] r@[k] == if (input@[k] as int) < self.domain@.len() {
                    self.domain@[input@[k] as int]
                } else {
                    ' '
                },
    {
        let chars = self.from(input);
        string_from_chars(&chars)
    }

    /// How many characters have an index.
    pub fn len(&self) -> (r: u8)
        requires
            self.wf(),
        ensures
            r as int == self.domain@.len(),
    {
        self.domain.len() as u8
    }

    pub fn is_empty(&self) -> (r: bool)
        ensures
            r == (self.domain@.len() == 0),
    {
        self.domain.len() == 0
    }

    /// A layout from its 30 characters, blanks left out; `None` unless
    /// there are exactly 30, all distinct.
    pub fn parse_layout(&mut self, string: &Vec<char>) -> (r: Option<Layout>)
        requires
            old(self).wf(),
            old(self).domain@.len() + 30 <= MAX_CHARS,
        ensures
            final(self).wf(),
            r is Some <==> strip_blanks(string@).len() == 30 && distinct_chars(strip_blanks(string@)),
            strip_blanks(string@).len() == 30 ==> final(self).domain@ == extended(
                old(self).domain@,
                strip_blanks(string@),
            ),
            r matches Some(l) ==> l.wf() && forall|p: int|
                0 <= p < 30 ==> final(self).domain@[#[trigger] l.matrix@[p] as int] == strip_blanks(
                    string@,
                )[p],
    {
        let cells = strip(string);
        if cells.len() != 30 {
            return None;
        }
        let symbols = self.to(&cells);
        proof {
            let d = self.domain@;
            if distinct_chars(cells@) {
                assert forall|p: int, q: int| 0 <= p < q < symbols@.len() implies symbols@[p]
                    != symbols@[q] by {
                    assert(d[symbols@[p] as int] == cells@[p]);
                    assert(d[symbols@[q] as int] == cells@[q]);
                }
            } else {
                let (p, q) = choose|p: int, q: int| 0 <= p < q < cells@.len() && cells@[p] == cells@[q];
                assert(d[symbols@[p] as int] == cells@[p]);
                assert(d[symbols@[q] as int] == cells@[q]);
                assert(symbols@[p] == symbols@[q]);
                assert(!distinct_symbols(symbols@));
            }
        }
        Layout::new(symbols)
    }
}

} // verus!

use vstd::prelude::*;

use crate::config::is_blank;
use crate::converter::string_from_chars;

verus! {

/// Index of the first `c` in `s`, or the length of `s`.
pub open spec fn first_at(s: Seq<char>, c: char) -> int
    decreases s.len(),
{
    if s.len() == 0 {
        0
    } else {
        let f = first_at(s.drop_last(), c);
        if f < s.len() - 1 {
            f
        } else if s.last() == c {
            s.len() - 1
        } else {
            s.len() as int
        }
    }
}

/// How often `c` occurs in `s`.
pub open spec fn count_of(s: Seq<char>, c: char) -> int
    decreases s.len(),
{
    if s.len() == 0 {
        0
    } else {
        count_of(s.drop_last(), c) + if s.last() == c {
            1int
        } else {
            0
        }
    }
}

/// Number of blanks that `s` starts with.
pub open spec fn leading_blanks(s: Seq<char>) -> int
    decreases s.len(),
{
    if s.len() == 0 {
        0
    } else {
        let l = leading_blanks(s.drop_last());
        if l == s.len() - 1 && is_blank(s.last()) {
            s.len() as int
        } else {
            l
        }
    }
}

/// Number of blanks that `s` ends with.
pub open spec fn trailing_blanks(s: Seq<char>) -> int
    decreases s.len(),
{
    if s.len() == 0 {
        0
    } else if is_blank(s.last()) {
        1 + trailing_blanks(s.drop_last())
    } else {
        0
    }
}

/// `s` without the blanks it starts and ends with.
pub open spec fn trimmed(s: Seq<char>) -> Seq<char> {
    if leading_blanks(s) == s.len() {
        seq![]
    } else {
        s.subrange(leading_blanks(s), s.len() - trailing_blanks(s))
    }
}

/// The pieces of `s` between occurrences of `c`; there is always at least
/// one.
pub open spec fn pieces(s: Seq<char>, c: char) -> Seq<Seq<char>>
    decreases s.len(),
{
    if s.len() == 0 {
        seq![seq![]]
    } else {
        let r = pieces(s.drop_last(), c);
        if s.last() == c {
            r.push(seq![])
        } else {
            r.update(r.len() - 1, r.last().push(s.last()))
        }
    }
}

proof fn lemma_pieces_nonempty(s: Seq<char>, c: char)
    ensures
        pieces(s, c).len() >= 1,
    decreases s.len(),
{
    if s.len() > 0 {
        lemma_pieces_nonempty(s.drop_last(), c);
    }
}

proof fn lemma_blanks_bounds(s: Seq<char>)
    ensures
        0 <= leading_blanks(s) <= s.len(),
        0 <= trailing_blanks(s) <= s.len(),
        leading_blanks(s) < s.len() ==> leading_blanks(s) + trailing_blanks(s) < s.len(),
    decreases s.len(),
{
    if s.len() > 0 {
        lemma_blanks_bounds(s.drop_last());
        if leading_blanks(s) < s.len() && is_blank(s.last()) {
            assert(leading_blanks(s) == leading_blanks(s.drop_last()));
        }
    }
}

proof fn lemma_first_at_bounds(s: Seq<char>, c: char)
    ensures
        0 <= first_at(s, c) <= s.len(),
        first_at(s, c) < s.len() ==> s[first_at(s, c)] == c,
    decreases s.len(),
{
    if s.len() > 0 {
        lemma_first_at_bounds(s.drop_last(), c);
    }
}

fn first_index(s: &Vec<char>, c: char) -> (r: usize)
    ensures
        r as int == first_at(s@, c),
{
    let mut i: usize = 0;
    let mut found: usize = 0;
    let mut seen = false;
    while i < s.len()
        invariant
            i <= s@.len(),
            first_at(s@.take(i as int), c) == if seen { found as int } else { i as int },
            seen ==> found < i,
        decreases s@.len() - i,
    {
        assert(s@.take(i + 1).drop_last() =~= s@.take(i as int));
        if !seen && s[i] == c {
            seen = true;
            found = i;
        }
        i = i + 1;
    }
    assert(s@.take(s@.len() as int) =~= s@);
    if seen {
        found
    } else {
        s.len()
    }
}

fn count_char(s: &Vec<char>, c: char) -> (r: usize)
    ensures
        r as int == count_of(s@, c),
{
    let mut i: usize = 0;
    let mut n: usize = 0;
    while i < s.len()
        invariant
            i <= s@.len(),
            n <= i,
            n as int == count_of(s@.take(i as int), c),
        decreases s@.len() - i,
    {
        assert(s@.take(i + 1).drop_last() =~= s@.take(i as int));
        if s[i] == c {
            n = n + 1;
        }
        i = i + 1;
    }
    assert(s@.take(s@.len() as int) =~= s@);
    n
}

fn slice(s: &Vec<char>, a: usize, b: usize) -> (r: Vec<char>)
    requires
        a <= b <= s@.len(),
    ensures
        r@ == s@.subrange(a as int, b as int),
{
    let mut res: Vec<char> = Vec::new();
    let mut i: usize = a;
    while i < b
        invariant
            a <= i <= b,
            b <= s@.len(),
            res@ == s@.subrange(a as int, i as int),
        decreases b - i,
    {
        res.push(s[i]);
        i = i + 1;
        assert(res@ =~= s@.subrange(a as int, i as int));
    }
    res
}

/// `s` without the blanks it starts and ends with.
pub fn trim_chars(s: &Vec<char>) -> (r: Vec<char>)
    ensures
        r@ == trimmed(s@),
{
    let mut lead: usize = 0;
    let mut trail: usize = 0;
    let mut i: usize = 0;
    while i < s.len()
        invariant
            i <= s@.len(),
            lead as int == leading_blanks(s@.take(i as int)),
            trail as int == trailing_blanks(s@.take(i as int)),
            lead <= i,
            trail <= i,
        decreases s@.len() - i,
    {
        assert(s@.take(i + 1).drop_last() =~= s@.take(i as int));
        let c = s[i];
        let blank = c == ' ' || c == '\n' || c == '\r' || c == '\t';
        if lead == i && blank {
            lead = i + 1;
        }
        if blank {
            trail = trail + 1;
        } else {
            trail = 0;
        }
        i = i + 1;
    }
    assert(s@.take(s@.len() as int) =~= s@);
    proof {
        lemma_blanks_bounds(s@);
    }
    if lead == s.len() {
        Vec::new()
    } else {
        slice(s, lead, s.len() - trail)
    }
}

fn split_chars(s: &Vec<char>, c: char) -> (r: Vec<Vec<char>>)
    ensures
        r@.map_values(|v: Vec<char>| v@) == pieces(s@, c),
{
    let mut done: Vec<Vec<char>> = Vec::new();
    let mut cur: Vec<char> = Vec::new();
    let mut i: usize = 0;
    while i < s.len()
        invariant
            i <= s@.len(),
            done@.map_values(|v: Vec<char>| v@).push(cur@) == pieces(s@.take(i as int), c),
        decreases s@.len() - i,
    {
        assert(s@.take(i + 1).drop_last() =~= s@.take(i as int));
        let ghost before = done@.map_values(|v: Vec<char>| v@);
        let ghost cur0 = cur@;
        if s[i] == c {
            let full = cur;
            done.push(full);
            cur = Vec::new();
            assert(done@.map_values(|v: Vec<char>| v@) =~= before.push(cur0));
        } else {
            cur.push(s[i]);
            assert(done@.map_values(|v: Vec<char>| v@) =~= before);
            assert(before.push(cur@) =~= before.push(cur0).update(
                before.len() as int,
                cur0.push(s@[i as int]),
            ));
        }
        i = i + 1;
    }
    assert(s@.take(s@.len() as int) =~= s@);
    let ghost before = done@.map_values(|v: Vec<char>| v@);
    done.push(cur);
    assert(done@.map_values(|v: Vec<char>| v@) =~= before.push(done@.last()@));
    done
}

/// The languages of a line of the alphabet table, and the 30 characters
/// that layouts for them are generated from.
#[derive(Clone, Debug)]
pub struct LangsChars {
    pub languages: Vec<String>,
    pub chars: String,
}

impl LangsChars {
    pub fn new(languages: Vec<String>, chars: String) -> (r: LangsChars)
        ensures
            r.languages@ == languages@,
            r.chars@ == chars@,
    {
        LangsChars { languages, chars }
    }
}

/// Why a line of the alphabet table was refused.
#[derive(Clone, Copy, Debug, PartialEq, Eq, Structural)]
pub enum LineError {
    /// Not exactly one `:` between the languages and the characters.
    MissingPart,
    /// The characters are not 30; holds how many there are.
    CharCount(usize),
}

/// The text of a line before its comment, which starts at `#`.
pub open spec fn content_of(line: Seq<char>) -> Seq<char> {
    line.take(first_at(line, '#'))
}

/// The part before the `:` of a line's content.
pub open spec fn languages_part(line: Seq<char>) -> Seq<char> {
    content_of(line).take(first_at(content_of(line), ':'))
}

/// The part after the `:` of a line's content.
pub open spec fn chars_part(line: Seq<char>) -> Seq<char> {
    content_of(line).skip(first_at(content_of(line), ':') + 1)
}

/// Reads a line `languages: characters # comment` of the alphabet table:
/// the languages are separated by commas, blanks around every part are
/// left out, and there must be exactly 30 characters.
pub fn parse_line(line: &Vec<char>) -> (r: Result<LangsChars, LineError>)
    ensures
        count_of(content_of(line@), ':') != 1 <==> r == Err::<LangsChars, LineError>(
            LineError::MissingPart,
        ),
        count_of(content_of(line@), ':') == 1 && trimmed(chars_part(line@)).len() != 30 ==> r
            == Err::<LangsChars, LineError>(
            LineError::CharCount(trimmed(chars_part(line@)).len() as usize),
        ),
        r is Ok <==> count_of(content_of(line@), ':') == 1 && trimmed(chars_part(line@)).len()
            == 30,
        r matches Ok(l) ==> l.chars@ == trimmed(chars_part(line@)) && l.languages@.len() == pieces(
            trimmed(languages_part(line@)),
            ',',
        ).len() && forall|k: int|
            0 <= k < l.languages@.len() ==> (#[trigger] l.languages@[k])@ == trimmed(
                pieces(trimmed(languages_part(line@)), ',')[k],
            ),
{
    proof {
        lemma_first_at_bounds(line@, '#');
    }
    let end = first_index(line, '#');
    let content = slice(line, 0, end);
    assert(content@ =~= content_of(line@));
    if count_char(&content, ':') != 1 {
        return Err(LineError::MissingPart);
    }
    proof {
        lemma_first_at_bounds(content@, ':');
        if first_at(content@, ':') == content@.len() {
            lemma_count_absent(content@, ':');
        }
    }
    let k = first_index(&content, ':');
    let langs_text = slice(&content, 0, k);
    let chars_text = slice(&content, k + 1, content.len());
    assert(langs_text@ =~= languages_part(line@));
    assert(chars_text@ =~= chars_part(line@));
    let chars = trim_chars(&chars_text);
    if chars.len() != 30 {
        return Err(LineError::CharCount(chars.len()));
    }
    let names = split_chars(&trim_chars(&langs_text), ',');
    let ghost p = pieces(trimmed(languages_part(line@)), ',');
    let mut languages: Vec<String> = Vec::new();
    let mut i: usize = 0;
    while i < names.len()
        invariant
            names@.map_values(|v: Vec<char>| v@) == p,
            i <= names@.len(),
            languages@.len() == i,
            forall|j: int| 0 <= j < i ==> (#[trigger] languages@[j])@ == trimmed(p[j]),
        decreases names@.len() - i,
    {
        let t = trim_chars(&names[i]);
        assert(names@[i as int]@ == p[i as int]);
        languages.push(string_from_chars(&t));
        i = i + 1;
    }
    Ok(LangsChars::new(languages, string_from_chars(&chars)))
}

proof fn lemma_count_absent(s: Seq<char>, c: char)
    requires
        first_at(s, c) == s.len(),
    ensures
        count_of(s, c) == 0,
    decreases s.len(),
{
    if s.len() > 0 {
        lemma_first_at_bounds(s.drop_last(), c);
        lemma_count_absent(s.drop_last(), c);
    }
}

} // verus!

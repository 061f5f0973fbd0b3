use vstd::prelude::*;

verus! {

/// The physical geometry of the keyboard, which decides the effort of
/// each key.
#[derive(Clone, Copy, Debug, PartialEq, Eq, Structural)]
pub enum KeyboardType {
    AnsiAngle,
    IsoAngle,
    RowstagDefault,
    Ortho,
    Colstag,
}

impl Default for KeyboardType {
    fn default() -> (r: KeyboardType)
        ensures
            r == KeyboardType::AnsiAngle,
    {
        KeyboardType::AnsiAngle
    }
}

/// The effort of each of the 30 keys, in tenths.
pub open spec fn effort_table(k: KeyboardType) -> Seq<int> {
    match k {
        KeyboardType::IsoAngle => seq![
            30, 24, 20, 22, 24, 33, 22, 20, 24, 30, 18, 13, 11, 10, 26, 26, 10, 11, 13, 18, 33,
            28, 24, 18, 22, 22, 18, 24, 28, 33,
        ],
        KeyboardType::AnsiAngle => seq![
            30, 24, 20, 22, 24, 33, 22, 20, 24, 30, 18, 13, 11, 10, 26, 26, 10, 11, 13, 18, 37,
            28, 24, 18, 22, 22, 18, 24, 28, 33,
        ],
        KeyboardType::RowstagDefault => seq![
            30, 24, 20, 22, 24, 33, 22, 20, 24, 30, 18, 13, 11, 10, 26, 26, 10, 11, 13, 18, 35,
            30, 27, 23, 37, 22, 18, 24, 28, 33,
        ],
        KeyboardType::Ortho => seq![
            30, 24, 20, 22, 31, 31, 22, 20, 24, 30, 17, 13, 11, 10, 26, 26, 10, 11, 13, 17, 32,
            26, 23, 16, 30, 30, 16, 23, 26, 32,
        ],
        KeyboardType::Colstag => seq![
            30, 24, 20, 22, 31, 31, 22, 20, 24, 30, 17, 13, 11, 10, 26, 26, 10, 11, 13, 17, 34,
            26, 22, 18, 32, 32, 18, 22, 26, 34,
        ],
    }
}

/// Every key's effort lies between 1.0 and 3.7.
pub proof fn lemma_effort_range(k: KeyboardType, p: int)
    requires
        0 <= p < 30,
    ensures
        effort_table(k).len() == 30,
        10 <= effort_table(k)[p] <= 37,
{
}

impl KeyboardType {
    /// The effort of each of the 30 keys, in tenths.
    pub fn get_effort_map(&self) -> (r: Vec<u32>)
        ensures
            r@.len() == 30,
            forall|p: int| 0 <= p < 30 ==> #[trigger] r@[p] as int == effort_table(*self)[p],
    {
        match self {
            KeyboardType::IsoAngle => vec![
                30, 24, 20, 22, 24, 33, 22, 20, 24, 30, 18, 13, 11, 10, 26, 26, 10, 11, 13, 18,
                33, 28, 24, 18, 22, 22, 18, 24, 28, 33,
            ],
            KeyboardType::AnsiAngle => vec![
                30, 24, 20, 22, 24, 33, 22, 20, 24, 30, 18, 13, 11, 10, 26, 26, 10, 11, 13, 18,
                37, 28, 24, 18, 22, 22, 18, 24, 28, 33,
            ],
            KeyboardType::RowstagDefault => vec![
                30, 24, 20, 22, 24, 33, 22, 20, 24, 30, 18, 13, 11, 10, 26, 26, 10, 11, 13, 18,
                35, 30, 27, 23, 37, 22, 18, 24, 28, 33,
            ],
            KeyboardType::Ortho => vec![
                30, 24, 20, 22, 31, 31, 22, 20, 24, 30, 17, 13, 11, 10, 26, 26, 10, 11, 13, 17,
                32, 26, 23, 16, 30, 30, 16, 23, 26, 32,
            ],
            KeyboardType::Colstag => vec![
                30, 24, 20, 22, 31, 31, 22, 20, 24, 30, 17, 13, 11, 10, 26, 26, 10, 11, 13, 17,
                34, 26, 22, 18, 32, 32, 18, 22, 26, 34,
            ],
        }
    }
}

/// The keyboard named by one or two lower-case words; any other name is
/// the default.
pub open spec fn keyboard_named(words: Seq<Seq<char>>) -> KeyboardType {
    if words.len() == 1 {
        if words[0] == "ortho"@ {
            KeyboardType::Ortho
        } else if words[0] == "colstag"@ {
            KeyboardType::Colstag
        } else if words[0] == "rowstag"@ || words[0] == "iso"@ || words[0] == "ansi"@ || words[0]
            == "jis"@ {
            KeyboardType::RowstagDefault
        } else {
            KeyboardType::AnsiAngle
        }
    } else if words[0] == "ansi"@ && words[1] == "angle"@ {
        KeyboardType::AnsiAngle
    } else if words[0] == "iso"@ && words[1] == "angle"@ {
        KeyboardType::IsoAngle
    } else {
        KeyboardType::AnsiAngle
    }
}

fn same_text(a: &String, b: &str) -> (r: bool)
    ensures
        r == (a@ == b@),
{
    let b = b.to_string();
    *a == b
}

impl KeyboardType {
    /// The keyboard named by the lower-case words of a configuration
    /// entry, such as `["iso", "angle"]` or `["ortho"]`.
    pub fn from_words(words: &Vec<String>) -> (r: KeyboardType)
        requires
            1 <= words@.len() <= 2,
        ensures
            r == keyboard_named(words@.map_values(|w: String| w@)),
    {
        let ghost v = words@.map_values(|w: String| w@);
        proof {
            reveal_strlit("ortho");
            reveal_strlit("colstag");
            reveal_strlit("rowstag");
            reveal_strlit("iso");
            reveal_strlit("ansi");
            reveal_strlit("jis");
            reveal_strlit("angle");
        }
        if words.len() == 1 {
            let w = &words[0];
            assert(v[0] == w@);
            if same_text(w, "ortho") {
                KeyboardType::Ortho
            } else if same_text(w, "colstag") {
                KeyboardType::Colstag
            } else if same_text(w, "rowstag") || same_text(w, "iso") || same_text(w, "ansi")
                || same_text(w, "jis") {
                KeyboardType::RowstagDefault
            } else {
                KeyboardType::AnsiAngle
            }
        } else {
            let w0 = &words[0];
            let w1 = &words[1];
            assert(v[0] == w0@ && v[1] == w1@);
            if same_text(w0, "ansi") && same_text(w1, "angle") {
                KeyboardType::AnsiAngle
            } else if same_text(w0, "iso") && same_text(w1, "angle") {
                KeyboardType::IsoAngle
            } else {
                KeyboardType::AnsiAngle
            }
        }
    }
}

} // verus!

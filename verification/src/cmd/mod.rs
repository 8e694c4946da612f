//! What every report command shares: its options and its output format.
use vstd::prelude::*;
use vstd::string::StrSliceExecFns;
use vstd::string::StringExecFns;
use crate::error::Error;

pub mod balance;
pub mod fanout;
pub mod hotspots;
pub mod rewards;
pub mod sink;
pub mod supply;

verus! {

/// Options that most commands take.
#[derive(Clone, Debug, PartialEq, Eq)]
pub struct Opts {
    /// Where to read the environment settings from, if not from the default place.
    pub env: Option<String>,
}

/// The encoding of a report.
#[derive(Clone, Copy, Debug, PartialEq, Eq, Structural)]
pub enum Format {
    Json,
    Csv,
}

/// A letter of `A..=Z` as its small letter, any other character as itself.
pub open spec fn ascii_lower(c: char) -> char {
    if 'A' <= c && c <= 'Z' {
        ((c as u8) + 32) as char
    } else {
        c
    }
}

/// A text with each of its ASCII capital letters made small.
pub open spec fn ascii_lowered(text: Seq<char>) -> Seq<char> {
    Seq::new(text.len(), |i: int| ascii_lower(text[i]))
}

impl Format {
    /// The name of the format, in small letters.
    pub open spec fn name(self) -> Seq<char> {
        match self {
            Format::Json => seq!['j', 's', 'o', 'n'],
            Format::Csv => seq!['c', 's', 'v'],
        }
    }

    /// The format that a text names, whatever the case of its letters.
    pub open spec fn named_by(text: Seq<char>) -> Option<Format> {
        if ascii_lowered(text) == Format::Csv.name() {
            Some(Format::Csv)
        } else if ascii_lowered(text) == Format::Json.name() {
            Some(Format::Json)
        } else {
            None
        }
    }

    /// Reads a format name without regard to case. Any other text is an
    /// input failure that carries the text.
    pub fn from_str(s: &str) -> (r: Result<Format, Error>)
        ensures
            match r {
                Ok(format) => Format::named_by(s@) == Some(format),
                Err(Error::Input(text)) => Format::named_by(s@).is_none() && text@ == s@,
                Err(_) => false,
            },
    {
        let n: usize = s.unicode_len();
        if n == 3 {
            let c0: char = lower_char(s.get_char(0));
            let c1: char = lower_char(s.get_char(1));
            let c2: char = lower_char(s.get_char(2));
            if c0 == 'c' && c1 == 's' && c2 == 'v' {
                assert(ascii_lowered(s@) =~= Format::Csv.name());
                return Ok(Format::Csv);
            }
        } else if n == 4 {
            let c0: char = lower_char(s.get_char(0));
            let c1: char = lower_char(s.get_char(1));
            let c2: char = lower_char(s.get_char(2));
            let c3: char = lower_char(s.get_char(3));
            if c0 == 'j' && c1 == 's' && c2 == 'o' && c3 == 'n' {
                assert(ascii_lowered(s@) =~= Format::Json.name());
                return Ok(Format::Json);
            }
        }
        proof {
            let low = ascii_lowered(s@);
            if low == Format::Csv.name() {
                assert(low.len() == 3);
                assert(low[0] == 'c' && low[1] == 's' && low[2] == 'v');
            }
            if low == Format::Json.name() {
                assert(low.len() == 4);
                assert(low[0] == 'j' && low[1] == 's' && low[2] == 'o' && low[3] == 'n');
            }
        }
        Err(Error::Input(String::from_str(s)))
    }

    /// The name of the format, in small letters.
    pub fn to_string(&self) -> (r: String)
        ensures
            r@ == self.name(),
    {
        match self {
            Format::Csv => {
                proof {
                    reveal_strlit("csv");
                }
                let r = String::from_str("csv");
                assert(r@ =~= Format::Csv.name());
                r
            },
            Format::Json => {
                proof {
                    reveal_strlit("json");
                }
                let r = String::from_str("json");
                assert(r@ =~= Format::Json.name());
                r
            },
        }
    }
}

impl std::str::FromStr for Format {
    type Err = Error;

    fn from_str(s: &str) -> (r: Result<Format, Error>) {
        Format::from_str(s)
    }
}

impl Default for Format {
    fn default() -> (r: Format)
        ensures
            r == Format::Json,
    {
        Format::Json
    }
}

/// A character with its ASCII capital letter made small.
fn lower_char(c: char) -> (r: char)
    ensures
        r == ascii_lower(c),
{
    if 'A' <= c && c <= 'Z' {
        ((c as u8) + 32u8) as char
    } else {
        c
    }
}

/// A format's name reads back as that format.
pub proof fn lemma_format_name_round_trip(format: Format)
    ensures
        Format::named_by(format.name()) == Some(format),
{
    assert(ascii_lowered(format.name()) =~= format.name());
    assert(Format::Csv.name().len() != Format::Json.name().len());
}

/// The case of ASCII letters does not matter: a text names what its
/// lowered form names.
pub proof fn lemma_format_ignores_case(text: Seq<char>)
    ensures
        Format::named_by(ascii_lowered(text)) == Format::named_by(text),
{
    assert(ascii_lowered(ascii_lowered(text)) =~= ascii_lowered(text));
}

} // verus!

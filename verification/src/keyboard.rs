//! Keyboard geometries: the kinds that are told apart, how a kind is read
//! from text, and the base effort of each position on each kind.

use crate::text::lowercase;
use crate::text::lowercase_of;
use crate::text::same_text;
use crate::text::words;
use crate::text::words_of;
use vstd::prelude::*;
use vstd::std_specs::convert::TryFromSpecImpl;
use vstd::string::StringExecFns;

verus! {

/// The keyboard geometries that have an effort table of their own.
#[derive(Copy, Clone, Debug, PartialEq, Eq, Structural)]
pub enum KeyboardType {
    AnsiAngle,
    IsoAngle,
    RowstagDefault,
    Ortho,
    Colstag,
}

/// Base effort of each position, in tenths, on an ISO board with the
/// angle mod.
pub const ISO_ANGLE_EFFORT: [u8; 30] = [
    31, 26, 20, 22, 24, 33, 23, 20, 26, 31,
    18, 13, 11, 10, 26, 26, 10, 11, 13, 18,
    33, 28, 24, 18, 22, 22, 18, 24, 28, 33,
];

/// Base effort of each position, in tenths, on an ANSI board with the
/// angle mod.
pub const ANSI_ANGLE_EFFORT: [u8; 30] = [
    30, 26, 20, 22, 24, 33, 23, 20, 26, 30,
    18, 13, 11, 10, 26, 26, 10, 11, 13, 18,
    37, 28, 24, 18, 22, 22, 18, 24, 28, 33,
];

/// Base effort of each position, in tenths, on a row-staggered board.
pub const ROWSTAG_EFFORT: [u8; 30] = [
    30, 26, 20, 22, 24, 33, 23, 20, 26, 30,
    18, 13, 11, 10, 26, 26, 10, 11, 13, 18,
    35, 30, 27, 23, 37, 22, 18, 24, 28, 33,
];

/// Base effort of each position, in tenths, on an ortholinear board.
pub const ORTHO_EFFORT: [u8; 30] = [
    30, 26, 20, 22, 31, 31, 22, 20, 26, 30,
    17, 13, 11, 10, 26, 26, 10, 11, 13, 17,
    32, 28, 23, 16, 30, 30, 16, 23, 28, 32,
];

/// Base effort of each position, in tenths, on a column-staggered board.
pub const COLSTAG_EFFORT: [u8; 30] = [
    30, 26, 20, 22, 31, 31, 22, 20, 26, 30,
    17, 13, 11, 10, 26, 26, 10, 11, 13, 17,
    34, 26, 22, 18, 32, 32, 18, 22, 26, 34,
];

/// The effort table of a keyboard type.
pub open spec fn base_effort_of(ktype: KeyboardType) -> [u8; 30] {
    match ktype {
        KeyboardType::IsoAngle => ISO_ANGLE_EFFORT,
        KeyboardType::AnsiAngle => ANSI_ANGLE_EFFORT,
        KeyboardType::RowstagDefault => ROWSTAG_EFFORT,
        KeyboardType::Ortho => ORTHO_EFFORT,
        KeyboardType::Colstag => COLSTAG_EFFORT,
    }
}

/// Base effort of each position on a keyboard of type `ktype`, in tenths:
/// between 1.0 for the home position of an index finger and 3.7.
pub fn base_effort(ktype: KeyboardType) -> (tenths: [u8; 30])
    ensures
        tenths == base_effort_of(ktype),
        forall|i: int| 0 <= i < 30 ==> 10 <= #[trigger] tenths@[i] <= 37,
{
    match ktype {
        KeyboardType::IsoAngle => ISO_ANGLE_EFFORT,
        KeyboardType::AnsiAngle => ANSI_ANGLE_EFFORT,
        KeyboardType::RowstagDefault => ROWSTAG_EFFORT,
        KeyboardType::Ortho => ORTHO_EFFORT,
        KeyboardType::Colstag => COLSTAG_EFFORT,
    }
}

/// How the message for a text that names no keyboard type begins.
pub const PARSE_ERROR: &'static str = "Couldn't parse keyboard type!";

/// The keyboard type that a run of words names, if it names one. The words
/// are compared as they are: lowercase is expected.
pub open spec fn keyboard_type_of(words: Seq<Seq<char>>) -> Option<KeyboardType> {
    if words.len() == 1 {
        let word = words[0];
        if word == "ortho"@ {
            Some(KeyboardType::Ortho)
        } else if word == "colstag"@ {
            Some(KeyboardType::Colstag)
        } else if word == "rowstag"@ || word == "iso"@ || word == "ansi"@ || word == "jis"@ {
            Some(KeyboardType::RowstagDefault)
        } else {
            None
        }
    } else if words.len() == 2 {
        if words[0] == "ansi"@ && words[1] == "angle"@ {
            Some(KeyboardType::AnsiAngle)
        } else if words[0] == "iso"@ && words[1] == "angle"@ {
            Some(KeyboardType::IsoAngle)
        } else {
            None
        }
    } else {
        None
    }
}

/// The keyboard type that a text names, whatever its case and the
/// whitespace around and between its words: the type that its words name
/// once the text has been put in lowercase.
pub open spec fn named_type(text: Seq<char>) -> Option<KeyboardType> {
    keyboard_type_of(words_of(lowercase_of(text)))
}

/// What is said of a text that names no keyboard type: the parse error,
/// and then the text in double quotes.
pub open spec fn parse_message(text: Seq<char>) -> Seq<char> {
    PARSE_ERROR@ + seq![' ', '"'] + text + seq!['"']
}

/// The message for a text that names no keyboard type.
pub fn describe_parse_error(text: &str) -> (message: String)
    ensures
        message@ == parse_message(text@),
{
    let mut message = String::from_str(PARSE_ERROR);
    message.push(' ');
    message.push('"');
    message.append(text);
    message.push('"');
    assert(message@ =~= parse_message(text@));
    message
}

impl KeyboardType {
    /// The keyboard type that `words` names: one of `ortho`, `colstag`,
    /// `rowstag`, `iso`, `ansi`, `jis` alone, or `ansi angle` or
    /// `iso angle`.
    pub fn from_words(words: &[&str]) -> (found: Option<KeyboardType>)
        ensures
            found == keyboard_type_of(words.deep_view()),
    {
        if words.len() == 1 {
            let word = words[0];
            assert(words.deep_view()[0] == word@);
            if same_text(word, "ortho") {
                Some(KeyboardType::Ortho)
            } else if same_text(word, "colstag") {
                Some(KeyboardType::Colstag)
            } else if same_text(word, "rowstag") || same_text(word, "iso") || same_text(
                word,
                "ansi",
            ) || same_text(word, "jis") {
                Some(KeyboardType::RowstagDefault)
            } else {
                None
            }
        } else if words.len() == 2 {
            assert(words.deep_view()[0] == words[0]@);
            assert(words.deep_view()[1] == words[1]@);
            if same_text(words[0], "ansi") && same_text(words[1], "angle") {
                Some(KeyboardType::AnsiAngle)
            } else if same_text(words[0], "iso") && same_text(words[1], "angle") {
                Some(KeyboardType::IsoAngle)
            } else {
                None
            }
        } else {
            None
        }
    }
}

impl TryFrom<String> for KeyboardType {
    type Error = String;

    /// Reads a keyboard type from text, whatever its case and the
    /// whitespace around and between its words. A text that names no type
    /// is answered by a message that quotes it.
    fn try_from(value: String) -> (answer: Result<Self, String>)
        ensures
            match answer {
                Ok(ktype) => named_type(value@) == Some(ktype),
                Err(message) => named_type(value@) is None && message@ == parse_message(value@),
            },
    {
        let lower = lowercase(value.as_str());
        let split = words(lower.as_str());
        match KeyboardType::from_words(split.as_slice()) {
            Some(ktype) => Ok(ktype),
            None => Err(describe_parse_error(value.as_str())),
        }
    }
}

impl TryFromSpecImpl<String> for KeyboardType {
    /// The message of an error is a `String`, which is told from another
    /// by its text alone: the answer is stated by the `ensures` of
    /// `try_from`, over the text.
    open spec fn obeys_try_from_spec() -> bool {
        false
    }

    /// The type that the text names, or else the text: not the answer of
    /// `try_from`, whose error is the message that quotes the text.
    open spec fn try_from_spec(v: String) -> Result<Self, String> {
        match named_type(v@) {
            Some(ktype) => Ok(ktype),
            None => Err(v),
        }
    }
}

} // verus!

use vstd::prelude::*;

verus! {

/// The palette that fields are rendered in.
#[derive(Clone, Copy, Debug, PartialEq, Eq, Structural)]
pub enum Color {
    Default,
    Magenta,
    Cyan,
    Yellow,
    Red,
}

/// What `str::to_lowercase` returns for a string.
pub uninterp spec fn lower_of(s: Seq<char>) -> Seq<char>;

/// Relies on `str::to_lowercase`: the lowercase form of a string depends on its
/// characters alone.
#[verifier::external_body]
fn lowercase(s: &str) -> (r: String)
    ensures
        r@ == lower_of(s@),
{
    s.to_lowercase()
}

/// The (key colour, value colour) pair for a severity that is already in lower
/// case.
pub open spec fn palette(s: Seq<char>) -> (Color, Color) {
    if s == "debug"@ || s == "dbg"@ || s == "d"@ {
        (Color::Magenta, Color::Default)
    } else if s == "info"@ || s == "inf"@ || s == "i"@ {
        (Color::Cyan, Color::Default)
    } else if s == "warning"@ || s == "warn"@ || s == "wrn"@ || s == "w"@ {
        (Color::Yellow, Color::Default)
    } else if s == "error"@ || s == "err"@ || s == "e"@ {
        (Color::Red, Color::Default)
    } else if s == "fatal"@ || s == "f"@ {
        (Color::Red, Color::Default)
    } else {
        (Color::Default, Color::Default)
    }
}

/// The colours of a record with the given severity: the palette entry of its
/// lower-case form, or the default pair when there is no severity.
pub open spec fn level_colors(level: Option<Seq<char>>) -> (Color, Color) {
    match level {
        Some(s) => palette(lower_of(s)),
        None => (Color::Default, Color::Default),
    }
}

fn is_word(s: &String, word: &str) -> (r: bool)
    ensures
        r == (s@ == word@),
{
    let w = word.to_owned();
    *s == w
}

/// Looks a lower-case severity up in the palette.
pub fn color_for(lowered: &String) -> (r: (Color, Color))
    ensures
        r == palette(lowered@),
{
    if is_word(lowered, "debug") || is_word(lowered, "dbg") || is_word(lowered, "d") {
        (Color::Magenta, Color::Default)
    } else if is_word(lowered, "info") || is_word(lowered, "inf") || is_word(lowered, "i") {
        (Color::Cyan, Color::Default)
    } else if is_word(lowered, "warning") || is_word(lowered, "warn") || is_word(lowered, "wrn")
        || is_word(lowered, "w") {
        (Color::Yellow, Color::Default)
    } else if is_word(lowered, "error") || is_word(lowered, "err") || is_word(lowered, "e") {
        (Color::Red, Color::Default)
    } else if is_word(lowered, "fatal") || is_word(lowered, "f") {
        (Color::Red, Color::Default)
    } else {
        (Color::Default, Color::Default)
    }
}

/// Maps a detected severity to its (key colour, value colour) pair; the
/// comparison ignores case.
pub fn get_colors(level: Option<String>) -> (r: (Color, Color))
    ensures
        r == level_colors(match level {
            Some(s) => Some(s@),
            None => None,
        }),
{
    match level {
        Some(l) => {
            let lowered = lowercase(l.as_str());
            color_for(&lowered)
        },
        None => (Color::Default, Color::Default),
    }
}

/// Severities that differ only in case get the same colours.
pub proof fn lemma_case_insensitive(a: Seq<char>, b: Seq<char>)
    requires
        lower_of(a) == lower_of(b),
    ensures
        level_colors(Some(a)) == level_colors(Some(b)),
{
}

} // verus!

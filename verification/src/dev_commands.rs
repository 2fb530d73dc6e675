//! Commands typed on the engine's own terminal while developing: a line is
//! read as words separated by white space, and its first words name the
//! command.
use vstd::prelude::*;
use vstd::string::StrSliceExecFns;

use crate::text::str_eq;

verus! {

/// What a line typed on the engine's terminal asks for.
#[derive(Debug, PartialEq, Eq)]
pub enum DevCommand {
    /// Print the list of commands.
    Help,
    /// Rebuild and restart the engine.
    Reboot,
    /// Stop the simulation.
    Pause,
    /// Start the simulation again.
    Resume,
    /// Take every visitor out of the park.
    ResetVisitors,
    /// Load the default map again.
    ResetMap,
    /// `reset` without a known target.
    ResetUsage,
    /// Print the balance.
    ShowFunds,
    /// Add an amount, still to be read as a number, to the balance.
    AddFunds(String),
    /// A first word that names no command.
    Unknown(String),
    /// A line without words.
    Nothing,
}

/// Whether a character is white space, as Unicode's `White_Space` property
/// lists them.
pub open spec fn is_white_space(c: char) -> bool {
    ||| '\u{9}' <= c <= '\u{d}'
    ||| c == ' '
    ||| c == '\u{85}'
    ||| c == '\u{a0}'
    ||| c == '\u{1680}'
    ||| '\u{2000}' <= c <= '\u{200a}'
    ||| c == '\u{2028}'
    ||| c == '\u{2029}'
    ||| c == '\u{202f}'
    ||| c == '\u{205f}'
    ||| c == '\u{3000}'
}

/// Whether a character is white space, as Unicode's `White_Space` property
/// lists them.
pub fn white_space(c: char) -> (r: bool)
    ensures
        r == is_white_space(c),
{
    ('\u{9}' <= c && c <= '\u{d}') || c == ' ' || c == '\u{85}' || c == '\u{a0}' || c == '\u{1680}'
        || ('\u{2000}' <= c && c <= '\u{200a}') || c == '\u{2028}' || c == '\u{2029}' || c
        == '\u{202f}' || c == '\u{205f}' || c == '\u{3000}'
}

/// The index of the first character of `s`, from `i` on, that is not white
/// space, or the length of `s`.
pub open spec fn skip_space(s: Seq<char>, i: int) -> int
    decreases s.len() - i,
{
    if i < 0 || i >= s.len() {
        s.len() as int
    } else if is_white_space(s[i]) {
        skip_space(s, i + 1)
    } else {
        i
    }
}

/// The index of the first character of `s`, from `i` on, that is white
/// space, or the length of `s`.
pub open spec fn word_end(s: Seq<char>, i: int) -> int
    decreases s.len() - i,
{
    if i < 0 || i >= s.len() {
        s.len() as int
    } else if is_white_space(s[i]) {
        i
    } else {
        word_end(s, i + 1)
    }
}

/// The first word of `s` from `i` on, and where it ends, if there is one.
pub open spec fn next_word(s: Seq<char>, i: int) -> Option<(Seq<char>, int)> {
    let start = skip_space(s, i);
    if start >= s.len() {
        None
    } else {
        Some((s.subrange(start, word_end(s, start)), word_end(s, start)))
    }
}

/// The second word of `s`, if there is one.
pub open spec fn second_word(s: Seq<char>) -> Option<Seq<char>> {
    match next_word(s, 0) {
        Some((_, end)) => match next_word(s, end) {
            Some((w, _)) => Some(w),
            None => None,
        },
        None => None,
    }
}

proof fn lemma_skip_space(s: Seq<char>, i: int)
    requires
        0 <= i <= s.len(),
    ensures
        i <= skip_space(s, i) <= s.len(),
    decreases s.len() - i,
{
    if i < s.len() && is_white_space(s[i]) {
        lemma_skip_space(s, i + 1);
    }
}

proof fn lemma_word_end(s: Seq<char>, i: int)
    requires
        0 <= i <= s.len(),
    ensures
        i <= word_end(s, i) <= s.len(),
    decreases s.len() - i,
{
    if i < s.len() && !is_white_space(s[i]) {
        lemma_word_end(s, i + 1);
    }
}

/// The first word of `line` from the `i`-th character on, as the indices
/// where it starts and ends, if there is one.
fn find_word(line: &str, n: usize, i: usize) -> (r: Option<(usize, usize)>)
    requires
        n == line@.len(),
        i <= n,
    ensures
        match next_word(line@, i as int) {
            None => r is None,
            Some((w, end)) => r matches Some((a, b)) && a <= b <= n && line@.subrange(a as int, b as int)
                == w && b == end,
        },
{
    let mut start = i;
    proof {
        lemma_skip_space(line@, i as int);
    }
    while start < n
        invariant
            n == line@.len(),
            i <= start <= n,
            skip_space(line@, i as int) == skip_space(line@, start as int),
        ensures
            start <= n,
            skip_space(line@, i as int) == skip_space(line@, start as int),
            start < n ==> !is_white_space(line@[start as int]),
        decreases n - start,
    {
        if !white_space(line.get_char(start)) {
            break;
        }
        start += 1;
    }
    if start >= n {
        return None;
    }
    let mut end = start;
    proof {
        lemma_word_end(line@, start as int);
    }
    while end < n
        invariant
            n == line@.len(),
            start <= end <= n,
            word_end(line@, start as int) == word_end(line@, end as int),
        ensures
            start <= end <= n,
            word_end(line@, start as int) == word_end(line@, end as int),
            end < n ==> is_white_space(line@[end as int]),
        decreases n - end,
    {
        if white_space(line.get_char(end)) {
            break;
        }
        end += 1;
    }
    Some((start, end))
}

/// Reads a line typed on the engine's terminal: `help`, `reboot`, `pause`,
/// `resume`, `reset visitors`, `reset map`, `funds` and `funds <amount>`;
/// any other first word is unknown, and a line without words asks for
/// nothing.
pub fn parse_dev_command(line: &str) -> (r: DevCommand)
    ensures
        match next_word(line@, 0) {
            None => r == DevCommand::Nothing,
            Some((w, _)) => if w == "help"@ {
                r == DevCommand::Help
            } else if w == "reboot"@ {
                r == DevCommand::Reboot
            } else if w == "pause"@ {
                r == DevCommand::Pause
            } else if w == "resume"@ {
                r == DevCommand::Resume
            } else if w == "reset"@ {
                match second_word(line@) {
                    Some(t) => if t == "visitors"@ {
                        r == DevCommand::ResetVisitors
                    } else if t == "map"@ {
                        r == DevCommand::ResetMap
                    } else {
                        r == DevCommand::ResetUsage
                    },
                    None => r == DevCommand::ResetUsage,
                }
            } else if w == "funds"@ {
                match second_word(line@) {
                    Some(t) => r matches DevCommand::AddFunds(amount) && amount@ == t,
                    None => r == DevCommand::ShowFunds,
                }
            } else {
                r matches DevCommand::Unknown(word) && word@ == w
            },
        },
{
    let n = line.unicode_len();
    let (a, b) = match find_word(line, n, 0) {
        Some(found) => found,
        None => return DevCommand::Nothing,
    };
    let first = line.substring_char(a, b);
    let second = match find_word(line, n, b) {
        Some((c, d)) => Some(line.substring_char(c, d)),
        None => None,
    };
    if str_eq(first, "help") {
        DevCommand::Help
    } else if str_eq(first, "reboot") {
        DevCommand::Reboot
    } else if str_eq(first, "pause") {
        DevCommand::Pause
    } else if str_eq(first, "resume") {
        DevCommand::Resume
    } else if str_eq(first, "reset") {
        match second {
            Some(t) => if str_eq(t, "visitors") {
                DevCommand::ResetVisitors
            } else if str_eq(t, "map") {
                DevCommand::ResetMap
            } else {
                DevCommand::ResetUsage
            },
            None => DevCommand::ResetUsage,
        }
    } else if str_eq(first, "funds") {
        match second {
            Some(t) => DevCommand::AddFunds(t.to_owned()),
            None => DevCommand::ShowFunds,
        }
    } else {
        DevCommand::Unknown(first.to_owned())
    }
}

} // verus!

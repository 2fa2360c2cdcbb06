//! The grammar of generator calls, as functions on sequences of characters.
//!
//! ```text
//! call     := name '(' (argument (',' argument)*)? ')'
//! argument := call | literal
//! literal  := string | number | 'true' | 'false' | 'null'
//! ```
//!
//! Spaces, tabs and line ends may stand between any two tokens. A string is
//! written in double quotes, with the escapes `\"`, `\\`, `\/`, `\b`, `\f`,
//! `\n`, `\r` and `\t`, every other character standing for itself; a number
//! is written as in JSON.

use vstd::prelude::*;
use crate::call::{ArgView, CallView};
use crate::json::JsonView;
use crate::text::decimal_text;

verus! {

/// What the grammar asked for at the place where a text left it.
#[derive(Debug, Clone, Copy, PartialEq, Eq, Structural)]
pub enum Expected {
    /// The name of a function.
    Name,
    /// The parenthesis that opens the argument list.
    Open,
    /// An argument.
    Argument,
    /// A comma, or the parenthesis that closes the argument list.
    Separator,
    /// The quote that closes a string.
    Quote,
    /// One of the characters that may follow a backslash.
    Escape,
    /// A digit.
    Digit,
    /// The end of the text.
    End,
}

/// Where a text leaves the grammar, and what was expected there.
pub struct SyntaxFault {
    pub at: int,
    pub expected: Expected,
}

/// The classes of characters that the grammar reads in runs.
#[derive(Debug, Clone, Copy, PartialEq, Eq, Structural)]
pub enum Class {
    Space,
    NamePart,
    Digit,
}

/// The characters that may stand between two tokens.
pub open spec fn is_space(c: char) -> bool {
    c == ' ' || c == '\t' || c == '\n' || c == '\r'
}

/// The decimal digits.
pub open spec fn is_digit(c: char) -> bool {
    '0' <= c <= '9'
}

/// The characters that a name may start with.
pub open spec fn is_name_start(c: char) -> bool {
    ('a' <= c <= 'z') || ('A' <= c <= 'Z') || c == '_'
}

/// Whether a character is of a class.
pub open spec fn in_class(c: char, class: Class) -> bool {
    match class {
        Class::Space => is_space(c),
        Class::NamePart => is_name_start(c) || is_digit(c),
        Class::Digit => is_digit(c),
    }
}

/// The end of the longest run of characters of `class` that starts at `at`.
pub open spec fn run_end(s: Seq<char>, at: int, class: Class) -> int
    decreases s.len() - at,
{
    if 0 <= at < s.len() && in_class(s[at], class) {
        run_end(s, at + 1, class)
    } else {
        at
    }
}

/// A run ends at or behind its start and within the text, and behind its
/// start where the character there is of the class.
pub proof fn lemma_run_end(s: Seq<char>, at: int, class: Class)
    requires
        0 <= at <= s.len(),
    ensures
        at <= run_end(s, at, class) <= s.len(),
        at < s.len() && in_class(s[at], class) ==> at < run_end(s, at, class),
    decreases s.len() - at,
{
    if at < s.len() && in_class(s[at], class) {
        lemma_run_end(s, at + 1, class);
    }
}

/// The character that a backslash followed by `c` stands for.
pub open spec fn escape_of(c: char) -> Option<char> {
    if c == '"' || c == '\\' || c == '/' {
        Some(c)
    } else if c == 'b' {
        Some('\u{8}')
    } else if c == 'f' {
        Some('\u{c}')
    } else if c == 'n' {
        Some('\n')
    } else if c == 'r' {
        Some('\r')
    } else if c == 't' {
        Some('\t')
    } else {
        None
    }
}

/// The rest of a string whose opening quote has been read: the characters
/// it holds, after those in `held`, and the place behind its closing quote.
pub open spec fn string_at(s: Seq<char>, at: int, held: Seq<char>) -> Result<
    (Seq<char>, int),
    SyntaxFault,
>
    decreases s.len() - at,
{
    if !(0 <= at < s.len()) {
        Err(SyntaxFault { at, expected: Expected::Quote })
    } else if s[at] == '"' {
        Ok((held, at + 1))
    } else if s[at] == '\\' {
        if at + 1 < s.len() && escape_of(s[at + 1]) is Some {
            string_at(s, at + 2, held.push(escape_of(s[at + 1])->0))
        } else {
            Err(SyntaxFault { at: at + 1, expected: Expected::Escape })
        }
    } else {
        string_at(s, at + 1, held.push(s[at]))
    }
}

/// The end of the exponent of a number, if one starts at `at`.
pub open spec fn exponent_end(s: Seq<char>, at: int) -> Result<int, SyntaxFault> {
    if 0 <= at < s.len() && (s[at] == 'e' || s[at] == 'E') {
        let digits = if at + 1 < s.len() && (s[at + 1] == '+' || s[at + 1] == '-') {
            at + 2
        } else {
            at + 1
        };
        if digits < s.len() && is_digit(s[digits]) {
            Ok(run_end(s, digits, Class::Digit))
        } else {
            Err(SyntaxFault { at: digits, expected: Expected::Digit })
        }
    } else {
        Ok(at)
    }
}

/// The end of the number that starts at `at`: an optional minus sign, a zero
/// or digits that do not start with a zero, an optional fraction, an
/// optional exponent.
pub open spec fn number_end(s: Seq<char>, at: int) -> Result<int, SyntaxFault> {
    let whole = if 0 <= at < s.len() && s[at] == '-' {
        at + 1
    } else {
        at
    };
    if !(0 <= whole < s.len() && is_digit(s[whole])) {
        Err(SyntaxFault { at: whole, expected: Expected::Digit })
    } else {
        let point = if s[whole] == '0' {
            whole + 1
        } else {
            run_end(s, whole, Class::Digit)
        };
        if 0 <= point < s.len() && s[point] == '.' {
            if point + 1 < s.len() && is_digit(s[point + 1]) {
                exponent_end(s, run_end(s, point + 1, Class::Digit))
            } else {
                Err(SyntaxFault { at: point + 1, expected: Expected::Digit })
            }
        } else {
            exponent_end(s, point)
        }
    }
}

/// The literal that a bare word stands for.
pub open spec fn keyword(word: Seq<char>) -> Option<JsonView> {
    if word =~= seq!['t', 'r', 'u', 'e'] {
        Some(JsonView::Bool(true))
    } else if word =~= seq!['f', 'a', 'l', 's', 'e'] {
        Some(JsonView::Bool(false))
    } else if word =~= seq!['n', 'u', 'l', 'l'] {
        Some(JsonView::Null)
    } else {
        None
    }
}

/// The argument that starts at `at`, and the place behind it.
pub open spec fn arg_at(s: Seq<char>, at: int) -> Result<(ArgView, int), SyntaxFault>
    decreases s.len() - at, 1int,
{
    if !(0 <= at < s.len()) {
        Err(SyntaxFault { at, expected: Expected::Argument })
    } else if s[at] == '"' {
        match string_at(s, at + 1, Seq::empty()) {
            Ok((held, end)) => Ok((ArgView::Literal(JsonView::Text(held)), end)),
            Err(fault) => Err(fault),
        }
    } else if s[at] == '-' || is_digit(s[at]) {
        match number_end(s, at) {
            Ok(end) => Ok((ArgView::Literal(JsonView::Number(s.subrange(at, end))), end)),
            Err(fault) => Err(fault),
        }
    } else if is_name_start(s[at]) {
        let word_end = run_end(s, at, Class::NamePart);
        let open = run_end(s, word_end, Class::Space);
        if 0 <= open < s.len() && s[open] == '(' {
            match call_at(s, at) {
                Ok((call, end)) => Ok((ArgView::Nested(call), end)),
                Err(fault) => Err(fault),
            }
        } else {
            match keyword(s.subrange(at, word_end)) {
                Some(literal) => Ok((ArgView::Literal(literal), word_end)),
                None => Err(SyntaxFault { at: open, expected: Expected::Open }),
            }
        }
    } else {
        Err(SyntaxFault { at, expected: Expected::Argument })
    }
}

/// The call whose name starts at `at`, and the place behind its closing
/// parenthesis.
pub open spec fn call_at(s: Seq<char>, at: int) -> Result<(CallView, int), SyntaxFault>
    decreases s.len() - at, 0int,
{
    if !(0 <= at < s.len() && is_name_start(s[at])) {
        Err(SyntaxFault { at, expected: Expected::Name })
    } else {
        let name_end = run_end(s, at, Class::NamePart);
        let open = run_end(s, name_end, Class::Space);
        if !(0 <= open < s.len() && s[open] == '(') {
            Err(SyntaxFault { at: open, expected: Expected::Open })
        } else {
            let first = run_end(s, open + 1, Class::Space);
            if 0 <= first < s.len() && s[first] == ')' {
                Ok((CallView { name: s.subrange(at, name_end), args: Seq::empty() }, first + 1))
            } else if at < first <= s.len() {
                match args_at(s, first, Seq::empty()) {
                    Ok((args, end)) => Ok((CallView { name: s.subrange(at, name_end), args }, end)),
                    Err(fault) => Err(fault),
                }
            } else {
                Err(SyntaxFault { at: first, expected: Expected::Argument })
            }
        }
    }
}

/// The arguments from `at` to the closing parenthesis, after those in
/// `held`, and the place behind that parenthesis.
pub open spec fn args_at(s: Seq<char>, at: int, held: Seq<ArgView>) -> Result<
    (Seq<ArgView>, int),
    SyntaxFault,
>
    decreases s.len() - at, 2int,
{
    match arg_at(s, at) {
        Err(fault) => Err(fault),
        Ok((arg, end)) => {
            let mark = run_end(s, end, Class::Space);
            if 0 <= mark < s.len() && s[mark] == ',' {
                let next = run_end(s, mark + 1, Class::Space);
                if at < next <= s.len() {
                    args_at(s, next, held.push(arg))
                } else {
                    Err(SyntaxFault { at: next, expected: Expected::Argument })
                }
            } else if 0 <= mark < s.len() && s[mark] == ')' {
                Ok((held.push(arg), mark + 1))
            } else {
                Err(SyntaxFault { at: mark, expected: Expected::Separator })
            }
        },
    }
}

/// The call that a whole text denotes: one call, with nothing but spaces
/// before and behind it.
pub open spec fn parse_call_spec(s: Seq<char>) -> Result<CallView, SyntaxFault> {
    match call_at(s, run_end(s, 0, Class::Space)) {
        Err(fault) => Err(fault),
        Ok((call, end)) => {
            let rest = run_end(s, end, Class::Space);
            if rest == s.len() {
                Ok(call)
            } else {
                Err(SyntaxFault { at: rest, expected: Expected::End })
            }
        },
    }
}

/// How an expectation reads in a message.
pub open spec fn expected_text(expected: Expected) -> Seq<char> {
    match expected {
        Expected::Name => "a function name"@,
        Expected::Open => "'('"@,
        Expected::Argument => "an argument"@,
        Expected::Separator => "',' or ')'"@,
        Expected::Quote => "a closing '\"'"@,
        Expected::Escape => "an escape character"@,
        Expected::Digit => "a digit"@,
        Expected::End => "the end of the call"@,
    }
}

/// The message for a text that leaves the grammar: the text, what was
/// expected, and the place, counted in characters from 0.
pub open spec fn syntax_message(s: Seq<char>, fault: SyntaxFault) -> Seq<char> {
    "cannot parse the generator call '"@ + s + "': expected "@ + expected_text(fault.expected)
        + " at position "@ + decimal_text(fault.at as nat)
}

} // verus!

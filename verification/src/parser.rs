//! The parser of generator calls.

use vstd::prelude::*;
use vstd::string::*;
use crate::call::{args_view, ArgView, Argument, Call, CallView};
use crate::error::{result_view, Fault, GenError, GenErrorType};
use crate::grammar::{
    arg_at, args_at, call_at, escape_of, exponent_end, in_class, is_digit, is_name_start,
    keyword, lemma_run_end, number_end, parse_call_spec, run_end, string_at, syntax_message, Class, Expected,
    SyntaxFault,
};
use crate::json::Json;
use crate::text::{chars_of, decimal, text_of};

verus! {

/// A place in the text and what the grammar expected there.
struct Mark {
    at: usize,
    expected: Expected,
}

impl View for Mark {
    type V = SyntaxFault;

    closed spec fn view(&self) -> SyntaxFault {
        SyntaxFault { at: self.at as int, expected: self.expected }
    }
}

/// What parsing a whole text gives: the call, or the failure that reports
/// where the text leaves the grammar.
pub open spec fn parsed_call(s: Seq<char>) -> Result<CallView, Fault> {
    match parse_call_spec(s) {
        Ok(call) => Ok(call),
        Err(fault) => Err(
            Fault { reason: syntax_message(s, fault), tpe: GenErrorType::Parser },
        ),
    }
}

fn is_digit_char(c: char) -> (b: bool)
    ensures
        b == is_digit(c),
{
    '0' <= c && c <= '9'
}

fn is_name_start_char(c: char) -> (b: bool)
    ensures
        b == is_name_start(c),
{
    ('a' <= c && c <= 'z') || ('A' <= c && c <= 'Z') || c == '_'
}

fn member_of(c: char, class: Class) -> (b: bool)
    ensures
        b == in_class(c, class),
{
    match class {
        Class::Space => c == ' ' || c == '\t' || c == '\n' || c == '\r',
        Class::NamePart => is_name_start_char(c) || is_digit_char(c),
        Class::Digit => is_digit_char(c),
    }
}

/// Reads the run of characters of `class` that starts at `at`.
fn scan(chars: &Vec<char>, at: usize, class: Class) -> (end: usize)
    requires
        at <= chars.len(),
    ensures
        end == run_end(chars@, at as int, class),
        at <= end <= chars.len(),
{
    let mut i: usize = at;
    while i < chars.len() && member_of(chars[i], class)
        invariant
            at <= i <= chars.len(),
            run_end(chars@, at as int, class) == run_end(chars@, i as int, class),
        decreases chars.len() - i,
    {
        i += 1;
    }
    i
}

fn unescape(c: char) -> (r: Option<char>)
    ensures
        r == escape_of(c),
{
    if c == '"' || c == '\\' || c == '/' {
        Some(c)
    } else if c == 'b' {
        Some('\u{8}')
    } else if c == 'f' {
        Some('\u{c}')
    } else if c == 'n' {
        Some('\n')
    } else if c == 'r' {
        Some('\r')
    } else if c == 't' {
        Some('\t')
    } else {
        None
    }
}

/// Reads a string whose opening quote stands just before `at`.
fn read_string(chars: &Vec<char>, at: usize) -> (r: Result<(String, usize), Mark>)
    requires
        at <= chars.len(),
    ensures
        match r {
            Ok((text, end)) => string_at(chars@, at as int, Seq::empty()) == Ok::<
                (Seq<char>, int),
                SyntaxFault,
            >((text@, end as int)) && at < end <= chars.len(),
            Err(mark) => string_at(chars@, at as int, Seq::empty()) == Err::<
                (Seq<char>, int),
                SyntaxFault,
            >(mark@),
        },
{
    let mut text = String::new();
    let mut i: usize = at;
    loop
        invariant
            at <= i <= chars.len(),
            string_at(chars@, at as int, Seq::empty()) == string_at(chars@, i as int, text@),
        decreases chars.len() - i,
    {
        if i >= chars.len() {
            return Err(Mark { at: i, expected: Expected::Quote });
        }
        let c = chars[i];
        if c == '"' {
            return Ok((text, i + 1));
        }
        if c == '\\' {
            if i + 1 >= chars.len() {
                return Err(Mark { at: i + 1, expected: Expected::Escape });
            }
            match unescape(chars[i + 1]) {
                Some(e) => {
                    text.push(e);
                    i += 2;
                },
                None => {
                    return Err(Mark { at: i + 1, expected: Expected::Escape });
                },
            }
        } else {
            text.push(c);
            i += 1;
        }
    }
}

/// Reads the exponent of a number, if one starts at `at`.
fn read_exponent(chars: &Vec<char>, at: usize) -> (r: Result<usize, Mark>)
    requires
        at <= chars.len(),
    ensures
        match r {
            Ok(end) => exponent_end(chars@, at as int) == Ok::<int, SyntaxFault>(end as int) && at
                <= end <= chars.len(),
            Err(mark) => exponent_end(chars@, at as int) == Err::<int, SyntaxFault>(mark@),
        },
{
    if at < chars.len() && (chars[at] == 'e' || chars[at] == 'E') {
        let digits: usize = if at + 1 < chars.len() && (chars[at + 1] == '+' || chars[at + 1]
            == '-') {
            at + 2
        } else {
            at + 1
        };
        if digits < chars.len() && is_digit_char(chars[digits]) {
            Ok(scan(chars, digits, Class::Digit))
        } else {
            Err(Mark { at: digits, expected: Expected::Digit })
        }
    } else {
        Ok(at)
    }
}

/// Reads the number that starts at `at`.
fn read_number(chars: &Vec<char>, at: usize) -> (r: Result<usize, Mark>)
    requires
        at < chars.len(),
    ensures
        match r {
            Ok(end) => number_end(chars@, at as int) == Ok::<int, SyntaxFault>(end as int) && at
                < end <= chars.len(),
            Err(mark) => number_end(chars@, at as int) == Err::<int, SyntaxFault>(mark@),
        },
{
    let whole: usize = if chars[at] == '-' {
        at + 1
    } else {
        at
    };
    if !(whole < chars.len() && is_digit_char(chars[whole])) {
        return Err(Mark { at: whole, expected: Expected::Digit });
    }
    let point: usize = if chars[whole] == '0' {
        whole + 1
    } else {
        scan(chars, whole, Class::Digit)
    };
    proof {
        lemma_run_end(chars@, whole as int, Class::Digit);
    }
    if point < chars.len() && chars[point] == '.' {
        if point + 1 < chars.len() && is_digit_char(chars[point + 1]) {
            let fraction = scan(chars, point + 1, Class::Digit);
            read_exponent(chars, fraction)
        } else {
            Err(Mark { at: point + 1, expected: Expected::Digit })
        }
    } else {
        read_exponent(chars, point)
    }
}

/// The literal that the word `chars[from..to]` stands for.
fn read_keyword(chars: &Vec<char>, from: usize, to: usize) -> (r: Option<Json>)
    requires
        from <= to <= chars.len(),
    ensures
        match r {
            Some(json) => keyword(chars@.subrange(from as int, to as int)) == Some(json@),
            None => keyword(chars@.subrange(from as int, to as int)) is None,
        },
{
    let ghost word = chars@.subrange(from as int, to as int);
    let n: usize = to - from;
    if n == 4 && chars[from] == 't' && chars[from + 1] == 'r' && chars[from + 2] == 'u'
        && chars[from + 3] == 'e' {
        assert(word =~= seq!['t', 'r', 'u', 'e']);
        Some(Json::Bool(true))
    } else if n == 5 && chars[from] == 'f' && chars[from + 1] == 'a' && chars[from + 2] == 'l'
        && chars[from + 3] == 's' && chars[from + 4] == 'e' {
        assert(word =~= seq!['f', 'a', 'l', 's', 'e']);
        assert(!(word =~= seq!['t', 'r', 'u', 'e']));
        Some(Json::Bool(false))
    } else if n == 4 && chars[from] == 'n' && chars[from + 1] == 'u' && chars[from + 2] == 'l'
        && chars[from + 3] == 'l' {
        assert(word =~= seq!['n', 'u', 'l', 'l']);
        assert(word[0] == 'n');
        Some(Json::Null)
    } else {
        proof {
            if word =~= seq!['t', 'r', 'u', 'e'] {
                assert(word[0] == 't' && word[1] == 'r' && word[2] == 'u' && word[3] == 'e');
            }
            if word =~= seq!['f', 'a', 'l', 's', 'e'] {
                assert(word[0] == 'f' && word[1] == 'a' && word[2] == 'l' && word[3] == 's'
                    && word[4] == 'e');
            }
            if word =~= seq!['n', 'u', 'l', 'l'] {
                assert(word[0] == 'n' && word[1] == 'u' && word[2] == 'l' && word[3] == 'l');
            }
        }
        None
    }
}

/// Reads the argument that starts at `at`.
fn read_arg(chars: &Vec<char>, at: usize) -> (r: Result<(Argument, usize), Mark>)
    requires
        at <= chars.len(),
    ensures
        match r {
            Ok((arg, end)) => arg_at(chars@, at as int) == Ok::<(ArgView, int), SyntaxFault>(
                (arg@, end as int),
            ) && at < end <= chars.len(),
            Err(mark) => arg_at(chars@, at as int) == Err::<(ArgView, int), SyntaxFault>(mark@),
        },
    decreases chars.len() - at, 1int,
{
    if at >= chars.len() {
        return Err(Mark { at, expected: Expected::Argument });
    }
    let c = chars[at];
    if c == '"' {
        match read_string(chars, at + 1) {
            Ok((text, end)) => Ok((Argument::Literal(Json::Text(text)), end)),
            Err(mark) => Err(mark),
        }
    } else if c == '-' || is_digit_char(c) {
        match read_number(chars, at) {
            Ok(end) => Ok((Argument::Literal(Json::Number(text_of(chars, at, end))), end)),
            Err(mark) => Err(mark),
        }
    } else if is_name_start_char(c) {
        let word_end = scan(chars, at, Class::NamePart);
        proof {
            lemma_run_end(chars@, at as int, Class::NamePart);
        }
        let open = scan(chars, word_end, Class::Space);
        if open < chars.len() && chars[open] == '(' {
            match read_call(chars, at) {
                Ok((call, end)) => Ok((Argument::Nested(call), end)),
                Err(mark) => Err(mark),
            }
        } else {
            match read_keyword(chars, at, word_end) {
                Some(literal) => Ok((Argument::Literal(literal), word_end)),
                None => Err(Mark { at: open, expected: Expected::Open }),
            }
        }
    } else {
        Err(Mark { at, expected: Expected::Argument })
    }
}

/// The call of `name` for an argument list read up to its closing
/// parenthesis.
spec fn call_with(name: Seq<char>, rest: Result<(Seq<ArgView>, int), SyntaxFault>) -> Result<
    (CallView, int),
    SyntaxFault,
> {
    match rest {
        Ok((args, end)) => Ok((CallView { name, args }, end)),
        Err(fault) => Err(fault),
    }
}

/// Reads the call whose name starts at `at`.
fn read_call(chars: &Vec<char>, at: usize) -> (r: Result<(Call, usize), Mark>)
    requires
        at <= chars.len(),
    ensures
        match r {
            Ok((call, end)) => call_at(chars@, at as int) == Ok::<(CallView, int), SyntaxFault>(
                (call@, end as int),
            ) && at < end <= chars.len(),
            Err(mark) => call_at(chars@, at as int) == Err::<(CallView, int), SyntaxFault>(
                mark@,
            ),
        },
    decreases chars.len() - at, 0int,
{
    if !(at < chars.len() && is_name_start_char(chars[at])) {
        return Err(Mark { at, expected: Expected::Name });
    }
    let name_end = scan(chars, at, Class::NamePart);
    proof {
        lemma_run_end(chars@, at as int, Class::NamePart);
    }
    let open = scan(chars, name_end, Class::Space);
    if !(open < chars.len() && chars[open] == '(') {
        return Err(Mark { at: open, expected: Expected::Open });
    }
    let first = scan(chars, open + 1, Class::Space);
    let name = text_of(chars, at, name_end);
    let mut args: Vec<Argument> = Vec::new();
    if first < chars.len() && chars[first] == ')' {
        let call = Call { name, args };
        assert(call@.args =~= Seq::empty());
        return Ok((call, first + 1));
    }
    let mut next: usize = first;
    assert(args_view(args@) =~= Seq::empty());
    loop
        invariant
            at < next <= chars.len(),
            call_at(chars@, at as int) == call_with(
                name@,
                args_at(chars@, first as int, Seq::empty()),
            ),
            args_at(chars@, first as int, Seq::empty()) == args_at(
                chars@,
                next as int,
                args_view(args@),
            ),
        decreases chars.len() - next,
    {
        let (arg, end) = match read_arg(chars, next) {
            Ok(read) => read,
            Err(mark) => {
                return Err(mark);
            },
        };
        let mark = scan(chars, end, Class::Space);
        let ghost held = args_view(args@);
        if mark < chars.len() && chars[mark] == ',' {
            args.push(arg);
            assert(args_view(args@) =~= held.push(arg@));
            next = scan(chars, mark + 1, Class::Space);
        } else if mark < chars.len() && chars[mark] == ')' {
            args.push(arg);
            assert(args_view(args@) =~= held.push(arg@));
            let call = Call { name, args };
            assert(call@.args =~= args_view(args@));
            return Ok((call, mark + 1));
        } else {
            return Err(Mark { at: mark, expected: Expected::Separator });
        }
    }
}

/// Parses a generator call. The whole text has to be one call: what follows
/// the closing parenthesis, other than spaces, is refused. The name is not
/// looked up: a call to a function that does not exist parses.
pub fn parse_call(text: &str) -> (r: Result<Call, GenError>)
    ensures
        result_view(r) == parsed_call(text@),
{
    let chars = chars_of(text);
    let start = scan(&chars, 0, Class::Space);
    let mark = match read_call(&chars, start) {
        Ok((call, end)) => {
            let rest = scan(&chars, end, Class::Space);
            if rest == chars.len() {
                return Ok(call);
            }
            Mark { at: rest, expected: Expected::End }
        },
        Err(mark) => mark,
    };
    Err(syntax_error(text, mark))
}

/// The failure that reports where `text` leaves the grammar.
fn syntax_error(text: &str, mark: Mark) -> (e: GenError)
    ensures
        e@ == (Fault { reason: syntax_message(text@, mark@), tpe: GenErrorType::Parser }),
{
    let expected = match mark.expected {
        Expected::Name => "a function name",
        Expected::Open => "'('",
        Expected::Argument => "an argument",
        Expected::Separator => "',' or ')'",
        Expected::Quote => "a closing '\"'",
        Expected::Escape => "an escape character",
        Expected::Digit => "a digit",
        Expected::End => "the end of the call",
    };
    let reason = String::from_str("cannot parse the generator call '").concat(text).concat(
        "': expected ",
    ).concat(expected).concat(" at position ").concat(decimal(mark.at as u64).as_str());
    GenError::new_with_in_parser(reason.as_str())
}

} // verus!

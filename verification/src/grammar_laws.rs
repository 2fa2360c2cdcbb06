//! What holds of the grammar of generator calls: a call is read the same
//! whatever follows it, and nothing but spaces may follow it.

use vstd::prelude::*;
use crate::call::ArgView;
use crate::grammar::{
    arg_at, args_at, call_at, exponent_end, in_class, is_space, lemma_run_end, number_end,
    parse_call_spec, run_end, string_at, Class, Expected, };

verus! {

/// A run that ends inside a text ends there whatever follows the text.
pub proof fn lemma_run_stable(s: Seq<char>, t: Seq<char>, at: int, class: Class)
    requires
        0 <= at <= s.len(),
        run_end(s, at, class) < s.len(),
    ensures
        run_end(s + t, at, class) == run_end(s, at, class),
    decreases s.len() - at,
{
    lemma_run_end(s, at, class);
    assert((s + t)[at] == s[at]);
    if in_class(s[at], class) {
        lemma_run_stable(s, t, at + 1, class);
    }
}

/// A run ends at or before the first character that is not of its class.
pub proof fn lemma_run_stops(s: Seq<char>, at: int, stop: int, class: Class)
    requires
        0 <= at <= stop < s.len(),
        !in_class(s[stop], class),
    ensures
        run_end(s, at, class) <= stop,
    decreases stop - at,
{
    if at < stop && in_class(s[at], class) {
        lemma_run_stops(s, at + 1, stop, class);
    }
}

/// A string that is closed inside a text is read the same whatever follows
/// the text.
pub proof fn lemma_string_stable(s: Seq<char>, t: Seq<char>, at: int, held: Seq<char>)
    requires
        0 <= at,
        string_at(s, at, held) is Ok,
    ensures
        string_at(s + t, at, held) == string_at(s, at, held),
        string_at(s, at, held)->Ok_0.1 <= s.len(),
    decreases s.len() - at,
{
    assert((s + t)[at] == s[at]);
    if s[at] == '"' {
    } else if s[at] == '\\' {
        assert((s + t)[at + 1] == s[at + 1]);
        lemma_string_stable(s, t, at + 2, held.push(crate::grammar::escape_of(s[at + 1])->0));
    } else {
        lemma_string_stable(s, t, at + 1, held.push(s[at]));
    }
}

/// An exponent that ends inside a text is read the same whatever follows
/// the text.
pub proof fn lemma_exponent_stable(s: Seq<char>, t: Seq<char>, at: int)
    requires
        0 <= at <= s.len(),
        exponent_end(s, at) matches Ok(end) && end < s.len(),
    ensures
        exponent_end(s + t, at) == exponent_end(s, at),
        exponent_end(s, at)->Ok_0 >= at,
{
    if at < s.len() && (s[at] == 'e' || s[at] == 'E') {
        assert((s + t)[at] == s[at]);
        let digits = if at + 1 < s.len() && (s[at + 1] == '+' || s[at + 1] == '-') {
            at + 2
        } else {
            at + 1
        };
        assert(digits < s.len());
        assert((s + t)[at + 1] == s[at + 1]);
        assert((s + t)[digits] == s[digits]);
        lemma_run_end(s, digits, Class::Digit);
        lemma_run_stable(s, t, digits, Class::Digit);
    } else {
        assert((s + t)[at] == s[at]);
    }
}

/// The end of an exponent is at or behind its start.
proof fn lemma_exponent_end(s: Seq<char>, at: int)
    requires
        0 <= at <= s.len(),
    ensures
        exponent_end(s, at) matches Ok(end) ==> at <= end,
{
    if at < s.len() && (s[at] == 'e' || s[at] == 'E') {
        let digits = if at + 1 < s.len() && (s[at + 1] == '+' || s[at + 1] == '-') {
            at + 2
        } else {
            at + 1
        };
        if digits < s.len() {
            lemma_run_end(s, digits, Class::Digit);
        }
    }
}

/// A number that ends inside a text is read the same whatever follows the
/// text.
pub proof fn lemma_number_stable(s: Seq<char>, t: Seq<char>, at: int)
    requires
        0 <= at < s.len(),
        number_end(s, at) matches Ok(end) && end < s.len(),
    ensures
        number_end(s + t, at) == number_end(s, at),
        number_end(s, at)->Ok_0 > at,
{
    assert((s + t)[at] == s[at]);
    let whole = if s[at] == '-' {
        at + 1
    } else {
        at
    };
    assert((s + t)[whole] == s[whole]);
    lemma_run_end(s, whole, Class::Digit);
    let point = if s[whole] == '0' {
        whole + 1
    } else {
        run_end(s, whole, Class::Digit)
    };
    if point < s.len() && s[point] == '.' {
        lemma_run_end(s, point + 1, Class::Digit);
        let fraction = run_end(s, point + 1, Class::Digit);
        lemma_exponent_end(s, fraction);
        if s[whole] != '0' {
            lemma_run_stable(s, t, whole, Class::Digit);
        }
        assert((s + t)[point] == s[point]);
        assert((s + t)[point + 1] == s[point + 1]);
        lemma_run_stable(s, t, point + 1, Class::Digit);
        lemma_exponent_stable(s, t, fraction);
    } else {
        lemma_exponent_end(s, point);
        if s[whole] != '0' {
            lemma_run_stable(s, t, whole, Class::Digit);
        }
        assert((s + t)[point] == s[point]);
        lemma_exponent_stable(s, t, point);
    }
}

/// An argument that is followed inside a text by something other than a
/// space is read the same whatever follows the text.
pub proof fn lemma_arg_stable(s: Seq<char>, t: Seq<char>, at: int)
    requires
        0 <= at,
        arg_at(s, at) matches Ok(read) && run_end(s, read.1, Class::Space) < s.len(),
    ensures
        arg_at(s + t, at) == arg_at(s, at),
        at < arg_at(s, at)->Ok_0.1 <= s.len(),
    decreases s.len() - at, 1int,
{
    let end = arg_at(s, at)->Ok_0.1;
    assert((s + t)[at] == s[at]);
    if s[at] == '"' {
        lemma_string_stable(s, t, at + 1, Seq::empty());
        lemma_string_progress(s, at + 1, Seq::empty());
    } else if s[at] == '-' || crate::grammar::is_digit(s[at]) {
        assert(end < s.len()) by {
            if end >= s.len() {
                assert(run_end(s, end, Class::Space) == end);
            }
        }
        lemma_number_stable(s, t, at);
        assert((s + t).subrange(at, end) =~= s.subrange(at, end));
    } else {
        let word_end = run_end(s, at, Class::NamePart);
        lemma_run_end(s, at, Class::NamePart);
        let open = run_end(s, word_end, Class::Space);
        lemma_run_end(s, word_end, Class::Space);
        if open < s.len() && s[open] == '(' {
            lemma_run_stable(s, t, at, Class::NamePart);
            lemma_run_stable(s, t, word_end, Class::Space);
            assert((s + t)[open] == s[open]);
            lemma_call_stable(s, t, at);
        } else {
            assert(end == word_end);
            lemma_run_stable(s, t, at, Class::NamePart);
            lemma_run_stable(s, t, word_end, Class::Space);
            assert((s + t)[open] == s[open]);
            assert((s + t).subrange(at, word_end) =~= s.subrange(at, word_end));
        }
    }
}

/// A string ends behind its closing quote, which is behind its start.
proof fn lemma_string_progress(s: Seq<char>, at: int, held: Seq<char>)
    requires
        0 <= at,
        string_at(s, at, held) is Ok,
    ensures
        at < string_at(s, at, held)->Ok_0.1,
    decreases s.len() - at,
{
    if s[at] == '"' {
    } else if s[at] == '\\' {
        lemma_string_progress(s, at + 2, held.push(crate::grammar::escape_of(s[at + 1])->0));
    } else {
        lemma_string_progress(s, at + 1, held.push(s[at]));
    }
}

/// A call is read the same whatever follows the text it stands in.
pub proof fn lemma_call_stable(s: Seq<char>, t: Seq<char>, at: int)
    requires
        0 <= at,
        call_at(s, at) is Ok,
    ensures
        call_at(s + t, at) == call_at(s, at),
        at < call_at(s, at)->Ok_0.1 <= s.len(),
    decreases s.len() - at, 0int,
{
    assert((s + t)[at] == s[at]);
    let name_end = run_end(s, at, Class::NamePart);
    lemma_run_end(s, at, Class::NamePart);
    let open = run_end(s, name_end, Class::Space);
    lemma_run_end(s, name_end, Class::Space);
    lemma_run_stable(s, t, at, Class::NamePart);
    lemma_run_stable(s, t, name_end, Class::Space);
    assert((s + t)[open] == s[open]);
    let first = run_end(s, open + 1, Class::Space);
    lemma_run_end(s, open + 1, Class::Space);
    assert((s + t).subrange(at, name_end) =~= s.subrange(at, name_end));
    if first < s.len() && s[first] == ')' {
        lemma_run_stable(s, t, open + 1, Class::Space);
        assert((s + t)[first] == s[first]);
    } else {
        assert(args_at(s, first, Seq::empty()) is Ok);
        assert(arg_at(s, first) is Ok);
        assert(first < s.len());
        lemma_run_stable(s, t, open + 1, Class::Space);
        assert((s + t)[first] == s[first]);
        lemma_args_stable(s, t, first, Seq::empty());
    }
}

/// An argument list that is closed inside a text is read the same whatever
/// follows the text.
pub proof fn lemma_args_stable(s: Seq<char>, t: Seq<char>, at: int, held: Seq<ArgView>)
    requires
        0 <= at,
        args_at(s, at, held) is Ok,
    ensures
        args_at(s + t, at, held) == args_at(s, at, held),
        at < args_at(s, at, held)->Ok_0.1 <= s.len(),
    decreases s.len() - at, 2int,
{
    let read = arg_at(s, at)->Ok_0;
    let mark = run_end(s, read.1, Class::Space);
    assert(mark < s.len());
    lemma_arg_stable(s, t, at);
    lemma_run_end(s, read.1, Class::Space);
    lemma_run_stable(s, t, read.1, Class::Space);
    assert((s + t)[mark] == s[mark]);
    if s[mark] == ',' {
        let next = run_end(s, mark + 1, Class::Space);
        lemma_run_end(s, mark + 1, Class::Space);
        assert(args_at(s, next, held.push(read.0)) is Ok);
        assert(arg_at(s, next) is Ok);
        assert(next < s.len());
        lemma_run_stable(s, t, mark + 1, Class::Space);
        lemma_args_stable(s, t, next, held.push(read.0));
    }
}

/// Where a text is a call, the text followed by anything that holds more
/// than spaces is none: it is refused for what stands where the end of the
/// call was expected.
pub proof fn law_trailing_text_refused(s: Seq<char>, extra: Seq<char>)
    requires
        parse_call_spec(s) is Ok,
        exists|i: int| 0 <= i < extra.len() && !is_space(extra[i]),
    ensures
        parse_call_spec(s + extra) matches Err(fault) && fault.expected == Expected::End
            && s.len() <= fault.at < s.len() + extra.len(),
{
    let start = run_end(s, 0, Class::Space);
    lemma_run_end(s, 0, Class::Space);
    assert(call_at(s, start) is Ok);
    assert(start < s.len());
    lemma_run_stable(s, extra, 0, Class::Space);
    lemma_call_stable(s, extra, start);
    let end = call_at(s, start)->Ok_0.1;
    let whole = s + extra;
    let i = choose|i: int| 0 <= i < extra.len() && !is_space(extra[i]);
    assert(whole[s.len() + i] == extra[i]);
    lemma_run_stops(whole, end, s.len() + i, Class::Space);
    lemma_run_end(whole, end, Class::Space);
    lemma_run_reaches(s, extra, end);
}

/// A run of spaces that reaches the end of a text goes on at least as far
/// when something follows the text.
proof fn lemma_run_reaches(s: Seq<char>, t: Seq<char>, at: int)
    requires
        0 <= at <= s.len(),
        run_end(s, at, Class::Space) == s.len(),
    ensures
        run_end(s + t, at, Class::Space) >= s.len(),
    decreases s.len() - at,
{
    if at < s.len() {
        assert((s + t)[at] == s[at]);
        lemma_run_end(s, at + 1, Class::Space);
        lemma_run_reaches(s, t, at + 1);
    } else {
        lemma_run_end(s + t, at, Class::Space);
    }
}

/// Spaces behind a call change nothing: the text is the same call.
pub proof fn law_trailing_spaces_accepted(s: Seq<char>, spaces: Seq<char>)
    requires
        parse_call_spec(s) is Ok,
        forall|i: int| 0 <= i < spaces.len() ==> is_space(#[trigger] spaces[i]),
    ensures
        parse_call_spec(s + spaces) == parse_call_spec(s),
{
    let start = run_end(s, 0, Class::Space);
    lemma_run_end(s, 0, Class::Space);
    assert(call_at(s, start) is Ok);
    assert(start < s.len());
    lemma_run_stable(s, spaces, 0, Class::Space);
    lemma_call_stable(s, spaces, start);
    let end = call_at(s, start)->Ok_0.1;
    lemma_run_through(s, spaces, end);
}

/// A run of spaces that reaches the end of a text runs through the spaces
/// that follow the text.
proof fn lemma_run_through(s: Seq<char>, spaces: Seq<char>, at: int)
    requires
        0 <= at <= s.len() + spaces.len(),
        at <= s.len() ==> run_end(s, at, Class::Space) == s.len(),
        forall|i: int| 0 <= i < spaces.len() ==> is_space(#[trigger] spaces[i]),
    ensures
        run_end(s + spaces, at, Class::Space) == s.len() + spaces.len(),
    decreases s.len() + spaces.len() - at,
{
    let whole = s + spaces;
    if at < s.len() {
        assert(whole[at] == s[at]);
        lemma_run_end(s, at + 1, Class::Space);
        lemma_run_through(s, spaces, at + 1);
    } else if at < whole.len() {
        assert(whole[at] == spaces[at - s.len()]);
        lemma_run_through(s, spaces, at + 1);
    }
}

} // verus!

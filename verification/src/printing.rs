//! Writing calls as text, and the law that ties it to the grammar: what is
//! written is read back as the same call.

use vstd::prelude::*;
use crate::call::{arg_view, ArgView, Argument, Call, CallView};
use crate::grammar::{
    arg_at, args_at, call_at, exponent_end, in_class, is_digit, is_name_start,
    is_space, keyword, lemma_run_end, number_end, parse_call_spec, run_end, string_at, Class,
    SyntaxFault,
};
use crate::json::{Json, JsonView};
use crate::text::chars_of;
use vstd::string::*;

verus! {

/// Whether a text can be the name of a function: a letter or an underscore,
/// then letters, digits and underscores.
pub open spec fn is_name(name: Seq<char>) -> bool {
    &&& name.len() > 0
    &&& is_name_start(name[0])
    &&& forall|i: int| 0 <= i < name.len() ==> in_class(#[trigger] name[i], Class::NamePart)
}

/// Whether a whole text is one number of the grammar.
pub open spec fn is_number(text: Seq<char>) -> bool {
    number_end(text, 0) == Ok::<int, SyntaxFault>(text.len() as int)
}

/// The characters of a string as they stand between its quotes: a
/// backslash before every quote and every backslash.
pub open spec fn escaped(text: Seq<char>) -> Seq<char>
    decreases text.len(),
{
    if text.len() == 0 {
        Seq::empty()
    } else if text[0] == '"' || text[0] == '\\' {
        seq!['\\', text[0]] + escaped(text.drop_first())
    } else {
        seq![text[0]] + escaped(text.drop_first())
    }
}

/// A literal as text. An array or object has none.
pub open spec fn literal_text(json: JsonView) -> Seq<char> {
    match json {
        JsonView::Null => seq!['n', 'u', 'l', 'l'],
        JsonView::Bool(b) => if b {
            seq!['t', 'r', 'u', 'e']
        } else {
            seq!['f', 'a', 'l', 's', 'e']
        },
        JsonView::Number(text) => text,
        JsonView::Text(text) => seq!['"'] + escaped(text) + seq!['"'],
        _ => Seq::empty(),
    }
}

/// A call as text: the name, and the arguments between parentheses with a
/// comma between two of them.
pub open spec fn call_text(call: CallView) -> Seq<char>
    decreases call,
{
    call.name + seq!['('] + args_text(call.args) + seq![')']
}

/// A list of arguments as text.
pub open spec fn args_text(args: Seq<ArgView>) -> Seq<char>
    decreases args,
{
    if args.len() == 0 {
        Seq::empty()
    } else if args.len() == 1 {
        arg_text(args[0])
    } else {
        arg_text(args[0]) + seq![','] + args_text(args.drop_first())
    }
}

/// An argument as text.
pub open spec fn arg_text(arg: ArgView) -> Seq<char>
    decreases arg,
{
    match arg {
        ArgView::Literal(json) => literal_text(json),
        ArgView::Nested(call) => call_text(call),
    }
}

/// Whether a call can be written: every name in it is a name, every
/// literal a scalar, and every number a number of the grammar.
pub open spec fn is_writable(call: CallView) -> bool
    decreases call,
{
    &&& is_name(call.name)
    &&& forall|i: int| 0 <= i < call.args.len() ==> arg_writable(#[trigger] call.args[i])
}

/// Whether an argument can be written.
pub open spec fn arg_writable(arg: ArgView) -> bool
    decreases arg,
{
    match arg {
        ArgView::Literal(json) => match json {
            JsonView::Null => true,
            JsonView::Bool(_) => true,
            JsonView::Text(_) => true,
            JsonView::Number(text) => is_number(text),
            _ => false,
        },
        ArgView::Nested(call) => is_writable(call),
    }
}

/// Whether the text `t` stands in `s` at the place `at`.
pub open spec fn holds_at(s: Seq<char>, at: int, t: Seq<char>) -> bool {
    &&& 0 <= at
    &&& at + t.len() <= s.len()
    &&& forall|i: int| 0 <= i < t.len() ==> s[at + i] == #[trigger] t[i]
}

/// Where two texts stand one behind the other, each of them stands there.
proof fn lemma_holds_split(s: Seq<char>, at: int, a: Seq<char>, b: Seq<char>)
    requires
        holds_at(s, at, a + b),
    ensures
        holds_at(s, at, a),
        holds_at(s, at + a.len(), b),
{
    assert forall|i: int| 0 <= i < a.len() implies s[at + i] == #[trigger] a[i] by {
        assert((a + b)[i] == a[i]);
    }
    assert forall|i: int| 0 <= i < b.len() implies s[at + a.len() + i] == #[trigger] b[i] by {
        assert((a + b)[a.len() + i] == b[i]);
    }
}

/// A run over a stretch of characters of its class that is followed by a
/// character of another class ends behind the stretch.
proof fn lemma_run_exact(s: Seq<char>, at: int, end: int, class: Class)
    requires
        0 <= at <= end < s.len(),
        forall|i: int| at <= i < end ==> in_class(#[trigger] s[i], class),
        !in_class(s[end], class),
    ensures
        run_end(s, at, class) == end,
    decreases end - at,
{
    if at < end {
        assert(in_class(s[at], class));
        lemma_run_exact(s, at + 1, end, class);
    }
}

/// A run inside a text that stands in another text ends at the same place
/// in both, unless it reaches the end of the inner text and goes on in the
/// outer one.
proof fn lemma_run_embedded(s: Seq<char>, at: int, t: Seq<char>, k: int, class: Class)
    requires
        holds_at(s, at, t),
        0 <= k <= t.len(),
        at + t.len() < s.len(),
        !in_class(s[at + t.len()], class),
    ensures
        run_end(s, at + k, class) == at + run_end(t, k, class),
    decreases t.len() - k,
{
    if k < t.len() {
        assert(s[at + k] == t[k]);
        if in_class(t[k], class) {
            lemma_run_embedded(s, at, t, k + 1, class);
        }
    }
}

/// An exponent inside a number that stands in a text and is followed there
/// by no digit is read in the text as it is read in the number.
proof fn lemma_exponent_embedded(s: Seq<char>, at: int, t: Seq<char>, k: int)
    requires
        holds_at(s, at, t),
        0 <= k <= t.len(),
        at + t.len() < s.len(),
        !is_digit(s[at + t.len()]),
        s[at + t.len()] != 'e',
        s[at + t.len()] != 'E',
        exponent_end(t, k) is Ok,
    ensures
        exponent_end(s, at + k) == Ok::<int, SyntaxFault>(at + exponent_end(t, k)->Ok_0),
{
    if k < t.len() {
        assert(s[at + k] == t[k]);
        if t[k] == 'e' || t[k] == 'E' {
            if k + 1 < t.len() {
                assert(s[at + k + 1] == t[k + 1]);
            }
            let digits = if k + 1 < t.len() && (t[k + 1] == '+' || t[k + 1] == '-') {
                k + 2
            } else {
                k + 1
            };
            assert(digits < t.len());
            assert(s[at + digits] == t[digits]);
            lemma_run_embedded(s, at, t, digits, Class::Digit);
        }
    }
}

/// A number that stands in a text and is followed there by a comma or a
/// closing parenthesis is read in the text as it is read alone.
proof fn lemma_number_embedded(s: Seq<char>, at: int, t: Seq<char>)
    requires
        holds_at(s, at, t),
        is_number(t),
        at + t.len() < s.len(),
        s[at + t.len()] == ',' || s[at + t.len()] == ')',
    ensures
        number_end(s, at) == Ok::<int, SyntaxFault>(at + t.len()),
        t.len() > 0,
        t[0] == '-' || is_digit(t[0]),
{
    assert(t.len() > 0);
    assert(s[at] == t[0]);
    let whole = if t[0] == '-' {
        1int
    } else {
        0int
    };
    assert(whole < t.len());
    assert(s[at + whole] == t[whole]);
    let point = if t[whole] == '0' {
        whole + 1
    } else {
        run_end(t, whole, Class::Digit)
    };
    lemma_run_end(t, whole, Class::Digit);
    lemma_run_embedded(s, at, t, whole, Class::Digit);
    if point < t.len() {
        assert(s[at + point] == t[point]);
    }
    if point < t.len() && t[point] == '.' {
        assert(s[at + point + 1] == t[point + 1]);
        lemma_run_end(t, point + 1, Class::Digit);
        lemma_run_embedded(s, at, t, point + 1, Class::Digit);
        lemma_exponent_embedded(s, at, t, run_end(t, point + 1, Class::Digit));
    } else {
        lemma_exponent_embedded(s, at, t, point);
    }
}

/// The characters of a string that stand in a text before a quote are read
/// there as the string.
proof fn lemma_string_written(s: Seq<char>, at: int, text: Seq<char>, held: Seq<char>)
    requires
        holds_at(s, at, escaped(text) + seq!['"']),
    ensures
        string_at(s, at, held) == Ok::<(Seq<char>, int), SyntaxFault>(
            (held + text, at + escaped(text).len() + 1),
        ),
    decreases text.len(),
{
    let written = escaped(text) + seq!['"'];
    if text.len() == 0 {
        assert(written[0] == '"');
        assert(held + text =~= held);
    } else {
        let rest = text.drop_first();
        let c = text[0];
        let tail = escaped(rest) + seq!['"'];
        if c == '"' || c == '\\' {
            assert(written =~= seq!['\\', c] + tail);
            lemma_holds_split(s, at, seq!['\\', c], tail);
            assert(seq!['\\', c][0] == '\\' && seq!['\\', c][1] == c);
            assert(s[at] == '\\' && s[at + 1] == c);
            lemma_string_written(s, at + 2, rest, held.push(c));
            assert(held.push(c) + rest =~= held + text);
        } else {
            assert(written =~= seq![c] + tail);
            lemma_holds_split(s, at, seq![c], tail);
            assert(seq![c][0] == c);
            assert(s[at] == c);
            lemma_string_written(s, at + 1, rest, held.push(c));
            assert(held.push(c) + rest =~= held + text);
        }
    }
}

/// What an argument that can be written starts with: no space, comma or
/// parenthesis.
proof fn lemma_arg_starts(arg: ArgView)
    requires
        arg_writable(arg),
    ensures
        arg_text(arg).len() > 0,
        !is_space(arg_text(arg)[0]),
        arg_text(arg)[0] != ')',
        arg_text(arg)[0] != ',',
        arg_text(arg)[0] != '(',
{
    match arg {
        ArgView::Literal(json) => match json {
            JsonView::Number(text) => {
                assert(text.len() > 0);
            },
            _ => {},
        },
        ArgView::Nested(call) => {
            assert(call_text(call)[0] == call.name[0]);
        },
    }
}

/// An argument that stands in a text before a comma or a closing
/// parenthesis is read there as itself.
proof fn lemma_arg_written(s: Seq<char>, at: int, arg: ArgView)
    requires
        arg_writable(arg),
        holds_at(s, at, arg_text(arg)),
        at + arg_text(arg).len() < s.len(),
        s[at + arg_text(arg).len()] == ',' || s[at + arg_text(arg).len()] == ')',
    ensures
        arg_at(s, at) == Ok::<(ArgView, int), SyntaxFault>((arg, at + arg_text(arg).len())),
    decreases arg, 0int,
{
    let written = arg_text(arg);
    let end = at + written.len();
    lemma_arg_starts(arg);
    assert(s[at] == written[0]);
    match arg {
        ArgView::Literal(json) => match json {
            JsonView::Text(text) => {
                assert(written =~= seq!['"'] + (escaped(text) + seq!['"']));
                lemma_holds_split(s, at, seq!['"'], escaped(text) + seq!['"']);
                lemma_string_written(s, at + 1, text, Seq::empty());
                assert(Seq::<char>::empty() + text =~= text);
            },
            JsonView::Number(text) => {
                lemma_number_embedded(s, at, text);
                assert(s.subrange(at, end) =~= text);
            },
            _ => {
                assert forall|i: int| at <= i < end implies in_class(
                    #[trigger] s[i],
                    Class::NamePart,
                ) by {
                    assert(s[i] == written[i - at]);
                }
                lemma_run_exact(s, at, end, Class::NamePart);
                assert(run_end(s, end, Class::Space) == end);
                assert(s.subrange(at, end) =~= written);
                assert(keyword(written) == Some(json)) by {
                    assert(written[0] == 't' || written[0] == 'f' || written[0] == 'n');
                }
            },
        },
        ArgView::Nested(call) => {
            let n = call.name.len() as int;
            lemma_call_written(s, at, call);
            assert(written =~= (call.name + seq!['(']) + (args_text(call.args) + seq![')']));
            lemma_holds_split(s, at, call.name + seq!['('], args_text(call.args) + seq![')']);
            lemma_holds_split(s, at, call.name, seq!['(']);
            assert(seq!['('][0] == '(');
            assert(s[at + n] == '(');
            assert forall|i: int| at <= i < at + n implies in_class(
                #[trigger] s[i],
                Class::NamePart,
            ) by {
                assert(s[i] == call.name[i - at]);
            }
            lemma_run_exact(s, at, at + n, Class::NamePart);
            assert(run_end(s, at + n, Class::Space) == at + n);
        },
    }
}

/// A call that stands in a text is read there as itself, whatever stands
/// around it.
proof fn lemma_call_written(s: Seq<char>, at: int, call: CallView)
    requires
        is_writable(call),
        holds_at(s, at, call_text(call)),
    ensures
        call_at(s, at) == Ok::<(CallView, int), SyntaxFault>(
            (call, at + call_text(call).len()),
        ),
    decreases call, 1int,
{
    let n = call.name.len() as int;
    let inner = args_text(call.args) + seq![')'];
    assert(call_text(call) =~= (call.name + seq!['(']) + inner);
    lemma_holds_split(s, at, call.name + seq!['('], inner);
    lemma_holds_split(s, at, call.name, seq!['(']);
    assert(seq!['('][0] == '(');
    assert(s[at + n] == '(');
    assert(s[at] == call.name[0]);
    assert forall|i: int| at <= i < at + n implies in_class(#[trigger] s[i], Class::NamePart) by {
        assert(s[i] == call.name[i - at]);
    }
    lemma_run_exact(s, at, at + n, Class::NamePart);
    assert(run_end(s, at + n, Class::Space) == at + n);
    assert(s.subrange(at, at + n) =~= call.name);
    let first = at + n + 1;
    assert(inner[0] == s[first]);
    if call.args.len() == 0 {
        assert(inner[0] == ')');
        assert(run_end(s, first, Class::Space) == first);
        assert(call.args =~= Seq::empty());
    } else {
        lemma_arg_starts(call.args[0]);
        assert(inner[0] == arg_text(call.args[0])[0]) by {
            if call.args.len() == 1 {
            } else {
                assert(args_text(call.args) =~= arg_text(call.args[0]) + (seq![','] + args_text(
                    call.args.drop_first(),
                )));
            }
        }
        assert(run_end(s, first, Class::Space) == first);
        lemma_args_written(s, first, call.args, Seq::empty(), call);
        assert(Seq::<ArgView>::empty() + call.args =~= call.args);
    }
}

/// The arguments of a call that stand in a text before its closing
/// parenthesis are read there as themselves, behind what was read before.
proof fn lemma_args_written(
    s: Seq<char>,
    at: int,
    args: Seq<ArgView>,
    held: Seq<ArgView>,
    parent: CallView,
)
    requires
        args.len() > 0,
        forall|i: int| 0 <= i < args.len() ==> arg_writable(#[trigger] args[i]),
        forall|i: int| 0 <= i < args.len() ==> decreases_to!(parent => #[trigger] args[i]),
        holds_at(s, at, args_text(args) + seq![')']),
    ensures
        args_at(s, at, held) == Ok::<(Seq<ArgView>, int), SyntaxFault>(
            (held + args, at + args_text(args).len() + 1),
        ),
    decreases parent, 0int, args.len(),
{
    let arg = args[0];
    let written = arg_text(arg);
    let end = at + written.len();
    lemma_arg_starts(arg);
    if args.len() == 1 {
        lemma_holds_split(s, at, written, seq![')']);
        assert(seq![')'][0] == ')');
        assert(s[end] == ')');
        lemma_arg_written(s, at, arg);
        assert(run_end(s, end, Class::Space) == end);
        assert(held.push(arg) =~= held + args);
    } else {
        let rest = args.drop_first();
        let tail = seq![','] + (args_text(rest) + seq![')']);
        assert(args_text(args) + seq![')'] =~= written + tail);
        lemma_holds_split(s, at, written, tail);
        lemma_holds_split(s, end, seq![','], args_text(rest) + seq![')']);
        assert(seq![','][0] == ',');
        assert(s[end] == ',');
        lemma_arg_written(s, at, arg);
        assert(run_end(s, end, Class::Space) == end);
        assert forall|i: int| 0 <= i < rest.len() implies arg_writable(#[trigger] rest[i])
            && decreases_to!(parent => rest[i]) by {
            assert(rest[i] == args[i + 1]);
        }
        lemma_arg_starts(rest[0]);
        assert((args_text(rest) + seq![')'])[0] == arg_text(rest[0])[0]) by {
            if rest.len() > 1 {
                assert(args_text(rest) =~= arg_text(rest[0]) + (seq![','] + args_text(
                    rest.drop_first(),
                )));
            }
        }
        assert(s[end + 1] == (args_text(rest) + seq![')'])[0]);
        assert(run_end(s, end + 1, Class::Space) == end + 1);
        lemma_args_written(s, end + 1, rest, held.push(arg), parent);
        assert(held.push(arg) + rest =~= held + args);
    }
}

/// Every character of a run is of the class of the run.
proof fn lemma_run_members(s: Seq<char>, at: int, class: Class, i: int)
    requires
        0 <= at <= i < run_end(s, at, class),
    ensures
        i < s.len(),
        in_class(s[i], class),
    decreases i - at,
{
    if at < i {
        lemma_run_members(s, at + 1, class, i);
    }
}

/// A run that ends within a stretch of a text ends at the same place in
/// the stretch taken alone.
proof fn lemma_run_extracted(s: Seq<char>, at: int, end: int, k: int, class: Class)
    requires
        0 <= at <= at + k <= end <= s.len(),
        run_end(s, at + k, class) <= end,
    ensures
        run_end(s.subrange(at, end), k, class) == run_end(s, at + k, class) - at,
    decreases end - at - k,
{
    let t = s.subrange(at, end);
    if at + k < end {
        assert(t[k] == s[at + k]);
        if in_class(s[at + k], class) {
            lemma_run_end(s, at + k + 1, class);
            lemma_run_extracted(s, at, end, k + 1, class);
        }
    } else {
        lemma_run_end(s, at + k, class);
    }
}

/// The end of an exponent is at or behind its start and within the text.
proof fn lemma_exponent_bounds(s: Seq<char>, at: int)
    requires
        0 <= at <= s.len(),
    ensures
        exponent_end(s, at) matches Ok(end) ==> at <= end <= s.len(),
{
    if at < s.len() && (s[at] == 'e' || s[at] == 'E') {
        let digits = if at + 1 < s.len() && (s[at + 1] == '+' || s[at + 1] == '-') {
            at + 2
        } else {
            at + 1
        };
        if digits < s.len() {
            lemma_run_end(s, digits, Class::Digit);
        }
    }
}

/// An exponent that a text holds is read alike in the stretch of the text
/// that ends where the exponent ends.
proof fn lemma_exponent_extracted(s: Seq<char>, at: int, k: int)
    requires
        0 <= at <= at + k <= s.len(),
        exponent_end(s, at + k) is Ok,
    ensures
        exponent_end(s.subrange(at, exponent_end(s, at + k)->Ok_0), k) == Ok::<int, SyntaxFault>(
            exponent_end(s, at + k)->Ok_0 - at,
        ),
{
    let end = exponent_end(s, at + k)->Ok_0;
    lemma_exponent_bounds(s, at + k);
    let t = s.subrange(at, end);
    let p = at + k;
    if p < s.len() && (s[p] == 'e' || s[p] == 'E') {
        let digits = if p + 1 < s.len() && (s[p + 1] == '+' || s[p + 1] == '-') {
            p + 2
        } else {
            p + 1
        };
        lemma_run_end(s, digits, Class::Digit);
        assert(t[k] == s[p]);
        assert(t[k + 1] == s[p + 1]);
        assert(t[digits - at] == s[digits]);
        lemma_run_extracted(s, at, end, digits - at, Class::Digit);
    }
}

/// A number that a text holds is a number when taken alone.
proof fn lemma_number_extracted(s: Seq<char>, at: int)
    requires
        0 <= at < s.len(),
        number_end(s, at) is Ok,
    ensures
        at < number_end(s, at)->Ok_0 <= s.len(),
        is_number(s.subrange(at, number_end(s, at)->Ok_0)),
{
    let end = number_end(s, at)->Ok_0;
    let whole = if s[at] == '-' {
        at + 1
    } else {
        at
    };
    lemma_run_end(s, whole, Class::Digit);
    let point = if s[whole] == '0' {
        whole + 1
    } else {
        run_end(s, whole, Class::Digit)
    };
    let t = s.subrange(at, end);
    if point < s.len() && s[point] == '.' {
        lemma_run_end(s, point + 1, Class::Digit);
        let fraction = run_end(s, point + 1, Class::Digit);
        lemma_exponent_bounds(s, fraction);
        lemma_exponent_extracted(s, at, fraction - at);
        assert(t[0] == s[at]);
        assert(t[whole - at] == s[whole]);
        assert(t[point - at] == s[point]);
        assert(t[point + 1 - at] == s[point + 1]);
        if s[whole] != '0' {
            lemma_run_extracted(s, at, end, whole - at, Class::Digit);
        }
        lemma_run_extracted(s, at, end, point + 1 - at, Class::Digit);
    } else {
        lemma_exponent_bounds(s, point);
        lemma_exponent_extracted(s, at, point - at);
        assert(t[0] == s[at]);
        assert(t[whole - at] == s[whole]);
        if s[whole] != '0' {
            lemma_run_extracted(s, at, end, whole - at, Class::Digit);
        }
        if point < end {
            assert(t[point - at] == s[point]);
        }
    }
}

/// The argument that a text holds can be written.
proof fn lemma_parsed_arg_writable(s: Seq<char>, at: int)
    requires
        0 <= at,
        arg_at(s, at) is Ok,
    ensures
        arg_writable(arg_at(s, at)->Ok_0.0),
    decreases s.len() - at, 1int,
{
    if s[at] == '"' {
    } else if s[at] == '-' || is_digit(s[at]) {
        lemma_number_extracted(s, at);
    } else {
        let word_end = run_end(s, at, Class::NamePart);
        let open = run_end(s, word_end, Class::Space);
        if 0 <= open < s.len() && s[open] == '(' {
            lemma_parsed_call_writable(s, at);
        }
    }
}

/// The call that a text holds can be written.
proof fn lemma_parsed_call_writable(s: Seq<char>, at: int)
    requires
        0 <= at,
        call_at(s, at) is Ok,
    ensures
        is_writable(call_at(s, at)->Ok_0.0),
    decreases s.len() - at, 0int,
{
    let name_end = run_end(s, at, Class::NamePart);
    lemma_run_end(s, at, Class::NamePart);
    let name = s.subrange(at, name_end);
    assert(name[0] == s[at]);
    assert forall|i: int| 0 <= i < name.len() implies in_class(
        #[trigger] name[i],
        Class::NamePart,
    ) by {
        lemma_run_members(s, at, Class::NamePart, at + i);
    }
    let open = run_end(s, name_end, Class::Space);
    let first = run_end(s, open + 1, Class::Space);
    if 0 <= first < s.len() && s[first] == ')' {
    } else {
        lemma_parsed_args_writable(s, first, Seq::empty());
    }
}

/// The arguments that a text holds can be written, where those read
/// before them can.
proof fn lemma_parsed_args_writable(s: Seq<char>, at: int, held: Seq<ArgView>)
    requires
        0 <= at,
        args_at(s, at, held) is Ok,
        forall|i: int| 0 <= i < held.len() ==> arg_writable(#[trigger] held[i]),
    ensures
        forall|i: int|
            0 <= i < args_at(s, at, held)->Ok_0.0.len() ==> arg_writable(
                #[trigger] args_at(s, at, held)->Ok_0.0[i],
            ),
    decreases s.len() - at, 2int,
{
    lemma_parsed_arg_writable(s, at);
    let read = arg_at(s, at)->Ok_0;
    let mark = run_end(s, read.1, Class::Space);
    let more = held.push(read.0);
    assert forall|i: int| 0 <= i < more.len() implies arg_writable(#[trigger] more[i]) by {
        if i < held.len() {
            assert(more[i] == held[i]);
        }
    }
    if s[mark] == ',' {
        let next = run_end(s, mark + 1, Class::Space);
        lemma_parsed_args_writable(s, next, more);
    }
}

/// What the grammar reads can be written: the call that a text denotes is
/// read back from its own text, which holds no spaces, as the same call.
pub proof fn law_parsed_call_normal(s: Seq<char>)
    requires
        parse_call_spec(s) is Ok,
    ensures
        is_writable(parse_call_spec(s)->Ok_0),
        parse_call_spec(call_text(parse_call_spec(s)->Ok_0)) == parse_call_spec(s),
{
    let start = run_end(s, 0, Class::Space);
    lemma_run_end(s, 0, Class::Space);
    lemma_parsed_call_writable(s, start);
    law_written_call_parses(parse_call_spec(s)->Ok_0);
}

/// A call that is written and then parsed is the same call: the grammar
/// reads back every call that can be written, with nothing changed.
pub proof fn law_written_call_parses(call: CallView)
    requires
        is_writable(call),
    ensures
        parse_call_spec(call_text(call)) == Ok::<CallView, SyntaxFault>(call),
{
    let s = call_text(call);
    assert(s[0] == call.name[0]);
    assert(run_end(s, 0, Class::Space) == 0);
    lemma_call_written(s, 0, call);
    assert(run_end(s, s.len() as int, Class::Space) == s.len());
}

/// Writes the characters of a string as they stand between its quotes.
fn write_escaped(text: &str, out: &mut String)
    ensures
        final(out)@ == old(out)@ + escaped(text@),
{
    let chars = chars_of(text);
    let mut i: usize = 0;
    assert(chars@.skip(0) =~= chars@);
    while i < chars.len()
        invariant
            i <= chars.len(),
            chars@ == text@,
            old(out)@ + escaped(text@) == out@ + escaped(chars@.skip(i as int)),
        decreases chars.len() - i,
    {
        let c = chars[i];
        let ghost before = out@;
        let ghost rest = chars@.skip(i as int);
        proof {
            assert(rest[0] == c);
            assert(rest.drop_first() =~= chars@.skip(i + 1));
        }
        if c == '"' || c == '\\' {
            out.push('\\');
            out.push(c);
            assert(out@ =~= before + seq!['\\', c]);
        } else {
            out.push(c);
            assert(out@ =~= before + seq![c]);
        }
        assert(out@ + escaped(chars@.skip(i + 1)) =~= before + escaped(rest));
        i += 1;
    }
    assert(chars@.skip(i as int) =~= Seq::empty());
    assert(out@ + Seq::<char>::empty() =~= out@);
}

/// Writes a literal.
fn write_literal(json: &Json, out: &mut String)
    ensures
        final(out)@ == old(out)@ + literal_text(json@),
{
    match json {
        Json::Null => {
            proof {
                reveal_strlit("null");
            }
            assert("null"@ =~= seq!['n', 'u', 'l', 'l']);
            out.append("null");
        },
        Json::Bool(b) => {
            proof {
                reveal_strlit("true");
                reveal_strlit("false");
            }
            assert("true"@ =~= seq!['t', 'r', 'u', 'e']);
            assert("false"@ =~= seq!['f', 'a', 'l', 's', 'e']);
            if *b {
                out.append("true");
            } else {
                out.append("false");
            }
        },
        Json::Number(text) => {
            out.append(text.as_str());
        },
        Json::Text(text) => {
            let ghost before = out@;
            out.push('"');
            write_escaped(text.as_str(), out);
            out.push('"');
            assert(out@ =~= before + (seq!['"'] + escaped(text@) + seq!['"']));
        },
        _ => {
            assert(out@ + Seq::<char>::empty() =~= out@);
        },
    }
}

/// Writes a call behind what `out` holds.
fn write_call_into(call: &Call, out: &mut String)
    ensures
        final(out)@ == old(out)@ + call_text(call@),
    decreases call,
{
    let ghost start = out@;
    let ghost args = call@.args;
    out.append(call.name.as_str());
    out.push('(');
    let ghost opened = out@;
    let mut i: usize = 0;
    assert(args.skip(0) =~= args);
    while i < call.args.len()
        invariant
            i <= call.args.len(),
            args == call@.args,
            opened == start + call.name@ + seq!['('],
            opened + args_text(args) == out@ + args_text(args.skip(i as int)),
        decreases call.args.len() - i,
    {
        let ghost before = out@;
        let ghost rest = args.skip(i as int);
        proof {
            assert(rest[0] == arg_view(call.args@[i as int]));
            assert(rest.drop_first() =~= args.skip(i + 1));
            assert(decreases_to!(*call => call.args));
        }
        match &call.args[i] {
            Argument::Literal(json) => write_literal(json, out),
            Argument::Nested(inner) => write_call_into(inner, out),
        }
        assert(out@ == before + arg_text(rest[0]));
        if i + 1 < call.args.len() {
            out.push(',');
            assert(out@ + args_text(args.skip(i + 1)) =~= before + args_text(rest));
        } else {
            assert(args.skip(i + 1) =~= Seq::empty());
            assert(out@ + args_text(args.skip(i + 1)) =~= before + args_text(rest));
        }
        i += 1;
    }
    assert(args.skip(i as int) =~= Seq::empty());
    out.push(')');
    assert(out@ =~= start + call_text(call@));
}

/// A call as text, without spaces: `name(arg,arg)`. Where every name in the
/// call is a name, every literal a scalar and every number a number of the
/// grammar, `parse_call` reads the text back as the call.
pub fn write_call(call: &Call) -> (text: String)
    ensures
        text@ == call_text(call@),
{
    let mut text = String::new();
    write_call_into(call, &mut text);
    assert(Seq::<char>::empty() + call_text(call@) =~= call_text(call@));
    text
}

} // verus!

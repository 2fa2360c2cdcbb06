//! The evaluation of generator calls.
//!
//! What a call evaluates to is a function of the call, the table of
//! functions and the random words drawn on the way. Contracts state it over
//! a tape of words and a place on it: an evaluation reads the tape from its
//! place on and leaves the place behind the last word it read.

use vstd::prelude::*;
use vstd::string::*;
use crate::call::{ArgView, Argument, Call, CallView};
use crate::error::{result_view, Fault, GenError, GenErrorType};
use crate::json::{Json, JsonView};
use crate::random::{word_at, RandomSource};
use crate::registry::{
    check_args, lookup, unknown_function_fault, values_view, FunctionSpecView, Registry, Routine,
};
use crate::text::{integer, integer_of, integer_text, read_integer};
use crate::uuid::{uuid_from_words, uuid_text};

verus! {

/// What an evaluation gives: its result, and the place on the tape behind
/// the words it read.
pub struct Step<T> {
    pub value: Result<T, Fault>,
    pub at: int,
}

/// The failure of `choice` without arguments.
pub open spec fn nothing_to_choose_fault(name: Seq<char>) -> Fault {
    Fault {
        reason: "the function '"@ + name + "' has no argument to choose from"@,
        tpe: GenErrorType::Generator,
    }
}

/// The failure of `int` without two whole numbers in order.
pub open spec fn bad_bounds_fault(name: Seq<char>) -> Fault {
    Fault {
        reason: "the function '"@ + name
            + "' takes two whole numbers of at most 64 bits, the first no greater than the second"@,
        tpe: GenErrorType::Generator,
    }
}

/// The whole number that a value writes.
pub open spec fn whole_number(value: JsonView) -> Option<int> {
    match value {
        JsonView::Number(text) => integer_of(text),
        _ => None,
    }
}

/// The bounds that the first two arguments give: two whole numbers, the
/// first no greater than the second.
pub open spec fn bounds_of(values: Seq<JsonView>) -> Option<(int, int)> {
    if values.len() >= 2 && whole_number(values[0]) is Some && whole_number(values[1]) is Some
        && whole_number(values[0])->0 <= whole_number(values[1])->0 {
        Some((whole_number(values[0])->0, whole_number(values[1])->0))
    } else {
        None
    }
}

/// What a routine computes from resolved arguments and the tape.
pub open spec fn run_routine(
    routine: Routine,
    name: Seq<char>,
    values: Seq<JsonView>,
    tape: Seq<u64>,
    at: int,
) -> Step<JsonView> {
    match routine {
        Routine::Uuid => Step {
            value: Ok(JsonView::Text(uuid_text(word_at(tape, at), word_at(tape, at + 1)))),
            at: at + 2,
        },
        Routine::Boolean => Step {
            value: Ok(JsonView::Bool(word_at(tape, at) % 2 == 1)),
            at: at + 1,
        },
        Routine::Choice => if values.len() == 0 {
            Step { value: Err(nothing_to_choose_fault(name)), at }
        } else {
            Step {
                value: Ok(values[(word_at(tape, at) as int) % (values.len() as int)]),
                at: at + 1,
            }
        },
        Routine::Integer => match bounds_of(values) {
            Some((least, greatest)) => Step {
                value: Ok(
                    JsonView::Number(
                        integer_text(least + (word_at(tape, at) as int) % (greatest - least + 1)),
                    ),
                ),
                at: at + 1,
            },
            None => Step { value: Err(bad_bounds_fault(name)), at },
        },
    }
}

/// What a call evaluates to: its arguments are resolved first, from left
/// to right; then its name is looked up, the arguments are held against
/// what the function asks, and the routine computes the value.
pub open spec fn eval_call(
    call: CallView,
    table: Seq<FunctionSpecView>,
    tape: Seq<u64>,
    at: int,
) -> Step<JsonView>
    decreases call,
{
    let resolved = eval_args(call.args, table, tape, at);
    match resolved.value {
        Err(fault) => Step { value: Err(fault), at: resolved.at },
        Ok(values) => match lookup(table, call.name) {
            None => Step { value: Err(unknown_function_fault(call.name)), at: resolved.at },
            Some(entry) => match check_args(entry, values) {
                Err(fault) => Step { value: Err(fault), at: resolved.at },
                Ok(_) => run_routine(entry.routine, call.name, values, tape, resolved.at),
            },
        },
    }
}

/// What a list of arguments resolves to: a literal to itself, a nested
/// call to what it evaluates to. The first failure ends it.
pub open spec fn eval_args(
    args: Seq<ArgView>,
    table: Seq<FunctionSpecView>,
    tape: Seq<u64>,
    at: int,
) -> Step<Seq<JsonView>>
    decreases args,
{
    if args.len() == 0 {
        Step { value: Ok(Seq::empty()), at }
    } else {
        let before = eval_args(args.drop_last(), table, tape, at);
        match before.value {
            Err(fault) => Step { value: Err(fault), at: before.at },
            Ok(values) => match args.last() {
                ArgView::Literal(json) => Step { value: Ok(values.push(json)), at: before.at },
                ArgView::Nested(call) => {
                    let inner = eval_call(call, table, tape, before.at);
                    match inner.value {
                        Err(fault) => Step { value: Err(fault), at: inner.at },
                        Ok(value) => Step { value: Ok(values.push(value)), at: inner.at },
                    }
                },
            },
        }
    }
}

/// Whether two tapes hold the same words at the places from `from` up to `to`.
pub open spec fn same_words(a: Seq<u64>, b: Seq<u64>, from: int, to: int) -> bool {
    forall|i: int| from <= i < to ==> word_at(a, i) == word_at(b, i)
}

/// An evaluation leaves the place on the tape where it was or further on.
pub proof fn lemma_call_advances(
    call: CallView,
    table: Seq<FunctionSpecView>,
    tape: Seq<u64>,
    at: int,
)
    ensures
        eval_call(call, table, tape, at).at >= at,
    decreases call,
{
    lemma_args_advance(call.args, table, tape, at);
}

/// Resolving arguments leaves the place on the tape where it was or further on.
pub proof fn lemma_args_advance(
    args: Seq<ArgView>,
    table: Seq<FunctionSpecView>,
    tape: Seq<u64>,
    at: int,
)
    ensures
        eval_args(args, table, tape, at).at >= at,
    decreases args,
{
    if args.len() > 0 {
        lemma_args_advance(args.drop_last(), table, tape, at);
        let before = eval_args(args.drop_last(), table, tape, at);
        if before.value is Ok {
            if let ArgView::Nested(call) = args.last() {
                lemma_call_advances(call, table, tape, before.at);
            }
        }
    }
}

/// An evaluation depends on the tape only through the words it reads.
pub proof fn lemma_call_frame(
    call: CallView,
    table: Seq<FunctionSpecView>,
    a: Seq<u64>,
    b: Seq<u64>,
    at: int,
)
    requires
        same_words(a, b, at, eval_call(call, table, a, at).at),
    ensures
        eval_call(call, table, b, at) == eval_call(call, table, a, at),
    decreases call,
{
    let resolved = eval_args(call.args, table, a, at);
    lemma_args_advance(call.args, table, a, at);
    if resolved.value is Ok {
        if let Some(entry) = lookup(table, call.name) {
            if check_args(entry, resolved.value->Ok_0) is Ok {
                assert(run_routine(
                    entry.routine,
                    call.name,
                    resolved.value->Ok_0,
                    a,
                    resolved.at,
                ).at >= resolved.at);
            }
        }
    }
    lemma_args_frame(call.args, table, a, b, at);
}

/// Resolving arguments depends on the tape only through the words it reads.
pub proof fn lemma_args_frame(
    args: Seq<ArgView>,
    table: Seq<FunctionSpecView>,
    a: Seq<u64>,
    b: Seq<u64>,
    at: int,
)
    requires
        same_words(a, b, at, eval_args(args, table, a, at).at),
    ensures
        eval_args(args, table, b, at) == eval_args(args, table, a, at),
    decreases args,
{
    if args.len() > 0 {
        let before = eval_args(args.drop_last(), table, a, at);
        lemma_args_advance(args.drop_last(), table, a, at);
        if before.value is Ok {
            if let ArgView::Nested(call) = args.last() {
                lemma_call_advances(call, table, a, before.at);
            }
        }
        lemma_args_frame(args.drop_last(), table, a, b, at);
        if before.value is Ok {
            if let ArgView::Nested(call) = args.last() {
                lemma_call_frame(call, table, a, b, before.at);
            }
        }
    }
}

/// Once a prefix of the arguments has failed, the whole list fails alike.
pub proof fn lemma_args_fault(
    args: Seq<ArgView>,
    k: int,
    table: Seq<FunctionSpecView>,
    tape: Seq<u64>,
    at: int,
)
    requires
        0 <= k <= args.len(),
        eval_args(args.take(k), table, tape, at).value is Err,
    ensures
        eval_args(args, table, tape, at) == eval_args(args.take(k), table, tape, at),
    decreases args.len(),
{
    if k == args.len() {
        assert(args.take(k) =~= args);
    } else {
        assert(args.drop_last().take(k) =~= args.take(k));
        lemma_args_fault(args.drop_last(), k, table, tape, at);
    }
}

/// Runs a routine on resolved arguments.
fn run(routine: Routine, name: &str, values: &Vec<Json>, source: &mut RandomSource) -> (r: Result<
    Json,
    GenError,
>)
    ensures
        old(source).drawn().is_prefix_of(final(source).drawn()),
        run_routine(
            routine,
            name@,
            values_view(values@),
            final(source).drawn(),
            old(source).drawn().len() as int,
        ) == (Step { value: result_view(r), at: final(source).drawn().len() as int }),
{
    match routine {
        Routine::Uuid => {
            let hi = source.draw();
            let lo = source.draw();
            Ok(Json::Text(uuid_from_words(hi, lo)))
        },
        Routine::Boolean => {
            let word = source.draw();
            Ok(Json::Bool(word % 2 == 1))
        },
        Routine::Choice => {
            if values.len() == 0 {
                let reason = String::from_str("the function '").concat(name).concat(
                    "' has no argument to choose from",
                );
                Err(GenError::new_with_in_generator(reason.as_str()))
            } else {
                let word = source.draw();
                let pick = (word % (values.len() as u64)) as usize;
                Ok(values[pick].duplicate())
            }
        },
        Routine::Integer => {
            match read_bounds(values) {
                Some((least, greatest)) => {
                    let word = source.draw();
                    let span: u128 = ((greatest as i128) - (least as i128) + 1) as u128;
                    let offset: u128 = (word as u128) % span;
                    let picked: i64 = ((least as i128) + (offset as i128)) as i64;
                    Ok(Json::Number(integer(picked)))
                },
                None => {
                    let reason = String::from_str("the function '").concat(name).concat(
                        "' takes two whole numbers of at most 64 bits, the first no greater than the second",
                    );
                    Err(GenError::new_with_in_generator(reason.as_str()))
                },
            }
        },
    }
}

/// The whole number that a value writes.
fn read_whole(value: &Json) -> (r: Option<i64>)
    ensures
        match r {
            Some(n) => whole_number(value@) == Some(n as int),
            None => whole_number(value@) is None,
        },
{
    match value {
        Json::Number(text) => read_integer(text.as_str()),
        _ => None,
    }
}

/// The bounds that the first two arguments give.
fn read_bounds(values: &Vec<Json>) -> (r: Option<(i64, i64)>)
    ensures
        match r {
            Some((least, greatest)) => bounds_of(values_view(values@)) == Some(
                (least as int, greatest as int),
            ),
            None => bounds_of(values_view(values@)) is None,
        },
{
    if values.len() < 2 {
        return None;
    }
    match (read_whole(&values[0]), read_whole(&values[1])) {
        (Some(least), Some(greatest)) => if least <= greatest {
            Some((least, greatest))
        } else {
            None
        },
        _ => None,
    }
}

/// Evaluates a call: resolves its arguments, nested calls first, then
/// looks the function up and runs it. The words it draws are fresh ones from
/// `source`; the result is `eval_call` of those words.
pub fn evaluate(call: &Call, registry: &Registry, source: &mut RandomSource) -> (r: Result<
    Json,
    GenError,
>)
    ensures
        old(source).drawn().is_prefix_of(final(source).drawn()),
        eval_call(
            call@,
            registry@,
            final(source).drawn(),
            old(source).drawn().len() as int,
        ) == (Step { value: result_view(r), at: final(source).drawn().len() as int }),
    decreases call,
{
    let ghost start = source.drawn().len() as int;
    let ghost args = call@.args;
    let mut values: Vec<Json> = Vec::new();
    let mut i: usize = 0;
    assert(args.take(0) =~= Seq::empty());
    assert(values_view(values@) =~= Seq::empty());
    while i < call.args.len()
        invariant
            i <= call.args.len(),
            args == call@.args,
            start == old(source).drawn().len(),
            old(source).drawn().is_prefix_of(source.drawn()),
            eval_args(args.take(i as int), registry@, source.drawn(), start) == (Step {
                value: Ok(values_view(values@)),
                at: source.drawn().len() as int,
            }),
        decreases call.args.len() - i,
    {
        let ghost before = source.drawn();
        let ghost held = values_view(values@);
        proof {
            assert(args.take(i + 1).drop_last() =~= args.take(i as int));
            assert(args.take(i + 1).last() == call.args@[i as int]@);
            assert(decreases_to!(*call => call.args));
        }
        match &call.args[i] {
            Argument::Literal(json) => {
                values.push(json.duplicate());
                assert(values_view(values@) =~= held.push(json@));
            },
            Argument::Nested(inner) => {
                let resolved = evaluate(inner, registry, source);
                proof {
                    assert(same_words(before, source.drawn(), start, before.len() as int));
                    lemma_args_frame(args.take(i as int), registry@, before, source.drawn(), start);
                }
                match resolved {
                    Ok(value) => {
                        let ghost added = value@;
                        values.push(value);
                        assert(values_view(values@) =~= held.push(added));
                    },
                    Err(e) => {
                        proof {
                            lemma_args_fault(args, i + 1, registry@, source.drawn(), start);
                        }
                        return Err(e);
                    },
                }
            },
        }
        i += 1;
    }
    assert(args.take(i as int) =~= args);
    match registry.lookup(call.name.as_str()) {
        None => {
            let reason = String::from_str("the function '").concat(call.name.as_str()).concat(
                "' is not known",
            );
            Err(GenError::new_with_in_generator(reason.as_str()))
        },
        Some(entry) => match entry.check(&values) {
            Err(e) => Err(e),
            Ok(_) => {
                let ghost before = source.drawn();
                let r = run(entry.routine, call.name.as_str(), &values, source);
                proof {
                    assert(same_words(before, source.drawn(), start, before.len() as int));
                    lemma_args_frame(args, registry@, before, source.drawn(), start);
                }
                r
            },
        },
    }
}

} // verus!

//! The table of generator functions: for each name the shape of the
//! arguments it takes and the routine that computes its value.

use vstd::prelude::*;
use vstd::string::*;
use crate::error::{Fault, GenError, GenErrorType};
use crate::json::{Json, JsonView};
use crate::text::{decimal, decimal_text};

verus! {

/// What a function asks of one argument.
#[derive(Debug, Clone, Copy, PartialEq, Eq, Structural)]
pub enum ArgKind {
    /// A string.
    Text,
    /// A number.
    Number,
    /// `true` or `false`.
    Boolean,
    /// A JSON value of any kind.
    Any,
}

/// The routines that compute a function's value.
#[derive(Debug, Clone, Copy, PartialEq, Eq, Structural)]
pub enum Routine {
    /// A random version 4 UUID, from two random words.
    Uuid,
    /// `true` or `false`, by the lowest bit of one random word.
    Boolean,
    /// One of the arguments, picked by one random word.
    Choice,
    /// A whole number between the first argument and the second, both
    /// included, picked by one random word.
    Integer,
}

/// One entry of the table.
#[derive(Debug, Clone)]
pub struct FunctionSpec {
    pub name: String,
    /// The least number of arguments.
    pub min_args: usize,
    /// The greatest number of arguments; `None` where any number may follow.
    pub max_args: Option<usize>,
    /// What is asked of each argument, in order. Of the arguments behind the
    /// last place the last kind is asked, and nothing where there is none.
    pub kinds: Vec<ArgKind>,
    pub routine: Routine,
}

/// The mathematical value of a `FunctionSpec`.
pub struct FunctionSpecView {
    pub name: Seq<char>,
    pub min_args: int,
    pub max_args: Option<int>,
    pub kinds: Seq<ArgKind>,
    pub routine: Routine,
}

impl View for FunctionSpec {
    type V = FunctionSpecView;

    open spec fn view(&self) -> FunctionSpecView {
        FunctionSpecView {
            name: self.name@,
            min_args: self.min_args as int,
            max_args: match self.max_args {
                Some(most) => Some(most as int),
                None => None,
            },
            kinds: self.kinds@,
            routine: self.routine,
        }
    }
}

/// The table of functions. Of two entries with one name the later one counts.
#[derive(Debug, Clone)]
pub struct Registry {
    entries: Vec<FunctionSpec>,
}

impl View for Registry {
    type V = Seq<FunctionSpecView>;

    closed spec fn view(&self) -> Seq<FunctionSpecView> {
        Seq::new(self.entries@.len(), |i: int| self.entries@[i]@)
    }
}

/// The entry for a name: the last one that carries it.
pub open spec fn lookup(table: Seq<FunctionSpecView>, name: Seq<char>) -> Option<
    FunctionSpecView,
>
    decreases table.len(),
{
    if table.len() == 0 {
        None
    } else if table.last().name == name {
        Some(table.last())
    } else {
        lookup(table.drop_last(), name)
    }
}

/// The entries that every registry starts with: `uuid()`, `bool()`,
/// `choice(value, ...)` and `int(least, greatest)`.
pub open spec fn standard_table() -> Seq<FunctionSpecView> {
    seq![
        FunctionSpecView {
            name: "uuid"@,
            min_args: 0,
            max_args: Some(0int),
            kinds: Seq::empty(),
            routine: Routine::Uuid,
        },
        FunctionSpecView {
            name: "bool"@,
            min_args: 0,
            max_args: Some(0int),
            kinds: Seq::empty(),
            routine: Routine::Boolean,
        },
        FunctionSpecView {
            name: "choice"@,
            min_args: 1,
            max_args: None,
            kinds: seq![ArgKind::Any],
            routine: Routine::Choice,
        },
        FunctionSpecView {
            name: "int"@,
            min_args: 2,
            max_args: Some(2int),
            kinds: seq![ArgKind::Number],
            routine: Routine::Integer,
        },
    ]
}

/// Whether a value is of the kind that a function asks for.
pub open spec fn is_of_kind(value: JsonView, kind: ArgKind) -> bool {
    match kind {
        ArgKind::Text => value is Text,
        ArgKind::Number => value is Number,
        ArgKind::Boolean => value is Bool,
        ArgKind::Any => true,
    }
}

/// What a function asks of its argument at place `i`.
pub open spec fn kind_at(kinds: Seq<ArgKind>, i: int) -> ArgKind {
    if 0 <= i < kinds.len() {
        kinds[i]
    } else if kinds.len() > 0 {
        kinds.last()
    } else {
        ArgKind::Any
    }
}

/// The place of the first argument from `from` on that is not of the kind
/// asked for.
pub open spec fn first_mismatch(kinds: Seq<ArgKind>, values: Seq<JsonView>, from: int) -> Option<
    int,
>
    decreases values.len() - from,
{
    if !(0 <= from < values.len()) {
        None
    } else if !is_of_kind(values[from], kind_at(kinds, from)) {
        Some(from)
    } else {
        first_mismatch(kinds, values, from + 1)
    }
}

/// How a kind reads in a message.
pub open spec fn kind_text(kind: ArgKind) -> Seq<char> {
    match kind {
        ArgKind::Text => "a string"@,
        ArgKind::Number => "a number"@,
        ArgKind::Boolean => "a boolean"@,
        ArgKind::Any => "any value"@,
    }
}

/// How the kind of a value reads in a message.
pub open spec fn value_kind_text(value: JsonView) -> Seq<char> {
    match value {
        JsonView::Null => "null"@,
        JsonView::Bool(_) => "a boolean"@,
        JsonView::Number(_) => "a number"@,
        JsonView::Text(_) => "a string"@,
        JsonView::Array(_) => "an array"@,
        JsonView::Object(_) => "an object"@,
    }
}

/// How the number of arguments that a function takes reads in a message.
pub open spec fn arity_text(least: int, most: Option<int>) -> Seq<char> {
    match most {
        None => "at least "@ + decimal_text(least as nat),
        Some(most) => if most == least {
            decimal_text(least as nat)
        } else {
            decimal_text(least as nat) + " to "@ + decimal_text(most as nat)
        },
    }
}

/// The failure for a name that the table does not hold.
pub open spec fn unknown_function_fault(name: Seq<char>) -> Fault {
    Fault {
        reason: "the function '"@ + name + "' is not known"@,
        tpe: GenErrorType::Generator,
    }
}

/// The failure for a wrong number of arguments.
pub open spec fn arity_fault(entry: FunctionSpecView, given: int) -> Fault {
    Fault {
        reason: "the function '"@ + entry.name + "' takes "@ + arity_text(
            entry.min_args,
            entry.max_args,
        ) + " argument(s), but "@ + decimal_text(given as nat) + " were given"@,
        tpe: GenErrorType::Generator,
    }
}

/// The failure for an argument of the wrong kind; places count from 1.
pub open spec fn kind_fault(entry: FunctionSpecView, place: int, value: JsonView) -> Fault {
    Fault {
        reason: "the function '"@ + entry.name + "' takes "@ + kind_text(
            kind_at(entry.kinds, place),
        ) + " as argument "@ + decimal_text((place + 1) as nat) + ", but "@ + value_kind_text(
            value,
        ) + " was given"@,
        tpe: GenErrorType::Generator,
    }
}

/// Whether the number of arguments is one that the function takes.
pub open spec fn arity_fits(entry: FunctionSpecView, given: int) -> bool {
    entry.min_args <= given && match entry.max_args {
        Some(most) => given <= most,
        None => true,
    }
}

/// Holds the arguments against what the function asks: first their number,
/// then their kinds from left to right.
pub open spec fn check_args(entry: FunctionSpecView, values: Seq<JsonView>) -> Result<(), Fault> {
    if !arity_fits(entry, values.len() as int) {
        Err(arity_fault(entry, values.len() as int))
    } else {
        match first_mismatch(entry.kinds, values, 0) {
            Some(place) => Err(kind_fault(entry, place, values[place])),
            None => Ok(()),
        }
    }
}

/// What a list of values stands for in contracts.
pub open spec fn values_view(values: Seq<Json>) -> Seq<JsonView> {
    Seq::new(values.len(), |i: int| values[i]@)
}

fn kind_name(kind: ArgKind) -> (name: &'static str)
    ensures
        name@ == kind_text(kind),
{
    match kind {
        ArgKind::Text => "a string",
        ArgKind::Number => "a number",
        ArgKind::Boolean => "a boolean",
        ArgKind::Any => "any value",
    }
}

fn value_kind_name(value: &Json) -> (name: &'static str)
    ensures
        name@ == value_kind_text(value@),
{
    match value {
        Json::Null => "null",
        Json::Bool(_) => "a boolean",
        Json::Number(_) => "a number",
        Json::Text(_) => "a string",
        Json::Array(_) => "an array",
        Json::Object(_) => "an object",
    }
}

fn has_kind(value: &Json, kind: ArgKind) -> (b: bool)
    ensures
        b == is_of_kind(value@, kind),
{
    match kind {
        ArgKind::Text => match value {
            Json::Text(_) => true,
            _ => false,
        },
        ArgKind::Number => match value {
            Json::Number(_) => true,
            _ => false,
        },
        ArgKind::Boolean => match value {
            Json::Bool(_) => true,
            _ => false,
        },
        ArgKind::Any => true,
    }
}

impl FunctionSpec {
    /// What the function asks of its argument at place `i`.
    pub fn kind_of(&self, i: usize) -> (kind: ArgKind)
        ensures
            kind == kind_at(self@.kinds, i as int),
    {
        if i < self.kinds.len() {
            self.kinds[i]
        } else if self.kinds.len() > 0 {
            self.kinds[self.kinds.len() - 1]
        } else {
            ArgKind::Any
        }
    }

    fn arity_name(&self) -> (text: String)
        ensures
            text@ == arity_text(self@.min_args, self@.max_args),
    {
        match self.max_args {
            None => String::from_str("at least ").concat(decimal(self.min_args as u64).as_str()),
            Some(most) => if most == self.min_args {
                decimal(self.min_args as u64)
            } else {
                decimal(self.min_args as u64).concat(" to ").concat(
                    decimal(most as u64).as_str(),
                )
            },
        }
    }

    /// Holds resolved arguments against what the function asks.
    pub fn check(&self, values: &Vec<Json>) -> (r: Result<(), GenError>)
        ensures
            match r {
                Ok(_) => check_args(self@, values_view(values@)) == Ok::<(), Fault>(()),
                Err(e) => check_args(self@, values_view(values@)) == Err::<(), Fault>(e@),
            },
    {
        let ghost views = values_view(values@);
        let given = values.len();
        let fits = self.min_args <= given && match self.max_args {
            Some(most) => given <= most,
            None => true,
        };
        if !fits {
            let reason = String::from_str("the function '").concat(self.name.as_str()).concat(
                "' takes ",
            ).concat(self.arity_name().as_str()).concat(" argument(s), but ").concat(
                decimal(given as u64).as_str(),
            ).concat(" were given");
            return Err(GenError::new_with_in_generator(reason.as_str()));
        }
        let mut i: usize = 0;
        while i < values.len()
            invariant
                i <= values.len(),
                views == values_view(values@),
                arity_fits(self@, views.len() as int),
                first_mismatch(self@.kinds, views, 0) == first_mismatch(
                    self@.kinds,
                    views,
                    i as int,
                ),
            decreases values.len() - i,
        {
            let kind = self.kind_of(i);
            if !has_kind(&values[i], kind) {
                let reason = String::from_str("the function '").concat(
                    self.name.as_str(),
                ).concat("' takes ").concat(kind_name(kind)).concat(" as argument ").concat(
                    decimal((i as u64) + 1).as_str(),
                ).concat(", but ").concat(value_kind_name(&values[i])).concat(" was given");
                return Err(GenError::new_with_in_generator(reason.as_str()));
            }
            i += 1;
        }
        Ok(())
    }
}

impl Registry {
    /// The table with the standard entries.
    pub fn new() -> (registry: Self)
        ensures
            registry@ == standard_table(),
    {
        let mut entries: Vec<FunctionSpec> = Vec::new();
        entries.push(
            FunctionSpec {
                name: String::from_str("uuid"),
                min_args: 0,
                max_args: Some(0),
                kinds: Vec::new(),
                routine: Routine::Uuid,
            },
        );
        entries.push(
            FunctionSpec {
                name: String::from_str("bool"),
                min_args: 0,
                max_args: Some(0),
                kinds: Vec::new(),
                routine: Routine::Boolean,
            },
        );
        let mut any: Vec<ArgKind> = Vec::new();
        any.push(ArgKind::Any);
        entries.push(
            FunctionSpec {
                name: String::from_str("choice"),
                min_args: 1,
                max_args: None,
                kinds: any,
                routine: Routine::Choice,
            },
        );
        let mut numbers: Vec<ArgKind> = Vec::new();
        numbers.push(ArgKind::Number);
        entries.push(
            FunctionSpec {
                name: String::from_str("int"),
                min_args: 2,
                max_args: Some(2),
                kinds: numbers,
                routine: Routine::Integer,
            },
        );
        let registry = Registry { entries };
        assert(registry@ =~= standard_table());
        registry
    }

    /// Adds an entry. It takes the place of an earlier entry with its name.
    pub fn register(&mut self, entry: FunctionSpec)
        ensures
            final(self)@ == old(self)@.push(entry@),
    {
        self.entries.push(entry);
        assert(self@ =~= old(self)@.push(entry@));
    }

    /// The entry for a name.
    pub fn lookup(&self, name: &str) -> (r: Option<&FunctionSpec>)
        ensures
            match r {
                Some(entry) => lookup(self@, name@) == Some(entry@),
                None => lookup(self@, name@) is None,
            },
    {
        let wanted = String::from_str(name);
        let mut i: usize = self.entries.len();
        assert(self@.take(i as int) =~= self@);
        while i > 0
            invariant
                i <= self.entries.len(),
                wanted@ == name@,
                lookup(self@, name@) == lookup(self@.take(i as int), name@),
            decreases i,
        {
            i -= 1;
            assert(self@.take(i + 1).drop_last() =~= self@.take(i as int));
            if self.entries[i].name == wanted {
                return Some(&self.entries[i]);
            }
        }
        None
    }
}

} // verus!

//! Generator calls: a function name applied to literals and to further calls.

use vstd::prelude::*;
use crate::json::{Json, JsonView};

verus! {

/// A generator call as written in a template: `name(arg, ...)`.
#[derive(Debug, PartialEq, Eq)]
pub struct Call {
    pub name: String,
    pub args: Vec<Argument>,
}

/// One argument of a call.
#[derive(Debug, PartialEq, Eq)]
pub enum Argument {
    /// A JSON scalar, handed to the function as it stands.
    Literal(Json),
    /// A call whose result is handed to the function.
    Nested(Call),
}

/// The mathematical value of a `Call`.
pub struct CallView {
    pub name: Seq<char>,
    pub args: Seq<ArgView>,
}

/// The mathematical value of an `Argument`.
pub enum ArgView {
    Literal(JsonView),
    Nested(CallView),
}

/// What a call stands for in contracts.
pub open spec fn call_view(call: Call) -> CallView
    decreases call,
{
    CallView {
        name: call.name@,
        args: Seq::new(
            call.args@.len(),
            |i: int|
                if 0 <= i < call.args@.len() {
                    arg_view(call.args@[i])
                } else {
                    ArgView::Literal(JsonView::Null)
                },
        ),
    }
}

/// What an argument stands for in contracts.
pub open spec fn arg_view(arg: Argument) -> ArgView
    decreases arg,
{
    match arg {
        Argument::Literal(json) => ArgView::Literal(json@),
        Argument::Nested(call) => ArgView::Nested(call_view(call)),
    }
}

/// What a list of arguments stands for in contracts.
pub open spec fn args_view(args: Seq<Argument>) -> Seq<ArgView> {
    Seq::new(args.len(), |i: int| arg_view(args[i]))
}

impl View for Call {
    type V = CallView;

    open spec fn view(&self) -> CallView {
        call_view(*self)
    }
}

impl View for Argument {
    type V = ArgView;

    open spec fn view(&self) -> ArgView {
        arg_view(*self)
    }
}

impl Call {
    /// A deep copy.
    pub fn duplicate(&self) -> (copy: Self)
        ensures
            copy@ == self@,
        decreases self,
    {
        let mut args: Vec<Argument> = Vec::new();
        let mut i: usize = 0;
        while i < self.args.len()
            invariant
                i <= self.args.len(),
                args.len() == i,
                forall|k: int| 0 <= k < i ==> args@[k]@ == self.args@[k]@,
            decreases self.args.len() - i,
        {
            proof {
                assert(decreases_to!(*self => self.args));
            }
            let arg = match &self.args[i] {
                Argument::Literal(json) => Argument::Literal(json.duplicate()),
                Argument::Nested(call) => Argument::Nested(call.duplicate()),
            };
            args.push(arg);
            i += 1;
        }
        let copy = Call { name: self.name.clone(), args };
        assert(copy@.args =~= self@.args);
        copy
    }
}

impl Clone for Argument {
    fn clone(&self) -> (copy: Self)
        ensures
            copy@ == self@,
    {
        match self {
            Argument::Literal(json) => Argument::Literal(json.duplicate()),
            Argument::Nested(call) => Argument::Nested(call.duplicate()),
        }
    }
}

impl Clone for Call {
    fn clone(&self) -> (copy: Self)
        ensures
            copy@ == self@,
    {
        self.duplicate()
    }
}

} // verus!

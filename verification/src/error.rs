//! The error type shared by every stage of a generation run.

use vstd::prelude::*;
use vstd::string::*;

verus! {

/// The stage of a run in which a failure arose.
#[derive(Debug, Clone, Copy, PartialEq, Eq, Structural)]
pub enum GenErrorType {
    Parser,
    Sender,
    Generator,
    Common,
}

/// A failure: the stage it arose in and a description for the user.
#[derive(Debug, Clone)]
pub struct GenError {
    reason: String,
    tpe: GenErrorType,
}

/// What a `GenError` stands for in contracts.
pub struct Fault {
    pub reason: Seq<char>,
    pub tpe: GenErrorType,
}

impl View for GenError {
    type V = Fault;

    closed spec fn view(&self) -> Fault {
        Fault { reason: self.reason@, tpe: self.tpe }
    }
}

/// The name under which a stage appears in a description.
pub open spec fn stage_name(tpe: GenErrorType) -> Seq<char> {
    match tpe {
        GenErrorType::Parser => "Parser"@,
        GenErrorType::Sender => "Sender"@,
        GenErrorType::Generator => "Generator"@,
        GenErrorType::Common => "Common"@,
    }
}

/// The one-line description of a failure.
pub open spec fn description(fault: Fault) -> Seq<char> {
    "error while parsing a generator func, reason: "@ + fault.reason + " and type: "@ + stage_name(
        fault.tpe,
    )
}

/// Maps both sides of a result to what they stand for in contracts.
pub open spec fn result_view<T: View>(r: Result<T, GenError>) -> Result<T::V, Fault> {
    match r {
        Ok(v) => Ok(v@),
        Err(e) => Err(e@),
    }
}

impl GenError {
    /// A failure outside the parsing, generating and sending stages.
    pub fn new_with(reason: &str) -> (e: Self)
        ensures
            e@ == (Fault { reason: reason@, tpe: GenErrorType::Common }),
    {
        GenError { reason: String::from_str(reason), tpe: GenErrorType::Common }
    }

    /// A failure to parse a template or a generator call.
    pub fn new_with_in_parser(reason: &str) -> (e: Self)
        ensures
            e@ == (Fault { reason: reason@, tpe: GenErrorType::Parser }),
    {
        GenError { reason: String::from_str(reason), tpe: GenErrorType::Parser }
    }

    /// A failure to deliver a document.
    pub fn new_with_in_sender(reason: &str) -> (e: Self)
        ensures
            e@ == (Fault { reason: reason@, tpe: GenErrorType::Sender }),
    {
        GenError { reason: String::from_str(reason), tpe: GenErrorType::Sender }
    }

    /// A failure to evaluate a generator call.
    pub fn new_with_in_generator(reason: &str) -> (e: Self)
        ensures
            e@ == (Fault { reason: reason@, tpe: GenErrorType::Generator }),
    {
        GenError { reason: String::from_str(reason), tpe: GenErrorType::Generator }
    }

    /// The description given when the failure was made.
    pub fn reason(&self) -> (r: &str)
        ensures
            r@ == self@.reason,
    {
        self.reason.as_str()
    }

    /// The stage the failure arose in.
    pub fn tpe(&self) -> (t: GenErrorType)
        ensures
            t == self@.tpe,
    {
        self.tpe
    }

    /// The failure as one line of text.
    pub fn describe(&self) -> (text: String)
        ensures
            text@ == description(self@),
    {
        let name = match self.tpe {
            GenErrorType::Parser => "Parser",
            GenErrorType::Sender => "Sender",
            GenErrorType::Generator => "Generator",
            GenErrorType::Common => "Common",
        };
        String::from_str("error while parsing a generator func, reason: ").concat(
            self.reason.as_str(),
        ).concat(" and type: ").concat(name)
    }
}

/// The failure that a bare complaint stands for.
pub open spec fn complaint_fault(complaint: Seq<char>) -> Fault {
    Fault { reason: "error: "@ + complaint, tpe: GenErrorType::Common }
}

impl From<String> for GenError {
    /// A failure outside the stages, for a bare complaint.
    fn from(e: String) -> (error: Self)
        ensures
            error@ == complaint_fault(e@),
    {
        let reason = String::from_str("error: ").concat(e.as_str());
        GenError { reason, tpe: GenErrorType::Common }
    }
}

impl vstd::std_specs::convert::FromSpecImpl<String> for GenError {
    open spec fn obeys_from_spec() -> bool {
        false
    }

    open spec fn from_spec(v: String) -> Self {
        arbitrary()
    }
}

} // verus!

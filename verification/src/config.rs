//! What a run is configured with: the settings as given, and what they
//! decide.

use vstd::prelude::*;
use vstd::string::*;
use crate::error::{Fault, GenError, GenErrorType};
use crate::text::{all_digits, chars_of, digits_value, read_digits};

verus! {

/// Where the text of the template comes from.
#[derive(Debug, Clone, PartialEq, Eq)]
pub enum TemplateSource {
    /// The text itself was given.
    Inline(String),
    /// The text is in the file at this path.
    File(String),
}

/// Where documents go.
#[derive(Debug, Clone, PartialEq, Eq)]
pub enum Destination {
    /// Appended to the file at this path.
    File(String),
    /// Saved one by one in the folder at this path.
    Folder(String),
    /// Sent by the transfer utility, called with these arguments.
    Curl(String),
    /// Printed.
    Console,
}

/// The mathematical value of a `TemplateSource`.
pub enum TemplateSourceView {
    Inline(Seq<char>),
    File(Seq<char>),
}

/// The mathematical value of a `Destination`.
pub enum DestinationView {
    File(Seq<char>),
    Folder(Seq<char>),
    Curl(Seq<char>),
    Console,
}

impl View for TemplateSource {
    type V = TemplateSourceView;

    open spec fn view(&self) -> TemplateSourceView {
        match self {
            TemplateSource::Inline(text) => TemplateSourceView::Inline(text@),
            TemplateSource::File(path) => TemplateSourceView::File(path@),
        }
    }
}

impl View for Destination {
    type V = DestinationView;

    open spec fn view(&self) -> DestinationView {
        match self {
            Destination::File(path) => DestinationView::File(path@),
            Destination::Folder(path) => DestinationView::Folder(path@),
            Destination::Curl(arguments) => DestinationView::Curl(arguments@),
            Destination::Console => DestinationView::Console,
        }
    }
}

/// What an optional text stands for in contracts.
pub open spec fn text_view(text: Option<String>) -> Option<Seq<char>> {
    match text {
        Some(text) => Some(text@),
        None => None,
    }
}

/// The number that a text writes: decimal digits, at least one, after an
/// optional plus sign, and no more than fits 32 bits.
pub open spec fn number_of(text: Seq<char>) -> Option<u32> {
    let digits = if text.len() > 0 && text[0] == '+' {
        text.skip(1)
    } else {
        text
    };
    if digits.len() > 0 && all_digits(digits) && digits_value(digits) <= u32::MAX {
        Some(digits_value(digits) as u32)
    } else {
        None
    }
}

/// The failure for a repetition count that is no number.
pub open spec fn bad_repeat_fault(text: Seq<char>) -> Fault {
    Fault {
        reason: "the repetition number should be a non-negative integer, but it is '"@ + text
            + "'"@,
        tpe: GenErrorType::Common,
    }
}

/// The failure for a run without a template.
pub open spec fn no_template_fault() -> Fault {
    Fault {
        reason: "the input file or body containing the json template should be provided!"@,
        tpe: GenErrorType::Common,
    }
}

/// The number of documents to generate: one where nothing is given.
pub open spec fn repeat_spec(given: Option<Seq<char>>) -> Result<u32, Fault> {
    match given {
        None => Ok(1u32),
        Some(text) => match number_of(text) {
            Some(n) => Ok(n),
            None => Err(bad_repeat_fault(text)),
        },
    }
}

/// Where the template comes from: the text given inline, else the file.
pub open spec fn template_source_spec(body: Option<Seq<char>>, file: Option<Seq<char>>) -> Result<
    TemplateSourceView,
    Fault,
> {
    match body {
        Some(text) => Ok(TemplateSourceView::Inline(text)),
        None => match file {
            Some(path) => Ok(TemplateSourceView::File(path)),
            None => Err(no_template_fault()),
        },
    }
}

/// The marker: `|` where none is given.
pub open spec fn marker_spec(given: Option<Seq<char>>) -> Seq<char> {
    match given {
        Some(marker) => marker,
        None => "|"@,
    }
}

/// The destinations, in the order in which they receive each document:
/// file, folder, transfer utility, console. The console stands in where
/// none is given.
pub open spec fn outputs_spec(
    to_file: Option<Seq<char>>,
    to_folder: Option<Seq<char>>,
    to_curl: Option<Seq<char>>,
    to_console: bool,
) -> Seq<DestinationView> {
    let files = match to_file {
        Some(path) => seq![DestinationView::File(path)],
        None => Seq::empty(),
    };
    let folders = match to_folder {
        Some(path) => seq![DestinationView::Folder(path)],
        None => Seq::empty(),
    };
    let transfers = match to_curl {
        Some(arguments) => seq![DestinationView::Curl(arguments)],
        None => Seq::empty(),
    };
    let chosen = files + folders + transfers + if to_console {
        seq![DestinationView::Console]
    } else {
        Seq::empty()
    };
    if chosen.len() == 0 {
        seq![DestinationView::Console]
    } else {
        chosen
    }
}

/// What a list of destinations stands for in contracts.
pub open spec fn destinations_view(destinations: Seq<Destination>) -> Seq<DestinationView> {
    Seq::new(destinations.len(), |i: int| destinations[i]@)
}

/// Reads a number of at most 32 bits.
pub fn parse_number(text: &str) -> (r: Option<u32>)
    ensures
        r == number_of(text@),
{
    let chars = chars_of(text);
    let from: usize = if chars.len() > 0 && chars[0] == '+' {
        1
    } else {
        0
    };
    assert(chars@.skip(0) =~= chars@);
    match read_digits(&chars, from, 0xffff_ffff) {
        Some(value) => Some(value as u32),
        None => None,
    }
}

/// The number of documents to generate.
pub fn repeat_of(given: Option<&str>) -> (r: Result<u32, GenError>)
    ensures
        match r {
            Ok(n) => repeat_spec(
                match given {
                    Some(text) => Some(text@),
                    None => None,
                },
            ) == Ok::<u32, Fault>(n),
            Err(e) => repeat_spec(
                match given {
                    Some(text) => Some(text@),
                    None => None,
                },
            ) == Err::<u32, Fault>(e@),
        },
{
    match given {
        None => Ok(1),
        Some(text) => match parse_number(text) {
            Some(n) => Ok(n),
            None => {
                let reason = String::from_str(
                    "the repetition number should be a non-negative integer, but it is '",
                ).concat(text).concat("'");
                Err(GenError::new_with(reason.as_str()))
            },
        },
    }
}

/// Where the template comes from.
pub fn template_source(body: Option<String>, file: Option<String>) -> (r: Result<
    TemplateSource,
    GenError,
>)
    ensures
        match r {
            Ok(source) => template_source_spec(text_view(body), text_view(file)) == Ok::<
                TemplateSourceView,
                Fault,
            >(source@),
            Err(e) => template_source_spec(text_view(body), text_view(file)) == Err::<
                TemplateSourceView,
                Fault,
            >(e@),
        },
{
    match body {
        Some(text) => Ok(TemplateSource::Inline(text)),
        None => match file {
            Some(path) => Ok(TemplateSource::File(path)),
            None => Err(
                GenError::new_with(
                    "the input file or body containing the json template should be provided!",
                ),
            ),
        },
    }
}

/// The marker that tells generator fields from the others.
pub fn marker_of(given: Option<String>) -> (marker: String)
    ensures
        marker@ == marker_spec(text_view(given)),
{
    match given {
        Some(marker) => marker,
        None => String::from_str("|"),
    }
}

/// The destinations of a run.
pub fn outputs_of(
    to_file: Option<String>,
    to_folder: Option<String>,
    to_curl: Option<String>,
    to_console: bool,
) -> (outputs: Vec<Destination>)
    ensures
        destinations_view(outputs@) == outputs_spec(
            text_view(to_file),
            text_view(to_folder),
            text_view(to_curl),
            to_console,
        ),
{
    let mut outputs: Vec<Destination> = Vec::new();
    if let Some(path) = to_file {
        outputs.push(Destination::File(path));
    }
    if let Some(path) = to_folder {
        outputs.push(Destination::Folder(path));
    }
    if let Some(arguments) = to_curl {
        outputs.push(Destination::Curl(arguments));
    }
    if to_console {
        outputs.push(Destination::Console);
    }
    if outputs.len() == 0 {
        outputs.push(Destination::Console);
    }
    assert(destinations_view(outputs@) =~= outputs_spec(
        text_view(to_file),
        text_view(to_folder),
        text_view(to_curl),
        to_console,
    ));
    outputs
}

} // verus!

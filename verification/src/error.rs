//! The failures that setting up the options can end in.

use vstd::prelude::*;
use vstd::string::StringExecFns;

verus! {

/// Why the argument parser turned the arguments down.
/// Each variant carries the name of the option concerned.
#[derive(Debug, Clone, PartialEq, Eq)]
pub enum ParseFailure {
    /// The option requires a value and none was given.
    ArgumentMissing(String),
    /// The option is not among the declared ones.
    UnrecognizedOption(String),
    /// A required option is absent.
    OptionMissing(String),
    /// An option that may occur once was given several times.
    OptionDuplicated(String),
    /// A value was given to an option that takes none.
    UnexpectedArgument(String),
}

/// The mathematical value of a [`ParseFailure`].
pub enum ParseFailureView {
    ArgumentMissing(Seq<char>),
    UnrecognizedOption(Seq<char>),
    OptionMissing(Seq<char>),
    OptionDuplicated(Seq<char>),
    UnexpectedArgument(Seq<char>),
}

impl View for ParseFailure {
    type V = ParseFailureView;

    open spec fn view(&self) -> ParseFailureView {
        match *self {
            ParseFailure::ArgumentMissing(n) => ParseFailureView::ArgumentMissing(n@),
            ParseFailure::UnrecognizedOption(n) => ParseFailureView::UnrecognizedOption(n@),
            ParseFailure::OptionMissing(n) => ParseFailureView::OptionMissing(n@),
            ParseFailure::OptionDuplicated(n) => ParseFailureView::OptionDuplicated(n@),
            ParseFailure::UnexpectedArgument(n) => ParseFailureView::UnexpectedArgument(n@),
        }
    }
}

impl ParseFailureView {
    /// The sentence that describes the failure.
    pub open spec fn text(self) -> Seq<char> {
        match self {
            ParseFailureView::ArgumentMissing(n) => "Argument to option '"@ + n + "' missing"@,
            ParseFailureView::UnrecognizedOption(n) => "Unrecognized option: '"@ + n + "'"@,
            ParseFailureView::OptionMissing(n) => "Required option '"@ + n + "' missing"@,
            ParseFailureView::OptionDuplicated(n) => "Option '"@ + n + "' given more than once"@,
            ParseFailureView::UnexpectedArgument(n) => "Option '"@ + n
                + "' does not take an argument"@,
        }
    }
}

/// `head`, then `middle`, then `tail`, as one string.
fn bracket(head: &str, middle: &String, tail: &str) -> (s: String)
    ensures
        s@ == head@ + middle@ + tail@,
{
    let mut s = String::from_str(head);
    s.append(middle.as_str());
    s.append(tail);
    s
}

impl ParseFailure {
    /// The sentence that describes the failure.
    pub fn message(&self) -> (s: String)
        ensures
            s@ == self@.text(),
    {
        match self {
            ParseFailure::ArgumentMissing(n) => bracket("Argument to option '", n, "' missing"),
            ParseFailure::UnrecognizedOption(n) => bracket("Unrecognized option: '", n, "'"),
            ParseFailure::OptionMissing(n) => bracket("Required option '", n, "' missing"),
            ParseFailure::OptionDuplicated(n) => bracket("Option '", n, "' given more than once"),
            ParseFailure::UnexpectedArgument(n) => bracket(
                "Option '",
                n,
                "' does not take an argument",
            ),
        }
    }
}

/// Every way in which setting up the options can fail.
#[derive(Debug, Clone, PartialEq, Eq)]
pub enum SetupError {
    /// No arguments were supplied at all.
    EmptyArguments,
    /// The first argument is not the marker.
    MissingMarker,
    /// The schema file cannot be opened; carries its path, which is empty
    /// where the arguments end after the marker.
    SchemaFileUnreadable(String),
    /// The schema does not have the expected shape; carries what is wrong,
    /// or the key of an entry whose names the parser cannot take.
    SchemaMalformed(String),
    /// An entry's kind is neither of the two known ones; carries the kind.
    UnrecognizedOptionKind(String),
    /// The arguments do not fit the declared options; carries the program's
    /// name and the parser's reason.
    ArgumentParseFailure(String, ParseFailure),
}

/// The mathematical value of a [`SetupError`].
pub enum SetupErrorView {
    EmptyArguments,
    MissingMarker,
    SchemaFileUnreadable(Seq<char>),
    SchemaMalformed(Seq<char>),
    UnrecognizedOptionKind(Seq<char>),
    ArgumentParseFailure(Seq<char>, ParseFailureView),
}

impl View for SetupError {
    type V = SetupErrorView;

    open spec fn view(&self) -> SetupErrorView {
        match *self {
            SetupError::EmptyArguments => SetupErrorView::EmptyArguments,
            SetupError::MissingMarker => SetupErrorView::MissingMarker,
            SetupError::SchemaFileUnreadable(p) => SetupErrorView::SchemaFileUnreadable(p@),
            SetupError::SchemaMalformed(w) => SetupErrorView::SchemaMalformed(w@),
            SetupError::UnrecognizedOptionKind(k) => SetupErrorView::UnrecognizedOptionKind(k@),
            SetupError::ArgumentParseFailure(p, f) => SetupErrorView::ArgumentParseFailure(
                p@,
                f@,
            ),
        }
    }
}

impl SetupErrorView {
    /// The diagnostic that names the failing input.
    pub open spec fn text(self) -> Seq<char> {
        match self {
            SetupErrorView::EmptyArguments => "getopt setup has empty program arguments"@,
            SetupErrorView::MissingMarker =>
                "--getoptconfig is not the first option from the program arguments"@,
            SetupErrorView::SchemaFileUnreadable(p) => "Could not open file '"@ + p + "'"@,
            SetupErrorView::SchemaMalformed(w) => "Could not read values: "@ + w,
            SetupErrorView::UnrecognizedOptionKind(k) => "unrecognised get opt type '"@ + k + "'"@,
            SetupErrorView::ArgumentParseFailure(p, f) => "Program '"@ + p
                + "' has invalid program arguments: "@ + f.text(),
        }
    }
}

impl SetupError {
    /// The diagnostic that names the failing input.
    pub fn message(&self) -> (s: String)
        ensures
            s@ == self@.text(),
    {
        match self {
            SetupError::EmptyArguments => String::from_str(
                "getopt setup has empty program arguments",
            ),
            SetupError::MissingMarker => String::from_str(
                "--getoptconfig is not the first option from the program arguments",
            ),
            SetupError::SchemaFileUnreadable(p) => bracket("Could not open file '", p, "'"),
            SetupError::SchemaMalformed(w) => {
                let mut s = String::from_str("Could not read values: ");
                s.append(w.as_str());
                s
            },
            SetupError::UnrecognizedOptionKind(k) => bracket("unrecognised get opt type '", k, "'"),
            SetupError::ArgumentParseFailure(p, f) => {
                let mut s = bracket("Program '", p, "' has invalid program arguments: ");
                let reason = f.message();
                s.append(reason.as_str());
                s
            },
        }
    }
}

} // verus!

//! The argument parser of the `getopts` crate, as far as this library uses it.
//!
//! Nothing in this file is proved: each function states what the `getopts`
//! source shows of the call it makes, and the rest of the library is verified
//! against these statements.

use vstd::prelude::*;
use vstd::utf8::encode_utf8;
use crate::error::{ParseFailure, ParseFailureView};

verus! {

/// One declared option: its short name, long name, value hint, description,
/// and whether it takes a value.
pub type Group = (Seq<char>, Seq<char>, Seq<char>, Seq<char>, bool);

/// What was given at each occurrence of an option: `None` for the bare
/// option, `Some` with the value otherwise.
pub type Occurrences = Seq<Option<Seq<char>>>;

/// `getopts::Options`: the options that a parser was told of. The verifier
/// sees nothing inside it; `declared` and `plain_style` say what it holds.
#[verifier::external_type_specification]
#[verifier::external_body]
pub struct ExOptions(getopts::Options);

/// `getopts::Matches`: what a parser found in the arguments. The verifier
/// sees nothing inside it; `occurrences` and `free_arguments` say what it
/// holds.
#[verifier::external_type_specification]
#[verifier::external_body]
pub struct ExMatches(getopts::Matches);

/// The options that were declared on `opts`, in the order of declaration.
/// It describes `opts` in full where `plain_style` holds.
pub uninterp spec fn declared(opts: getopts::Options) -> Seq<Group>;

/// Whether `opts` is as `Options::new`, `optflag` and `optopt` leave it: free
/// arguments may stand anywhere, long options need two dashes, and every
/// option may occur once at most and either takes a value or takes none.
pub uninterp spec fn plain_style(opts: getopts::Options) -> bool;

/// For each option name that `m` knows, what was given at each of its
/// occurrences.
pub uninterp spec fn occurrences(m: getopts::Matches) -> Map<Seq<char>, Occurrences>;

/// The arguments in `m` that belong to no option.
pub uninterp spec fn free_arguments(m: getopts::Matches) -> Seq<Seq<char>>;

/// What `Options::parse`, in the plain style, makes of `args` under the
/// options `groups`: the occurrences by name and the free arguments, or the
/// reason for turning the arguments down.
pub uninterp spec fn parse_outcome(groups: Seq<Group>, args: Seq<Seq<char>>) -> Result<
    (Map<Seq<char>, Occurrences>, Seq<Seq<char>>),
    ParseFailureView,
>;

/// The text that `Options::usage`, in the plain style, derives from the
/// options `groups` under the heading `brief`.
pub uninterp spec fn usage_text(groups: Seq<Group>, brief: Seq<char>) -> Seq<char>;

/// The number of bytes that `s` takes in UTF-8.
pub open spec fn byte_len(s: Seq<char>) -> nat {
    encode_utf8(s).len()
}

/// The names that the parser takes for one option: a short name of at most
/// one byte, a long name of no byte or of more than one, and not both empty.
pub open spec fn names_accepted(short_name: Seq<char>, long_name: Seq<char>) -> bool {
    &&& byte_len(short_name) <= 1
    &&& byte_len(long_name) != 1
    &&& byte_len(short_name) + byte_len(long_name) > 0
}

/// Every option in `groups` has names that the parser takes.
pub open spec fn all_accepted(groups: Seq<Group>) -> bool {
    forall|i: int| 0 <= i < groups.len() ==> names_accepted((#[trigger] groups[i]).0, groups[i].1)
}

/// No option occurred in `m`, and no free argument.
pub open spec fn nothing_given(m: getopts::Matches) -> bool {
    &&& free_arguments(m).len() == 0
    &&& forall|name: Seq<char>|
        occurrences(m).dom().contains(name) ==> (#[trigger] occurrences(m)[name]).len() == 0
}

/// The views of the strings in `v`.
pub open spec fn texts(v: Seq<String>) -> Seq<Seq<char>> {
    Seq::new(v.len(), |i: int| v[i]@)
}

/// Calls `getopts::Options::new`: no option is declared yet, and the style is
/// the plain one.
#[verifier::external_body]
pub(crate) fn options_new() -> (opts: getopts::Options)
    ensures
        declared(opts) == Seq::<Group>::empty(),
        plain_style(opts),
{
    getopts::Options::new()
}

/// Calls `getopts::Options::optflag`, which panics on a short name of more
/// than one byte and on a long name of one byte. It appends one option without
/// a value, with an empty hint, and keeps the plain style.
#[verifier::external_body]
pub(crate) fn options_optflag(
    opts: &mut getopts::Options,
    short_name: &str,
    long_name: &str,
    desc: &str,
)
    requires
        byte_len(short_name@) <= 1,
        byte_len(long_name@) != 1,
    ensures
        declared(*final(opts)) == declared(*old(opts)).push(
            (short_name@, long_name@, Seq::<char>::empty(), desc@, false),
        ),
        plain_style(*final(opts)) == plain_style(*old(opts)),
{
    opts.optflag(short_name, long_name, desc);
}

/// Calls `getopts::Options::optopt`, which panics on a short name of more
/// than one byte and on a long name of one byte. It appends one option that
/// takes a value, and keeps the plain style.
#[verifier::external_body]
pub(crate) fn options_optopt(
    opts: &mut getopts::Options,
    short_name: &str,
    long_name: &str,
    desc: &str,
    hint: &str,
)
    requires
        byte_len(short_name@) <= 1,
        byte_len(long_name@) != 1,
    ensures
        declared(*final(opts)) == declared(*old(opts)).push(
            (short_name@, long_name@, hint@, desc@, true),
        ),
        plain_style(*final(opts)) == plain_style(*old(opts)),
{
    opts.optopt(short_name, long_name, desc, hint);
}

/// Calls `getopts::Options::parse`, which panics on an option without any
/// name. The result is a function of the declared options and the arguments.
/// Without arguments the parser succeeds, since no option is required, and
/// finds nothing. A failure is handed over variant by variant.
#[verifier::external_body]
pub(crate) fn options_parse(opts: &getopts::Options, args: &[String]) -> (r: Result<
    getopts::Matches,
    ParseFailure,
>)
    requires
        plain_style(*opts),
        all_accepted(declared(*opts)),
    ensures
        match r {
            Ok(m) => parse_outcome(declared(*opts), texts(args@)) == Ok::<
                (Map<Seq<char>, Occurrences>, Seq<Seq<char>>),
                ParseFailureView,
            >((occurrences(m), free_arguments(m))) && (args@.len() == 0 ==> nothing_given(m)),
            Err(e) => parse_outcome(declared(*opts), texts(args@)) == Err::<
                (Map<Seq<char>, Occurrences>, Seq<Seq<char>>),
                ParseFailureView,
            >(e@) && args@.len() > 0,
        },
{
    match opts.parse(args) {
        Ok(m) => Ok(m),
        Err(getopts::Fail::ArgumentMissing(n)) => Err(ParseFailure::ArgumentMissing(n)),
        Err(getopts::Fail::UnrecognizedOption(n)) => Err(ParseFailure::UnrecognizedOption(n)),
        Err(getopts::Fail::OptionMissing(n)) => Err(ParseFailure::OptionMissing(n)),
        Err(getopts::Fail::OptionDuplicated(n)) => Err(ParseFailure::OptionDuplicated(n)),
        Err(getopts::Fail::UnexpectedArgument(n)) => Err(ParseFailure::UnexpectedArgument(n)),
    }
}

/// Calls `getopts::Matches::opt_defined`: whether the matches know an option
/// of that name.
#[verifier::external_body]
pub(crate) fn matches_opt_defined(m: &getopts::Matches, name: &str) -> (b: bool)
    ensures
        b == occurrences(*m).dom().contains(name@),
{
    m.opt_defined(name)
}

/// Calls `getopts::Matches::opt_present`, which panics on a name that the
/// matches do not know. An option is present when it occurred at least once.
#[verifier::external_body]
pub(crate) fn matches_opt_present(m: &getopts::Matches, name: &str) -> (b: bool)
    requires
        occurrences(*m).dom().contains(name@),
    ensures
        b == (occurrences(*m)[name@].len() > 0),
{
    m.opt_present(name)
}

/// Calls `getopts::Options::usage`, which panics on a short name wider than
/// one column; a short name of one byte is not. The result is a function of
/// the declared options and the heading.
#[verifier::external_body]
pub(crate) fn options_usage(opts: &getopts::Options, brief: &str) -> (s: String)
    requires
        plain_style(*opts),
        all_accepted(declared(*opts)),
    ensures
        s@ == usage_text(declared(*opts), brief@),
{
    opts.usage(brief)
}

} // verus!

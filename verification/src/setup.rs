//! From the raw arguments and a schema to the parsed matches.

use vstd::prelude::*;
use vstd::slice::slice_subrange;
use vstd::string::StringExecFns;
use vstd::utf8::encode_utf8;
use crate::engine::{
    all_accepted, byte_len, declared, free_arguments, matches_opt_defined, matches_opt_present,
    names_accepted, nothing_given, occurrences, options_new, options_optflag, options_optopt,
    options_parse, options_usage, parse_outcome, plain_style, texts, usage_text, Group,
    Occurrences,
};
use crate::error::{ParseFailure, SetupError, SetupErrorView};
use crate::schema::{GetOptConfig, GetOptType, OptionView};

verus! {

/// What a successful setup hands back.
#[derive(Debug)]
pub struct Setup {
    /// The parsed arguments.
    pub matches: getopts::Matches,
    /// The usage text to print, where the help flag was given.
    pub usage: Option<String>,
}

/// The argument that must come first; the schema's path follows it.
pub open spec fn marker() -> Seq<char> {
    "--getoptconfig"@
}

/// The built-in help flag, declared before any entry of the schema.
pub open spec fn help_group() -> Group {
    ("h"@, "help"@, Seq::<char>::empty(), "Print help menu."@, false)
}

/// The heading of the usage text.
pub open spec fn usage_brief(program: Seq<char>) -> Seq<char> {
    "Usage: "@ + program + " [options]"@
}

/// The schema's path as the arguments give it, or why they give none.
pub open spec fn config_path(args: Seq<Seq<char>>) -> Result<Seq<char>, SetupErrorView> {
    if args.len() == 0 {
        Err(SetupErrorView::EmptyArguments)
    } else if args[0] != marker() {
        Err(SetupErrorView::MissingMarker)
    } else if args.len() == 1 {
        Err(SetupErrorView::SchemaFileUnreadable(Seq::<char>::empty()))
    } else {
        Ok(args[1])
    }
}

/// What one entry of the schema declares to the parser: an unknown kind is
/// turned down first, then names that the parser cannot take.
pub open spec fn group_of(key: Seq<char>, option: OptionView) -> Result<Group, SetupErrorView> {
    match GetOptType::of_tag(option.get_opt_type) {
        None => Err(SetupErrorView::UnrecognizedOptionKind(option.get_opt_type)),
        Some(kind) => if !names_accepted(option.short_name, option.long_name) {
            Err(SetupErrorView::SchemaMalformed(key))
        } else {
            Ok(
                (
                    option.short_name,
                    option.long_name,
                    Seq::<char>::empty(),
                    option.description,
                    kind == GetOptType::OPT,
                ),
            )
        },
    }
}

/// What the schema declares to the parser: the help flag, then the entries in
/// their order; or the error of the first entry that is turned down.
pub open spec fn groups_of(entries: Seq<(Seq<char>, OptionView)>) -> Result<
    Seq<Group>,
    SetupErrorView,
>
    decreases entries.len(),
{
    if entries.len() == 0 {
        Ok(seq![help_group()])
    } else {
        match groups_of(entries.drop_last()) {
            Err(e) => Err(e),
            Ok(groups) => match group_of(entries.last().0, entries.last().1) {
                Err(e) => Err(e),
                Ok(group) => Ok(groups.push(group)),
            },
        }
    }
}

/// Whether the help flag occurred.
pub open spec fn help_requested(occ: Map<Seq<char>, Occurrences>) -> bool {
    occ.dom().contains("h"@) && occ["h"@].len() > 0
}

/// The whole setup: the occurrences by name, the free arguments and the usage
/// text to print, or the first failure on the way.
pub open spec fn setup_result(
    program: Seq<char>,
    args: Seq<Seq<char>>,
    entries: Seq<(Seq<char>, OptionView)>,
) -> Result<(Map<Seq<char>, Occurrences>, Seq<Seq<char>>, Option<Seq<char>>), SetupErrorView> {
    match config_path(args) {
        Err(e) => Err(e),
        Ok(_) => match groups_of(entries) {
            Err(e) => Err(e),
            Ok(groups) => match parse_outcome(groups, args.skip(2)) {
                Err(f) => Err(SetupErrorView::ArgumentParseFailure(program, f)),
                Ok((occ, free)) => Ok(
                    (
                        occ,
                        free,
                        if help_requested(occ) {
                            Some(usage_text(groups, usage_brief(program)))
                        } else {
                            None
                        },
                    ),
                ),
            },
        },
    }
}

/// What a `Setup` holds, as plain values.
pub open spec fn setup_view(s: Setup) -> (
    Map<Seq<char>, Occurrences>,
    Seq<Seq<char>>,
    Option<Seq<char>>,
) {
    (
        occurrences(s.matches),
        free_arguments(s.matches),
        match s.usage {
            Some(u) => Some(u@),
            None => None,
        },
    )
}

/// An error among the first entries is the error of the whole schema.
pub proof fn lemma_first_error_stands(entries: Seq<(Seq<char>, OptionView)>, k: int)
    requires
        0 <= k <= entries.len(),
        groups_of(entries.take(k)) is Err,
    ensures
        groups_of(entries) == groups_of(entries.take(k)),
    decreases entries.len() - k,
{
    if k < entries.len() {
        assert(entries.take(k + 1).drop_last() =~= entries.take(k));
        lemma_first_error_stands(entries, k + 1);
    } else {
        assert(entries.take(k) =~= entries);
    }
}

/// Every character takes at least one byte.
proof fn lemma_byte_len_covers(s: Seq<char>)
    ensures
        byte_len(s) >= s.len(),
    decreases s.len(),
{
    if s.len() > 0 {
        lemma_byte_len_covers(s.drop_first());
    }
}

/// The names of the help flag are names that the parser takes.
proof fn lemma_help_names()
    ensures
        byte_len("h"@) == 1,
        byte_len("help"@) > 1,
        names_accepted("h"@, "help"@),
{
    reveal_strlit("h");
    reveal_strlit("help");
    lemma_byte_len_covers("help"@);
    let h = "h"@;
    assert(h.len() == 1);
    assert(h[0] == 'h');
    assert(encode_utf8(h.drop_first()) =~= Seq::<u8>::empty());
    assert(encode_utf8(h).len() == 1);
}

/// The number of bytes that `s` takes.
fn byte_count(s: &String) -> (n: usize)
    ensures
        n == byte_len(s@),
{
    s.as_str().as_bytes().len()
}

/// Reads the schema's path off the arguments: the marker must come first and
/// the path second.
pub fn getopt_config_path(args: &Vec<String>) -> (r: Result<String, SetupError>)
    ensures
        match r {
            Ok(path) => config_path(texts(args@)) == Ok::<Seq<char>, SetupErrorView>(path@),
            Err(e) => config_path(texts(args@)) == Err::<Seq<char>, SetupErrorView>(e@),
        },
{
    if args.len() == 0 {
        return Err(SetupError::EmptyArguments);
    }
    if args[0] != String::from_str("--getoptconfig") {
        return Err(SetupError::MissingMarker);
    }
    if args.len() == 1 {
        return Err(SetupError::SchemaFileUnreadable(String::new()));
    }
    Ok(args[1].clone())
}

/// Declares the help flag and then every entry of the schema, in the
/// schema's order, to a fresh parser. An entry that takes the name `h` or
/// `help` again does not displace the help flag: the parser answers to a name
/// with the option that was declared first.
pub fn getopt_options(config: &GetOptConfig) -> (r: Result<getopts::Options, SetupError>)
    ensures
        match r {
            Ok(opts) => groups_of(config.entries()) == Ok::<Seq<Group>, SetupErrorView>(
                declared(opts),
            ) && plain_style(opts) && all_accepted(declared(opts)),
            Err(e) => groups_of(config.entries()) == Err::<Seq<Group>, SetupErrorView>(e@),
        },
{
    let mut opts = options_new();
    proof {
        lemma_help_names();
    }
    options_optflag(&mut opts, "h", "help", "Print help menu.");
    assert(declared(opts) =~= seq![help_group()]);
    let n: usize = config.len();
    let mut i: usize = 0;
    assert(config.entries().take(0) =~= Seq::<(Seq<char>, OptionView)>::empty());
    while i < n
        invariant
            n == config.entries().len(),
            i <= n,
            groups_of(config.entries().take(i as int)) == Ok::<Seq<Group>, SetupErrorView>(
                declared(opts),
            ),
            plain_style(opts),
            all_accepted(declared(opts)),
        decreases n - i,
    {
        let key = config.key_at(i);
        let option = config.option_at(i);
        let ghost before = config.entries().take(i as int);
        let ghost upto = config.entries().take(i + 1);
        assert(upto.drop_last() =~= before);
        assert(upto.last() == config.entries()[i as int]);
        let short_len = byte_count(&option.short_name);
        let long_len = byte_count(&option.long_name);
        let short_fits = short_len <= 1;
        let long_fits = long_len != 1;
        let named = short_len > 0 || long_len > 0;
        match GetOptType::from_tag(&option.get_opt_type) {
            None => {
                proof {
                    lemma_first_error_stands(config.entries(), i + 1);
                }
                return Err(SetupError::UnrecognizedOptionKind(option.get_opt_type.clone()));
            },
            Some(kind) => {
                if !(short_fits && long_fits && named) {
                    proof {
                        lemma_first_error_stands(config.entries(), i + 1);
                    }
                    return Err(SetupError::SchemaMalformed(key.clone()));
                }
                match kind {
                    GetOptType::FLAG => {
                        options_optflag(
                            &mut opts,
                            option.short_name.as_str(),
                            option.long_name.as_str(),
                            option.description.as_str(),
                        );
                    },
                    GetOptType::OPT => {
                        proof {
                            reveal_strlit("");
                        }
                        options_optopt(
                            &mut opts,
                            option.short_name.as_str(),
                            option.long_name.as_str(),
                            option.description.as_str(),
                            "",
                        );
                        assert(""@ =~= Seq::<char>::empty());
                    },
                }
            },
        }
        i += 1;
    }
    assert(config.entries().take(n as int) =~= config.entries());
    Ok(opts)
}

/// The heading of the usage text for `program`.
pub fn getopt_usage_brief(program: &String) -> (brief: String)
    ensures
        brief@ == usage_brief(program@),
{
    let mut brief = String::from_str("Usage: ");
    brief.append(program.as_str());
    brief.append(" [options]");
    brief
}

/// Concludes the setup from what the parser returned: a failure is reported
/// with the program's name; matches are handed back, with the usage text
/// where the help flag occurred.
pub fn getopt_outcome(
    program: &String,
    opts: &getopts::Options,
    parsed: Result<getopts::Matches, ParseFailure>,
) -> (r: Result<Setup, SetupError>)
    requires
        plain_style(*opts),
        all_accepted(declared(*opts)),
    ensures
        match parsed {
            Err(f) => r matches Err(e) && e@ == SetupErrorView::ArgumentParseFailure(
                program@,
                f@,
            ),
            Ok(m) => r matches Ok(s) && s.matches == m && match s.usage {
                Some(u) => help_requested(occurrences(m)) && u@ == usage_text(
                    declared(*opts),
                    usage_brief(program@),
                ),
                None => !help_requested(occurrences(m)),
            },
        },
{
    match parsed {
        Err(f) => Err(SetupError::ArgumentParseFailure(program.clone(), f)),
        Ok(m) => {
            let help = matches_opt_defined(&m, "h") && matches_opt_present(&m, "h");
            let usage = if help {
                let brief = getopt_usage_brief(program);
                Some(options_usage(opts, brief.as_str()))
            } else {
                None
            };
            Ok(Setup { matches: m, usage })
        },
    }
}

/// Sets the parser up from the schema and parses the arguments that follow
/// the marker and the path. Where nothing follows them and the schema is
/// accepted, the setup succeeds: no option is present, the help flag
/// included, and there is no usage text to print.
pub fn getopt_setup(program: &String, args: &Vec<String>, config: &GetOptConfig) -> (r: Result<
    Setup,
    SetupError,
>)
    ensures
        match r {
            Ok(s) => setup_result(program@, texts(args@), config.entries()) == Ok::<
                (Map<Seq<char>, Occurrences>, Seq<Seq<char>>, Option<Seq<char>>),
                SetupErrorView,
            >(setup_view(s)),
            Err(e) => setup_result(program@, texts(args@), config.entries()) == Err::<
                (Map<Seq<char>, Occurrences>, Seq<Seq<char>>, Option<Seq<char>>),
                SetupErrorView,
            >(e@),
        },
        args@.len() == 2 && args@[0]@ == marker() && groups_of(config.entries()) is Ok
            ==> match r {
            Ok(s) => s.usage is None && nothing_given(s.matches),
            Err(_) => false,
        },
{
    match getopt_config_path(args) {
        Err(e) => {
            return Err(e);
        },
        Ok(_) => {},
    }
    let opts = match getopt_options(config) {
        Err(e) => {
            return Err(e);
        },
        Ok(opts) => opts,
    };
    let rest = slice_subrange(args.as_slice(), 2, args.len());
    assert(texts(rest@) =~= texts(args@).skip(2));
    let parsed = options_parse(&opts, rest);
    getopt_outcome(program, &opts, parsed)
}

/// An error of the schema is an unknown kind or names that the parser cannot
/// take.
proof fn lemma_schema_errors(entries: Seq<(Seq<char>, OptionView)>)
    ensures
        groups_of(entries) matches Err(e) ==> e is UnrecognizedOptionKind || e is SchemaMalformed,
    decreases entries.len(),
{
    if entries.len() > 0 {
        lemma_schema_errors(entries.drop_last());
    }
}

/// Without arguments the setup fails, and says that there are none.
pub proof fn law_empty_arguments_rejected(
    program: Seq<char>,
    entries: Seq<(Seq<char>, OptionView)>,
)
    ensures
        setup_result(program, Seq::<Seq<char>>::empty(), entries) == Err::<
            (Map<Seq<char>, Occurrences>, Seq<Seq<char>>, Option<Seq<char>>),
            SetupErrorView,
        >(SetupErrorView::EmptyArguments),
{
}

/// Where the first argument is not the marker the setup fails, wherever else
/// the marker may stand.
pub proof fn law_marker_must_lead(
    program: Seq<char>,
    args: Seq<Seq<char>>,
    entries: Seq<(Seq<char>, OptionView)>,
)
    requires
        args.len() > 0,
        args[0] != marker(),
    ensures
        setup_result(program, args, entries) == Err::<
            (Map<Seq<char>, Occurrences>, Seq<Seq<char>>, Option<Seq<char>>),
            SetupErrorView,
        >(SetupErrorView::MissingMarker),
{
}

/// An entry of unknown kind makes the setup fail before any argument is
/// parsed: the failure is never one of parsing, and past the marker and the
/// path it is the schema's own error, whatever the arguments are.
pub proof fn law_unknown_kind_rejected(
    program: Seq<char>,
    args: Seq<Seq<char>>,
    entries: Seq<(Seq<char>, OptionView)>,
    i: int,
)
    requires
        0 <= i < entries.len(),
        GetOptType::of_tag(entries[i].1.get_opt_type) is None,
    ensures
        groups_of(entries) is Err,
        setup_result(program, args, entries) matches Err(e) && !(e is ArgumentParseFailure),
        config_path(args) is Ok ==> setup_result(program, args, entries) == Err::<
            (Map<Seq<char>, Occurrences>, Seq<Seq<char>>, Option<Seq<char>>),
            SetupErrorView,
        >(groups_of(entries)->Err_0),
{
    assert(entries.take(i + 1).last() == entries[i]);
    assert(groups_of(entries.take(i + 1)) is Err);
    lemma_first_error_stands(entries, i + 1);
    lemma_schema_errors(entries);
}

/// A schema is accepted exactly when each of its entries is: when each has a
/// known kind and names that the parser takes.
pub proof fn law_schema_accepted_entry_by_entry(entries: Seq<(Seq<char>, OptionView)>)
    ensures
        groups_of(entries) is Ok <==> forall|i: int|
            0 <= i < entries.len() ==> group_of((#[trigger] entries[i]).0, entries[i].1) is Ok,
    decreases entries.len(),
{
    if entries.len() > 0 {
        let front = entries.drop_last();
        law_schema_accepted_entry_by_entry(front);
        if groups_of(entries) is Ok {
            assert forall|i: int| 0 <= i < entries.len() implies group_of(
                (#[trigger] entries[i]).0,
                entries[i].1,
            ) is Ok by {
                if i < entries.len() - 1 {
                    assert(front[i] == entries[i]);
                }
            }
        }
        if forall|i: int|
            0 <= i < entries.len() ==> group_of((#[trigger] entries[i]).0, entries[i].1) is Ok {
            assert forall|i: int| 0 <= i < front.len() implies group_of(
                (#[trigger] front[i]).0,
                front[i].1,
            ) is Ok by {
                assert(front[i] == entries[i]);
            }
            assert(entries.last() == entries[entries.len() - 1]);
        }
    }
}

/// A schema that is accepted declares the help flag first and then each of
/// its entries, in their order, and nothing else.
pub proof fn law_declares_help_and_entries(entries: Seq<(Seq<char>, OptionView)>)
    requires
        groups_of(entries) is Ok,
    ensures
        groups_of(entries)->Ok_0.len() == entries.len() + 1,
        groups_of(entries)->Ok_0[0] == help_group(),
        forall|i: int|
            0 <= i < entries.len() ==> group_of((#[trigger] entries[i]).0, entries[i].1) == Ok::<
                Group,
                SetupErrorView,
            >(groups_of(entries)->Ok_0[i + 1]),
    decreases entries.len(),
{
    if entries.len() > 0 {
        law_declares_help_and_entries(entries.drop_last());
        let front = groups_of(entries.drop_last())->Ok_0;
        assert forall|i: int| 0 <= i < entries.len() implies group_of(
            (#[trigger] entries[i]).0,
            entries[i].1,
        ) == Ok::<Group, SetupErrorView>(groups_of(entries)->Ok_0[i + 1]) by {
            if i < entries.len() - 1 {
                assert(entries.drop_last()[i] == entries[i]);
                assert(groups_of(entries)->Ok_0[i + 1] == front[i + 1]);
            }
        }
    }
}

} // verus!

use yagetopts::error::{ParseFailure, SetupError};
use yagetopts::schema::{GetOptConfig, GetOptOption};
use yagetopts::setup::{
    getopt_config_path, getopt_options, getopt_outcome, getopt_setup, getopt_usage_brief, Setup,
};

fn option(short_name: &str, long_name: &str, description: &str, kind: &str) -> GetOptOption {
    GetOptOption {
        description: String::from(description),
        long_name: String::from(long_name),
        short_name: String::from(short_name),
        get_opt_type: String::from(kind),
    }
}

fn example_config() -> GetOptConfig {
    let mut config = GetOptConfig::new();
    config.insert(String::from("verbose"), option("v", "verbose", "Say more", "FLAG"));
    config.insert(String::from("port"), option("p", "port", "Port to listen on", "OPT"));
    config
}

fn strings(items: &[&str]) -> Vec<String> {
    items.iter().map(|s| String::from(*s)).collect()
}

fn run(items: &[&str]) -> Result<Setup, SetupError> {
    getopt_setup(&String::from("yagetopts_test"), &strings(items), &example_config())
}

fn getopt_setup_or_panic(program: &String, args: &Vec<String>) -> getopts::Matches {
    match getopt_setup(program, args, &example_config()) {
        Ok(setup) => setup.matches,
        Err(e) => panic!("{}", e.message()),
    }
}

fn failure(result: Result<Setup, SetupError>) -> SetupError {
    match result {
        Ok(_) => panic!("the setup went through"),
        Err(e) => e,
    }
}

#[test]
#[should_panic(expected = "getopt setup has empty program arguments")]
fn setup_empty_args() {
    let program = String::from("yagetopts_test");
    let args: Vec<String> = vec![];

    getopt_setup_or_panic(&program, &args);
}

#[test]
#[should_panic(expected = "--getoptconfig is not the first option from the program arguments")]
fn setup_panic_when_getoptconfig_option_is_not_first_in_args() {
    let program = String::from("yagetopts_test");
    let args = vec![
        String::from("-h"),
        String::from("--getoptconfig"),
        String::from("example_getopt_config.yml"),
    ];

    getopt_setup_or_panic(&program, &args);
}

#[test]
fn help_flag_after_setup() {
    let program = String::from("yagetopts_test");
    let args = vec![
        String::from("--getoptconfig"),
        String::from("example_getopt_config.yml"),
        String::from("-h"),
    ];

    let matches = getopt_setup_or_panic(&program, &args);
    if matches.opt_present("h") {
        assert!(true);
    }
}

#[test]
fn help_flag_is_reported_present() {
    let setup = run(&["--getoptconfig", "example_getopt_config.yml", "-h"]).unwrap();
    assert!(setup.matches.opt_present("h"));
    assert!(setup.matches.opt_present("help"));
    assert!(!setup.matches.opt_present("port"));
    assert!(!setup.matches.opt_present("verbose"));
    assert!(setup.usage.is_some());

    let long = run(&["--getoptconfig", "example_getopt_config.yml", "--help"]).unwrap();
    assert!(long.matches.opt_present("h"));
    assert!(long.usage.is_some());
}

#[test]
fn exactly_the_schema_and_the_help_flag_are_registered() {
    let setup = run(&["--getoptconfig", "example_getopt_config.yml"]).unwrap();
    for name in ["h", "help", "p", "port", "v", "verbose"].iter() {
        assert!(setup.matches.opt_defined(name));
    }
    for name in ["x", "other", "P", "V", ""].iter() {
        assert!(!setup.matches.opt_defined(name));
    }
}

#[test]
fn empty_arguments_are_an_error_value() {
    assert_eq!(failure(run(&[])), SetupError::EmptyArguments);
    assert_eq!(getopt_config_path(&strings(&[])), Err(SetupError::EmptyArguments));
}

#[test]
fn marker_must_come_first() {
    let late = ["-h", "--getoptconfig", "example_getopt_config.yml"];
    assert_eq!(failure(run(&late)), SetupError::MissingMarker);
    assert_eq!(getopt_config_path(&strings(&late)), Err(SetupError::MissingMarker));
    assert_eq!(failure(run(&["--getoptConfig", "x.yml"])), SetupError::MissingMarker);
    assert_eq!(failure(run(&["example_getopt_config.yml"])), SetupError::MissingMarker);
    assert_eq!(failure(run(&[""])), SetupError::MissingMarker);
}

#[test]
fn path_follows_the_marker() {
    assert_eq!(
        getopt_config_path(&strings(&["--getoptconfig", "example_getopt_config.yml", "-h"])),
        Ok(String::from("example_getopt_config.yml"))
    );
    assert_eq!(
        getopt_config_path(&strings(&["--getoptconfig"])),
        Err(SetupError::SchemaFileUnreadable(String::new()))
    );
    assert_eq!(
        failure(run(&["--getoptconfig"])),
        SetupError::SchemaFileUnreadable(String::new())
    );
}

#[test]
fn nothing_is_present_without_further_arguments() {
    let setup = run(&["--getoptconfig", "example_getopt_config.yml"]).unwrap();
    for name in ["h", "help", "p", "port", "v", "verbose"].iter() {
        assert!(!setup.matches.opt_present(name));
    }
    assert_eq!(setup.matches.opt_str("port"), None);
    assert!(setup.matches.free.is_empty());
    assert_eq!(setup.usage, None);
}

#[test]
fn unknown_kind_fails_before_parsing() {
    let mut config = example_config();
    config.insert(String::from("quiet"), option("q", "quiet", "Say less", "BOGUS"));
    let program = String::from("prog");
    let good = strings(&["--getoptconfig", "opts.yml", "-v"]);
    let bad = strings(&["--getoptconfig", "opts.yml", "--nonsense"]);
    let expected = SetupError::UnrecognizedOptionKind(String::from("BOGUS"));
    assert_eq!(failure(getopt_setup(&program, &good, &config)), expected);
    assert_eq!(failure(getopt_setup(&program, &bad, &config)), expected);
    assert!(matches!(getopt_options(&config), Err(SetupError::UnrecognizedOptionKind(_))));
}

#[test]
fn kind_is_case_sensitive_in_the_schema() {
    let mut config = GetOptConfig::new();
    config.insert(String::from("port"), option("p", "port", "", "opt"));
    let args = strings(&["--getoptconfig", "opts.yml"]);
    assert_eq!(
        failure(getopt_setup(&String::from("prog"), &args, &config)),
        SetupError::UnrecognizedOptionKind(String::from("opt"))
    );
}

#[test]
fn first_entry_in_key_order_decides_the_error() {
    let mut config = GetOptConfig::new();
    config.insert(String::from("zeta"), option("z", "zeta", "", "BOGUS"));
    config.insert(String::from("alpha"), option("toolong", "alpha", "", "FLAG"));
    let args = strings(&["--getoptconfig", "opts.yml"]);
    assert_eq!(
        failure(getopt_setup(&String::from("prog"), &args, &config)),
        SetupError::SchemaMalformed(String::from("alpha"))
    );
}

#[test]
fn names_that_the_parser_cannot_take_are_a_malformed_schema() {
    let cases = [("ab", "long"), ("a", "l"), ("", ""), ("\u{e9}", "long")];
    for (short_name, long_name) in cases.iter() {
        let mut config = GetOptConfig::new();
        config.insert(String::from("entry"), option(short_name, long_name, "", "OPT"));
        let args = strings(&["--getoptconfig", "opts.yml"]);
        assert_eq!(
            failure(getopt_setup(&String::from("prog"), &args, &config)),
            SetupError::SchemaMalformed(String::from("entry"))
        );
    }
}

#[test]
fn one_name_is_enough() {
    let mut config = GetOptConfig::new();
    config.insert(String::from("a"), option("a", "", "", "FLAG"));
    config.insert(String::from("b"), option("", "bee", "", "OPT"));
    let args = strings(&["--getoptconfig", "opts.yml", "-a", "--bee", "x"]);
    let setup = getopt_setup(&String::from("prog"), &args, &config).unwrap();
    assert!(setup.matches.opt_present("a"));
    assert_eq!(setup.matches.opt_str("bee"), Some(String::from("x")));
}

#[test]
fn valued_option_gives_back_its_value() {
    let forms: [&[&str]; 5] = [
        &["--port=8080"],
        &["--port", "8080"],
        &["-p", "8080"],
        &["-p8080"],
        &["-vp", "8080"],
    ];
    for form in forms.iter() {
        let mut items = vec!["--getoptconfig", "example_getopt_config.yml"];
        items.extend_from_slice(form);
        let setup = run(&items).unwrap();
        assert_eq!(setup.matches.opt_str("port"), Some(String::from("8080")));
        assert_eq!(setup.matches.opt_str("p"), Some(String::from("8080")));
        assert!(setup.matches.opt_present("port"));
        assert!(setup.matches.free.is_empty());
    }
    let empty = run(&["--getoptconfig", "example_getopt_config.yml", "--port="]).unwrap();
    assert_eq!(empty.matches.opt_str("port"), Some(String::new()));
}

#[test]
fn flags_and_free_arguments() {
    let setup = run(&["--getoptconfig", "example_getopt_config.yml", "in", "-v", "out"]).unwrap();
    assert!(setup.matches.opt_present("verbose"));
    assert!(setup.matches.opt_present("v"));
    assert!(!setup.matches.opt_present("port"));
    assert_eq!(setup.matches.free, vec![String::from("in"), String::from("out")]);
    assert_eq!(setup.usage, None);
}

#[test]
fn marker_and_path_are_not_parsed() {
    let setup = run(&["--getoptconfig", "-v"]).unwrap();
    assert!(!setup.matches.opt_present("v"));
    assert!(setup.matches.free.is_empty());
}

#[test]
fn arguments_that_do_not_fit_are_reported_with_the_program() {
    let program = String::from("yagetopts_test");
    let head = ["--getoptconfig", "example_getopt_config.yml"];
    let cases: [(&[&str], ParseFailure); 5] = [
        (&["-x"], ParseFailure::UnrecognizedOption(String::from("x"))),
        (&["--nonsense"], ParseFailure::UnrecognizedOption(String::from("nonsense"))),
        (&["--port"], ParseFailure::ArgumentMissing(String::from("port"))),
        (&["--verbose=yes"], ParseFailure::UnexpectedArgument(String::from("verbose"))),
        (&["-v", "--verbose"], ParseFailure::OptionDuplicated(String::from("verbose"))),
    ];
    for (tail, reason) in cases.iter() {
        let mut items = head.to_vec();
        items.extend_from_slice(tail);
        assert_eq!(
            failure(run(&items)),
            SetupError::ArgumentParseFailure(program.clone(), reason.clone())
        );
    }
}

#[test]
fn usage_heading() {
    assert_eq!(getopt_usage_brief(&String::from("prog")), "Usage: prog [options]");
    assert_eq!(getopt_usage_brief(&String::new()), "Usage:  [options]");
}

#[test]
fn usage_lists_help_and_then_the_entries_by_key() {
    let setup = run(&["--getoptconfig", "example_getopt_config.yml", "-h"]).unwrap();
    let mut reference = getopts::Options::new();
    reference.optflag("h", "help", "Print help menu.");
    reference.optopt("p", "port", "Port to listen on", "");
    reference.optflag("v", "verbose", "Say more");
    let expected = reference.usage("Usage: yagetopts_test [options]");
    assert_eq!(setup.usage, Some(expected));

    let text = setup.usage.unwrap();
    assert!(text.starts_with("Usage: yagetopts_test [options]\n\nOptions:\n"));
    let help = text.find("--help").unwrap();
    let port = text.find("--port").unwrap();
    let verbose = text.find("--verbose").unwrap();
    assert!(help < port && port < verbose);
    assert!(text.contains("Print help menu."));
}

#[test]
fn options_hold_what_the_schema_declares() {
    let opts = getopt_options(&example_config()).unwrap();
    let mut reference = getopts::Options::new();
    reference.optflag("h", "help", "Print help menu.");
    reference.optopt("p", "port", "Port to listen on", "");
    reference.optflag("v", "verbose", "Say more");
    assert_eq!(opts, reference);

    let bare = getopt_options(&GetOptConfig::new()).unwrap();
    let mut help_only = getopts::Options::new();
    help_only.optflag("h", "help", "Print help menu.");
    assert_eq!(bare, help_only);
}

#[test]
fn outcome_of_a_failure_names_the_program() {
    let opts = getopt_options(&example_config()).unwrap();
    let reason = ParseFailure::ArgumentMissing(String::from("port"));
    let result = getopt_outcome(&String::from("prog"), &opts, Err(reason.clone()));
    assert_eq!(
        failure(result),
        SetupError::ArgumentParseFailure(String::from("prog"), reason)
    );
}

#[test]
fn outcome_of_matches_depends_on_the_help_flag() {
    let program = String::from("prog");
    let opts = getopt_options(&example_config()).unwrap();

    let with_help = opts.parse(["-v", "--help"]).unwrap();
    let setup = getopt_outcome(&program, &opts, Ok(with_help.clone())).unwrap();
    assert_eq!(setup.matches, with_help);
    assert_eq!(setup.usage, Some(opts.usage("Usage: prog [options]")));

    let without = opts.parse(["-v"]).unwrap();
    let setup = getopt_outcome(&program, &opts, Ok(without.clone())).unwrap();
    assert_eq!(setup.matches, without);
    assert_eq!(setup.usage, None);
}

#[test]
fn outcome_without_a_help_flag_among_the_matches() {
    let mut other = getopts::Options::new();
    other.optflag("v", "verbose", "Say more");
    let matches = other.parse(["-v"]).unwrap();
    let opts = getopt_options(&example_config()).unwrap();
    let setup = getopt_outcome(&String::from("prog"), &opts, Ok(matches)).unwrap();
    assert_eq!(setup.usage, None);
}

#[test]
fn built_in_help_comes_before_a_schema_entry_of_the_same_name() {
    let mut config = GetOptConfig::new();
    config.insert(String::from("host"), option("h", "host", "Host name", "OPT"));
    let args = strings(&["--getoptconfig", "opts.yml", "-h", "example.org"]);
    let setup = getopt_setup(&String::from("prog"), &args, &config).unwrap();
    assert!(setup.matches.opt_present("help"));
    assert!(!setup.matches.opt_present("host"));
    assert_eq!(setup.matches.free, vec![String::from("example.org")]);
    assert!(setup.usage.is_some());
}

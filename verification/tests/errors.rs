use yagetopts::error::{ParseFailure, SetupError};

#[test]
fn parse_failure_messages() {
    let name = String::from("port");
    assert_eq!(
        ParseFailure::ArgumentMissing(name.clone()).message(),
        "Argument to option 'port' missing"
    );
    assert_eq!(
        ParseFailure::UnrecognizedOption(name.clone()).message(),
        "Unrecognized option: 'port'"
    );
    assert_eq!(
        ParseFailure::OptionMissing(name.clone()).message(),
        "Required option 'port' missing"
    );
    assert_eq!(
        ParseFailure::OptionDuplicated(name.clone()).message(),
        "Option 'port' given more than once"
    );
    assert_eq!(
        ParseFailure::UnexpectedArgument(name).message(),
        "Option 'port' does not take an argument"
    );
}

#[test]
fn setup_error_messages() {
    assert_eq!(
        SetupError::EmptyArguments.message(),
        "getopt setup has empty program arguments"
    );
    assert_eq!(
        SetupError::MissingMarker.message(),
        "--getoptconfig is not the first option from the program arguments"
    );
    assert_eq!(
        SetupError::SchemaFileUnreadable(String::from("opts.yml")).message(),
        "Could not open file 'opts.yml'"
    );
    assert_eq!(
        SetupError::SchemaMalformed(String::from("port")).message(),
        "Could not read values: port"
    );
    assert_eq!(
        SetupError::UnrecognizedOptionKind(String::from("BOGUS")).message(),
        "unrecognised get opt type 'BOGUS'"
    );
    assert_eq!(
        SetupError::ArgumentParseFailure(
            String::from("prog"),
            ParseFailure::UnrecognizedOption(String::from("x"))
        )
        .message(),
        "Program 'prog' has invalid program arguments: Unrecognized option: 'x'"
    );
}

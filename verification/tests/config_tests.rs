use mgrep::{Config, ConfigError, InputType, Resolution};

fn tokens(words: &[&str]) -> Vec<String> {
    words.iter().map(|w| w.to_string()).collect()
}

// The option to ignore case holds when it is given twice, once by the
// environment and once by the argument.
#[test]
fn double_opposite_case() {
    let args = tokens(&["", "to", "-i", "poem.txt"]);
    let resolution = Config::build(&args, true).unwrap();
    match resolution {
        Resolution::NeedsText { ignore_case, .. } => assert_eq!(true, ignore_case),
        _ => panic!("expected a resolution waiting on the input stream"),
    }
}

// The explicit no-ignore-case flag wins over the environment variable.
#[test]
fn no_ignore_flag_beats_environment() {
    let args = tokens(&["prog", "to", "-ni"]);
    match Config::build(&args, true).unwrap() {
        Resolution::NeedsText { ignore_case, .. } => assert_eq!(false, ignore_case),
        _ => panic!("expected a resolution waiting on the input stream"),
    }
}

// The explicit ignore-case flag turns the insensitive search on when the
// environment variable is unset.
#[test]
fn ignore_flag_without_environment() {
    let args = tokens(&["prog", "to", "-i"]);
    match Config::build(&args, false).unwrap() {
        Resolution::NeedsText { ignore_case, .. } => assert_eq!(true, ignore_case),
        _ => panic!("expected a resolution waiting on the input stream"),
    }
}

// The no-ignore-case flag wins even when the ignore-case flag stands beside it.
#[test]
fn no_ignore_flag_beats_ignore_flag() {
    let args = tokens(&["prog", "to", "-i", "--no-ignore-case"]);
    match Config::build(&args, true).unwrap() {
        Resolution::NeedsText { ignore_case, .. } => assert_eq!(false, ignore_case),
        _ => panic!("expected a resolution waiting on the input stream"),
    }
}

// With no flag at all, a defined environment variable decides.
#[test]
fn environment_decides_without_flags() {
    let args = tokens(&["prog", "to"]);
    match Config::build(&args, true).unwrap() {
        Resolution::NeedsText { ignore_case, .. } => assert_eq!(true, ignore_case),
        _ => panic!("expected a resolution waiting on the input stream"),
    }
    match Config::build(&args, false).unwrap() {
        Resolution::NeedsText { ignore_case, .. } => assert_eq!(false, ignore_case),
        _ => panic!("expected a resolution waiting on the input stream"),
    }
}

// Without a query token the build fails.
#[test]
fn missing_query() {
    let r = Config::build(&tokens(&["prog"]), false);
    assert!(matches!(r, Err(ConfigError::MissingQuery)));
    assert_eq!(
        "Didn't get a query string",
        ConfigError::MissingQuery.message()
    );
    let r = Config::build(&tokens(&[]), false);
    assert!(matches!(r, Err(ConfigError::MissingQuery)));
}

// A help token in the query position resolves to a help request.
#[test]
fn help_request() {
    for flag in ["-h", "--help"] {
        let r = Config::build(&tokens(&["prog", flag]), false).unwrap();
        assert!(matches!(r, Resolution::Help));
    }
}

// The first token holding a path separator names the input file.
#[test]
fn file_path_selection() {
    let args = tokens(&["prog", "query", "-i", "dir/file.txt", "other/one.txt"]);
    match Config::build(&args, false).unwrap() {
        Resolution::Ready(c) => {
            assert_eq!("query", c.query);
            assert!(c.ignore_case);
            assert!(c.input == InputType::FilePath("dir/file.txt".to_string()));
        }
        _ => panic!("expected a complete configuration"),
    }
}

// A backslash counts as a path separator too.
#[test]
fn backslash_is_path_separator() {
    let args = tokens(&["prog", "query", "dir\\file.txt"]);
    match Config::build(&args, false).unwrap() {
        Resolution::Ready(c) => {
            assert!(c.input == InputType::FilePath("dir\\file.txt".to_string()));
        }
        _ => panic!("expected a complete configuration"),
    }
}

// The query token itself is scanned for a path separator, so a path-like
// query doubles as the input file.
#[test]
fn path_like_query_names_the_file() {
    let args = tokens(&["prog", "a/b"]);
    match Config::build(&args, false).unwrap() {
        Resolution::Ready(c) => {
            assert_eq!("a/b", c.query);
            assert!(c.input == InputType::FilePath("a/b".to_string()));
        }
        _ => panic!("expected a complete configuration"),
    }
}

// Completing a resolution with literal text strips one pair of outermost
// double quotes, and only one.
#[test]
fn literal_text_quote_stripping() {
    let cases = [
        ("\"hello\"", "hello"),
        ("hello", "hello"),
        ("\"hello", "hello"),
        ("hello\"", "hello"),
        ("\"\"hello\"\"", "\"hello\""),
        ("\"", ""),
        ("", ""),
    ];
    for (raw, expected) in cases {
        let c = Config::with_literal("q".to_string(), false, raw);
        assert_eq!("q", c.query);
        assert!(c.input == InputType::LiteralInput(expected.to_string()));
    }
}

// The help message names the recognized flags and the environment variable.
#[test]
fn help_message_content() {
    let help = Config::help_message();
    assert!(help.starts_with("Usage:"));
    assert!(help.contains("-i, --ignore-case"));
    assert!(help.contains("-ni, --no-ignore-case"));
    assert!(help.contains("-h, --help"));
    assert!(help.contains("IGNORE_CASE"));
}

// Equality on input sources compares the variant and the held text.
#[test]
fn input_type_equality() {
    assert!(InputType::FilePath("a".to_string()) == InputType::FilePath("a".to_string()));
    assert!(InputType::FilePath("a".to_string()) != InputType::FilePath("b".to_string()));
    assert!(InputType::FilePath("a".to_string()) != InputType::LiteralInput("a".to_string()));
}

//! The configuration resolver.
//!
//! Raw command-line tokens and the state of the `IGNORE_CASE` environment
//! variable are resolved into a search configuration. The first token (the
//! program name) is discarded; the next token is the query, or, when it is
//! a help token, the resolution is a help request. Case sensitivity follows
//! a fixed precedence: an explicit no-ignore-case flag beats an explicit
//! ignore-case flag, which beats the environment variable. The first token
//! holding a path separator names the input file; when there is none, the
//! text must be read from the standard input stream by the caller and
//! handed back, with one pair of outermost double quotes stripped.

use vstd::prelude::*;
use vstd::string::StrSliceExecFns;
use vstd::string::StringExecFns;

use crate::chars::str_contains_char;
use crate::chars::str_eq;

verus! {

/// Where the text to search comes from: a named file, or literal text that
/// was read from the standard input stream.
pub enum InputType {
    FilePath(String),
    LiteralInput(String),
}

impl PartialEq for InputType {
    fn eq(&self, other: &InputType) -> (r: bool) {
        match (self, other) {
            (InputType::FilePath(a), InputType::FilePath(b)) => str_eq(a.as_str(), b.as_str()),
            (InputType::LiteralInput(a), InputType::LiteralInput(b)) => str_eq(
                a.as_str(),
                b.as_str(),
            ),
            _ => false,
        }
    }
}

impl vstd::std_specs::cmp::PartialEqSpecImpl for InputType {
    open spec fn obeys_eq_spec() -> bool {
        true
    }

    open spec fn eq_spec(&self, other: &InputType) -> bool {
        match (self, other) {
            (InputType::FilePath(a), InputType::FilePath(b)) => a@ == b@,
            (InputType::LiteralInput(a), InputType::LiteralInput(b)) => a@ == b@,
            _ => false,
        }
    }
}

/// A resolved search configuration: the query, the case-sensitivity choice
/// and the input source. Immutable once built.
pub struct Config {
    pub query: String,
    pub ignore_case: bool,
    pub input: InputType,
}

/// Why a configuration could not be built.
#[derive(Debug)]
pub enum ConfigError {
    /// No query token followed the program name.
    MissingQuery,
}

impl ConfigError {
    /// The human-readable description of the error.
    pub fn message(&self) -> (r: String)
        ensures
            r@ == "Didn't get a query string"@,
    {
        String::from_str("Didn't get a query string")
    }
}

/// The outcome of resolving the tokens: a help request, a configuration
/// ready to run, or a configuration that still needs the literal text that
/// the caller must read from the standard input stream.
pub enum Resolution {
    /// The query token asked for help; no search follows.
    Help,
    /// The input is a named file; the configuration is complete.
    Ready(Config),
    /// No token names a file: the caller reads the standard input stream to
    /// its end and completes the configuration with `Config::with_literal`.
    NeedsText { query: String, ignore_case: bool },
}

/// The token asks to ignore case.
pub open spec fn is_ignore_flag(s: Seq<char>) -> bool {
    s == "-i"@ || s == "--ignore-case"@
}

/// The token asks not to ignore case.
pub open spec fn is_no_ignore_flag(s: Seq<char>) -> bool {
    s == "-ni"@ || s == "--no-ignore-case"@
}

/// The token asks for the help message.
pub open spec fn is_help_token(s: Seq<char>) -> bool {
    s == "-h"@ || s == "--help"@
}

/// The token looks like a file path: it holds a path separator.
pub open spec fn is_path_token(s: Seq<char>) -> bool {
    s.contains('/') || s.contains('\\')
}

/// The resolved case choice: an explicit no-ignore-case flag wins over an
/// explicit ignore-case flag, which wins over the environment variable.
pub open spec fn resolved_ignore_case(toks: Seq<Seq<char>>, env_set: bool) -> bool {
    if exists|i: int| 0 <= i < toks.len() && is_no_ignore_flag(toks[i]) {
        false
    } else if exists|i: int| 0 <= i < toks.len() && is_ignore_flag(toks[i]) {
        true
    } else {
        env_set
    }
}

/// The first token that looks like a file path, if any.
pub open spec fn first_path_token(toks: Seq<Seq<char>>) -> Option<Seq<char>>
    decreases toks.len(),
{
    if toks.len() == 0 {
        None
    } else if is_path_token(toks[0]) {
        Some(toks[0])
    } else {
        first_path_token(toks.drop_first())
    }
}

/// The text with one pair of outermost double quotes removed: one leading
/// quote is dropped if present, then one trailing quote if present.
pub open spec fn strip_outer_quotes(s: Seq<char>) -> Seq<char> {
    let a = if s.len() > 0 && s[0] == '"' {
        s.drop_first()
    } else {
        s
    };
    if a.len() > 0 && a.last() == '"' {
        a.drop_last()
    } else {
        a
    }
}

proof fn lemma_first_path_token_skip(toks: Seq<Seq<char>>, k: int)
    requires
        0 <= k <= toks.len(),
        forall|i: int| 0 <= i < k ==> !is_path_token(toks[i]),
    ensures
        first_path_token(toks) == first_path_token(toks.skip(k)),
    decreases k,
{
    if k > 0 {
        assert(!is_path_token(toks[0]));
        assert(toks.len() > 0);
        lemma_first_path_token_skip(toks.drop_first(), k - 1);
        assert(toks.drop_first().skip(k - 1) =~= toks.skip(k));
    } else {
        assert(toks.skip(0) =~= toks);
    }
}

impl Config {
    /// Scans the tokens after the program name for the case flags and
    /// resolves the case choice against the environment state.
    fn scan_ignore_case(args: &Vec<String>, env_set: bool) -> (r: bool)
        requires
            args@.len() >= 1,
        ensures
            r == resolved_ignore_case(args.deep_view().skip(1), env_set),
    {
        let ghost rest = args.deep_view().skip(1);
        let n = args.len();
        let mut has_ignore = false;
        let mut has_no_ignore = false;
        let mut idx: usize = 1;
        while idx < n
            invariant
                1 <= idx <= n,
                n == args@.len(),
                rest == args.deep_view().skip(1),
                rest.len() == n - 1,
                has_no_ignore == exists|i: int|
                    0 <= i < idx - 1 && is_no_ignore_flag(#[trigger] rest[i]),
                has_ignore == exists|i: int| 0 <= i < idx - 1 && is_ignore_flag(#[trigger] rest[i]),
            decreases n - idx,
        {
            let a = args[idx].as_str();
            assert(a@ == rest[idx - 1]);
            if str_eq(a, "-i") || str_eq(a, "--ignore-case") {
                has_ignore = true;
            }
            if str_eq(a, "-ni") || str_eq(a, "--no-ignore-case") {
                has_no_ignore = true;
            }
            idx = idx + 1;
        }
        if has_no_ignore {
            false
        } else if has_ignore {
            true
        } else {
            env_set
        }
    }

    /// Finds the first token after the program name that holds a path
    /// separator, and returns a copy of it.
    fn find_path(args: &Vec<String>) -> (r: Option<String>)
        requires
            args@.len() >= 1,
        ensures
            match first_path_token(args.deep_view().skip(1)) {
                Some(p) => r matches Some(f) && f@ == p,
                None => r is None,
            },
    {
        let ghost rest = args.deep_view().skip(1);
        let n = args.len();
        let mut idx: usize = 1;
        while idx < n
            invariant
                1 <= idx <= n,
                n == args@.len(),
                rest == args.deep_view().skip(1),
                rest.len() == n - 1,
                forall|i: int| 0 <= i < idx - 1 ==> !is_path_token(#[trigger] rest[i]),
            decreases n - idx,
        {
            let a = args[idx].as_str();
            assert(a@ == rest[idx - 1]);
            if str_contains_char(a, '/') || str_contains_char(a, '\\') {
                proof {
                    lemma_first_path_token_skip(rest, idx - 1);
                    assert(rest.skip(idx - 1)[0] == rest[idx - 1]);
                    assert(first_path_token(rest.skip(idx - 1)) == Some(rest[idx - 1]));
                }
                return Some(args[idx].clone());
            }
            idx = idx + 1;
        }
        proof {
            lemma_first_path_token_skip(rest, n - 1);
            assert(rest.skip(n - 1) =~= Seq::<Seq<char>>::empty());
        }
        None
    }

    /// Resolves raw command-line tokens into a configuration. The first
    /// token is the program name and is discarded; `env_set` says whether
    /// the `IGNORE_CASE` environment variable is defined at all. Fails with
    /// `MissingQuery` exactly when no token follows the program name; a
    /// help token in the query position yields a help request.
    pub fn build(args: &Vec<String>, env_set: bool) -> (r: Result<Resolution, ConfigError>)
        ensures
            r == Err::<Resolution, ConfigError>(ConfigError::MissingQuery) <==> args.deep_view().len() <= 1,
            args.deep_view().len() >= 2 ==> {
                let toks = args.deep_view();
                let rest = toks.skip(1);
                &&& (r == Ok::<Resolution, ConfigError>(Resolution::Help) <==> is_help_token(
                    toks[1],
                ))
                &&& !is_help_token(toks[1]) ==> match first_path_token(rest) {
                    Some(p) => (r matches Ok(res) && res matches Resolution::Ready(c)
                        && c.query@ == toks[1] && c.ignore_case == resolved_ignore_case(
                        rest,
                        env_set,
                    ) && (c.input matches InputType::FilePath(f) && f@ == p)),
                    None => (r matches Ok(res) && (res matches Resolution::NeedsText {
                        query,
                        ignore_case,
                    } && query@ == toks[1] && ignore_case == resolved_ignore_case(
                        rest,
                        env_set,
                    ))),
                }
            },
    {
        if args.len() <= 1 {
            return Err(ConfigError::MissingQuery);
        }
        let query = args[1].as_str();
        if str_eq(query, "-h") || str_eq(query, "--help") {
            return Ok(Resolution::Help);
        }
        let ignore_case = Self::scan_ignore_case(args, env_set);
        match Self::find_path(args) {
            Some(path) => Ok(
                Resolution::Ready(
                    Config {
                        query: args[1].clone(),
                        ignore_case,
                        input: InputType::FilePath(path),
                    },
                ),
            ),
            None => Ok(Resolution::NeedsText { query: args[1].clone(), ignore_case }),
        }
    }

    /// Completes a `NeedsText` resolution: wraps the text read from the
    /// standard input stream, with one pair of outermost double quotes
    /// stripped, as the literal input of a configuration.
    pub fn with_literal(query: String, ignore_case: bool, text: &str) -> (c: Config)
        ensures
            c.query == query,
            c.ignore_case == ignore_case,
            c.input matches InputType::LiteralInput(t) && t@ == strip_outer_quotes(text@),
    {
        let n = text.unicode_len();
        let start: usize = if n > 0 && text.get_char(0) == '"' {
            1
        } else {
            0
        };
        let end: usize = if n > start && text.get_char(n - 1) == '"' {
            n - 1
        } else {
            n
        };
        let inner = text.substring_char(start, end);
        proof {
            assert(inner@ =~= strip_outer_quotes(text@));
        }
        Config { query, ignore_case, input: InputType::LiteralInput(String::from_str(inner)) }
    }

    /// The fixed usage text shown for a help request.
    pub fn help_message() -> (r: String)
        ensures
            r@ == help_text(),
    {
        String::from_str(
            "Usage:
        File Path:
        cargo run -- [\"QUERY\"] [PATH] [EXPRESSION]

        String Literal One Line:
        echo \"The literal string go here\" | cargo run -- [\"QUERY\"] [EXPRESSION]

        String Literal Multiple Lines:
        cat << EOF | cargo run -- [\"QUERY\"] [EXPRESSION]
        The literal string
        go
        here
        EOF

        Help:
        cargo run -- [EXPRESSION]

        Expressions:
        -i, --ignore-case        ignore case sensitive in search
        -ni, --no-ignore-case    don't ignore case sensitive in search
        -h, --help               display this help and exit
        
        Environment Variable Usage:
        IGNORE_CASE=1            ignore case sensitive in search",
        )
    }
}

/// The usage text, as the help message states it.
pub open spec fn help_text() -> Seq<char> {
    "Usage:
        File Path:
        cargo run -- [\"QUERY\"] [PATH] [EXPRESSION]

        String Literal One Line:
        echo \"The literal string go here\" | cargo run -- [\"QUERY\"] [EXPRESSION]

        String Literal Multiple Lines:
        cat << EOF | cargo run -- [\"QUERY\"] [EXPRESSION]
        The literal string
        go
        here
        EOF

        Help:
        cargo run -- [EXPRESSION]

        Expressions:
        -i, --ignore-case        ignore case sensitive in search
        -ni, --no-ignore-case    don't ignore case sensitive in search
        -h, --help               display this help and exit
        
        Environment Variable Usage:
        IGNORE_CASE=1            ignore case sensitive in search"@
}

} // verus!

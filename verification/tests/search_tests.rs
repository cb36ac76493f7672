use mgrep::search;

// Searching is case-sensitive by default: a query in lowercase does not
// match a capitalized occurrence.
#[test]
fn case_sensitive() {
    let ignore_case = false;
    let query = "duct";
    let contents = "\
Rust:
safe, fast, productive.
Pick three.
Duct tape.";

    assert_eq!(
        vec!["safe, fast, productive."],
        search(query, ignore_case, contents)
    );
}

// Case-insensitive search matches any casing and returns the lines in
// their original casing.
#[test]
fn case_insensitive() {
    let ignore_case = true;
    let query = "rUsT";
    let contents = "\
Rust:
safe, fast, productive.
Pick three.
Trust me.";

    assert_eq!(
        vec!["Rust:", "Trust me."],
        search(query, ignore_case, contents)
    );
}

// An empty query matches every line.
#[test]
fn empty_query_matches_every_line() {
    assert_eq!(vec!["a", "b"], search("", false, "a\nb"));
}

// An empty text has no lines, so nothing matches.
#[test]
fn empty_text_has_no_lines() {
    assert!(search("", false, "").is_empty());
    assert!(search("a", true, "").is_empty());
}

// A final newline does not open an empty last line, and a carriage return
// directly before a newline is dropped from its line.
#[test]
fn line_ending_handling() {
    assert_eq!(vec!["ab"], search("b", false, "ab\r\ncd\n"));
    assert_eq!(vec!["a", "a"], search("a", false, "a\r\nb\na"));
}

// A carriage return not followed by a newline stays inside its line.
#[test]
fn bare_carriage_return_stays() {
    assert_eq!(vec!["x\ry"], search("y", false, "x\ry"));
}

// Every line of a case-sensitive result also stands in the case-insensitive
// result for the same query and text.
#[test]
fn insensitive_result_is_superset() {
    let text = "Rust:\nsafe, fast, productive.\nPick three.\nTrust me.\nrust belt";
    for query in ["rust", "T", "", "productive."] {
        let sensitive = search(query, false, text);
        let insensitive = search(query, true, text);
        for line in &sensitive {
            assert!(insensitive.contains(line));
        }
    }
}

// Matching lines keep their original document order and casing whatever the
// case choice is.
#[test]
fn results_keep_document_order_and_casing() {
    let text = "DELTA\nalpha\nDelta\ngamma delta";
    assert_eq!(
        vec!["DELTA", "Delta", "gamma delta"],
        search("delta", true, text)
    );
    assert_eq!(vec!["gamma delta"], search("delta", false, text));
}

// A line holding several occurrences is returned once.
#[test]
fn line_with_repeats_returned_once() {
    assert_eq!(vec!["dodo dodo"], search("dodo", false, "dodo dodo"));
}

// The canonical fold is the Unicode lowercase mapping, so case-insensitive
// matching reaches beyond the basic letters; a fold that handed the text
// back unchanged would miss every one of these lines.
#[test]
fn unicode_case_insensitive_search() {
    // É matches é and only when case is ignored.
    assert_eq!(vec!["\u{e9}"], search("\u{c9}", true, "\u{e9}\nx"));
    assert!(search("\u{c9}", false, "\u{e9}\nx").is_empty());
    // a lowercase query finds an uppercase accented line.
    assert_eq!(
        vec!["\u{c9}CLAIR"],
        search("\u{e9}clair", true, "\u{c9}CLAIR\nnone here")
    );
}

// The Unicode fold is not a character-for-character map: a capital sigma
// folds by its position in the word, so a line the case-sensitive search
// finds can be missing from the case-insensitive result.
#[test]
fn final_sigma_escapes_the_insensitive_search() {
    let query = "\u{391}\u{3a3}"; // capital alpha, capital sigma
    let text = "\u{3a7}\u{391}\u{3a3}\u{3a7}"; // chi, alpha, sigma, chi
    assert_eq!(vec![text], search(query, false, text));
    assert!(search(query, true, text).is_empty());
}

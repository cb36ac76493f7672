use mgrep::render;

const START: &str = "\x1b[31m";
const END: &str = "\x1b[0m";

// Every occurrence of the query is wrapped in the highlight markers and the
// rendered line ends with a line break.
#[test]
fn highlights_every_occurrence() {
    let out = render("du", false, "duct duct");
    assert_eq!(format!("{START}du{END}ct {START}du{END}ct\n"), out);
}

// The matched span is emitted in its original casing even when the
// comparison folds case.
#[test]
fn highlights_keep_original_casing() {
    let out = render("rust", true, "Rust or TRUSTY");
    assert_eq!(format!("{START}Rust{END} or T{START}RUST{END}Y\n"), out);
}

// A line without an occurrence is emitted verbatim.
#[test]
fn no_occurrence_renders_verbatim() {
    assert_eq!("plain text\n", render("query", false, "plain text"));
    assert_eq!("Duct\n", render("duct", false, "Duct"));
}

// An empty query counts as having no occurrence: no markers, no loop.
#[test]
fn empty_query_renders_verbatim() {
    assert_eq!("abc\n", render("", false, "abc"));
    assert_eq!("abc\n", render("", true, "abc"));
    assert_eq!("\n", render("", false, ""));
}

// Occurrences found through the case fold are sliced from the original
// line, never from the folded form.
#[test]
fn overlap_advances_past_each_match() {
    let out = render("aa", false, "aaa");
    assert_eq!(format!("{START}aa{END}a\n"), out);
}

// The canonical fold is the Unicode lowercase mapping, so case-insensitive
// highlighting reaches beyond the basic letters.
#[test]
fn unicode_fold_highlights() {
    assert_eq!(
        format!("{START}\u{e9}{END}\n"),
        render("\u{c9}", true, "\u{e9}")
    );
    assert_eq!(
        format!("caf{START}\u{c9}{END}\n"),
        render("\u{e9}", true, "caf\u{c9}")
    );
}

// Highlighting assumes the fold keeps character counts; where folding
// changes a length, the line is emitted verbatim without markers.
#[test]
fn fold_changing_length_renders_verbatim() {
    // A dotted capital I lowercases to two characters, so the folded
    // positions no longer name spans of the original line.
    assert_eq!(
        "\u{130}stanbul\n",
        render("\u{130}", true, "\u{130}stanbul")
    );
}

// Stripping all highlight markers from the rendered line reconstructs the
// line plus one trailing line break.
#[test]
fn strip_markers_round_trip() {
    let cases = [
        ("duct", false, "Duct tape duct."),
        ("rust", true, "Trust the Rust crust"),
        ("a", false, "banana"),
        ("zzz", false, "no match here"),
        ("", true, "unchanged"),
    ];
    for (query, ignore_case, line) in cases {
        let out = render(query, ignore_case, line);
        let stripped = out.replace(START, "").replace(END, "");
        assert_eq!(format!("{line}\n"), stripped);
    }
}

use ytmux::{bare_word, escape, quotable, strip_query, MAX_NAME_CHARS};

fn esc(s: &str) -> String {
    escape(s.to_string())
}

#[test]
fn escape_replaces_separators_and_drops_forbidden() {
    assert_eq!(esc("AC/DC"), "AC-DC");
    assert_eq!(esc("a/b\\c"), "a-b-c");
    assert_eq!(esc("  what? <is> \"this\": a|b*  "), "what is this ab");
    assert_eq!(esc("tab\there\n"), "tabhere");
    assert_eq!(esc("$(rm -rf x) `id`"), "(rm -rf x) id");
    assert_eq!(esc("Song (Live) [HD] - Band"), "Song (Live) [HD] - Band");
    assert_eq!(esc("Ünïcode ok"), "Ünïcode ok");
}

#[test]
fn escape_trims_spaces() {
    assert_eq!(esc("  My Video  "), "My Video");
    assert_eq!(esc("   "), "");
    assert_eq!(esc(""), "");
    assert_eq!(esc("\u{3000}"), "");
    assert_eq!(esc("\u{a0}x y\u{2003}\u{85}"), "x y");
    for s in ["\u{1680}a\u{205f}", "\u{2028} b \u{2029}", "\u{202f}c\u{200a}"].iter() {
        let r = esc(s);
        assert_eq!(r.trim(), r);
    }
}

#[test]
fn bare_word_accepts_plain_ids_only() {
    assert!(bare_word("137"));
    assert!(bare_word("hls-1080p"));
    assert!(bare_word("dash_v.1+a=2"));
    assert!(!bare_word(""));
    assert!(!bare_word("13 7"));
    assert!(!bare_word("a;b"));
    assert!(!bare_word("a\"b"));
    assert!(!bare_word("$x"));
    assert!(!bare_word("(x)"));
}

#[test]
fn escape_caps_length() {
    let long: String = "x".repeat(MAX_NAME_CHARS + 50);
    assert_eq!(escape(long).chars().count(), MAX_NAME_CHARS);
    let mut spaced = "y".repeat(MAX_NAME_CHARS - 1);
    spaced.push_str(" z");
    assert_eq!(escape(spaced), "y".repeat(MAX_NAME_CHARS - 1));
}

#[test]
fn escape_is_idempotent() {
    let samples = [
        "  My Video / Part (1) ?  ",
        "a\\b:c",
        "a-b",
        "",
        "\t x \t",
        "already fine",
    ];
    for s in samples.iter() {
        let once = esc(s);
        assert_eq!(escape(once.clone()), once);
    }
    let mut spaced = "y".repeat(MAX_NAME_CHARS - 1);
    spaced.push_str(" z");
    let once = escape(spaced);
    assert_eq!(escape(once.clone()), once);
}

#[test]
fn quotable_rejects_shell_specials() {
    assert!(quotable("https://youtu.be/abc?v=1"));
    assert!(quotable(""));
    assert!(!quotable("a\"b"));
    assert!(!quotable("$HOME"));
    assert!(!quotable("`id`"));
    assert!(!quotable("a\\b"));
}

#[test]
fn strip_query_cuts_at_first_ampersand() {
    assert_eq!(
        strip_query("https://www.youtube.com/watch?v=abc&list=xyz&t=3"),
        "https://www.youtube.com/watch?v=abc"
    );
    assert_eq!(strip_query("https://youtu.be/abc"), "https://youtu.be/abc");
    assert_eq!(strip_query("&rest"), "");
}

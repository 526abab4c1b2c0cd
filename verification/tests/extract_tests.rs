use ulp_extractor::extract::{
    cut_fixed, cut_generic, cut_once, extract, render, ExtractionMode, ParsedRecord,
};

fn chars(s: &str) -> Vec<char> {
    s.chars().collect()
}

fn record(user: &str, pass: &str) -> ParsedRecord {
    ParsedRecord { user: user.to_string(), pass: pass.to_string() }
}

#[test]
fn three_fields_are_cut_at_the_last_two_colons() {
    let line = "http://site.com:alice.smith:Passw0rd!";
    assert_eq!(
        extract(line, ExtractionMode::FixedThreeField, false),
        Some(record("alice.smith", "Passw0rd!"))
    );
}

#[test]
fn three_fields_with_dots_stripped() {
    let line = "http://site.com:alice.smith:Passw0rd!";
    assert_eq!(
        extract(line, ExtractionMode::FixedThreeField, true),
        Some(record("alicesmith", "Passw0rd!"))
    );
}

#[test]
fn dots_stay_in_the_password() {
    assert_eq!(
        extract("src:a.b:p.q.r", ExtractionMode::FixedThreeField, true),
        Some(record("ab", "p.q.r"))
    );
    assert_eq!(
        extract("src:a.b:p.q.r", ExtractionMode::GenericSeparator, true),
        Some(record("ab", "p.q.r"))
    );
}

#[test]
fn three_fields_need_three_parts_that_hold_something() {
    let m = ExtractionMode::FixedThreeField;
    assert_eq!(extract("", m, false), None);
    assert_eq!(extract("nothing here", m, false), None);
    assert_eq!(extract("user:pass", m, false), None);
    assert_eq!(extract(":user:pass", m, false), None);
    assert_eq!(extract("src::pass", m, false), None);
    assert_eq!(extract("src:user:", m, false), None);
    assert_eq!(extract("::", m, false), None);
    assert_eq!(extract("a:b:c", m, false), Some(record("b", "c")));
}

#[test]
fn three_fields_ignore_other_separators() {
    let m = ExtractionMode::FixedThreeField;
    assert_eq!(extract("src|user|pass", m, false), None);
    assert_eq!(extract("src;user;pass", m, false), None);
    assert_eq!(extract("s|x:u;v:p|q", m, false), Some(record("u;v", "p|q")));
}

#[test]
fn both_parts_are_trimmed() {
    assert_eq!(
        extract("src: \talice \t:  secret \r", ExtractionMode::FixedThreeField, false),
        Some(record("alice", "secret"))
    );
    assert_eq!(
        extract("src|\u{a0}alice\u{3000}|\u{2003}secret\u{85}", ExtractionMode::GenericSeparator, false),
        Some(record("alice", "secret"))
    );
    assert_eq!(
        extract("src: . alice :pw", ExtractionMode::FixedThreeField, true),
        Some(record("alice", "pw"))
    );
    assert_eq!(
        extract("src:   :pw", ExtractionMode::FixedThreeField, false),
        Some(record("", "pw"))
    );
}

#[test]
fn generic_split_prefers_the_colon() {
    let m = ExtractionMode::GenericSeparator;
    assert_eq!(extract("src:user:pass", m, false), Some(record("user", "pass")));
    assert_eq!(extract("a|b:c:d|e", m, false), Some(record("c", "d|e")));
    assert_eq!(
        extract("http://site.com:alice.smith:Passw0rd!", m, false),
        Some(record("//site.com", "alice.smith:Passw0rd!"))
    );
}

#[test]
fn generic_split_looks_for_the_separator_again_in_the_rest() {
    let m = ExtractionMode::GenericSeparator;
    assert_eq!(extract("src:user|pass", m, false), Some(record("user", "pass")));
    assert_eq!(extract("src:us;er|pass", m, false), Some(record("us;er", "pass")));
    assert_eq!(extract("src|user;pass", m, false), Some(record("user", "pass")));
    assert_eq!(extract("src;user;pass", m, false), Some(record("user", "pass")));
    assert_eq!(extract("src|user|pa|ss", m, false), Some(record("user", "pa|ss")));
}

#[test]
fn generic_split_needs_two_separators() {
    let m = ExtractionMode::GenericSeparator;
    assert_eq!(extract("user:pass", m, false), None);
    assert_eq!(extract("user|pass", m, false), None);
    assert_eq!(extract("user;pass", m, false), None);
    assert_eq!(extract("::", m, false), Some(record("", "")));
    assert_eq!(extract(":", m, false), None);
}

#[test]
fn lines_without_separator_give_nothing() {
    for line in ["", "plain text", "user pass", "a,b,c", "tab\tseparated\tline", "a/b/c", "é"] {
        assert_eq!(extract(line, ExtractionMode::GenericSeparator, false), None);
        assert_eq!(extract(line, ExtractionMode::FixedThreeField, false), None);
        assert_eq!(extract(line, ExtractionMode::GenericSeparator, true), None);
        assert_eq!(extract(line, ExtractionMode::FixedThreeField, true), None);
    }
}

#[test]
fn cut_once_splits_at_the_first_occurrence() {
    assert_eq!(cut_once(&chars("a:b:c")), Some((chars("a"), chars("b:c"))));
    assert_eq!(cut_once(&chars("a|b:c")), Some((chars("a|b"), chars("c"))));
    assert_eq!(cut_once(&chars("a;b|c")), Some((chars("a;b"), chars("c"))));
    assert_eq!(cut_once(&chars("a;b;c")), Some((chars("a"), chars("b;c"))));
    assert_eq!(cut_once(&chars("abc")), None);
    assert_eq!(cut_once(&chars(":")), Some((chars(""), chars(""))));
}

#[test]
fn cut_helpers_keep_the_parts_untrimmed() {
    assert_eq!(cut_generic(&chars("s: u : p ")), Some((chars(" u "), chars(" p "))));
    assert_eq!(cut_fixed(&chars("s: u : p ")), Some((chars(" u "), chars(" p "))));
    assert_eq!(cut_fixed(&chars("a:b:c:d")), Some((chars("c"), chars("d"))));
}

#[test]
fn record_is_rendered_with_a_colon() {
    assert_eq!(render(&record("alice", "secret"), false), "alice:secret");
    assert_eq!(render(&record("", ""), false), ":");
    assert_eq!(render(&record("a:b", "c:d"), false), "a:b:c:d");
}

#[test]
fn record_is_rendered_as_password_alone() {
    assert_eq!(render(&record("alice", "secret"), true), "secret");
    assert_eq!(render(&record("alice", ""), true), "");
}

use secret_lookup::error::Error;
use secret_lookup::parse::{parse_entry, parse_props};

fn s(text: &str) -> String {
    text.to_owned()
}

#[test]
fn every_entry_with_separator_parses() {
    let m = parse_props(vec![s("service=foo"), s("user=bar")]).unwrap();
    assert_eq!(m.len(), 2);
    assert_eq!(m.get(&s("service")), Some(&s("foo")));
    assert_eq!(m.get(&s("user")), Some(&s("bar")));
}

#[test]
fn entry_without_separator_is_rejected() {
    let e = parse_props(vec![s("service")]).unwrap_err();
    assert_eq!(e, Error::MissingAssignment);
    assert_eq!(e.message(), "Missing key/value assignment");
}

#[test]
fn one_bad_entry_rejects_the_whole_list() {
    let e = parse_props(vec![s("service=foo"), s("user")]).unwrap_err();
    assert_eq!(e, Error::MissingAssignment);
}

#[test]
fn empty_list_parses_to_empty_mapping() {
    let m = parse_props(Vec::new()).unwrap();
    assert_eq!(m.len(), 0);
}

#[test]
fn size_is_the_number_of_distinct_keys() {
    let m = parse_props(vec![s("a=1"), s("b=2"), s("a=3")]).unwrap();
    assert_eq!(m.len(), 2);
    assert_eq!(m.get(&s("a")), Some(&s("3")));
    assert_eq!(m.get(&s("b")), Some(&s("2")));
}

#[test]
fn later_duplicate_key_wins() {
    let m = parse_props(vec![s("a=1"), s("a=2")]).unwrap();
    assert_eq!(m.len(), 1);
    assert_eq!(m.get(&s("a")), Some(&s("2")));
}

#[test]
fn extra_separator_pieces_are_ignored() {
    let m = parse_props(vec![s("a=1=2")]).unwrap();
    assert_eq!(m.len(), 1);
    assert_eq!(m.get(&s("a")), Some(&s("1")));
}

#[test]
fn lone_separator_gives_empty_key_and_value() {
    let m = parse_props(vec![s("=")]).unwrap();
    assert_eq!(m.len(), 1);
    assert_eq!(m.get(&s("")), Some(&s("")));
}

#[test]
fn empty_value_and_empty_key_are_kept() {
    let m = parse_props(vec![s("a="), s("=b")]).unwrap();
    assert_eq!(m.len(), 2);
    assert_eq!(m.get(&s("a")), Some(&s("")));
    assert_eq!(m.get(&s("")), Some(&s("b")));
}

#[test]
fn non_ascii_entries_parse() {
    let m = parse_props(vec![s("cl\u{e9}=caf\u{e9}"), s("gr\u{fc}\u{df}e=\u{4e16}\u{754c}")])
        .unwrap();
    assert_eq!(m.len(), 2);
    assert_eq!(m.get(&s("cl\u{e9}")), Some(&s("caf\u{e9}")));
    assert_eq!(m.get(&s("gr\u{fc}\u{df}e")), Some(&s("\u{4e16}\u{754c}")));
}

#[test]
fn parse_entry_splits_on_first_separator() {
    let (k, v) = parse_entry(&s("key=val=rest")).unwrap();
    assert_eq!(k, "key");
    assert_eq!(v, "val");
}

#[test]
fn parse_entry_without_separator_fails() {
    let e = parse_entry(&s("")).unwrap_err();
    assert_eq!(e, Error::MissingAssignment);
}

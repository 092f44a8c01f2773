use dotfiles_installer::config::parser::include_targets;
use dotfiles_installer::config::parser::{ConfigFile, ConfigMap, Parser, Value};

fn parse(text: &str) -> Result<ConfigFile, String> {
    Parser::new().parse_content_checked(text).expect("every character starts a token")
}

fn s(x: &str) -> String {
    x.to_string()
}

#[test]
fn assignments_lists_and_includes() {
    let f = parse("git.repo = \"https://example.org/d\"\npackages.base = [\"git\", \"vim\",]\ninclude = [\"extra.conf\"]\n").unwrap();
    assert_eq!(f.assignments.len(), 2);
    assert_eq!(f.assignments.get("git.repo"), Some(&Value::String(s("https://example.org/d"))));
    assert_eq!(f.assignments.get("packages.base"), Some(&Value::List(vec![s("git"), s("vim")])));
    assert_eq!(f.includes, vec![s("extra.conf")]);
}

#[test]
fn later_assignment_replaces_earlier() {
    let f = parse("k = \"a\"\nk = \"b\"\n").unwrap();
    assert_eq!(f.assignments.len(), 1);
    assert_eq!(f.assignments.get("k"), Some(&Value::String(s("b"))));
}

#[test]
fn lists_skip_line_breaks_and_comments() {
    let f = parse("k = [\n  \"a\" // first\n  , \"b\"\n]").unwrap();
    assert_eq!(f.assignments.get("k"), Some(&Value::List(vec![s("a"), s("b")])));
}

#[test]
fn empty_list_and_empty_text() {
    let f = parse("a = []\nb = \"\"").unwrap();
    assert_eq!(f.assignments.get("a"), Some(&Value::List(vec![])));
    assert_eq!(f.assignments.get("b"), Some(&Value::String(s(""))));
}

#[test]
fn double_comma_is_refused() {
    assert_eq!(parse("k = [\"a\",,]").err(), Some(s("Double comma in list at 1:11")));
}

#[test]
fn key_needs_equals() {
    assert_eq!(parse("k \"v\"").err(), Some(s("Expected '=' after key 'k' at 1:6")));
}

#[test]
fn include_needs_equals() {
    assert_eq!(parse("include [\"x\"]").err(), Some(s("Expected '=' after include at 1:10")));
}

#[test]
fn include_must_be_a_list() {
    assert_eq!(parse("include = \"x\"").err(), Some(s("Include must be a list at 1:14")));
}

#[test]
fn value_expected() {
    assert_eq!(parse("k = ]").err(), Some(s("Expected value at 1:6")));
}

#[test]
fn statement_cannot_start_with_equals() {
    assert_eq!(parse("= \"x\"").err(), Some(s("Unexpected token at 1:2")));
}

#[test]
fn list_holds_only_texts() {
    assert_eq!(parse("k = [=]").err(), Some(s("Unexpected token in list at 1:7 (got Equals)")));
    assert_eq!(
        parse("k = [x]").err(),
        Some(s("Unexpected token in list at 1:7 (got Ident(\"x\"))"))
    );
}

#[test]
fn positions_count_lines() {
    assert_eq!(parse("a = \"1\"\n\nb \"2\"").err(), Some(s("Expected '=' after key 'b' at 3:6")));
}

#[test]
fn stray_character_stops_reading() {
    let r = Parser::new().parse_content_checked("k = @");
    assert_eq!(r.err(), Some(s("Unexpected character at 1:5")));
    let r = Parser::new().parse_content_checked("k = / x");
    assert_eq!(r.err(), Some(s("Unexpected character '/' at 1:5")));
}

#[test]
fn include_cycle_is_refused() {
    let mut p = Parser::new();
    assert_eq!(p.enter_file("/etc/a.conf", "a.conf"), Ok(()));
    assert_eq!(p.enter_file("/etc/b.conf", "b.conf"), Ok(()));
    assert_eq!(
        p.enter_file("/etc/a.conf", "sub/../a.conf"),
        Err(s("Circular include detected: sub/../a.conf"))
    );
}

#[test]
fn included_values_do_not_override() {
    let mut main = ConfigMap::new();
    main.insert(s("k"), Value::String(s("main")));
    let mut sub = ConfigMap::new();
    sub.insert(s("k"), Value::String(s("sub")));
    sub.insert(s("j"), Value::List(vec![s("x")]));
    main.merge(&sub);
    assert_eq!(main.len(), 2);
    assert_eq!(main.get("k"), Some(&Value::String(s("main"))));
    assert_eq!(main.get("j"), Some(&Value::List(vec![s("x")])));
}

#[test]
fn includes_are_read_from_the_including_directory() {
    assert_eq!(
        include_targets("/etc/dots", &vec![s("a.conf"), s("/abs/b.conf"), s("sub/c.conf")]),
        vec![s("/etc/dots/a.conf"), s("/abs/b.conf"), s("/etc/dots/sub/c.conf")]
    );
    assert_eq!(include_targets("", &vec![s("a.conf")]), vec![s("a.conf")]);
}

#[test]
fn earlier_includes_win_over_later_ones() {
    let main = parse("k = \"main\"\ninclude = [\"a\", \"b\"]").unwrap();
    let a = parse("j = \"a\"\nk = \"a\"").unwrap().assignments;
    let b = parse("j = \"b\"\nl = \"b\"").unwrap().assignments;
    let mut m = main.assignments;
    m.merge_each(&vec![a, b]);
    assert_eq!(m.len(), 3);
    assert_eq!(m.get("k"), Some(&Value::String(s("main"))));
    assert_eq!(m.get("j"), Some(&Value::String(s("a"))));
    assert_eq!(m.get("l"), Some(&Value::String(s("b"))));
}

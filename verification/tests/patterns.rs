use tf_unused::entry::{is_identifier_str, EntryType, Variable};
use tf_unused::pattern::{Matchers, DEFINITION_PATTERN, USE_PATTERN, VALUE_PATTERN};
use tf_unused::source::{File, FileType};

fn matchers() -> Matchers {
    Matchers::new().expect("the three patterns compile")
}

fn source(path: &str, contents: &str) -> File {
    File { file_type: FileType::Source, path: path.to_string(), contents: contents.to_string() }
}

fn vars(path: &str, contents: &str) -> File {
    File { file_type: FileType::Vars, path: path.to_string(), contents: contents.to_string() }
}

fn names(entries: &[Variable]) -> Vec<String> {
    entries.iter().map(|e| e.name.clone()).collect()
}

#[test]
fn test_tfvars_pattern() {
    let m = matchers();
    let re = EntryType::Value.regex(&m);
    let test_string = r#"
        one = 42
        two = "booooring"
    two_and_a_half = "now it's getting interesting"

          three_times_fourty_two = true
        "#;
    assert!(re.is_match(test_string));
    for cap in re.captures_iter(test_string) {
        println!("MATCH: {} -> {}", &cap[1], &cap[2]);
    }
}

#[test]
fn test_variable_pattern() {
    let m = matchers();
    let re = EntryType::Definition.regex(&m);
    let test_string = r#"
        variable "surprisingly_important_variable" {
            default = 42
        }
        "#;
    assert!(re.is_match(test_string));
    for cap in re.captures_iter(test_string) {
        assert!(&cap[1] == "surprisingly_important_variable")
    }
}

#[test]
fn test_variable_use_pattern() {
    let test_string = r#"something = "${foo(var.very_important_variable)}""#;
    let m = matchers();
    let re = EntryType::Use.regex(&m);

    assert!(re.is_match(test_string));

    for cap in re.captures_iter(test_string) {
        assert!(&cap[1] == "very_important_variable");
    }
}

#[test]
fn the_matchers_hold_their_patterns() {
    let m = matchers();
    assert_eq!(EntryType::Definition.regex(&m).as_str(), DEFINITION_PATTERN);
    assert_eq!(EntryType::Use.regex(&m).as_str(), USE_PATTERN);
    assert_eq!(EntryType::Value.regex(&m).as_str(), VALUE_PATTERN);
    assert_eq!(EntryType::Definition.pattern(), DEFINITION_PATTERN);
    assert_eq!(EntryType::Use.pattern(), USE_PATTERN);
    assert_eq!(EntryType::Value.pattern(), VALUE_PATTERN);
}

fn groups(texts: &[Option<&str>]) -> Vec<Option<String>> {
    texts.iter().map(|t| t.map(|t| t.to_string())).collect()
}

#[test]
fn the_groups_of_each_match_in_order() {
    let m = matchers();
    let text = "a = 1
b =  two words
";
    assert_eq!(
        m.captures_in(EntryType::Value, text),
        vec![
            groups(&[Some("a = 1"), Some("a"), Some("1")]),
            groups(&[Some("b =  two words"), Some("b"), Some("two words")]),
        ]
    );
    assert_eq!(
        m.captures_in(EntryType::Use, "x = var.a + var.b"),
        vec![groups(&[Some("var.a"), Some("a")]), groups(&[Some("var.b"), Some("b")])]
    );
    assert_eq!(
        m.captures_in(EntryType::Definition, "variable \"v\"  {"),
        vec![groups(&[Some("variable \"v\"  {"), Some("v")])]
    );
    assert!(m.captures_in(EntryType::Use, text).is_empty());
    assert!(m.captures_in(EntryType::Definition, "").is_empty());
}

#[test]
fn definition_entries_of_a_file() {
    let m = matchers();
    let file = source(
        "main.tf",
        r#"
        variable "surprisingly_important_variable" {
            default = 42
        }
        variable   "second_1"{}
        variable "third"
        {
        }
        "#,
    );
    let entries = file.get_var_entries(EntryType::Definition, &m);
    assert_eq!(
        entries,
        vec![
            Variable {
                entry_type: EntryType::Definition,
                name: "surprisingly_important_variable".to_string(),
                at: "main.tf".to_string(),
            },
            Variable {
                entry_type: EntryType::Definition,
                name: "second_1".to_string(),
                at: "main.tf".to_string(),
            },
            Variable {
                entry_type: EntryType::Definition,
                name: "third".to_string(),
                at: "main.tf".to_string(),
            },
        ]
    );
}

#[test]
fn malformed_definitions_do_not_match() {
    let m = matchers();
    let file = source(
        "main.tf",
        "variable foo {\nvariable \"\" {\nvariable\"glued\" {\nvariable \"no brace\"\nvariable \"a-b\" {\n",
    );
    assert!(file.get_var_entries(EntryType::Definition, &m).is_empty());
}

#[test]
fn use_entries_of_a_file() {
    let m = matchers();
    let file = source(
        "net.tf",
        r#"something = "${foo(var.very_important_variable)}"
           other = [var.a, var.b2, var.a]
           broken = var. x var.-y"#,
    );
    let entries = file.get_var_entries(EntryType::Use, &m);
    assert_eq!(names(&entries), vec!["very_important_variable", "a", "b2", "a"]);
    for e in &entries {
        assert_eq!(e.entry_type, EntryType::Use);
        assert_eq!(e.at, "net.tf");
    }
}

#[test]
fn a_use_stops_at_the_first_character_that_is_no_identifier_character() {
    let m = matchers();
    let file = source("a.tf", "x = var.name-suffix\ny = var.caf\u{e9}\nz = var.under_score.more");
    let entries = file.get_var_entries(EntryType::Use, &m);
    assert_eq!(names(&entries), vec!["name", "caf", "under_score"]);
}

#[test]
fn value_entries_of_a_file() {
    let m = matchers();
    let file = vars(
        "terraform.tfvars",
        r#"
        one = 42
        two = "booooring"
    two_and_a_half = "now it's getting interesting"

          three_times_fourty_two = true
        "#,
    );
    let entries = file.get_var_entries(EntryType::Value, &m);
    assert_eq!(names(&entries), vec!["one", "two", "two_and_a_half", "three_times_fourty_two"]);
    for e in &entries {
        assert_eq!(e.entry_type, EntryType::Value);
        assert_eq!(e.at, "terraform.tfvars");
    }
}

#[test]
fn the_value_pattern_takes_any_line_with_an_equals_sign() {
    let m = matchers();
    let file = vars("x.tfvars", "tags = {\n  inner = 1\n}\nglued=2\nlist = [\n");
    let entries = file.get_var_entries(EntryType::Value, &m);
    assert_eq!(names(&entries), vec!["tags", "inner", "list"]);
}

#[test]
fn a_value_that_starts_on_the_next_line_takes_that_line() {
    let m = matchers();
    let file = vars("x.tfvars", "a = \nb = 2\nc = 3\n");
    let entries = file.get_var_entries(EntryType::Value, &m);
    assert_eq!(names(&entries), vec!["a", "c"]);
}

#[test]
fn a_name_found_twice_gives_two_entries() {
    let m = matchers();
    let file = source("a.tf", "variable \"x\" {}\nvariable \"x\" {}\n");
    let entries = file.get_var_entries(EntryType::Definition, &m);
    assert_eq!(names(&entries), vec!["x", "x"]);
}

#[test]
fn every_entry_has_an_identifier_for_its_name() {
    let m = matchers();
    let text = "variable \"Az_09\" { default = var.Q_1 }\nk_2 = var.zz\n";
    let file = source("a.tf", text);
    for kind in [EntryType::Definition, EntryType::Use, EntryType::Value] {
        let entries = file.get_var_entries(kind, &m);
        assert!(!entries.is_empty());
        for e in entries {
            assert!(is_identifier_str(&e.name));
        }
    }
}

#[test]
fn identifiers_are_ascii_letters_digits_and_underscores() {
    assert!(is_identifier_str("a"));
    assert!(is_identifier_str("_"));
    assert!(is_identifier_str("Az_09"));
    assert!(is_identifier_str("0"));
    assert!(!is_identifier_str(""));
    assert!(!is_identifier_str("a-b"));
    assert!(!is_identifier_str("a b"));
    assert!(!is_identifier_str("caf\u{e9}"));
    assert!(!is_identifier_str("a."));
    assert!(!is_identifier_str("`"));
    assert!(!is_identifier_str("{"));
    assert!(!is_identifier_str("@"));
    assert!(!is_identifier_str("["));
    assert!(!is_identifier_str("/"));
    assert!(!is_identifier_str(":"));
}

#[test]
fn matches_without_a_name_that_is_an_identifier_give_no_entry() {
    let found = vec![
        groups(&[Some("one = 1"), Some("one"), Some("1")]),
        groups(&[Some("whole match only")]),
        groups(&[]),
        groups(&[Some("x"), None]),
        groups(&[Some(" = 1"), Some("")]),
        groups(&[Some("t-w-o = 2"), Some("t-w-o"), Some("2")]),
        groups(&[None, Some("three")]),
        groups(&[Some("one = 3"), Some("one"), None]),
    ];
    let entries = Variable::from_captures(&found, EntryType::Value, "v.tfvars");
    assert_eq!(
        entries,
        vec![
            Variable {
                entry_type: EntryType::Value,
                name: "one".to_string(),
                at: "v.tfvars".to_string(),
            },
            Variable {
                entry_type: EntryType::Value,
                name: "three".to_string(),
                at: "v.tfvars".to_string(),
            },
            Variable {
                entry_type: EntryType::Value,
                name: "one".to_string(),
                at: "v.tfvars".to_string(),
            },
        ]
    );
    assert!(Variable::from_captures(&Vec::new(), EntryType::Use, "a.tf").is_empty());
}

#[test]
fn a_copy_of_an_entry_equals_it() {
    let v = Variable { entry_type: EntryType::Use, name: "n".to_string(), at: "f.tf".to_string() };
    assert_eq!(v.duplicate(), v);
}

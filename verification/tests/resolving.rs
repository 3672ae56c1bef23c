use tf_unused::analysis::analyze;
use tf_unused::entry::{EntryType, Variable};
use tf_unused::pattern::Matchers;
use tf_unused::report::{entries_at, files_of_entries, group_by_file, prefix, report_unsued, FileGroup};
use tf_unused::resolve::{collect, collect_entries, has_name, resolve, unmatched_entries, UnusedReport};
use tf_unused::source::{File, FileType};

fn def(name: &str, at: &str) -> Variable {
    Variable { entry_type: EntryType::Definition, name: name.to_string(), at: at.to_string() }
}

fn usage(name: &str, at: &str) -> Variable {
    Variable { entry_type: EntryType::Use, name: name.to_string(), at: at.to_string() }
}

fn value(name: &str, at: &str) -> Variable {
    Variable { entry_type: EntryType::Value, name: name.to_string(), at: at.to_string() }
}

fn source(path: &str, contents: &str) -> File {
    File { file_type: FileType::Source, path: path.to_string(), contents: contents.to_string() }
}

fn vars(path: &str, contents: &str) -> File {
    File { file_type: FileType::Vars, path: path.to_string(), contents: contents.to_string() }
}

#[test]
fn names_are_compared_letter_for_letter() {
    let entries = vec![usage("region", "a.tf"), usage("zone", "b.tf")];
    assert!(has_name(&"region".to_string(), &entries));
    assert!(has_name(&"zone".to_string(), &entries));
    assert!(!has_name(&"Region".to_string(), &entries));
    assert!(!has_name(&"regio".to_string(), &entries));
    assert!(!has_name(&"region".to_string(), &Vec::new()));
}

#[test]
fn the_unused_definition_of_two() {
    let defs = vec![def("A", "f.tf"), def("B", "f.tf")];
    let uses = vec![usage("A", "f.tf")];
    let report = resolve(&defs, &uses, &Vec::new());
    assert_eq!(report.unused_definitions, vec![def("B", "f.tf")]);
    assert!(report.unused_values.is_empty());
}

#[test]
fn the_value_without_a_definition_of_two() {
    let defs = vec![def("A", "f.tf")];
    let values = vec![value("A", "v.tfvars"), value("C", "v.tfvars")];
    let report = resolve(&defs, &vec![usage("A", "f.tf")], &values);
    assert!(report.unused_definitions.is_empty());
    assert_eq!(report.unused_values, vec![value("C", "v.tfvars")]);
}

#[test]
fn a_use_in_the_same_file_satisfies_a_definition() {
    let m = Matchers::new().unwrap();
    let files = vec![source("one.tf", "variable \"A\" {}\nresource \"x\" \"y\" { z = var.A }\n")];
    let entries = collect(&files, &m);
    assert_eq!(entries.definitions, vec![def("A", "one.tf")]);
    assert_eq!(entries.uses, vec![usage("A", "one.tf")]);
    let report = resolve(&entries.definitions, &entries.uses, &entries.values);
    assert!(report.unused_definitions.is_empty());
    assert_eq!(report.exit_code(), 0);
}

#[test]
fn a_use_in_another_file_satisfies_a_definition() {
    let m = Matchers::new().unwrap();
    let files = vec![
        source("file1.tf", "variable \"A\" {}\n"),
        source("file2.tf", "output \"o\" { value = var.A }\n"),
    ];
    let entries = collect(&files, &m);
    let report = resolve(&entries.definitions, &entries.uses, &entries.values);
    assert!(report.unused_definitions.is_empty());
    assert_eq!(report.exit_code(), 0);
}

#[test]
fn one_use_satisfies_every_definition_of_the_name() {
    let defs = vec![def("A", "1.tf"), def("B", "1.tf"), def("A", "2.tf"), def("B", "2.tf")];
    let uses = vec![usage("A", "3.tf")];
    assert_eq!(unmatched_entries(&defs, &uses), vec![def("B", "1.tf"), def("B", "2.tf")]);
}

#[test]
fn entries_that_are_left_over_are_not_merged() {
    let defs = vec![def("x", "a.tf"), def("y", "a.tf"), def("x", "a.tf"), def("x", "b.tf")];
    let left = unmatched_entries(&defs, &vec![usage("y", "a.tf")]);
    assert_eq!(left, vec![def("x", "a.tf"), def("x", "a.tf"), def("x", "b.tf")]);
    assert_eq!(unmatched_entries(&defs, &Vec::new()), defs);
    assert!(unmatched_entries(&Vec::new(), &defs).is_empty());
}

#[test]
fn a_use_in_a_value_file_does_not_count() {
    let m = Matchers::new().unwrap();
    let files = vec![
        source("main.tf", "variable \"a\" {}\n"),
        vars("x.tfvars", "b = var.a\nvariable \"c\" {\n"),
    ];
    let entries = collect(&files, &m);
    assert_eq!(entries.definitions, vec![def("a", "main.tf")]);
    assert!(entries.uses.is_empty());
    assert_eq!(entries.values, vec![value("b", "x.tfvars")]);
    assert!(collect_entries(&files, FileType::Vars, EntryType::Use, &m) == vec![usage("a", "x.tfvars")]);
}

#[test]
fn entries_are_collected_file_after_file() {
    let m = Matchers::new().unwrap();
    let files = vec![
        source("b.tf", "variable \"b1\" {}\nvariable \"b2\" {}\n"),
        vars("v.tfvars", "v = 1\n"),
        source("a.tf", "variable \"a1\" {}\n"),
    ];
    let defs = collect_entries(&files, FileType::Source, EntryType::Definition, &m);
    assert_eq!(defs, vec![def("b1", "b.tf"), def("b2", "b.tf"), def("a1", "a.tf")]);
    assert!(collect_entries(&Vec::new(), FileType::Source, EntryType::Definition, &m).is_empty());
}

#[test]
fn resolving_twice_gives_the_same_report() {
    let defs = vec![def("a", "1.tf"), def("b", "2.tf"), def("c", "1.tf")];
    let uses = vec![usage("b", "1.tf")];
    let values = vec![value("z", "v.tfvars"), value("a", "v.tfvars")];
    let first = resolve(&defs, &uses, &values);
    let second = resolve(&defs, &uses, &values);
    assert_eq!(first, second);
    assert_eq!(first.render(), second.render());
    assert_eq!(group_by_file(&first.unused_definitions), group_by_file(&second.unused_definitions));
    let again = unmatched_entries(&first.unused_definitions, &uses);
    assert_eq!(again, first.unused_definitions);
}

#[test]
fn files_come_in_the_order_in_which_they_are_first_met() {
    let entries =
        vec![def("a", "z.tf"), def("b", "a.tf"), def("c", "z.tf"), def("d", "m.tf"), def("e", "a.tf")];
    assert_eq!(files_of_entries(&entries), vec!["z.tf", "a.tf", "m.tf"]);
    assert_eq!(entries_at(&entries, &"z.tf".to_string()), vec![def("a", "z.tf"), def("c", "z.tf")]);
    assert!(entries_at(&entries, &"q.tf".to_string()).is_empty());
    assert_eq!(
        group_by_file(&entries),
        vec![
            FileGroup {
                file: "z.tf".to_string(),
                entries: vec![def("a", "z.tf"), def("c", "z.tf")],
            },
            FileGroup {
                file: "a.tf".to_string(),
                entries: vec![def("b", "a.tf"), def("e", "a.tf")],
            },
            FileGroup { file: "m.tf".to_string(), entries: vec![def("d", "m.tf")] },
        ]
    );
    assert!(group_by_file(&Vec::new()).is_empty());
}

#[test]
fn the_words_for_each_kind() {
    assert_eq!(prefix(EntryType::Definition), "Unused definition");
    assert_eq!(prefix(EntryType::Value), "Unused value for");
    assert_eq!(prefix(EntryType::Use), "Shouldn't be there");
}

#[test]
fn the_text_of_a_listing() {
    let unused = vec![def("a", "one.tf"), def("b", "one.tf"), def("c", "two.tf")];
    assert_eq!(
        report_unsued(&unused),
        "In one.tf:\n * Unused definition a\n * Unused definition b\n\nIn two.tf:\n * Unused definition c\n\n"
    );
    assert_eq!(report_unsued(&vec![value("v", "x.tfvars")]), "In x.tfvars:\n * Unused value for v\n\n");
    assert_eq!(report_unsued(&vec![usage("u", "x.tf")]), "In x.tf:\n * Shouldn't be there u\n\n");
    assert_eq!(report_unsued(&Vec::new()), "");
}

#[test]
fn the_exit_code_tells_whether_anything_is_left_over() {
    let clean = UnusedReport { unused_definitions: Vec::new(), unused_values: Vec::new() };
    assert_eq!(clean.exit_code(), 0);
    let defs = UnusedReport { unused_definitions: vec![def("a", "a.tf")], unused_values: Vec::new() };
    assert_eq!(defs.exit_code(), 1);
    let values =
        UnusedReport { unused_definitions: Vec::new(), unused_values: vec![value("a", "a.tfvars")] };
    assert_eq!(values.exit_code(), 1);
    let both = UnusedReport {
        unused_definitions: vec![def("a", "a.tf")],
        unused_values: vec![value("b", "a.tfvars")],
    };
    assert_eq!(both.exit_code(), 1);
}

#[test]
fn a_tree_with_one_unused_definition_and_one_stray_value() {
    let m = Matchers::new().unwrap();
    let loaded = vec![
        Ok(source(
            "main.tf",
            "variable \"region\" {}\nvariable \"unused_var\" {}\nprovider \"aws\" {\n  region = var.region\n}\n",
        )),
        Ok(vars("terraform.tfvars", "region = \"us-east-1\"\nstray = true\n")),
    ];
    let analysis = analyze(loaded, &m);
    assert!(analysis.notices.is_empty());
    assert_eq!(analysis.report.unused_definitions, vec![def("unused_var", "main.tf")]);
    assert_eq!(analysis.report.unused_values, vec![value("stray", "terraform.tfvars")]);
    assert_eq!(
        analysis.report.render(),
        "In main.tf:\n * Unused definition unused_var\n\nIn terraform.tfvars:\n * Unused value for stray\n\n"
    );
    assert_eq!(analysis.report.exit_code(), 1);
}

#[test]
fn a_directory_without_files_gives_an_empty_report() {
    let m = Matchers::new().unwrap();
    let analysis = analyze(Vec::new(), &m);
    assert!(analysis.notices.is_empty());
    assert!(analysis.report.unused_definitions.is_empty());
    assert!(analysis.report.unused_values.is_empty());
    assert_eq!(analysis.report.render(), "");
    assert_eq!(analysis.report.exit_code(), 0);
}

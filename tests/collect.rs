use context_dump::collect::{
    child_rel, context_file_name, file_record, join, output_file_name, plan_entry, DirEntryInfo,
    EntryKind, Step,
};
use context_dump::exclude::get_exclude_patterns;

fn entry(name: &str, kind: EntryKind) -> DirEntryInfo {
    DirEntryInfo { name: name.to_string(), name_is_exact: true, kind }
}

fn read_path(step: Step) -> Option<String> {
    match step {
        Step::ReadFile { rel_path } => Some(rel_path),
        _ => None,
    }
}

#[test]
fn project_scenario_keeps_only_the_text_file() {
    let rules = get_exclude_patterns();
    let a = plan_entry("proj", "", &entry("a.txt", EntryKind::File), &rules);
    assert_eq!(read_path(a).as_deref(), Some("a.txt"));
    match plan_entry("proj", "", &entry("node_modules", EntryKind::Dir), &rules) {
        Step::Excluded { notice } => assert_eq!(notice, "excluded path: proj/node_modules"),
        _ => panic!("node_modules must be excluded"),
    }
    match plan_entry("proj", "", &entry("build.log", EntryKind::File), &rules) {
        Step::Excluded { notice } => assert_eq!(notice, "excluded path: proj/build.log"),
        _ => panic!("build.log must be excluded"),
    }
    let record = file_record("a.txt", &Ok("hello".to_string()));
    assert_eq!(record, "# a.txt\nhello\n\n");
    assert_eq!(output_file_name("proj"), "proj.context.txt");
}

#[test]
fn directories_are_walked_with_relative_paths() {
    let rules = get_exclude_patterns();
    match plan_entry("proj", "", &entry("src", EntryKind::Dir), &rules) {
        Step::Descend { path, rel_path } => {
            assert_eq!(path, "proj/src");
            assert_eq!(rel_path, "src");
        }
        _ => panic!("src must be walked"),
    }
    match plan_entry("proj/src", "src", &entry("util", EntryKind::Dir), &rules) {
        Step::Descend { path, rel_path } => {
            assert_eq!(path, "proj/src/util");
            assert_eq!(rel_path, "src/util");
        }
        _ => panic!("util must be walked"),
    }
    let f = plan_entry("proj/src/util", "src/util", &entry("x.rs", EntryKind::File), &rules);
    assert_eq!(read_path(f).as_deref(), Some("src/util/x.rs"));
}

#[test]
fn root_with_trailing_separator() {
    let rules = get_exclude_patterns();
    match plan_entry("proj/", "", &entry("dist", EntryKind::Dir), &rules) {
        Step::Excluded { notice } => assert_eq!(notice, "excluded path: proj/dist"),
        _ => panic!("dist must be excluded"),
    }
    assert_eq!(output_file_name("/home/u/proj/"), "proj.context.txt");
}

#[test]
fn other_entries_are_passed_over() {
    let rules = get_exclude_patterns();
    assert!(matches!(plan_entry("proj", "", &entry("link", EntryKind::Other), &rules), Step::Skip));
    assert!(matches!(
        plan_entry("proj", "", &entry("target", EntryKind::Other), &rules),
        Step::Excluded { .. }
    ));
}

#[test]
fn inexact_name_is_never_excluded() {
    let rules = get_exclude_patterns();
    let e = DirEntryInfo { name: "x\u{fffd}.log".to_string(), name_is_exact: false, kind: EntryKind::File };
    assert_eq!(read_path(plan_entry("proj", "", &e, &rules)).as_deref(), Some("x\u{fffd}.log"));
}

#[test]
fn unreadable_file_gets_a_placeholder_and_siblings_go_on() {
    let rules = get_exclude_patterns();
    let record = file_record("secret.txt", &Err("Permission denied (os error 13)".to_string()));
    assert_eq!(record, "# secret.txt\n[unable to read file: Permission denied (os error 13)]\n\n");
    let next = plan_entry("proj", "", &entry("z.txt", EntryKind::File), &rules);
    assert_eq!(read_path(next).as_deref(), Some("z.txt"));
}

#[test]
fn empty_file_record() {
    assert_eq!(file_record("e", &Ok(String::new())), "# e\n\n\n");
}

#[test]
fn planning_twice_gives_the_same_output() {
    let rules = get_exclude_patterns();
    let entries = [entry("a.txt", EntryKind::File), entry("b", EntryKind::Dir), entry("c.o", EntryKind::File)];
    let render = |es: &[DirEntryInfo]| -> Vec<String> {
        es.iter()
            .map(|e| match plan_entry("p", "", e, &rules) {
                Step::Excluded { notice } => notice,
                Step::ReadFile { rel_path } => file_record(&rel_path, &Ok("t".to_string())),
                Step::Descend { path, rel_path } => format!("{} {}", path, rel_path),
                Step::Skip => String::new(),
            })
            .collect()
    };
    let first = render(&entries);
    assert_eq!(first, render(&entries));
    assert_eq!(first[0], "# a.txt\nt\n\n");
    assert_eq!(first[1], "p/b b");
    assert_eq!(first[2], "excluded path: p/c.o");
}

#[test]
fn output_name_falls_back_to_unknown() {
    assert_eq!(output_file_name(".."), "unknown.context.txt");
    assert_eq!(output_file_name("/"), "unknown.context.txt");
    assert_eq!(output_file_name("a/b/c"), "c.context.txt");
    assert_eq!(context_file_name(None), "unknown.context.txt");
    assert_eq!(context_file_name(Some("x")), "x.context.txt");
}

#[test]
fn joining_paths() {
    assert_eq!(join("", "a"), "a");
    assert_eq!(join("d", "a"), "d/a");
    assert_eq!(join("d/", "a"), "d/a");
    assert_eq!(child_rel("", "a"), "a");
    assert_eq!(child_rel("d", "a"), "d/a");
}

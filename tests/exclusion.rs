use context_dump::exclude::{
    get_exclude_patterns, name_is_excluded, pattern_matches, should_exclude, str_ends_with,
    ExcludePattern,
};

#[test]
fn table_has_exact_names_then_suffix_rules() {
    let rules = get_exclude_patterns();
    assert_eq!(rules.len(), 23);
    assert_eq!(rules[0].pattern, ".git");
    assert!(!rules[0].is_wildcard);
    assert_eq!(rules[12].pattern, ".next");
    assert!(!rules[12].is_wildcard);
    assert_eq!(rules[13].pattern, "*.pyc");
    assert!(rules[13].is_wildcard);
    assert_eq!(rules[22].pattern, "*.log");
    assert!(rules.iter().skip(13).all(|r| r.is_wildcard && r.pattern.starts_with('*')));
}

#[test]
fn exact_names_are_excluded() {
    let rules = get_exclude_patterns();
    for name in [
        ".git", "node_modules", "package-lock.json", "target", ".idea", ".vscode", "dist",
        "build", ".DS_Store", "Thumbs.db", "uv.lock", ".venv", ".next",
    ] {
        assert!(name_is_excluded(name, &rules), "{}", name);
        assert!(should_exclude(&format!("proj/{}", name), &rules), "{}", name);
    }
}

#[test]
fn unmatched_names_are_kept() {
    let rules = get_exclude_patterns();
    for name in ["a.txt", "main.rs", "Build", "builds", "git", "targets", "archive.gz", "log", "x.logs"] {
        assert!(!name_is_excluded(name, &rules), "{}", name);
        assert!(!should_exclude(&format!("proj/{}", name), &rules), "{}", name);
    }
}

#[test]
fn suffix_rules_match_any_prefix() {
    let rules = get_exclude_patterns();
    for name in [
        "build.log", ".log", "a.pyc", "Main.class", "x.o", "lib.so", "w.dll", "app.exe", "lib.jar",
        "src.zip", "src.tar.gz", ".tar.gz",
    ] {
        assert!(name_is_excluded(name, &rules), "{}", name);
    }
    assert!(!name_is_excluded("src.gz", &rules));
    assert!(!name_is_excluded("tar.gz", &rules));
}

#[test]
fn only_the_base_name_is_looked_at() {
    let rules = get_exclude_patterns();
    assert!(!should_exclude("node_modules/a.txt", &rules));
    assert!(should_exclude("a/b/node_modules", &rules));
    assert!(should_exclude("a/b/build.log", &rules));
    assert!(should_exclude("target/", &rules));
}

#[test]
fn path_without_base_name_is_kept() {
    let rules = get_exclude_patterns();
    assert!(!should_exclude("", &rules));
    assert!(!should_exclude("/", &rules));
    assert!(!should_exclude("node_modules/..", &rules));
}

#[test]
fn star_alone_matches_every_name() {
    let rules = vec![ExcludePattern { pattern: "*", is_wildcard: true }];
    assert!(name_is_excluded("anything", &rules));
    assert!(name_is_excluded("", &rules));
}

#[test]
fn wildcard_rule_without_star_matches_nothing() {
    let rule = ExcludePattern { pattern: ".log", is_wildcard: true };
    assert!(!pattern_matches(&rule, "a.log"));
    assert!(!pattern_matches(&rule, ".log"));
}

#[test]
fn suffix_follows_the_first_star() {
    let rule = ExcludePattern { pattern: "a*b*c", is_wildcard: true };
    assert!(pattern_matches(&rule, "xb*c"));
    assert!(!pattern_matches(&rule, "xbc"));
}

#[test]
fn exact_rule_is_case_sensitive() {
    let rule = ExcludePattern { pattern: "dist", is_wildcard: false };
    assert!(pattern_matches(&rule, "dist"));
    assert!(!pattern_matches(&rule, "Dist"));
    assert!(!pattern_matches(&rule, "dist2"));
}

#[test]
fn ends_with_on_characters() {
    assert!(str_ends_with("build.log", ".log"));
    assert!(str_ends_with(".log", ".log"));
    assert!(str_ends_with("abc", ""));
    assert!(!str_ends_with("log", ".log"));
    assert!(str_ends_with("日誌.log", ".log"));
    assert!(!str_ends_with("a.lo", ".log"));
}

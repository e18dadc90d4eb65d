//! The fixed table of exclusion rules and the matching of a base name against it.

use vstd::prelude::*;

verus! {

/// One exclusion rule. An exact rule matches a base name equal to `pattern`;
/// a wildcard rule matches every base name that ends with the text following
/// the first `*` of `pattern`.
pub struct ExcludePattern {
    pub pattern: &'static str,
    pub is_wildcard: bool,
}

/// `s` ends with `suffix` (every sequence ends with the empty one).
pub open spec fn ends_with(s: Seq<char>, suffix: Seq<char>) -> bool {
    suffix.len() <= s.len() && s.subrange(s.len() - suffix.len(), s.len() as int) == suffix
}

/// `i` is the position of the first `*` in `p`.
pub open spec fn is_first_star(p: Seq<char>, i: int) -> bool {
    0 <= i < p.len() && p[i] == '*' && forall|j: int| 0 <= j < i ==> p[j] != '*'
}

/// What follows the first `*` of a wildcard pattern.
pub open spec fn wildcard_suffix(p: Seq<char>, i: int) -> Seq<char> {
    p.subrange(i + 1, p.len() as int)
}

/// Whether `rule` matches the base name `name`. A wildcard rule without a `*`
/// matches nothing.
pub open spec fn rule_matches(rule: ExcludePattern, name: Seq<char>) -> bool {
    if rule.is_wildcard {
        exists|i: int|
            #[trigger] is_first_star(rule.pattern@, i) && ends_with(
                name,
                wildcard_suffix(rule.pattern@, i),
            )
    } else {
        name == rule.pattern@
    }
}

/// Whether some rule of `rules` matches the base name `name`.
pub open spec fn excluded_by(name: Seq<char>, rules: Seq<ExcludePattern>) -> bool {
    exists|i: int| 0 <= i < rules.len() && #[trigger] rule_matches(rules[i], name)
}

/// Position of the first `*` in `p`, if any.
fn first_star(p: &str) -> (r: Option<usize>)
    ensures
        match r {
            Some(i) => is_first_star(p@, i as int),
            None => forall|j: int| 0 <= j < p@.len() ==> p@[j] != '*',
        },
{
    let n = p.unicode_len();
    let mut i: usize = 0;
    while i < n
        invariant
            n == p@.len(),
            i <= n,
            forall|j: int| 0 <= j < i ==> p@[j] != '*',
        decreases n - i,
    {
        if p.get_char(i) == '*' {
            return Some(i);
        }
        i = i + 1;
    }
    None
}

/// Whether `s` ends with `suffix`, character by character.
pub fn str_ends_with(s: &str, suffix: &str) -> (r: bool)
    ensures
        r == ends_with(s@, suffix@),
{
    let n = s.unicode_len();
    let m = suffix.unicode_len();
    if m > n {
        return false;
    }
    let start = n - m;
    let mut k: usize = 0;
    while k < m
        invariant
            n == s@.len(),
            m == suffix@.len(),
            m <= n,
            start == n - m,
            k <= m,
            forall|j: int| 0 <= j < k ==> s@[start + j] == suffix@[j],
        decreases m - k,
    {
        if s.get_char(start + k) != suffix.get_char(k) {
            assert(s@.subrange(start as int, n as int)[k as int] != suffix@[k as int]);
            return false;
        }
        k = k + 1;
    }
    assert(s@.subrange(start as int, n as int) =~= suffix@);
    true
}

/// Whether the single rule `rule` matches the base name `name`.
pub fn pattern_matches(rule: &ExcludePattern, name: &str) -> (r: bool)
    ensures
        r == rule_matches(*rule, name@),
{
    if rule.is_wildcard {
        match first_star(rule.pattern) {
            Some(i) => {
                let len = rule.pattern.unicode_len();
                let suffix = rule.pattern.substring_char(i + 1, len);
                let r = str_ends_with(name, suffix);
                proof {
                    assert forall|j: int| #[trigger]
                        is_first_star(rule.pattern@, j) implies j == i as int by {
                        if j < i {
                            assert(rule.pattern@[j] != '*');
                        } else if j > i {
                            assert(rule.pattern@[i as int] != '*');
                        }
                    }
                    assert(suffix@ == wildcard_suffix(rule.pattern@, i as int));
                }
                r
            },
            None => false,
        }
    } else {
        let n = name.unicode_len();
        let p = rule.pattern;
        if n != p.unicode_len() {
            return false;
        }
        let mut k: usize = 0;
        while k < n
            invariant
                n == name@.len(),
                n == p@.len(),
                p@ == rule.pattern@,
                !rule.is_wildcard,
                k <= n,
                forall|j: int| 0 <= j < k ==> name@[j] == p@[j],
            decreases n - k,
        {
            if name.get_char(k) != p.get_char(k) {
                assert(name@[k as int] != p@[k as int]);
                return false;
            }
            k = k + 1;
        }
        assert(name@ =~= p@);
        true
    }
}

/// Whether some rule of `patterns` matches the base name `name`; the rules are
/// tried in order and the first match decides.
pub fn name_is_excluded(name: &str, patterns: &[ExcludePattern]) -> (r: bool)
    ensures
        r == excluded_by(name@, patterns@),
{
    let mut i: usize = 0;
    while i < patterns.len()
        invariant
            i <= patterns@.len(),
            forall|j: int| 0 <= j < i ==> !rule_matches(#[trigger] patterns@[j], name@),
        decreases patterns@.len() - i,
    {
        if pattern_matches(&patterns[i], name) {
            return true;
        }
        i = i + 1;
    }
    false
}

/// A rule seen as its pattern text and its kind.
pub open spec fn rule_views(rules: Seq<ExcludePattern>) -> Seq<(Seq<char>, bool)> {
    rules.map_values(|p: ExcludePattern| (p.pattern@, p.is_wildcard))
}

/// The fixed exclusion table: directory and file names that are always skipped,
/// then the suffix rules for build outputs, archives and logs.
pub open spec fn default_rules() -> Seq<(Seq<char>, bool)> {
    seq![
        (".git"@, false),
        ("node_modules"@, false),
        ("package-lock.json"@, false),
        ("target"@, false),
        (".idea"@, false),
        (".vscode"@, false),
        ("dist"@, false),
        ("build"@, false),
        (".DS_Store"@, false),
        ("Thumbs.db"@, false),
        ("uv.lock"@, false),
        (".venv"@, false),
        (".next"@, false),
        ("*.pyc"@, true),
        ("*.class"@, true),
        ("*.o"@, true),
        ("*.so"@, true),
        ("*.dll"@, true),
        ("*.exe"@, true),
        ("*.jar"@, true),
        ("*.zip"@, true),
        ("*.tar.gz"@, true),
        ("*.log"@, true),
    ]
}

/// Builds the fixed exclusion table, in order.
pub fn get_exclude_patterns() -> (r: Vec<ExcludePattern>)
    ensures
        rule_views(r@) == default_rules(),
{
    let mut v: Vec<ExcludePattern> = Vec::new();
    v.push(ExcludePattern { pattern: ".git", is_wildcard: false });
    v.push(ExcludePattern { pattern: "node_modules", is_wildcard: false });
    v.push(ExcludePattern { pattern: "package-lock.json", is_wildcard: false });
    v.push(ExcludePattern { pattern: "target", is_wildcard: false });
    v.push(ExcludePattern { pattern: ".idea", is_wildcard: false });
    v.push(ExcludePattern { pattern: ".vscode", is_wildcard: false });
    v.push(ExcludePattern { pattern: "dist", is_wildcard: false });
    v.push(ExcludePattern { pattern: "build", is_wildcard: false });
    v.push(ExcludePattern { pattern: ".DS_Store", is_wildcard: false });
    v.push(ExcludePattern { pattern: "Thumbs.db", is_wildcard: false });
    v.push(ExcludePattern { pattern: "uv.lock", is_wildcard: false });
    v.push(ExcludePattern { pattern: ".venv", is_wildcard: false });
    v.push(ExcludePattern { pattern: ".next", is_wildcard: false });
    v.push(ExcludePattern { pattern: "*.pyc", is_wildcard: true });
    v.push(ExcludePattern { pattern: "*.class", is_wildcard: true });
    v.push(ExcludePattern { pattern: "*.o", is_wildcard: true });
    v.push(ExcludePattern { pattern: "*.so", is_wildcard: true });
    v.push(ExcludePattern { pattern: "*.dll", is_wildcard: true });
    v.push(ExcludePattern { pattern: "*.exe", is_wildcard: true });
    v.push(ExcludePattern { pattern: "*.jar", is_wildcard: true });
    v.push(ExcludePattern { pattern: "*.zip", is_wildcard: true });
    v.push(ExcludePattern { pattern: "*.tar.gz", is_wildcard: true });
    v.push(ExcludePattern { pattern: "*.log", is_wildcard: true });
    assert(rule_views(v@) =~= default_rules());
    v
}

/// The last component of a path, as `std::path::Path::file_name` gives it for
/// that text; `None` where the path has no final name.
pub uninterp spec fn file_name_of(path: Seq<char>) -> Option<Seq<char>>;

/// Relies on `std::path::Path::file_name`: the final component of the path,
/// which depends on the path's text alone. The input is valid UTF-8, so the
/// component converts to a `String` without loss.
#[verifier::external_body]
pub(crate) fn base_name(path: &str) -> (r: Option<String>)
    ensures
        file_name_of(path@) == match r {
            Some(n) => Some(n@),
            None => None::<Seq<char>>,
        },
{
    match std::path::Path::new(path).file_name() {
        Some(n) => Some(n.to_string_lossy().into_owned()),
        None => None,
    }
}

/// Whether the path is excluded: its base name is matched by some rule. A path
/// without a base name is never excluded.
pub open spec fn path_excluded(path: Seq<char>, rules: Seq<ExcludePattern>) -> bool {
    match file_name_of(path) {
        Some(n) => excluded_by(n, rules),
        None => false,
    }
}

/// Whether the entry at `path` must be skipped: only its base name is looked at.
pub fn should_exclude(path: &str, patterns: &[ExcludePattern]) -> (r: bool)
    ensures
        r == path_excluded(path@, patterns@),
{
    match base_name(path) {
        Some(n) => name_is_excluded(n.as_str(), patterns),
        None => false,
    }
}

/// A path whose base name equals the pattern of an exact rule is excluded.
pub proof fn lemma_exact_name_excluded(path: Seq<char>, rules: Seq<ExcludePattern>, i: int)
    requires
        0 <= i < rules.len(),
        !rules[i].is_wildcard,
        file_name_of(path) == Some(rules[i].pattern@),
    ensures
        path_excluded(path, rules),
{
    assert(rule_matches(rules[i], rules[i].pattern@));
}

/// A path whose base name no rule matches is kept, and so is a path without a
/// base name.
pub proof fn lemma_unmatched_name_kept(path: Seq<char>, rules: Seq<ExcludePattern>)
    requires
        forall|n: Seq<char>|
            file_name_of(path) == Some(n) ==> forall|i: int|
                0 <= i < rules.len() ==> !#[trigger] rule_matches(rules[i], n),
    ensures
        !path_excluded(path, rules),
{
}

/// A wildcard rule `*<ext>` excludes every name that ends with `<ext>`,
/// whatever comes before it, the name `<ext>` itself included.
pub proof fn lemma_suffix_rule_excludes(
    name: Seq<char>,
    rules: Seq<ExcludePattern>,
    i: int,
    ext: Seq<char>,
)
    requires
        0 <= i < rules.len(),
        rules[i].is_wildcard,
        rules[i].pattern@ == seq!['*'] + ext,
        ends_with(name, ext),
    ensures
        excluded_by(name, rules),
{
    let p = rules[i].pattern@;
    assert(is_first_star(p, 0));
    assert(wildcard_suffix(p, 0) =~= ext);
    assert(rule_matches(rules[i], name));
}

/// Every wildcard rule of the fixed table has the form `*<ext>`, so each of them
/// excludes exactly the names that end with the text after its `*`.
pub proof fn lemma_default_wildcards_are_suffixes(rules: Seq<ExcludePattern>, i: int, name: Seq<char>)
    requires
        rule_views(rules) == default_rules(),
        0 <= i < rules.len(),
        rules[i].is_wildcard,
        ends_with(name, rules[i].pattern@.drop_first()),
    ensures
        rules[i].pattern@.len() > 0,
        rules[i].pattern@[0] == '*',
        excluded_by(name, rules),
{
    reveal_strlit("*.pyc");
    reveal_strlit("*.class");
    reveal_strlit("*.o");
    reveal_strlit("*.so");
    reveal_strlit("*.dll");
    reveal_strlit("*.exe");
    reveal_strlit("*.jar");
    reveal_strlit("*.zip");
    reveal_strlit("*.tar.gz");
    reveal_strlit("*.log");
    assert(rule_views(rules)[i] == default_rules()[i]);
    let d = default_rules();
    assert(rule_views(rules)[i] == (rules[i].pattern@, rules[i].is_wildcard));
    assert(d.len() == 23);
    if i == 0 {
        assert(d[i].1 ==> d[i].0.len() > 0 && d[i].0[0] == '*');
    } else if i == 1 {
        assert(d[i].1 ==> d[i].0.len() > 0 && d[i].0[0] == '*');
    } else if i == 2 {
        assert(d[i].1 ==> d[i].0.len() > 0 && d[i].0[0] == '*');
    } else if i == 3 {
        assert(d[i].1 ==> d[i].0.len() > 0 && d[i].0[0] == '*');
    } else if i == 4 {
        assert(d[i].1 ==> d[i].0.len() > 0 && d[i].0[0] == '*');
    } else if i == 5 {
        assert(d[i].1 ==> d[i].0.len() > 0 && d[i].0[0] == '*');
    } else if i == 6 {
        assert(d[i].1 ==> d[i].0.len() > 0 && d[i].0[0] == '*');
    } else if i == 7 {
        assert(d[i].1 ==> d[i].0.len() > 0 && d[i].0[0] == '*');
    } else if i == 8 {
        assert(d[i].1 ==> d[i].0.len() > 0 && d[i].0[0] == '*');
    } else if i == 9 {
        assert(d[i].1 ==> d[i].0.len() > 0 && d[i].0[0] == '*');
    } else if i == 10 {
        assert(d[i].1 ==> d[i].0.len() > 0 && d[i].0[0] == '*');
    } else if i == 11 {
        assert(d[i].1 ==> d[i].0.len() > 0 && d[i].0[0] == '*');
    } else if i == 12 {
        assert(d[i].1 ==> d[i].0.len() > 0 && d[i].0[0] == '*');
    } else if i == 13 {
        assert(d[i].1 ==> d[i].0.len() > 0 && d[i].0[0] == '*');
    } else if i == 14 {
        assert(d[i].1 ==> d[i].0.len() > 0 && d[i].0[0] == '*');
    } else if i == 15 {
        assert(d[i].1 ==> d[i].0.len() > 0 && d[i].0[0] == '*');
    } else if i == 16 {
        assert(d[i].1 ==> d[i].0.len() > 0 && d[i].0[0] == '*');
    } else if i == 17 {
        assert(d[i].1 ==> d[i].0.len() > 0 && d[i].0[0] == '*');
    } else if i == 18 {
        assert(d[i].1 ==> d[i].0.len() > 0 && d[i].0[0] == '*');
    } else if i == 19 {
        assert(d[i].1 ==> d[i].0.len() > 0 && d[i].0[0] == '*');
    } else if i == 20 {
        assert(d[i].1 ==> d[i].0.len() > 0 && d[i].0[0] == '*');
    } else if i == 21 {
        assert(d[i].1 ==> d[i].0.len() > 0 && d[i].0[0] == '*');
    } else if i == 22 {
        assert(d[i].1 ==> d[i].0.len() > 0 && d[i].0[0] == '*');
    }
    let p = rules[i].pattern@;
    assert(p =~= seq!['*'] + p.drop_first());
    lemma_suffix_rule_excludes(name, rules, i, p.drop_first());
}

} // verus!

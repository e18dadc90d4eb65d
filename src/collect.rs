//! The decisions of the directory walk and the text it produces: for each
//! directory entry, whether it is reported as excluded, read as a file,
//! descended into, or passed over; the record written for a file; and the
//! name of the dump file.

use vstd::prelude::*;
use crate::exclude::{ExcludePattern, excluded_by, name_is_excluded, base_name, file_name_of};

verus! {

/// What kind of filesystem object an entry is, without following links.
#[derive(Clone, Copy, PartialEq, Eq, Structural)]
pub enum EntryKind {
    File,
    Dir,
    Other,
}

/// One entry of a directory listing. `name` is the entry's base name;
/// `name_is_exact` is false when the name was not valid text and `name` holds a
/// lossy rendering of it (such a name is never matched by a rule).
pub struct DirEntryInfo {
    pub name: String,
    pub name_is_exact: bool,
    pub kind: EntryKind,
}

/// What the walk does with one entry.
pub enum Step {
    /// The entry is skipped; `notice` is the line to print about it.
    Excluded { notice: String },
    /// The entry is a file to read; its record is headed by `rel_path`.
    ReadFile { rel_path: String },
    /// The entry is a directory to walk, shown as `path`, whose own entries are
    /// relative to the root under `rel_path`.
    Descend { path: String, rel_path: String },
    /// The entry is neither a file nor a directory, and is passed over.
    Skip,
}

/// The mathematical form of a `Step`.
pub enum StepView {
    Excluded { notice: Seq<char> },
    ReadFile { rel_path: Seq<char> },
    Descend { path: Seq<char>, rel_path: Seq<char> },
    Skip,
}

impl View for Step {
    type V = StepView;

    open spec fn view(&self) -> StepView {
        match self {
            Step::Excluded { notice } => StepView::Excluded { notice: notice@ },
            Step::ReadFile { rel_path } => StepView::ReadFile { rel_path: rel_path@ },
            Step::Descend { path, rel_path } => StepView::Descend {
                path: path@,
                rel_path: rel_path@,
            },
            Step::Skip => StepView::Skip,
        }
    }
}

/// `name` appended to the path `dir`, with a `/` between them unless `dir` is
/// empty or already ends with one.
pub open spec fn join_path(dir: Seq<char>, name: Seq<char>) -> Seq<char> {
    if dir.len() == 0 || dir.last() == '/' {
        dir + name
    } else {
        dir + seq!['/'] + name
    }
}

/// The path relative to the root of the entry `name` inside the directory whose
/// relative path is `rel` (empty for the root itself).
pub open spec fn child_rel_path(rel: Seq<char>, name: Seq<char>) -> Seq<char> {
    if rel.len() == 0 {
        name
    } else {
        rel + seq!['/'] + name
    }
}

/// The line printed for an excluded entry.
pub open spec fn exclusion_notice(path: Seq<char>) -> Seq<char> {
    "excluded path: "@ + path
}

/// What the walk does with an entry of the directory shown as `dir`, whose path
/// relative to the root is `rel`: the entry is called `name` (`exact` when
/// that is its true name) and is of kind `kind`.
pub open spec fn planned_step(
    dir: Seq<char>,
    rel: Seq<char>,
    name: Seq<char>,
    exact: bool,
    kind: EntryKind,
    rules: Seq<ExcludePattern>,
) -> StepView {
    if exact && excluded_by(name, rules) {
        StepView::Excluded { notice: exclusion_notice(join_path(dir, name)) }
    } else {
        match kind {
            EntryKind::File => StepView::ReadFile { rel_path: child_rel_path(rel, name) },
            EntryKind::Dir => StepView::Descend {
                path: join_path(dir, name),
                rel_path: child_rel_path(rel, name),
            },
            EntryKind::Other => StepView::Skip,
        }
    }
}

/// Appends `name` to the path `dir`, as `join_path` says.
pub fn join(dir: &str, name: &str) -> (r: String)
    ensures
        r@ == join_path(dir@, name@),
{
    let n = dir.unicode_len();
    let mut r = String::from_str(dir);
    if n != 0 && dir.get_char(n - 1) != '/' {
        r.append("/");
        proof {
            reveal_strlit("/");
        }
    }
    r.append(name);
    r
}

/// The path of the entry `name` relative to the root, inside the directory
/// whose relative path is `rel`.
pub fn child_rel(rel: &str, name: &str) -> (r: String)
    ensures
        r@ == child_rel_path(rel@, name@),
{
    let mut r = String::from_str(rel);
    if rel.unicode_len() != 0 {
        r.append("/");
        proof {
            reveal_strlit("/");
        }
    }
    r.append(name);
    r
}

/// Decides what the walk does with the entry `entry` of the directory shown as
/// `dir`, whose path relative to the root is `rel`: an excluded entry is only
/// reported, a file is read, a directory is walked, anything else is passed over.
pub fn plan_entry(dir: &str, rel: &str, entry: &DirEntryInfo, patterns: &[ExcludePattern]) -> (r:
    Step)
    ensures
        r@ == planned_step(dir@, rel@, entry.name@, entry.name_is_exact, entry.kind, patterns@),
{
    let name = entry.name.as_str();
    if entry.name_is_exact && name_is_excluded(name, patterns) {
        let mut notice = String::from_str("excluded path: ");
        let path = join(dir, name);
        notice.append(path.as_str());
        return Step::Excluded { notice };
    }
    match entry.kind {
        EntryKind::File => Step::ReadFile { rel_path: child_rel(rel, name) },
        EntryKind::Dir => Step::Descend { path: join(dir, name), rel_path: child_rel(rel, name) },
        EntryKind::Other => Step::Skip,
    }
}

/// The text written for one file: a `# <rel_path>` header line, then either the
/// file's contents or, where it could not be read, a placeholder line naming the
/// error, and then a blank line.
pub open spec fn record_text(rel_path: Seq<char>, content: Result<Seq<char>, Seq<char>>) -> Seq<
    char,
> {
    let header = "# "@ + rel_path + "\n"@;
    match content {
        Ok(text) => header + text + "\n\n"@,
        Err(error) => header + "[unable to read file: "@ + error + "]\n\n"@,
    }
}

/// The mathematical form of what reading a file gave.
pub open spec fn content_view(content: &Result<String, String>) -> Result<Seq<char>, Seq<char>> {
    match content {
        Ok(text) => Ok(text@),
        Err(error) => Err(error@),
    }
}

/// Builds the record of the file at `rel_path`, from its contents or from the
/// text of the error that reading it gave.
pub fn file_record(rel_path: &str, content: &Result<String, String>) -> (r: String)
    ensures
        r@ == record_text(rel_path@, content_view(content)),
{
    let mut r = String::from_str("# ");
    r.append(rel_path);
    r.append("\n");
    match content {
        Ok(text) => {
            r.append(text.as_str());
            r.append("\n\n");
        },
        Err(error) => {
            r.append("[unable to read file: ");
            r.append(error.as_str());
            r.append("]\n\n");
        },
    }
    r
}

/// The name of the dump file for a root directory whose base name is `folder`,
/// or `unknown` where it has none.
pub open spec fn context_name(folder: Option<Seq<char>>) -> Seq<char> {
    match folder {
        Some(n) => n + ".context.txt"@,
        None => "unknown"@ + ".context.txt"@,
    }
}

/// The name of the dump file, from the base name of the root directory.
pub fn context_file_name(folder: Option<&str>) -> (r: String)
    ensures
        r@ == context_name(
            match folder {
                Some(n) => Some(n@),
                None => None,
            },
        ),
{
    let mut r = match folder {
        Some(n) => String::from_str(n),
        None => String::from_str("unknown"),
    };
    r.append(".context.txt");
    r
}

/// The name of the dump file for the root directory given as `dir`.
pub fn output_file_name(dir: &str) -> (r: String)
    ensures
        r@ == context_name(file_name_of(dir@)),
{
    match base_name(dir) {
        Some(n) => context_file_name(Some(n.as_str())),
        None => context_file_name(None),
    }
}

} // verus!

//! Project detection and toolchain command tables.
//!
//! A `Project` is a directory with a name, a type (Rust or Python) and a
//! flag for the handful of work repositories with special build commands.
//! `build` and `format` compute the exact command line to run; the caller
//! spawns it and streams its output.

use vstd::prelude::*;
use vstd::string::StrSliceExecFns;
use vstd::string::StringExecFns;

use crate::layout::views;
use crate::textutil::eq_ignore_ascii_case;
use crate::textutil::folds_equal;
use crate::textutil::lower_of;
use crate::textutil::lowercase;
use crate::textutil::str_eq;

verus! {

/// The toolchains a project can be detected as.
#[derive(Clone, Copy, Debug, PartialEq, Eq, Structural)]
pub enum ProjectType {
    Rust,
    Python,
}

/// What a requested operation cannot do for the detected project type.
#[derive(Clone, Copy, Debug, PartialEq, Eq, Structural)]
pub enum ToolError {
    /// Building this project type is not supported yet.
    CannotBuild,
    /// Formatting this project type is not supported yet.
    CannotFormat,
}

impl ProjectType {
    /// The textual form the tool prints for this type.
    pub open spec fn describe_spec(&self) -> Seq<char> {
        match self {
            ProjectType::Rust => "ProjectType(Rust)"@,
            ProjectType::Python => "ProjectType(Python)"@,
        }
    }

    /// Renders the type for display.
    pub fn describe(&self) -> (r: String)
        ensures
            r@ == self.describe_spec(),
    {
        match self {
            ProjectType::Rust => String::from_str("ProjectType(Rust)"),
            ProjectType::Python => String::from_str("ProjectType(Python)"),
        }
    }
}

impl ToolError {
    /// The message the tool reports for this error.
    pub open spec fn message_spec(&self) -> Seq<char> {
        match self {
            ToolError::CannotBuild => "Cannot build this project type yet."@,
            ToolError::CannotFormat => "Cannot format this project type yet."@,
        }
    }

    /// Renders the error for display.
    pub fn message(&self) -> (r: String)
        ensures
            r@ == self.message_spec(),
    {
        match self {
            ToolError::CannotBuild => String::from_str("Cannot build this project type yet."),
            ToolError::CannotFormat => String::from_str("Cannot format this project type yet."),
        }
    }
}

/// A detected project.
#[derive(Debug)]
pub struct Project {
    pub name: String,
    pub work: bool,
    pub project_type: ProjectType,
}

/// The command line that builds a project: the work repository named
/// "hotshot" goes through `just`, everything else through `cargo`, with
/// `--release` appended on request.
pub open spec fn build_command(name: Seq<char>, work: bool, release: bool) -> Seq<Seq<char>> {
    let base = if work && name == "hotshot"@ {
        seq!["just"@, "async-std"@, "build"@]
    } else {
        seq!["cargo"@, "build"@]
    };
    if release {
        base.push("--release"@)
    } else {
        base
    }
}

/// The command line that formats a project, along the same split.
pub open spec fn format_command(name: Seq<char>, work: bool) -> Seq<Seq<char>> {
    if work && name == "hotshot"@ {
        seq!["just"@, "async-std"@, "fmt_lint"@]
    } else {
        seq!["cargo"@, "fmt"@]
    }
}

impl Project {
    /// The textual form the tool prints for a project.
    pub open spec fn describe_spec(&self) -> Seq<char> {
        "Project(name="@ + self.name@ + ", is_work_project="@ + (if self.work {
            "true"@
        } else {
            "false"@
        }) + ", project_type="@ + self.project_type.describe_spec() + ")"@
    }

    /// Makes a project from its parts.
    pub fn new(name: &str, work: bool, project_type: ProjectType) -> (p: Self)
        ensures
            p.name@ == name@,
            p.work == work,
            p.project_type == project_type,
    {
        Self { name: name.to_owned(), work, project_type }
    }

    /// Renders the project for display.
    pub fn describe(&self) -> (r: String)
        ensures
            r@ == self.describe_spec(),
    {
        let mut s = String::from_str("Project(name=");
        s.append(self.name.as_str());
        s.append(", is_work_project=");
        if self.work {
            s.append("true");
        } else {
            s.append("false");
        }
        s.append(", project_type=");
        let t = self.project_type.describe();
        s.append(t.as_str());
        s.append(")");
        proof {
            assert(s@ =~= self.describe_spec());
        }
        s
    }

    /// The command line to build this project: exactly `build_command` for a
    /// Rust project, and `CannotBuild` for a Python one.
    pub fn build(&self, release: bool) -> (r: Result<Vec<String>, ToolError>)
        ensures
            self.project_type == ProjectType::Rust ==> (r matches Ok(c) && views(c@)
                == build_command(self.name@, self.work, release)),
            self.project_type == ProjectType::Python ==> r == Result::<Vec<String>, ToolError>::Err(
                ToolError::CannotBuild,
            ),
    {
        match self.project_type {
            ProjectType::Rust => Ok(self.build_rust(release)),
            ProjectType::Python => Err(ToolError::CannotBuild),
        }
    }

    /// The command line to format this project: exactly `format_command` for
    /// a Rust project, and `CannotFormat` for a Python one.
    pub fn format(&self) -> (r: Result<Vec<String>, ToolError>)
        ensures
            self.project_type == ProjectType::Rust ==> (r matches Ok(c) && views(c@)
                == format_command(self.name@, self.work)),
            self.project_type == ProjectType::Python ==> r == Result::<Vec<String>, ToolError>::Err(
                ToolError::CannotFormat,
            ),
    {
        match self.project_type {
            ProjectType::Rust => Ok(self.format_rust()),
            ProjectType::Python => Err(ToolError::CannotFormat),
        }
    }

    /// The build command line, before the project type is considered.
    fn build_rust(&self, release: bool) -> (r: Vec<String>)
        ensures
            views(r@) == build_command(self.name@, self.work, release),
    {
        let mut v: Vec<String> = Vec::new();
        if self.work && str_eq(self.name.as_str(), "hotshot") {
            v.push(String::from_str("just"));
            v.push(String::from_str("async-std"));
            v.push(String::from_str("build"));
        } else {
            v.push(String::from_str("cargo"));
            v.push(String::from_str("build"));
        }
        if release {
            v.push(String::from_str("--release"));
        }
        proof {
            assert(views(v@) =~~= build_command(self.name@, self.work, release));
        }
        v
    }

    /// The format command line, before the project type is considered.
    fn format_rust(&self) -> (r: Vec<String>)
        ensures
            views(r@) == format_command(self.name@, self.work),
    {
        let mut v: Vec<String> = Vec::new();
        if self.work && str_eq(self.name.as_str(), "hotshot") {
            v.push(String::from_str("just"));
            v.push(String::from_str("async-std"));
            v.push(String::from_str("fmt_lint"));
        } else {
            v.push(String::from_str("cargo"));
            v.push(String::from_str("fmt"));
        }
        proof {
            assert(views(v@) =~~= format_command(self.name@, self.work));
        }
        v
    }
}

/// The five work repositories with special build commands, in the order
/// they are probed.
pub open spec fn work_names() -> Seq<Seq<char>> {
    seq![
        "hotshot"@,
        "espresso-sequencer"@,
        "hotshot-builder-core"@,
        "hotshot-query-service"@,
        "hotshot-events-service"@,
    ]
}

/// Whether `s` is one of the work repository names.
pub open spec fn is_work_name(s: Seq<char>) -> bool {
    work_names().contains(s)
}

/// The `k`-th work repository name.
fn nth_work_name(k: usize) -> (r: &'static str)
    requires
        k < 5,
    ensures
        r@ == work_names()[k as int],
{
    match k {
        0 => "hotshot",
        1 => "espresso-sequencer",
        2 => "hotshot-builder-core",
        3 => "hotshot-query-service",
        _ => "hotshot-events-service",
    }
}

/// Whether `s` is one of the work repository names, decided at run time.
fn is_work_name_exec(s: &str) -> (r: bool)
    ensures
        r == is_work_name(s@),
{
    let mut k: usize = 0;
    while k < 5
        invariant
            k <= 5,
            forall|i: int| 0 <= i < k ==> work_names()[i] != s@,
        decreases 5 - k,
    {
        if str_eq(s, nth_work_name(k)) {
            proof {
                assert(work_names()[k as int] == s@);
            }
            return true;
        }
        k += 1;
    }
    proof {
        assert(work_names().len() == 5);
        assert(!work_names().contains(s@));
    }
    false
}

/// Whether some component of one path matches `pname` up to ASCII case.
pub open spec fn component_matches(path: Seq<Seq<char>>, pname: Seq<char>) -> bool {
    exists|j: int| 0 <= j < path.len() && folds_equal(#[trigger] path[j], pname)
}

/// Whether some component of some path matches `pname` up to ASCII case.
pub open spec fn any_component_matches(paths: Seq<Seq<Seq<char>>>, pname: Seq<char>) -> bool {
    exists|i: int| 0 <= i < paths.len() && component_matches(#[trigger] paths[i], pname)
}

/// The first work name, in probe order, that some path component matches.
pub open spec fn first_work_match(paths: Seq<Seq<Seq<char>>>, k: int) -> Option<Seq<char>>
    decreases 5 - k,
{
    if k < 0 || k >= 5 {
        None
    } else if any_component_matches(paths, work_names()[k]) {
        Some(work_names()[k])
    } else {
        first_work_match(paths, k + 1)
    }
}

/// The component sequences of a list of paths.
pub open spec fn path_views(paths: Seq<Vec<String>>) -> Seq<Seq<Seq<char>>> {
    paths.map_values(|p: Vec<String>| views(p@))
}

/// Detects a work project the way the build tool does: the directory's
/// lowercased name must itself be a work name, and then the first work name
/// in probe order that matches some component of some listed path, up to
/// ASCII case, wins. Each path is handed in as its components.
pub fn detect_work_project(dirname: &str, paths: &Vec<Vec<String>>) -> (r: Option<String>)
    ensures
        ({
            let pv = path_views(paths@);
            &&& !is_work_name(lower_of(dirname@)) ==> r is None
            &&& is_work_name(lower_of(dirname@)) ==> match r {
                Some(s) => first_work_match(pv, 0) == Some(s@),
                None => first_work_match(pv, 0) is None,
            }
        }),
{
    let ghost pv = path_views(paths@);
    let lower = lowercase(dirname);
    if !is_work_name_exec(lower.as_str()) {
        return None;
    }
    let mut k: usize = 0;
    while k < 5
        invariant
            k <= 5,
            pv == path_views(paths@),
            is_work_name(lower_of(dirname@)),
            first_work_match(pv, 0) == first_work_match(pv, k as int),
        decreases 5 - k,
    {
        let pname = nth_work_name(k);
        let mut i: usize = 0;
        while i < paths.len()
            invariant
                k < 5,
                i <= paths@.len(),
                pv == path_views(paths@),
                is_work_name(lower_of(dirname@)),
                first_work_match(pv, 0) == first_work_match(pv, k as int),
                pname@ == work_names()[k as int],
                forall|ii: int| 0 <= ii < i ==> !component_matches(#[trigger] pv[ii], pname@),
            decreases paths@.len() - i,
        {
            let comps = &paths[i];
            let mut j: usize = 0;
            while j < comps.len()
                invariant
                    k < 5,
                    i < paths@.len(),
                    j <= comps@.len(),
                    comps@ == paths@[i as int]@,
                    pv == path_views(paths@),
                    is_work_name(lower_of(dirname@)),
                    first_work_match(pv, 0) == first_work_match(pv, k as int),
                    pname@ == work_names()[k as int],
                    forall|jj: int|
                        0 <= jj < j ==> !folds_equal(#[trigger] pv[i as int][jj], pname@),
                decreases comps@.len() - j,
            {
                if eq_ignore_ascii_case(comps[j].as_str(), pname) {
                    proof {
                        assert(pv[i as int][j as int] == comps@[j as int]@);
                        assert(component_matches(pv[i as int], pname@));
                        assert(any_component_matches(pv, pname@));
                        assert(first_work_match(pv, k as int) == Some(pname@));
                    }
                    return Some(pname.to_owned());
                }
                j += 1;
            }
            proof {
                assert(pv[i as int].len() == comps@.len());
                assert(!component_matches(pv[i as int], pname@));
            }
            i += 1;
        }
        proof {
            assert(!any_component_matches(pv, pname@));
        }
        k += 1;
    }
    None
}

/// Position of the last dot among positions `1 .. i` of `name`, 0 when
/// there is none: a dot that leads the name does not begin an extension.
pub open spec fn last_dot_before(name: Seq<char>, i: int) -> int
    decreases i,
{
    if i <= 1 {
        0
    } else if name[i - 1] == '.' {
        i - 1
    } else {
        last_dot_before(name, i - 1)
    }
}

/// The extension of a plain file name, as `Path::extension` finds it: what
/// follows the last dot, unless the only dot leads the name.
pub open spec fn extension_of(name: Seq<char>) -> Option<Seq<char>> {
    let j = last_dot_before(name, name.len() as int);
    if j == 0 {
        None
    } else {
        Some(name.skip(j + 1))
    }
}

/// The extension of `name`, when it has one.
pub fn extension<'a>(name: &'a str) -> (r: Option<&'a str>)
    ensures
        match r {
            Some(e) => extension_of(name@) == Some(e@),
            None => extension_of(name@) is None,
        },
{
    let n = name.unicode_len();
    let mut i: usize = n;
    while i > 1
        invariant
            i <= n,
            n == name@.len(),
            last_dot_before(name@, n as int) == last_dot_before(name@, i as int),
        decreases i,
    {
        let c = name.get_char(i - 1);
        if c == '.' {
            let e = name.substring_char(i, n);
            proof {
                assert(last_dot_before(name@, i as int) == i - 1);
                assert(e@ =~= name@.skip(i as int));
            }
            return Some(e);
        }
        i -= 1;
    }
    proof {
        assert(last_dot_before(name@, i as int) == 0);
    }
    None
}

/// The project type one directory entry suggests, if any: known manifest
/// names first (compared in lower case), then source-file extensions.
pub open spec fn entry_project_type(name: Seq<char>) -> Option<ProjectType> {
    if lower_of(name) == "cargo.toml"@ {
        Some(ProjectType::Rust)
    } else if lower_of(name) == "requirements.txt"@ || lower_of(name) == "pyproject.toml"@ {
        Some(ProjectType::Python)
    } else if extension_of(name) == Some("rs"@) {
        Some(ProjectType::Rust)
    } else if extension_of(name) == Some("py"@) {
        Some(ProjectType::Python)
    } else {
        None
    }
}

/// The first entry that suggests a type decides it.
pub open spec fn first_project_type(names: Seq<Seq<char>>, i: int) -> Option<ProjectType>
    decreases names.len() - i,
{
    if i < 0 || i >= names.len() {
        None
    } else if entry_project_type(names[i]) is Some {
        entry_project_type(names[i])
    } else {
        first_project_type(names, i + 1)
    }
}

/// Detects the project type from the file names of a directory listing:
/// the first name that suggests a type decides it.
pub fn detect_project_type(file_names: &Vec<String>) -> (r: Option<ProjectType>)
    ensures
        r == first_project_type(views(file_names@), 0),
{
    let ghost nv = views(file_names@);
    let mut i: usize = 0;
    while i < file_names.len()
        invariant
            i <= nv.len(),
            nv == views(file_names@),
            first_project_type(nv, 0) == first_project_type(nv, i as int),
        decreases nv.len() - i,
    {
        let name = &file_names[i];
        proof {
            assert(nv[i as int] == name@);
        }
        let lower = lowercase(name.as_str());
        if str_eq(lower.as_str(), "cargo.toml") {
            proof {
                assert(entry_project_type(nv[i as int]) == Some(ProjectType::Rust));
            }
            return Some(ProjectType::Rust);
        }
        if str_eq(lower.as_str(), "requirements.txt") || str_eq(lower.as_str(), "pyproject.toml") {
            proof {
                assert(entry_project_type(nv[i as int]) == Some(ProjectType::Python));
            }
            return Some(ProjectType::Python);
        }
        match extension(name.as_str()) {
            Some(e) => {
                if str_eq(e, "rs") {
                    proof {
                        assert(entry_project_type(nv[i as int]) == Some(ProjectType::Rust));
                    }
                    return Some(ProjectType::Rust);
                }
                if str_eq(e, "py") {
                    proof {
                        assert(entry_project_type(nv[i as int]) == Some(ProjectType::Python));
                    }
                    return Some(ProjectType::Python);
                }
                proof {
                    assert(entry_project_type(nv[i as int]) is None);
                }
            },
            None => {
                proof {
                    assert(entry_project_type(nv[i as int]) is None);
                }
            },
        }
        i += 1;
    }
    None
}

/// `path` with its trailing slashes removed.
pub open spec fn strip_trailing_slashes(p: Seq<char>) -> Seq<char>
    decreases p.len(),
{
    if p.len() > 0 && p.last() == '/' {
        strip_trailing_slashes(p.drop_last())
    } else {
        p
    }
}

/// Position of the last slash among positions `0 .. i` of `p`, -1 when none.
pub open spec fn last_slash_before(p: Seq<char>, i: int) -> int
    decreases i,
{
    if i <= 0 {
        -1
    } else if p[i - 1] == '/' {
        i - 1
    } else {
        last_slash_before(p, i - 1)
    }
}

/// The file name of a path: what follows the last slash once trailing
/// slashes are gone; nothing when that is empty or a dot component.
pub open spec fn file_name_of(path: Seq<char>) -> Option<Seq<char>> {
    let p = strip_trailing_slashes(path);
    let name = p.skip(last_slash_before(p, p.len() as int) + 1);
    if name.len() == 0 || name == "."@ || name == ".."@ {
        None
    } else {
        Some(name)
    }
}

/// The name of the project in the directory `path`: the directory's own
/// name, when the path has one.
pub fn find_project_name(path: &str) -> (r: Option<String>)
    ensures
        match r {
            Some(s) => file_name_of(path@) == Some(s@),
            None => file_name_of(path@) is None,
        },
{
    let n = path.unicode_len();
    proof {
        assert(path@.take(n as int) =~= path@);
    }
    let mut end: usize = n;
    while end > 0 && path.get_char(end - 1) == '/'
        invariant
            end <= n,
            n == path@.len(),
            strip_trailing_slashes(path@) == strip_trailing_slashes(path@.take(end as int)),
        decreases end,
    {
        proof {
            assert(path@.take(end as int).last() == path@[end - 1]);
            assert(path@.take(end as int).drop_last() =~= path@.take(end - 1));
        }
        end -= 1;
    }
    proof {
        assert(path@.take(n as int) =~= path@);
        assert(strip_trailing_slashes(path@.take(end as int)) == path@.take(end as int));
    }
    let ghost p = strip_trailing_slashes(path@);
    proof {
        assert(p == path@.take(end as int));
        assert(p.len() == end);
    }
    let mut i: usize = end;
    while i > 0 && path.get_char(i - 1) != '/'
        invariant
            i <= end,
            end <= n,
            n == path@.len(),
            p == path@.take(end as int),
            last_slash_before(p, end as int) == last_slash_before(p, i as int),
        decreases i,
    {
        proof {
            assert(p[i - 1] == path@[i - 1]);
        }
        i -= 1;
    }
    proof {
        if i > 0 {
            assert(p[i - 1] == path@[i - 1]);
            assert(last_slash_before(p, i as int) == i - 1);
        } else {
            assert(last_slash_before(p, 0) == -1);
        }
        assert(last_slash_before(p, end as int) == i - 1);
    }
    let name = path.substring_char(i, end);
    proof {
        assert(name@ =~= p.skip(i as int));
    }
    if name.is_empty() || str_eq(name, ".") || str_eq(name, "..") {
        proof {
            if name@.len() == 0 {
            } else {
                assert(name@ == "."@ || name@ == ".."@);
            }
        }
        return None;
    }
    Some(name.to_owned())
}

} // verus!

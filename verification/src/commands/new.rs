//! `yuki-tool new`: a new problem's directory, with the skeleton the writer
//! fills in.

use vstd::prelude::*;

use crate::config::{Problem, Repo};
use crate::local::{join_path, path_join, ProblemDir};
use crate::models::Which;
use crate::text::{chars_of, decimal, has_prefix, i64_to_string, is_blank, trim};

verus! {

/// Why a new problem directory cannot be made.
#[derive(Debug, PartialEq, Eq)]
pub enum NewError {
    /// The repository already has the problem, in `dir`.
    Exists { problem_id: i64, dir: String },
    /// `--dir` is not a plain path below the problems directory.
    NotRelative { dir: String },
}

/// A `..` segment starts at `i` in the `/`-separated path `s`.
pub open spec fn dotdot_at(s: Seq<char>, i: int) -> bool {
    &&& 0 <= i
    &&& i + 2 <= s.len()
    &&& s[i] == '.'
    &&& s[i + 1] == '.'
    &&& (i == 0 || s[i - 1] == '/')
    &&& (i + 2 == s.len() || s[i + 2] == '/')
}

/// Every component of the path `s` is a plain name: it is not absolute, does
/// not start with `.`, and has no `..` (`Path::components` yields only
/// `Component::Normal`).
pub open spec fn plain_path(s: Seq<char>) -> bool {
    &&& !(s.len() > 0 && s[0] == '/')
    &&& !(s == seq!['.'] || has_prefix(s, seq!['.', '/']))
    &&& forall|i: int| !dotdot_at(s, i)
}

/// The directory asked for: `dir`, or the problem id.
pub open spec fn asked_dir(dir: Option<Seq<char>>, problem_id: i64) -> Seq<char> {
    match dir {
        Some(d) => d,
        None => decimal(problem_id as int),
    }
}

fn is_plain_path(s: &str) -> (r: bool)
    ensures
        r == plain_path(s@),
{
    let cs = chars_of(s);
    let n = cs.len();
    if n > 0 && cs[0] == '/' {
        assert(s@[0] == '/');
        return false;
    }
    if (n == 1 && cs[0] == '.') || (n >= 2 && cs[0] == '.' && cs[1] == '/') {
        assert(n >= 2 ==> cs@.subrange(0, 2) =~= seq!['.', '/']);
        assert(n == 1 ==> cs@ =~= seq!['.']);
        return false;
    }
    assert(!(cs@ == seq!['.'])) by {
        if cs@ == seq!['.'] {
            assert(n == 1 && cs@[0] == '.');
        }
    }
    assert(!has_prefix(cs@, seq!['.', '/'])) by {
        if has_prefix(cs@, seq!['.', '/']) {
            assert(cs@.subrange(0, 2)[0] == '.' && cs@.subrange(0, 2)[1] == '/');
        }
    }
    let mut i: usize = 0;
    while i < n
        invariant
            n == cs@.len(),
            cs@ == s@,
            i <= n,
            forall|k: int| 0 <= k < i ==> !dotdot_at(cs@, k),
        decreases n - i,
    {
        if i + 1 < n && cs[i] == '.' && cs[i + 1] == '.' && (i == 0 || cs[i - 1] == '/') && (i + 2
            == n || cs[i + 2] == '/') {
            assert(dotdot_at(cs@, i as int));
            return false;
        }
        i = i + 1;
    }
    assert forall|k: int| !dotdot_at(cs@, k) by {
        if 0 <= k < n {
        }
    }
    true
}

/// Checks `--dir` as a path below the problems directory (the problem id when
/// it is not given): a blank path, an absolute one, one that starts with `.`
/// or goes up with `..` would write outside it.
pub fn relative_dir(dir: Option<String>, problem_id: i64) -> (r: Result<String, NewError>)
    ensures
        ({
            let d = asked_dir(match dir { Some(s) => Some(s@), None => None }, problem_id);
            &&& r is Ok <==> (trim(d).len() > 0 && plain_path(d))
            &&& r matches Ok(p) ==> p@ == d
            &&& r matches Err(e) ==> (e matches NewError::NotRelative { dir: x } && x@ == d)
        }),
{
    let d = match dir {
        Some(s) => s,
        None => i64_to_string(problem_id),
    };
    if is_blank(d.as_str()) || !is_plain_path(d.as_str()) {
        return Err(NewError::NotRelative { dir: d });
    }
    Ok(d)
}

/// The directory for a new problem: `<root>/<problems_dir>/<dir>`, where
/// `dir` is checked by [`relative_dir`]. A problem that the repository
/// already has (in `problems`) is refused, since two directories of one
/// problem make `push` race.
pub fn new_problem_dir(repo: &Repo, problems: &Vec<Problem>, problem_id: i64, dir: Option<String>) -> (r: Result<ProblemDir, NewError>)
    ensures
        ({
            let d = asked_dir(match dir { Some(s) => Some(s@), None => None }, problem_id);
            match crate::config::dir_of(problems@, problem_id) {
                Some(existing) => r matches Err(NewError::Exists { problem_id: id, dir: x }) && id == problem_id && x@
                    == existing,
                None => if trim(d).len() > 0 && plain_path(d) {
                    r matches Ok(p) && p.id_spec() == problem_id && p.root_spec() == join_path(
                        join_path(repo.root@, repo.config.problems_dir@),
                        d,
                    )
                } else {
                    r matches Err(NewError::NotRelative { dir: x }) && x@ == d
                },
            }
        }),
{
    let mut i: usize = 0;
    assert(problems@.subrange(0, problems@.len() as int) == problems@);
    while i < problems.len()
        invariant
            i <= problems@.len(),
            crate::config::dir_of(problems@, problem_id) == crate::config::dir_of(
                problems@.subrange(i as int, problems@.len() as int),
                problem_id,
            ),
        decreases problems@.len() - i,
    {
        let ghost rest = problems@.subrange(i as int, problems@.len() as int);
        assert(rest.drop_first() == problems@.subrange(i + 1, problems@.len() as int));
        if problems[i].id == problem_id {
            return Err(NewError::Exists { problem_id, dir: problems[i].dir.clone() });
        }
        i = i + 1;
    }
    assert(problems@.subrange(i as int, problems@.len() as int).len() == 0);
    let rel = relative_dir(dir, problem_id)?;
    let base = repo.problems_root();
    let root = path_join(base.as_str(), rel.as_str());
    Ok(ProblemDir::new(root, problem_id))
}

/// The empty directories a new problem starts with: `testcases/in`,
/// `testcases/out` and `solutions`.
pub fn skeleton_dirs(dir: &ProblemDir) -> (r: Vec<String>)
    ensures
        r@.len() == 3,
        r@[0]@ == join_path(join_path(dir.root_spec(), "testcases"@), Which::In.name()),
        r@[1]@ == join_path(join_path(dir.root_spec(), "testcases"@), Which::Out.name()),
        r@[2]@ == join_path(dir.root_spec(), "solutions"@),
{
    let mut v: Vec<String> = Vec::new();
    v.push(dir.testcase_dir(Which::In));
    v.push(dir.testcase_dir(Which::Out));
    v.push(path_join(dir.root(), "solutions"));
    v
}

/// A checked `--dir` stays below the problems directory: the joined path
/// starts with the directory, and no component of the rest goes up.
pub proof fn lemma_relative_dir_stays_inside(base: Seq<char>, dir: Seq<char>)
    requires
        trim(dir).len() > 0,
        plain_path(dir),
    ensures
        has_prefix(join_path(base, dir), base),
        forall|i: int| !dotdot_at(dir, i),
{
    assert(dir.len() > 0) by {
        if dir.len() == 0 {
            assert(trim(dir).len() == 0) by {
                crate::text::lemma_trim_all_ws(dir);
            }
        }
    }
    let j = join_path(base, dir);
    if base.len() == 0 {
        assert(j.subrange(0, 0) =~= base);
    } else if base.last() == '/' {
        assert(j.subrange(0, base.len() as int) =~= base);
    } else {
        assert(j.subrange(0, base.len() as int) =~= base);
    }
}

} // verus!

//! The decisions behind the subcommands. The commands themselves read and
//! write files and talk to the server; what they decide on the values they
//! read is here.

pub mod diff;
pub mod init;
pub mod languages;
pub mod new;
pub mod pull;
pub mod push;
pub mod submit;
pub mod testcases;

use vstd::prelude::*;

use crate::config::{ConfigError, Problem, Repo};
use crate::local::ProblemDir;

verus! {

/// The problems a command is asked to work on: one id, or `--all`.
pub struct Target {
    /// The problem id (without it, the only problem of the repository).
    pub problem_id: Option<i64>,
    /// Every problem of the repository.
    pub all: bool,
}

/// The repository a command runs in.
pub struct Context {
    pub repo: Repo,
}

impl Context {
    /// The local directory of a problem (see [`Repo::problem_dir`]).
    pub fn problem_dir(&self, problems: &Vec<Problem>, problem_id: i64, fallback_claimed: bool) -> (r: Result<ProblemDir, ConfigError>)
        ensures
            match r {
                Ok(d) => self.repo.dir_for(problems@, problem_id, fallback_claimed) == Some(d.root_spec())
                    && d.id_spec() == problem_id,
                Err(e) => self.repo.dir_for(problems@, problem_id, fallback_claimed) is None
                    && (e matches ConfigError::OtherProblemDir { dir, problem_id: id }
                    && dir@ == self.repo.fallback_spec(problem_id) && id == problem_id),
            },
    {
        let root = self.repo.problem_dir(problems, problem_id, fallback_claimed)?;
        Ok(ProblemDir::new(root, problem_id))
    }
}

} // verus!

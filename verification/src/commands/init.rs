//! `yuki-tool init`: the repository's settings file, and a warning when
//! `.env` (where tokens live) is not ignored by Git.

use vstd::prelude::*;

use crate::text::{lines, split_lines, str_eq, trim, trim_str};

verus! {

/// `.gitignore` has a line that is `.env` (spaces around it aside).
pub open spec fn ignores_dotenv(text: Seq<char>) -> bool {
    exists|i: int| 0 <= i < lines(text).len() && trim(#[trigger] lines(text)[i]) == ".env"@
}

/// Whether `.gitignore` (its text; `None` when it cannot be read) keeps
/// `.env` out of the repository.
pub fn dotenv_ignored(gitignore: Option<&str>) -> (r: bool)
    ensures
        r == match gitignore {
            Some(t) => ignores_dotenv(t@),
            None => false,
        },
{
    match gitignore {
        None => false,
        Some(text) => {
            let ls = split_lines(text);
            let mut i: usize = 0;
            while i < ls.len()
                invariant
                    gitignore == Some(text),
                    i <= ls@.len(),
                    ls@.len() == lines(text@).len(),
                    forall|j: int| 0 <= j < ls@.len() ==> #[trigger] ls@[j]@ == lines(text@)[j],
                    forall|j: int| 0 <= j < i ==> trim(#[trigger] lines(text@)[j]) != ".env"@,
                decreases ls@.len() - i,
            {
                let t = trim_str(ls[i].as_str());
                if str_eq(t.as_str(), crate::config::DOTENV_FILE) {
                    assert(trim(lines(text@)[i as int]) == ".env"@);
                    assert(ignores_dotenv(text@));
                    return true;
                }
                i = i + 1;
            }
            false
        },
    }
}

} // verus!

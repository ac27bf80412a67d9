//! `yuki-tool pull`: what the server's content becomes in the local files.

use vstd::prelude::*;

use crate::local::{GeneratorConfig, JudgeConfig};
use crate::models::{GeneratorContent, JudgeCodeContent};
use crate::text::{chars_of, has_prefix, is_blank, push_str, starts_with, string_of, trim};

verus! {

/// Why pulling a problem stops.
#[derive(Debug, PartialEq, Eq)]
pub enum PullError {
    /// The server answered with another problem than the one asked for.
    OtherProblem { requested: i64, returned: i64 },
}

/// The file extension for a language id: by its prefix, `txt` for an unknown
/// language.
pub open spec fn source_ext(lang_id: Seq<char>) -> Seq<char> {
    if has_prefix(lang_id, "cpp"@) {
        "cpp"@
    } else if has_prefix(lang_id, "python"@) || has_prefix(lang_id, "pypy"@) {
        "py"@
    } else if has_prefix(lang_id, "rust"@) {
        "rs"@
    } else if has_prefix(lang_id, "go"@) {
        "go"@
    } else if has_prefix(lang_id, "java"@) {
        "java"@
    } else {
        "txt"@
    }
}

/// `<stem>.<ext>`: the name of a source file pulled for the first time.
pub open spec fn source_file_spec(stem: Seq<char>, lang_id: Seq<char>) -> Seq<char> {
    stem + seq!['.'] + source_ext(lang_id)
}

/// The name of a source file pulled for the first time, with the extension
/// of its language.
pub fn source_file_name(stem: &str, lang_id: &str) -> (r: String)
    ensures
        r@ == source_file_spec(stem@, lang_id@),
{
    let ext = if starts_with(lang_id, "cpp") {
        "cpp"
    } else if starts_with(lang_id, "python") || starts_with(lang_id, "pypy") {
        "py"
    } else if starts_with(lang_id, "rust") {
        "rs"
    } else if starts_with(lang_id, "go") {
        "go"
    } else if starts_with(lang_id, "java") {
        "java"
    } else {
        "txt"
    };
    proof {
        reveal_strlit("cpp");
        reveal_strlit("python");
        reveal_strlit("pypy");
        reveal_strlit("rust");
        reveal_strlit("go");
        reveal_strlit("java");
    }
    let mut acc = chars_of(stem);
    acc.push('.');
    push_str(&mut acc, ext);
    string_of(&acc)
}

/// The server must answer for the problem that was asked for.
pub fn check_returned_id(requested: i64, returned: i64) -> (r: Result<(), PullError>)
    ensures
        requested == returned ==> r is Ok,
        requested != returned ==> r == Err::<(), PullError>(PullError::OtherProblem { requested, returned }),
{
    if requested == returned {
        Ok(())
    } else {
        Err(PullError::OtherProblem { requested, returned })
    }
}

/// The source file name to keep: the one the local configuration already
/// uses, or else a new one from the language.
pub open spec fn kept_source_file(existing: Option<Seq<char>>, stem: Seq<char>, lang_id: Seq<char>) -> Seq<char> {
    match existing {
        Some(f) => f,
        None => source_file_spec(stem, lang_id),
    }
}

pub open spec fn opt_view(o: Option<String>) -> Option<Seq<char>> {
    match o {
        Some(s) => Some(s@),
        None => None,
    }
}

/// The generator configuration to write for the server's generator, `None`
/// when none is registered (its source is blank): then no local file is made.
/// `existing_source` is the source file of the local `generator.toml`.
pub fn generator_config(remote: &GeneratorContent, existing_source: Option<String>) -> (r: Option<GeneratorConfig>)
    ensures
        r is None <==> trim(remote.source@).len() == 0,
        r matches Some(c) ==> {
            &&& c.lang_id@ == remote.lang_id@
            &&& c.source_file@ == kept_source_file(opt_view(existing_source), "generator"@, remote.lang_id@)
            &&& c.test_case_num == remote.test_case_num
            &&& c.prefix is None
        },
{
    if is_blank(remote.source.as_str()) {
        return None;
    }
    let source_file = match existing_source {
        Some(f) => f,
        None => source_file_name("generator", remote.lang_id.as_str()),
    };
    Some(GeneratorConfig {
        lang_id: remote.lang_id.clone(),
        source_file,
        test_case_num: remote.test_case_num,
        prefix: None,
    })
}

/// What pulling the judge code does.
pub enum JudgePull {
    /// The server has no judge code API (`GET /code` is 404): nothing is
    /// written, and the rest of the pull goes on.
    Unsupported,
    /// No judge code is registered (blank source): nothing is written.
    NotRegistered,
    /// Write `judge.toml` with this configuration and the source.
    Write(JudgeConfig),
}

/// The judge code configuration to write for the server's judge code
/// (`None`: the API is missing). `existing_source` is the source file of the
/// local `judge.toml`.
pub fn judge_config(remote: &Option<JudgeCodeContent>, existing_source: Option<String>) -> (r: JudgePull)
    ensures
        match remote {
            None => r is Unsupported,
            Some(code) => if trim(code.source@).len() == 0 {
                r is NotRegistered
            } else {
                r matches JudgePull::Write(c) && c.lang_id@ == code.lang_id@ && c.source_file@
                    == kept_source_file(opt_view(existing_source), "judge"@, code.lang_id@)
            },
        },
{
    match remote {
        None => JudgePull::Unsupported,
        Some(code) => {
            if is_blank(code.source.as_str()) {
                JudgePull::NotRegistered
            } else {
                let source_file = match existing_source {
                    Some(f) => f,
                    None => source_file_name("judge", code.lang_id.as_str()),
                };
                JudgePull::Write(JudgeConfig { lang_id: code.lang_id.clone(), source_file })
            }
        },
    }
}

} // verus!

//! The requests the client makes: the base URL, the paths of the API, what
//! a failed answer is reported as, and the checks on what the server sends.
//!
//! Authentication is `Authorization: Bearer <token>` with an account's API
//! key or a problem's edit token; the token never goes into a message.

use vstd::prelude::*;

use crate::local::{sanitized, sanitized_file_name};
use crate::models::Which;
use crate::text::{chars_of, decimal, i64_to_string, is_blank, push_str, str_eq, string_of, trim, trim_str};

verus! {

/// Why a request is not made, or what the server answered is refused.
#[derive(Debug, PartialEq, Eq)]
pub enum ApiError {
    /// The token is blank.
    EmptyToken,
    /// The server listed a test case name that is not a plain file name
    /// (empty, or changed by sanitising: `/`, `..` and the like).
    BadTestcaseName { name: String },
}

/// `s` without the `c` at its end, however many there are.
pub open spec fn strip_trailing(s: Seq<char>, c: char) -> Seq<char>
    decreases s.len(),
{
    if s.len() > 0 && s.last() == c {
        strip_trailing(s.drop_last(), c)
    } else {
        s
    }
}

/// The base URL without trailing `/` (`str::trim_end_matches('/')`), so that
/// paths starting with `/` can follow it.
pub fn base_url(url: &str) -> (r: String)
    ensures
        r@ == strip_trailing(url@, '/'),
{
    let cs = chars_of(url);
    let mut n = cs.len();
    assert(cs@.subrange(0, n as int) == cs@);
    while n > 0 && cs[n - 1] == '/'
        invariant
            n <= cs@.len(),
            strip_trailing(url@, '/') == strip_trailing(cs@.subrange(0, n as int), '/'),
            cs@ == url@,
        decreases n,
    {
        assert(cs@.subrange(0, n as int).drop_last() == cs@.subrange(0, n - 1));
        n = n - 1;
    }
    let mut out: Vec<char> = Vec::new();
    let mut i: usize = 0;
    while i < n
        invariant
            i <= n <= cs@.len(),
            out@ == cs@.subrange(0, i as int),
        decreases n - i,
    {
        out.push(cs[i]);
        i = i + 1;
    }
    proof {
        let t = cs@.subrange(0, n as int);
        if n > 0 {
            assert(t.last() == cs@[n - 1]);
        }
        assert(strip_trailing(t, '/') == t);
    }
    string_of(&out)
}

/// A client that authenticates needs a token that is not blank.
pub fn check_token(token: &str) -> (r: Result<(), ApiError>)
    ensures
        r is Ok <==> trim(token@).len() > 0,
        r matches Err(e) ==> e == ApiError::EmptyToken,
{
    if is_blank(token) {
        Err(ApiError::EmptyToken)
    } else {
        Ok(())
    }
}

/// `<base><path>`.
pub fn url(base: &str, path: &str) -> (r: String)
    ensures
        r@ == base@ + path@,
{
    crate::text::concat(base, path)
}

/// `/v1/problems/<id>/<tail>`.
pub open spec fn problem_path_spec(problem_id: i64, tail: Seq<char>) -> Seq<char> {
    "/v1/problems/"@ + decimal(problem_id as int) + "/"@ + tail
}

/// The path of a problem's resource: `edit`, `generator`, `code`,
/// `validator`, `editorial`, `submit`.
pub fn problem_path(problem_id: i64, tail: &str) -> (r: String)
    ensures
        r@ == problem_path_spec(problem_id, tail@),
{
    let mut acc = chars_of("/v1/problems/");
    let id = i64_to_string(problem_id);
    push_str(&mut acc, id.as_str());
    push_str(&mut acc, "/");
    push_str(&mut acc, tail);
    string_of(&acc)
}

/// `/v1/problems/<id>/file/<in|out>`: the list and the upload of test cases.
pub fn files_path(problem_id: i64, which: Which) -> (r: String)
    ensures
        r@ == problem_path_spec(problem_id, "file/"@ + which.name()),
{
    let tail = crate::text::concat("file/", which.as_str());
    problem_path(problem_id, tail.as_str())
}

/// `/v1/problems/<id>/file/<in|out>/<name>`: one test case.
pub fn file_path(problem_id: i64, which: Which, name: &str) -> (r: String)
    ensures
        r@ == problem_path_spec(problem_id, "file/"@ + which.name()) + "/"@ + name@,
{
    let mut acc = chars_of(files_path(problem_id, which).as_str());
    push_str(&mut acc, "/");
    push_str(&mut acc, name);
    string_of(&acc)
}

/// `/v1/submissions/<id>/solution`.
pub fn solution_path(submission_id: i64) -> (r: String)
    ensures
        r@ == "/v1/submissions/"@ + decimal(submission_id as int) + "/solution"@,
{
    let mut acc = chars_of("/v1/submissions/");
    let id = i64_to_string(submission_id);
    push_str(&mut acc, id.as_str());
    push_str(&mut acc, "/solution");
    string_of(&acc)
}

/// The list of languages (no authentication).
pub const LANGUAGES_PATH: &'static str = "/v1/languages";
/// The list of judge states (no authentication).
pub const STATUSES_PATH: &'static str = "/v1/statuses";
/// The status of a resource the server has no API for.
pub const NOT_FOUND: u16 = 404;

/// The hint added to a failure, by HTTP status.
pub open spec fn hint_spec(status: u16) -> Seq<char> {
    if status == 401 {
        "\nヒント: トークンが無い・不正・失効、または別の問題のトークンです。"@
    } else if status == 403 {
        "\nヒント: 編集権限が無いか、入力の検証エラーです (本文を確認してください)。"@
    } else if status == 404 {
        "\nヒント: 問題 ID かファイル名を確認してください。"@
    } else if 500 <= status <= 599 {
        "\nヒント: サーバ側のエラーです。保存や削除は行われていない可能性があります。時間をおいて同じコマンドを実行し直してください。"@
    } else {
        ""@
    }
}

/// What to check after a failed request: a missing or wrong token (401), no
/// right to edit or a rejected input (403), a wrong id or name (404), a
/// server error (5xx, where nothing may have been saved and the command can
/// simply run again).
pub fn status_hint(status: u16) -> (r: &'static str)
    ensures
        r@ == hint_spec(status),
{
    if status == 401 {
        "\nヒント: トークンが無い・不正・失効、または別の問題のトークンです。"
    } else if status == 403 {
        "\nヒント: 編集権限が無いか、入力の検証エラーです (本文を確認してください)。"
    } else if status == 404 {
        "\nヒント: 問題 ID かファイル名を確認してください。"
    } else if 500 <= status && status <= 599 {
        "\nヒント: サーバ側のエラーです。保存や削除は行われていない可能性があります。時間をおいて同じコマンドを実行し直してください。"
    } else {
        ""
    }
}

/// The report of a failed request: what failed, the HTTP status, the hint,
/// and the body of the answer (trimmed) when there is one.
pub open spec fn failure_spec(what: Seq<char>, status: u16, body: Seq<char>) -> Seq<char> {
    what + " に失敗しました (HTTP "@ + decimal(status as int) + ")"@ + hint_spec(status) + if trim(body).len() == 0 {
        seq![]
    } else {
        "\nレスポンス: "@ + trim(body)
    }
}

/// The message for a request that the server answered with a failure.
pub fn failure_message(what: &str, status: u16, body: &str) -> (r: String)
    ensures
        r@ == failure_spec(what@, status, body@),
{
    let mut acc = chars_of(what);
    push_str(&mut acc, " に失敗しました (HTTP ");
    let code = i64_to_string(status as i64);
    push_str(&mut acc, code.as_str());
    push_str(&mut acc, ")");
    push_str(&mut acc, status_hint(status));
    if !is_blank(body) {
        push_str(&mut acc, "\nレスポンス: ");
        let t = trim_str(body);
        push_str(&mut acc, t.as_str());
    }
    string_of(&acc)
}

/// A test case name from the server is used as a local file name and in
/// URLs, so it must be one the server itself would store unchanged.
pub open spec fn plain_name(name: Seq<char>) -> bool {
    name.len() > 0 && sanitized(name) == name
}

/// Checks the test case names the server listed; the first bad one is
/// refused.
pub fn check_server_names(names: &Vec<String>) -> (r: Result<(), ApiError>)
    ensures
        r is Ok <==> forall|i: int| 0 <= i < names@.len() ==> plain_name(#[trigger] names@[i]@),
        r matches Err(e) ==> exists|i: int| 0 <= i < names@.len() && !plain_name(#[trigger] names@[i]@)
            && (forall|k: int| 0 <= k < i ==> plain_name(#[trigger] names@[k]@)) && e == (ApiError::BadTestcaseName {
            name: names@[i],
        }),
{
    let mut i: usize = 0;
    while i < names.len()
        invariant
            i <= names@.len(),
            forall|k: int| 0 <= k < i ==> plain_name(#[trigger] names@[k]@),
        decreases names@.len() - i,
    {
        let name = names[i].as_str();
        let s = sanitized_file_name(name);
        if name.is_empty() || !str_eq(s.as_str(), name) {
            return Err(ApiError::BadTestcaseName { name: names[i].clone() });
        }
        i = i + 1;
    }
    Ok(())
}

/// The body to parse: a blank answer to a save is read as `{}`.
pub fn json_body(body: &str) -> (r: String)
    ensures
        r@ == (if trim(body@).len() == 0 { "{}"@ } else { body@ }),
{
    if is_blank(body) {
        "{}".to_string()
    } else {
        body.to_string()
    }
}

/// A name that passes [`check_server_names`] has no `/`, so it is one file
/// inside the test case directory and one segment of a URL.
pub proof fn lemma_plain_name_is_one_segment(name: Seq<char>)
    requires
        plain_name(name),
    ensures
        forall|i: int| 0 <= i < name.len() ==> name[i] != '/',
{
    crate::local::lemma_sanitized(name);
    assert forall|i: int| 0 <= i < name.len() implies name[i] != '/' by {
        assert(crate::local::is_name_char(sanitized(name)[i]));
    }
}

} // verus!

//! The data exchanged with the yukicoder API (`/api/swagger.yaml`), as plain
//! values, and the rules attached to them.
//!
//! Field names follow the API's camelCase in the serialised forms; here they
//! are the Rust snake_case equivalents. The problem level, a floating-point
//! number in the API, is held as its decimal text.

use vstd::prelude::*;

use crate::text::{contains_str, is_blank, str_eq, trim, views};

verus! {

/// The editable settings of a problem (the content of `problem.toml`).
pub struct ProblemSettings {
    pub title: String,
    /// Space separated.
    pub tags: String,
    /// The level, as the decimal text the API's JSON writes for it (`"2.5"`).
    pub level: String,
    /// Milliseconds.
    pub time_limit_ms: i64,
    /// Megabytes.
    pub memory_limit: i64,
    /// `-` / `abs` / `rel` / `all`.
    pub eps_mode: String,
    /// The tolerance, as text (the API sends a string or a number).
    pub eps: String,
    pub wip: bool,
    pub recruiting_tester: bool,
    /// Numeric code, see [`problem_type_label`].
    pub problem_type: i64,
    /// Numeric code, see [`judge_type_label`].
    pub judge_type: i64,
    pub show_ans: bool,
    pub enable_pure_judge: bool,
    pub force_single_server_judge: bool,
    /// Allowed languages; empty means all.
    pub allowed_langs: Vec<String>,
}

/// `GET /v1/problems/{id}/edit`. `problem_id`, `content`, `is_markdown` and
/// `showable` are read-only and never sent back.
pub struct ProblemEditContent {
    pub problem_id: i64,
    /// The statement source: Markdown when `is_markdown`, HTML otherwise.
    pub content: String,
    pub is_markdown: bool,
    /// Whether the problem is public (not changeable through the API).
    pub showable: bool,
    pub settings: ProblemSettings,
}

/// The label of a `problemType` code, as the web UI writes it.
pub open spec fn problem_type_name(code: int) -> Option<Seq<char>> {
    if code == 0 {
        Some("通常"@)
    } else if code == 1 {
        Some("教育的"@)
    } else if code == 2 {
        Some("スコア"@)
    } else if code == 3 {
        Some("ネタ"@)
    } else if code == 4 {
        Some("未証明"@)
    } else if code == 5 {
        Some("数学要素が高い"@)
    } else if code == 6 {
        Some("ショートコード"@)
    } else {
        None
    }
}

/// The label of a `judgeType` code.
pub open spec fn judge_type_name(code: int) -> Option<Seq<char>> {
    if code == 0 {
        Some("通常"@)
    } else if code == 1 {
        Some("スペシャル"@)
    } else if code == 2 {
        Some("リアクティブ"@)
    } else {
        None
    }
}

/// The label of an `epsMode` value.
pub open spec fn eps_mode_name(mode: Seq<char>) -> Option<Seq<char>> {
    if mode == "-"@ {
        Some("なし"@)
    } else if mode == "abs"@ {
        Some("絶対誤差"@)
    } else if mode == "rel"@ {
        Some("相対誤差"@)
    } else if mode == "all"@ {
        Some("両方"@)
    } else {
        None
    }
}

/// The label of a `problemType` code, if the code is known.
pub fn problem_type_label(code: i64) -> (r: Option<&'static str>)
    ensures
        r is Some == problem_type_name(code as int) is Some,
        r matches Some(s) ==> s@ == problem_type_name(code as int)->0,
{
    if code == 0 {
        Some("通常")
    } else if code == 1 {
        Some("教育的")
    } else if code == 2 {
        Some("スコア")
    } else if code == 3 {
        Some("ネタ")
    } else if code == 4 {
        Some("未証明")
    } else if code == 5 {
        Some("数学要素が高い")
    } else if code == 6 {
        Some("ショートコード")
    } else {
        None
    }
}

/// The label of a `judgeType` code, if the code is known.
pub fn judge_type_label(code: i64) -> (r: Option<&'static str>)
    ensures
        r is Some == judge_type_name(code as int) is Some,
        r matches Some(s) ==> s@ == judge_type_name(code as int)->0,
{
    if code == 0 {
        Some("通常")
    } else if code == 1 {
        Some("スペシャル")
    } else if code == 2 {
        Some("リアクティブ")
    } else {
        None
    }
}

/// The label of an `epsMode` value, if the value is known.
pub fn eps_mode_label(mode: &str) -> (r: Option<&'static str>)
    ensures
        r is Some == eps_mode_name(mode@) is Some,
        r matches Some(s) ==> s@ == eps_mode_name(mode@)->0,
{
    if str_eq(mode, "-") {
        Some("なし")
    } else if str_eq(mode, "abs") {
        Some("絶対誤差")
    } else if str_eq(mode, "rel") {
        Some("相対誤差")
    } else if str_eq(mode, "all") {
        Some("両方")
    } else {
        None
    }
}

/// Codes with the views of their labels.
pub open spec fn code_views(labels: Seq<(i64, &'static str)>) -> Seq<(i64, Seq<char>)> {
    Seq::new(labels.len(), |i: int| (labels[i].0, labels[i].1@))
}

/// Pairs of strings as their views.
pub open spec fn pair_views(labels: Seq<(&'static str, &'static str)>) -> Seq<(Seq<char>, Seq<char>)> {
    Seq::new(labels.len(), |i: int| (labels[i].0@, labels[i].1@))
}

/// The `problemType` codes with their labels.
pub open spec fn problem_type_table() -> Seq<(i64, Seq<char>)> {
    seq![(0, "通常"@), (1, "教育的"@), (2, "スコア"@), (3, "ネタ"@), (4, "未証明"@), (5, "数学要素が高い"@), (6, "ショートコード"@)]
}

/// The `judgeType` codes with their labels.
pub open spec fn judge_type_table() -> Seq<(i64, Seq<char>)> {
    seq![(0, "通常"@), (1, "スペシャル"@), (2, "リアクティブ"@)]
}

/// The `epsMode` values with their labels.
pub open spec fn eps_mode_table() -> Seq<(Seq<char>, Seq<char>)> {
    seq![("-"@, "なし"@), ("abs"@, "絶対誤差"@), ("rel"@, "相対誤差"@), ("all"@, "両方"@)]
}

/// The `problemType` codes with their labels, in code order.
pub fn problem_type_labels() -> (r: Vec<(i64, &'static str)>)
    ensures
        code_views(r@) == problem_type_table(),
{
    let mut v: Vec<(i64, &'static str)> = Vec::new();
    let mut code: i64 = 0;
    while code < 7
        invariant
            0 <= code <= 7,
            v@.len() == code,
            forall|i: int|
                0 <= i < code ==> (#[trigger] v@[i]).0 == i && problem_type_name(i) == Some(
                    v@[i].1@,
                ),
        decreases 7 - code,
    {
        let label = problem_type_label(code);
        match label {
            Some(s) => v.push((code, s)),
            None => {},
        }
        code = code + 1;
    }
    let ghost t = problem_type_table();
    assert(code_views(v@)[0] == t[0] && code_views(v@)[1] == t[1] && code_views(v@)[2] == t[2]
        && code_views(v@)[3] == t[3] && code_views(v@)[4] == t[4] && code_views(v@)[5] == t[5]
        && code_views(v@)[6] == t[6]);
    assert(code_views(v@) =~= t);
    v
}

/// The `judgeType` codes with their labels, in code order.
pub fn judge_type_labels() -> (r: Vec<(i64, &'static str)>)
    ensures
        code_views(r@) == judge_type_table(),
{
    let mut v: Vec<(i64, &'static str)> = Vec::new();
    let mut code: i64 = 0;
    while code < 3
        invariant
            0 <= code <= 3,
            v@.len() == code,
            forall|i: int|
                0 <= i < code ==> (#[trigger] v@[i]).0 == i && judge_type_name(i) == Some(
                    v@[i].1@,
                ),
        decreases 3 - code,
    {
        match judge_type_label(code) {
            Some(s) => v.push((code, s)),
            None => {},
        }
        code = code + 1;
    }
    let ghost t = judge_type_table();
    assert(code_views(v@)[0] == t[0] && code_views(v@)[1] == t[1] && code_views(v@)[2] == t[2]);
    assert(code_views(v@) =~= t);
    v
}

/// The `epsMode` values with their labels.
pub fn eps_mode_labels() -> (r: Vec<(&'static str, &'static str)>)
    ensures
        pair_views(r@) == eps_mode_table(),
{
    let mut v: Vec<(&'static str, &'static str)> = Vec::new();
    v.push(("-", "なし"));
    v.push(("abs", "絶対誤差"));
    v.push(("rel", "相対誤差"));
    v.push(("all", "両方"));
    let ghost t = eps_mode_table();
    assert(pair_views(v@)[0] == t[0] && pair_views(v@)[1] == t[1] && pair_views(v@)[2] == t[2]
        && pair_views(v@)[3] == t[3]);
    assert(pair_views(v@) =~= t);
    v
}

/// Why a request could not be made.
#[derive(Debug, PartialEq, Eq)]
pub enum ModelError {
    /// The statement is blank; sending it would erase the stored statement.
    EmptyStatement,
    /// The editorial is blank; sending it would erase the stored editorial.
    EmptyEditorial,
}

/// The body of a statement or an editorial. Markdown and HTML exclude each
/// other: exactly one of them is sent.
pub enum Statement {
    Markdown(String),
    Html(String),
}

impl Statement {
    pub open spec fn text_spec(self) -> Seq<char> {
        match self {
            Statement::Markdown(s) => s@,
            Statement::Html(s) => s@,
        }
    }

    pub open spec fn is_markdown_spec(self) -> bool {
        self is Markdown
    }

    /// The `(html, markdown)` fields that carry this body: a Markdown body
    /// goes in `markdown` with an empty `html`; an HTML body goes in `html`
    /// and `markdown` is left out.
    pub open spec fn fields_spec(self) -> (Seq<char>, Option<Seq<char>>) {
        match self {
            Statement::Markdown(s) => (seq![], Some(s@)),
            Statement::Html(s) => (s@, None),
        }
    }

    pub fn new(text: String, is_markdown: bool) -> (r: Statement)
        ensures
            r.text_spec() == text@,
            r.is_markdown_spec() == is_markdown,
    {
        if is_markdown {
            Statement::Markdown(text)
        } else {
            Statement::Html(text)
        }
    }

    pub fn text(&self) -> (r: &str)
        ensures
            r@ == self.text_spec(),
    {
        match self {
            Statement::Markdown(s) => s.as_str(),
            Statement::Html(s) => s.as_str(),
        }
    }

    pub fn is_markdown(&self) -> (r: bool)
        ensures
            r == self.is_markdown_spec(),
    {
        match self {
            Statement::Markdown(_) => true,
            Statement::Html(_) => false,
        }
    }

    fn into_fields(self) -> (r: (String, Option<String>))
        ensures
            r.0@ == self.fields_spec().0,
            r.1 is Some == self.fields_spec().1 is Some,
            r.1 matches Some(m) ==> m@ == self.fields_spec().1->0,
    {
        match self {
            Statement::Markdown(md) => (String::new(), Some(md)),
            Statement::Html(html) => (html, None),
        }
    }
}

/// Markdown and HTML exclude each other in what is sent: a Markdown body
/// goes whole in `markdown` with `html` empty; an HTML body goes whole in
/// `html` and `markdown` is left out.
pub proof fn lemma_fields_exclusive(s: Statement)
    ensures
        (s.fields_spec().1 is Some) == s.is_markdown_spec(),
        s.is_markdown_spec() ==> s.fields_spec().0.len() == 0 && s.fields_spec().1 == Some(s.text_spec()),
        !s.is_markdown_spec() ==> s.fields_spec().0 == s.text_spec(),
{
}

/// `PUT /v1/problems/{id}/edit`. Not a partial update: every setting is sent.
pub struct ProblemEditRequest {
    pub settings: ProblemSettings,
    /// The statement as HTML; empty when it is sent as Markdown.
    pub html: String,
    /// The statement as Markdown; left out for HTML.
    pub markdown: Option<String>,
}

impl ProblemEditRequest {
    /// Refuses a blank statement, which would erase the stored one.
    pub fn new(settings: ProblemSettings, statement: Statement) -> (r: Result<
        ProblemEditRequest,
        ModelError,
    >)
        ensures
            r is Err <==> trim(statement.text_spec()).len() == 0,
            r matches Err(e) ==> e == ModelError::EmptyStatement,
            r matches Ok(req) ==> {
                &&& req.settings == settings
                &&& req.html@ == statement.fields_spec().0
                &&& req.markdown is Some == statement.fields_spec().1 is Some
                &&& req.markdown matches Some(m) ==> m@ == statement.fields_spec().1->0
            },
    {
        if is_blank(statement.text()) {
            return Err(ModelError::EmptyStatement);
        }
        let (html, markdown) = statement.into_fields();
        Ok(ProblemEditRequest { settings, html, markdown })
    }
}

/// The response of the saving endpoints.
pub struct SaveResponse {
    pub message: String,
}

/// `GET /v1/problems/{id}/generator`.
pub struct GeneratorContent {
    /// Empty when no generator is registered.
    pub lang_id: String,
    pub source: String,
    /// Set by an administrator; read-only.
    pub enable: bool,
    pub test_case_num: i64,
}

/// `PUT /v1/problems/{id}/generator`.
pub struct GeneratorRequest {
    pub lang_id: String,
    /// Empty to delete.
    pub source: String,
    pub test_case_num: i64,
    /// `Some(true)` starts generating cases after saving.
    pub generate: Option<bool>,
    /// Prefix of the generated case names.
    pub prefix: Option<String>,
}

/// `GET /v1/problems/{id}/code`: the special judge's code.
pub struct JudgeCodeContent {
    pub lang_id: String,
    pub source: String,
    /// Compile state: `WJ` right after saving, then `AC` or `CE`.
    pub status: String,
}

/// `PUT /v1/problems/{id}/code`.
pub struct JudgeCodeRequest {
    pub lang_id: String,
    /// Empty to delete.
    pub source: String,
}

/// The response of `PUT /v1/problems/{id}/code` and `/validator`.
pub struct JudgeCodeSaveResponse {
    pub message: String,
    /// `WJ` right after saving; empty after a deletion.
    pub status: String,
}

/// The compile state of a judge code that compiled.
pub const JUDGE_STATUS_OK: &'static str = "AC";
/// The compile state of a judge code that did not compile.
pub const JUDGE_STATUS_COMPILE_ERROR: &'static str = "CE";

/// Only `AC` and `CE` are final; `WJ`, `Judge` and the empty state are not.
pub open spec fn is_final_status(status: Seq<char>) -> bool {
    status == "AC"@ || status == "CE"@
}

/// Whether the compile state of a judge code is final (`AC` or `CE`).
pub fn judge_status_is_final(status: &str) -> (r: bool)
    ensures
        r == is_final_status(status@),
{
    str_eq(status, JUDGE_STATUS_OK) || str_eq(status, JUDGE_STATUS_COMPILE_ERROR)
}

/// `GET /v1/problems/{id}/validator`.
pub struct ValidatorContent {
    pub lang_id: String,
    pub source: String,
    /// The validation state, from the same vocabulary as submissions.
    pub status: String,
    /// When the last validation finished (Unix nanoseconds; 0 if never).
    pub latest_check: i64,
    /// When the test cases last changed (Unix nanoseconds; 0 if never).
    pub test_case_latest: i64,
}

impl ValidatorContent {
    /// The result for the current test cases is in: the state is known, is not
    /// a judging one, and the validation finished strictly after the test
    /// cases last changed (timestamps have a one-second resolution, so equal
    /// times do not count).
    pub open spec fn up_to_date_spec(self, judging: Seq<Seq<char>>) -> bool {
        &&& self.status@.len() > 0
        &&& !judging.contains(self.status@)
        &&& self.latest_check > self.test_case_latest
    }

    pub fn is_up_to_date(&self, judging: &Vec<String>) -> (r: bool)
        ensures
            r == self.up_to_date_spec(views(judging@)),
    {
        let status = self.status.as_str();
        !status.is_empty() && !contains_str(judging, status) && self.latest_check
            > self.test_case_latest
    }
}

/// `PUT /v1/problems/{id}/validator`.
pub struct ValidatorRequest {
    pub lang_id: String,
    /// Empty to delete.
    pub source: String,
}

/// An element of `GET /v1/statuses`.
pub struct StatusInfo {
    pub id: String,
    /// `success` / `wrong` / `judging` / `danger`.
    pub category: String,
}

/// The category of running and waiting states.
pub const STATUS_CATEGORY_JUDGING: &'static str = "judging";

/// The ids of the statuses in the judging category, in order.
pub open spec fn judging_spec(statuses: Seq<StatusInfo>) -> Seq<Seq<char>>
    decreases statuses.len(),
{
    if statuses.len() == 0 {
        seq![]
    } else if statuses.last().category@ == "judging"@ {
        judging_spec(statuses.drop_last()).push(statuses.last().id@)
    } else {
        judging_spec(statuses.drop_last())
    }
}

/// The ids of the non-final (judging) statuses. The vocabulary comes from
/// the server, so the client does not list the states itself.
pub fn judging_ids(statuses: &Vec<StatusInfo>) -> (r: Vec<String>)
    ensures
        views(r@) == judging_spec(statuses@),
{
    let mut out: Vec<String> = Vec::new();
    let mut i: usize = 0;
    while i < statuses.len()
        invariant
            i <= statuses@.len(),
            views(out@) == judging_spec(statuses@.subrange(0, i as int)),
        decreases statuses@.len() - i,
    {
        let ghost prev = statuses@.subrange(0, i as int);
        assert(statuses@.subrange(0, i + 1).drop_last() == prev);
        if str_eq(statuses[i].category.as_str(), STATUS_CATEGORY_JUDGING) {
            let id = statuses[i].id.clone();
            out.push(id);
            assert(views(out@) == views(out@.drop_last()).push(id@));
        }
        i = i + 1;
    }
    assert(statuses@.subrange(0, statuses@.len() as int) == statuses@);
    out
}

/// `GET /v1/problems/{id}/editorial`.
pub struct EditorialContent {
    pub content: String,
    pub is_markdown: bool,
}

/// `PUT /v1/problems/{id}/editorial`; `html` and `markdown` exclude each other.
pub struct EditorialRequest {
    /// The editorial as HTML; empty when it is sent as Markdown.
    pub html: String,
    pub markdown: Option<String>,
}

impl EditorialRequest {
    /// Refuses a blank editorial, which would erase the stored one.
    pub fn new(statement: Statement) -> (r: Result<EditorialRequest, ModelError>)
        ensures
            r is Err <==> trim(statement.text_spec()).len() == 0,
            r matches Err(e) ==> e == ModelError::EmptyEditorial,
            r matches Ok(req) ==> {
                &&& req.html@ == statement.fields_spec().0
                &&& req.markdown is Some == statement.fields_spec().1 is Some
                &&& req.markdown matches Some(m) ==> m@ == statement.fields_spec().1->0
            },
    {
        if is_blank(statement.text()) {
            return Err(ModelError::EmptyEditorial);
        }
        let (html, markdown) = statement.into_fields();
        Ok(EditorialRequest { html, markdown })
    }
}

/// The response of `POST /v1/problems/{id}/file/{which}`.
pub struct UploadResponse {
    /// The names the files were stored under (they may differ from the names sent).
    pub file_names: Vec<String>,
    pub warning: String,
}

/// `PUT /v1/submissions/{id}/solution`.
pub struct SolutionRequest {
    /// The description; ignored when deleting.
    pub summary: Option<String>,
    pub delete: Option<bool>,
}

/// An element of `GET /v1/languages`.
pub struct Language {
    pub id: String,
    pub name: String,
    pub ver: String,
    pub status: String,
}

/// Input or output test cases.
#[derive(Debug, Clone, Copy, PartialEq, Eq)]
pub enum Which {
    In,
    Out,
}

impl Which {
    pub open spec fn name(self) -> Seq<char> {
        match self {
            Which::In => "in"@,
            Which::Out => "out"@,
        }
    }

    pub fn as_str(self) -> (r: &'static str)
        ensures
            r@ == self.name(),
    {
        match self {
            Which::In => "in",
            Which::Out => "out",
        }
    }
}

} // verus!

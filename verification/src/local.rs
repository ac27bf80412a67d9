//! The local problem directory: its layout, the text that goes into its
//! files, and the rules for test-case file names.
//!
//! ```text
//! problems/<name>/
//!   problem.toml            settings (keys as in the API)
//!   statement.md            statement (statement.html for HTML problems)
//!   editorial.md            editorial (editorial.html for HTML); optional
//!   judge/judge.toml        special judge: langId / sourceFile
//!   validator/validator.toml
//!   generator/generator.toml
//!   testcases/in/*.txt, testcases/out/*.txt
//! ```

use vstd::prelude::*;

use crate::models::{
    code_views, eps_mode_table, judge_type_table, pair_views, problem_type_table, Statement, Which,
};
use crate::text::{
    lex_less, lemma_lex_irreflexive, lemma_lex_transitive,
    chars_of, decimal, has_prefix, i64_to_string, join, join_strings, lines, push_str,
    split_lines, starts_with, string_of, views,
};

verus! {

pub const SETTINGS_FILE: &'static str = "problem.toml";
pub const GENERATOR_CONFIG_FILE: &'static str = "generator.toml";
pub const JUDGE_CONFIG_FILE: &'static str = "judge.toml";
pub const VALIDATOR_CONFIG_FILE: &'static str = "validator.toml";

/// `judge/judge.toml`: the special judge's code.
pub struct JudgeConfig {
    /// Language id (see `yuki-tool languages`).
    pub lang_id: String,
    /// Source file, relative to the directory.
    pub source_file: String,
}

/// `generator/generator.toml`.
pub struct GeneratorConfig {
    pub lang_id: String,
    pub source_file: String,
    /// Number of cases to generate.
    pub test_case_num: i64,
    /// Prefix of the generated case names.
    pub prefix: Option<String>,
}

// ---------------------------------------------------------------------------
// Test case files

/// A test case as a name and bytes.
pub open spec fn case_view(c: (String, Vec<u8>)) -> (Seq<char>, Seq<u8>) {
    (c.0@, c.1@)
}

pub open spec fn case_views(s: Seq<(String, Vec<u8>)>) -> Seq<(Seq<char>, Seq<u8>)> {
    Seq::new(s.len(), |i: int| case_view(s[i]))
}

/// `v`, element by element.
pub fn copy_bytes(v: &Vec<u8>) -> (r: Vec<u8>)
    ensures
        r@ == v@,
{
    let mut out: Vec<u8> = Vec::new();
    let mut i: usize = 0;
    while i < v.len()
        invariant
            i <= v.len(),
            out@ == v@.subrange(0, i as int),
        decreases v.len() - i,
    {
        out.push(v[i]);
        i = i + 1;
    }
    assert(v@.subrange(0, v@.len() as int) == v@);
    out
}

/// Whether `a` and `b` hold the same bytes.
pub fn bytes_eq(a: &Vec<u8>, b: &Vec<u8>) -> (r: bool)
    ensures
        r == (a@ == b@),
{
    if a.len() != b.len() {
        return false;
    }
    let mut i: usize = 0;
    while i < a.len()
        invariant
            a.len() == b.len(),
            i <= a.len(),
            forall|k: int| 0 <= k < i ==> a@[k] == b@[k],
        decreases a.len() - i,
    {
        if a[i] != b[i] {
            return false;
        }
        i = i + 1;
    }
    assert(a@ =~= b@);
    true
}

// ---------------------------------------------------------------------------
// Paths

/// `Path::join` on `/`-separated paths: an absolute `name` replaces `base`;
/// otherwise one separator is put between them.
pub open spec fn join_path(base: Seq<char>, name: Seq<char>) -> Seq<char> {
    if name.len() > 0 && name[0] == '/' {
        name
    } else if base.len() == 0 {
        name
    } else if base.last() == '/' {
        base + name
    } else {
        base + seq!['/'] + name
    }
}

/// `base.join(name)`.
pub fn path_join(base: &str, name: &str) -> (r: String)
    ensures
        r@ == join_path(base@, name@),
{
    let b = chars_of(base);
    let n = chars_of(name);
    if n.len() > 0 && n[0] == '/' {
        return string_of(&n);
    }
    if b.len() == 0 {
        return string_of(&n);
    }
    let mut acc = b.clone();
    if b[b.len() - 1] != '/' {
        acc.push('/');
    }
    push_str(&mut acc, name);
    string_of(&acc)
}

/// A text file to write, and the file that it replaces and that is removed.
pub struct TextWrite {
    pub path: String,
    /// Already normalised (see [`normalize`]).
    pub text: String,
    pub stale: String,
}

pub open spec fn opt_text(o: Option<String>) -> Option<Seq<char>> {
    match o {
        Some(s) => Some(s@),
        None => None,
    }
}

/// One problem's local directory.
pub struct ProblemDir {
    root: String,
    problem_id: i64,
}

impl ProblemDir {
    pub closed spec fn root_spec(&self) -> Seq<char> {
        self.root@
    }

    pub closed spec fn id_spec(&self) -> i64 {
        self.problem_id
    }

    pub fn new(root: String, problem_id: i64) -> (r: ProblemDir)
        ensures
            r.root_spec() == root@,
            r.id_spec() == problem_id,
    {
        ProblemDir { root, problem_id }
    }

    pub fn root(&self) -> (r: &str)
        ensures
            r@ == self.root_spec(),
    {
        self.root.as_str()
    }

    pub fn problem_id(&self) -> (r: i64)
        ensures
            r == self.id_spec(),
    {
        self.problem_id
    }

    pub fn settings_path(&self) -> (r: String)
        ensures
            r@ == join_path(self.root_spec(), "problem.toml"@),
    {
        path_join(self.root.as_str(), SETTINGS_FILE)
    }

    pub fn statement_path(&self, is_markdown: bool) -> (r: String)
        ensures
            r@ == join_path(
                self.root_spec(),
                if is_markdown {
                    "statement.md"@
                } else {
                    "statement.html"@
                },
            ),
    {
        path_join(self.root.as_str(), if is_markdown { "statement.md" } else { "statement.html" })
    }

    pub fn editorial_path(&self, is_markdown: bool) -> (r: String)
        ensures
            r@ == join_path(
                self.root_spec(),
                if is_markdown {
                    "editorial.md"@
                } else {
                    "editorial.html"@
                },
            ),
    {
        path_join(self.root.as_str(), if is_markdown { "editorial.md" } else { "editorial.html" })
    }

    /// The statement, from the text of `statement.md` / `statement.html`
    /// (`None`: the file does not exist); see [`read_one_of`].
    pub fn read_statement(&self, markdown: Option<String>, html: Option<String>) -> (r: Result<Statement, LocalError>)
        ensures
            read_one_of_ok(opt_text(markdown), opt_text(html), r),
    {
        read_one_of(markdown, html)
    }

    /// The editorial, from the text of `editorial.md` / `editorial.html`.
    pub fn read_editorial(&self, markdown: Option<String>, html: Option<String>) -> (r: Result<Statement, LocalError>)
        ensures
            read_one_of_ok(opt_text(markdown), opt_text(html), r),
    {
        read_one_of(markdown, html)
    }

    /// Where the statement goes: the file of its format, with the text
    /// normalised; the file of the other format is removed, so that the
    /// format stays unambiguous.
    pub fn write_statement(&self, statement: &Statement) -> (r: TextWrite)
        ensures
            r.path@ == join_path(self.root_spec(), if statement.is_markdown_spec() { "statement.md"@ } else { "statement.html"@ }),
            r.text@ == normalized(statement.text_spec()),
            r.stale@ == join_path(self.root_spec(), if statement.is_markdown_spec() { "statement.html"@ } else { "statement.md"@ }),
    {
        let md = statement.is_markdown();
        TextWrite { path: self.statement_path(md), text: normalize(statement.text()), stale: self.statement_path(!md) }
    }

    /// Where the editorial goes (as for the statement).
    pub fn write_editorial(&self, statement: &Statement) -> (r: TextWrite)
        ensures
            r.path@ == join_path(self.root_spec(), if statement.is_markdown_spec() { "editorial.md"@ } else { "editorial.html"@ }),
            r.text@ == normalized(statement.text_spec()),
            r.stale@ == join_path(self.root_spec(), if statement.is_markdown_spec() { "editorial.html"@ } else { "editorial.md"@ }),
    {
        let md = statement.is_markdown();
        TextWrite { path: self.editorial_path(md), text: normalize(statement.text()), stale: self.editorial_path(!md) }
    }

    pub fn generator_dir(&self) -> (r: String)
        ensures
            r@ == join_path(self.root_spec(), "generator"@),
    {
        path_join(self.root.as_str(), "generator")
    }

    pub fn generator_config_path(&self) -> (r: String)
        ensures
            r@ == join_path(join_path(self.root_spec(), "generator"@), "generator.toml"@),
    {
        let d = self.generator_dir();
        path_join(d.as_str(), GENERATOR_CONFIG_FILE)
    }

    pub fn judge_dir(&self) -> (r: String)
        ensures
            r@ == join_path(self.root_spec(), "judge"@),
    {
        path_join(self.root.as_str(), "judge")
    }

    pub fn judge_config_path(&self) -> (r: String)
        ensures
            r@ == join_path(join_path(self.root_spec(), "judge"@), "judge.toml"@),
    {
        let d = self.judge_dir();
        path_join(d.as_str(), JUDGE_CONFIG_FILE)
    }

    pub fn validator_dir(&self) -> (r: String)
        ensures
            r@ == join_path(self.root_spec(), "validator"@),
    {
        path_join(self.root.as_str(), "validator")
    }

    pub fn validator_config_path(&self) -> (r: String)
        ensures
            r@ == join_path(join_path(self.root_spec(), "validator"@), "validator.toml"@),
    {
        let d = self.validator_dir();
        path_join(d.as_str(), VALIDATOR_CONFIG_FILE)
    }

    pub fn testcase_dir(&self, which: Which) -> (r: String)
        ensures
            r@ == join_path(join_path(self.root_spec(), "testcases"@), which.name()),
    {
        let d = path_join(self.root.as_str(), "testcases");
        path_join(d.as_str(), which.as_str())
    }

    pub fn testcase_path(&self, which: Which, name: &str) -> (r: String)
        ensures
            r@ == join_path(
                join_path(join_path(self.root_spec(), "testcases"@), which.name()),
                name@,
            ),
    {
        let d = self.testcase_dir(which);
        path_join(d.as_str(), name)
    }

    /// The text of `problem.toml`: a comment header, `problemId`, the local
    /// `sync = false` when the problem is kept out of `--all` (it is never
    /// sent, and survives a pull), then the settings `body` (TOML) with the
    /// coded keys annotated.
    pub fn settings_text(&self, body: &str, sync: bool) -> (r: String)
        ensures
            r@ == settings_header() + decimal(self.id_spec() as int) + seq!['\n'] + (if sync {
                seq![]
            } else {
                "sync = false\n"@
            }) + settings_annotated(body@),
    {
        let body = annotate_settings(body);
        let mut acc: Vec<char> = Vec::new();
        push_str(&mut acc, "# yukicoder 問題設定。どの問題かは problemId で決まる (ディレクトリ名は自由)。\n");
        push_str(&mut acc, "# 他のキーは PUT /api/v1/problems/{id}/edit と同じ名前で、変更したら\n");
        push_str(&mut acc, "# `yuki-tool push` で反映する。\n");
        push_str(&mut acc, "problemId = ");
        let id = i64_to_string(self.problem_id);
        push_str(&mut acc, id.as_str());
        acc.push('\n');
        if !sync {
            push_str(&mut acc, "sync = false\n");
        }
        push_str(&mut acc, body.as_str());
        string_of(&acc)
    }
}

/// The comment lines and key that start `problem.toml`.
pub open spec fn settings_header() -> Seq<char> {
    "# yukicoder 問題設定。どの問題かは problemId で決まる (ディレクトリ名は自由)。\n"@
        + "# 他のキーは PUT /api/v1/problems/{id}/edit と同じ名前で、変更したら\n"@
        + "# `yuki-tool push` で反映する。\n"@ + "problemId = "@
}

// ---------------------------------------------------------------------------
// Reading text files

/// The byte-order mark.
pub open spec fn is_bom(c: char) -> bool {
    c == '\u{feff}'
}

/// `s` without its leading byte-order marks.
pub open spec fn drop_boms(s: Seq<char>) -> Seq<char>
    decreases s.len(),
{
    if s.len() > 0 && is_bom(s[0]) {
        drop_boms(s.drop_first())
    } else {
        s
    }
}

/// `s` with each `"\r\n"` and each remaining `'\r'` turned into `'\n'`.
pub open spec fn to_lf(s: Seq<char>) -> Seq<char>
    decreases s.len(),
{
    if s.len() == 0 {
        seq![]
    } else if s[0] == '\r' && s.len() >= 2 && s[1] == '\n' {
        seq!['\n'] + to_lf(s.subrange(2, s.len() as int))
    } else if s[0] == '\r' {
        seq!['\n'] + to_lf(s.drop_first())
    } else {
        seq![s[0]] + to_lf(s.drop_first())
    }
}

/// What the server does to stored text: leading byte-order marks dropped,
/// `\r\n` and lone `\r` turned into `\n`.
pub open spec fn normalized(s: Seq<char>) -> Seq<char> {
    to_lf(drop_boms(s))
}

/// Drops leading byte-order marks and turns `\r\n` and `\r` into `\n`, as the
/// server does when it stores text (statements, editorials, sources).
pub fn normalize(text: &str) -> (r: String)
    ensures
        r@ == normalized(text@),
{
    let cs = chars_of(text);
    let n = cs.len();
    let mut a: usize = 0;
    assert(cs@.subrange(0, n as int) == cs@);
    while a < n && cs[a] == '\u{feff}'
        invariant
            a <= n,
            n == cs.len(),
            cs@ == text@,
            drop_boms(cs@) == drop_boms(cs@.subrange(a as int, n as int)),
        decreases n - a,
    {
        assert(cs@.subrange(a as int, n as int).drop_first() == cs@.subrange(a + 1, n as int));
        a = a + 1;
    }
    let ghost start = cs@.subrange(a as int, n as int);
    assert(drop_boms(start) == start);
    let mut out: Vec<char> = Vec::new();
    let mut i: usize = a;
    while i < n
        invariant
            a <= i <= n,
            n == cs.len(),
            out@ + to_lf(cs@.subrange(i as int, n as int)) == to_lf(start),
        decreases n - i,
    {
        let ghost rest = cs@.subrange(i as int, n as int);
        let c = cs[i];
        if c == '\r' {
            out.push('\n');
            if i + 1 < n && cs[i + 1] == '\n' {
                assert(rest.subrange(2, rest.len() as int) == cs@.subrange(i + 2, n as int));
                i = i + 2;
            } else {
                assert(rest.drop_first() == cs@.subrange(i + 1, n as int));
                i = i + 1;
            }
        } else {
            out.push(c);
            assert(rest.drop_first() == cs@.subrange(i + 1, n as int));
            i = i + 1;
        }
    }
    assert(cs@.subrange(n as int, n as int).len() == 0);
    string_of(&out)
}

proof fn lemma_to_lf_no_cr(s: Seq<char>)
    ensures
        !to_lf(s).contains('\r'),
        s.len() > 0 && !is_bom(s[0]) ==> to_lf(s).len() > 0 && !is_bom(to_lf(s)[0]),
    decreases s.len(),
{
    if s.len() > 0 {
        if s[0] == '\r' && s.len() >= 2 && s[1] == '\n' {
            lemma_to_lf_no_cr(s.subrange(2, s.len() as int));
        } else {
            lemma_to_lf_no_cr(s.drop_first());
        }
    }
}

proof fn lemma_to_lf_identity(s: Seq<char>)
    requires
        !s.contains('\r'),
    ensures
        to_lf(s) == s,
    decreases s.len(),
{
    if s.len() > 0 {
        assert(!s.drop_first().contains('\r')) by {
            if s.drop_first().contains('\r') {
                let k = choose|k: int| 0 <= k < s.drop_first().len() && s.drop_first()[k] == '\r';
                assert(s[k + 1] == '\r');
            }
        }
        lemma_to_lf_identity(s.drop_first());
        assert(s == seq![s[0]] + s.drop_first());
    }
}

proof fn lemma_drop_boms_first(s: Seq<char>)
    ensures
        drop_boms(s).len() > 0 ==> !is_bom(drop_boms(s)[0]),
    decreases s.len(),
{
    if s.len() > 0 && is_bom(s[0]) {
        lemma_drop_boms_first(s.drop_first());
    }
}

/// Normalised text holds no `'\r'`, and normalising it again changes nothing.
pub proof fn lemma_normalized_is_stable(s: Seq<char>)
    ensures
        !normalized(s).contains('\r'),
        normalized(normalized(s)) == normalized(s),
{
    let d = drop_boms(s);
    lemma_drop_boms_first(s);
    lemma_to_lf_no_cr(d);
    let t = to_lf(d);
    if t.len() > 0 {
        assert(!is_bom(t[0]));
    }
    assert(drop_boms(t) == t);
    lemma_to_lf_identity(t);
}

/// Text without `'\r'` and without a leading byte-order mark is already normal.
pub proof fn lemma_normalized_identity(s: Seq<char>)
    requires
        !s.contains('\r'),
        s.len() > 0 ==> !is_bom(s[0]),
    ensures
        normalized(s) == s,
{
    assert(drop_boms(s) == s);
    lemma_to_lf_identity(s);
}

// ---------------------------------------------------------------------------
// Test-case names

/// The characters the server keeps in a file name: `A-Za-z0-9._`.
pub open spec fn is_name_char(c: char) -> bool {
    ('a' <= c && c <= 'z') || ('A' <= c && c <= 'Z') || ('0' <= c && c <= '9') || c == '.'
        || c == '_'
}

/// `name` with every character outside `A-Za-z0-9._` removed.
pub open spec fn sanitized(name: Seq<char>) -> Seq<char>
    decreases name.len(),
{
    if name.len() == 0 {
        seq![]
    } else if is_name_char(name.last()) {
        sanitized(name.drop_last()).push(name.last())
    } else {
        sanitized(name.drop_last())
    }
}

/// The name the server stores a file under: the characters outside
/// `A-Za-z0-9._` are removed (`case-01.txt` becomes `case01.txt`).
pub fn sanitized_file_name(name: &str) -> (r: String)
    ensures
        r@ == sanitized(name@),
{
    let cs = chars_of(name);
    let mut out: Vec<char> = Vec::new();
    let mut i: usize = 0;
    while i < cs.len()
        invariant
            i <= cs.len(),
            cs@ == name@,
            out@ == sanitized(cs@.subrange(0, i as int)),
        decreases cs.len() - i,
    {
        let c = cs[i];
        assert(cs@.subrange(0, i + 1).drop_last() == cs@.subrange(0, i as int));
        if ('a' <= c && c <= 'z') || ('A' <= c && c <= 'Z') || ('0' <= c && c <= '9') || c == '.'
            || c == '_' {
            out.push(c);
        }
        i = i + 1;
    }
    assert(cs@.subrange(0, cs.len() as int) == cs@);
    string_of(&out)
}

/// Every character of `s` is one the server keeps.
pub open spec fn all_name_chars(s: Seq<char>) -> bool {
    forall|i: int| 0 <= i < s.len() ==> is_name_char(#[trigger] s[i])
}

/// A sanitised name holds only kept characters; a name holding only kept
/// characters is left as it is; so sanitising twice is sanitising once.
pub proof fn lemma_sanitized(name: Seq<char>)
    ensures
        all_name_chars(sanitized(name)),
        all_name_chars(name) ==> sanitized(name) == name,
        sanitized(sanitized(name)) == sanitized(name),
        sanitized(name) == name <==> all_name_chars(name),
    decreases name.len(),
{
    if name.len() > 0 {
        let t = name.drop_last();
        lemma_sanitized(t);
        if all_name_chars(name) {
            assert(all_name_chars(t)) by {
                assert forall|i: int| 0 <= i < t.len() implies is_name_char(#[trigger] t[i]) by {
                    assert(t[i] == name[i]);
                }
            }
            assert(is_name_char(name[name.len() - 1]));
            assert(t.push(name.last()) == name);
        }
        let s = sanitized(name);
        assert(all_name_chars(s)) by {
            if is_name_char(name.last()) {
                assert forall|i: int| 0 <= i < s.len() implies is_name_char(#[trigger] s[i]) by {
                    if i < s.len() - 1 {
                        assert(s[i] == sanitized(t)[i]);
                    }
                }
            }
        }
        lemma_sanitized_identity(s);
        if sanitized(name) == name {
            assert(all_name_chars(name));
        }
    }
}

/// The server keeps exactly the ASCII letters (both cases) and digits, `.`
/// and `_`: the stored name is the name with every other character removed,
/// the rest kept in order; so a name made only of them is stored as it is.
pub proof fn lemma_sanitized_keeps_ascii_letters_digits(name: Seq<char>)
    ensures
        sanitized(name) == name.filter(
            |c: char|
                ('a' <= c && c <= 'z') || ('A' <= c && c <= 'Z') || ('0' <= c && c <= '9') || c
                    == '.' || c == '_',
        ),
        (forall|i: int|
            0 <= i < name.len() ==> ('a' <= #[trigger] name[i] && name[i] <= 'z') || ('A' <= name[i]
                && name[i] <= 'Z') || ('0' <= name[i] && name[i] <= '9') || name[i] == '.'
                || name[i] == '_') ==> sanitized(name) == name,
    decreases name.len(),
{
    let keep = |c: char|
        ('a' <= c && c <= 'z') || ('A' <= c && c <= 'Z') || ('0' <= c && c <= '9') || c == '.'
            || c == '_';
    if name.len() == 0 {
        reveal_with_fuel(Seq::filter, 1);
    } else {
        lemma_sanitized_keeps_ascii_letters_digits(name.drop_last());
        reveal_with_fuel(Seq::filter, 1);
        assert(name.filter(keep) == if keep(name.last()) {
            name.drop_last().filter(keep).push(name.last())
        } else {
            name.drop_last().filter(keep)
        });
    }
    lemma_sanitized(name);
    if forall|i: int|
        0 <= i < name.len() ==> ('a' <= #[trigger] name[i] && name[i] <= 'z') || ('A' <= name[i]
            && name[i] <= 'Z') || ('0' <= name[i] && name[i] <= '9') || name[i] == '.'
            || name[i] == '_' {
        assert(all_name_chars(name));
    }
}

proof fn lemma_sanitized_identity(s: Seq<char>)
    requires
        all_name_chars(s),
    ensures
        sanitized(s) == s,
    decreases s.len(),
{
    if s.len() > 0 {
        let t = s.drop_last();
        assert(all_name_chars(t)) by {
            assert forall|i: int| 0 <= i < t.len() implies is_name_char(#[trigger] t[i]) by {
                assert(t[i] == s[i]);
            }
        }
        assert(is_name_char(s[s.len() - 1]));
        lemma_sanitized_identity(t);
        assert(t.push(s.last()) == s);
    }
}

/// Why a local file cannot be used.
#[derive(Debug, PartialEq, Eq)]
pub enum LocalError {
    /// Both `<what>.md` and `<what>.html` exist, so which one to send is unclear.
    BothFormats,
    /// Neither `<what>.md` nor `<what>.html` exists.
    Missing,
    /// A test case name would be changed by the server (the changed name is kept).
    RenamedByServer { which: Which, name: String, sanitized: String },
    /// `problem.toml` says another `problemId`.
    OtherProblem { found: i64, expected: i64 },
}

/// Whether a test case file is hidden (its name starts with `.`); hidden files
/// are not test cases.
pub fn is_hidden(name: &str) -> (r: bool)
    ensures
        r == (name@.len() > 0 && name@[0] == '.'),
{
    let cs = chars_of(name);
    cs.len() > 0 && cs[0] == '.'
}

/// Refuses a test case name that the server would change: the file would be
/// stored under another name and the difference would never go away.
pub fn check_testcase_name(which: Which, name: &str) -> (r: Result<(), LocalError>)
    ensures
        r is Ok <==> all_name_chars(name@),
        r matches Err(e) ==> e matches LocalError::RenamedByServer { which: w, name: n, sanitized: s }
            && w == which && n@ == name@ && s@ == sanitized(name@),
{
    let s = sanitized_file_name(name);
    proof {
        lemma_sanitized(name@);
    }
    if crate::text::str_eq(s.as_str(), name) {
        Ok(())
    } else {
        Err(LocalError::RenamedByServer { which, name: name.to_string(), sanitized: s })
    }
}

/// `r` is the statement or editorial read from its Markdown and HTML files
/// (the text of each when it exists): exactly one must exist, and its text
/// is normalised.
pub open spec fn read_one_of_ok(markdown: Option<Seq<char>>, html: Option<Seq<char>>, r: Result<Statement, LocalError>) -> bool {
    match (markdown, html) {
        (Some(_), Some(_)) => r == Err::<Statement, LocalError>(LocalError::BothFormats),
        (None, None) => r == Err::<Statement, LocalError>(LocalError::Missing),
        (Some(m), None) => r matches Ok(s) && s.is_markdown_spec() && s.text_spec() == normalized(m),
        (None, Some(h)) => r matches Ok(s) && !s.is_markdown_spec() && s.text_spec() == normalized(h),
    }
}

/// Chooses between the Markdown and the HTML file of a statement or an
/// editorial: `markdown` / `html` hold the text of the file when it exists.
pub fn read_one_of(markdown: Option<String>, html: Option<String>) -> (r: Result<
    Statement,
    LocalError,
>)
    ensures
        read_one_of_ok(opt_text(markdown), opt_text(html), r),
{
    match (markdown, html) {
        (Some(_), Some(_)) => Err(LocalError::BothFormats),
        (None, None) => Err(LocalError::Missing),
        (Some(m), None) => Ok(Statement::Markdown(normalize(m.as_str()))),
        (None, Some(h)) => Ok(Statement::Html(normalize(h.as_str()))),
    }
}

/// Checks the `problemId` read from `problem.toml` against the problem the
/// directory is used for; a file without `problemId` is accepted.
pub fn check_problem_id(found: Option<i64>, expected: i64) -> (r: Result<(), LocalError>)
    ensures
        match found {
            Some(id) if id != expected => r == Err::<(), LocalError>(
                LocalError::OtherProblem { found: id, expected },
            ),
            _ => r is Ok,
        },
{
    match found {
        Some(id) => {
            if id != expected {
                Err(LocalError::OtherProblem { found: id, expected })
            } else {
                Ok(())
            }
        },
        None => Ok(()),
    }
}

// ---------------------------------------------------------------------------
// Annotated settings

/// `code:label` entries separated by spaces (`0:通常 1:スペシャル`).
pub open spec fn code_comment_spec(labels: Seq<(i64, Seq<char>)>) -> Seq<char> {
    join(Seq::new(labels.len(), |i: int| decimal(labels[i].0 as int) + ":"@ + labels[i].1), " "@)
}

/// Describes numeric codes in a comment (`0:通常 1:スペシャル 2:リアクティブ`).
pub fn code_comment(labels: &Vec<(i64, &'static str)>) -> (r: String)
    ensures
        r@ == code_comment_spec(code_views(labels@)),
{
    let mut items: Vec<String> = Vec::new();
    let mut i: usize = 0;
    while i < labels.len()
        invariant
            i <= labels.len(),
            items@.len() == i,
            forall|k: int|
                0 <= k < i ==> (#[trigger] items@[k])@ == decimal(labels@[k].0 as int) + ":"@
                    + labels@[k].1@,
        decreases labels.len() - i,
    {
        let (code, label) = labels[i];
        let mut acc: Vec<char> = Vec::new();
        let c = i64_to_string(code);
        push_str(&mut acc, c.as_str());
        push_str(&mut acc, ":");
        push_str(&mut acc, label);
        items.push(string_of(&acc));
        i = i + 1;
    }
    let r = join_strings(&items, " ");
    assert(views(items@) == Seq::new(
        labels@.len(),
        |i: int| decimal(code_views(labels@)[i].0 as int) + ":"@ + code_views(labels@)[i].1,
    ));
    r
}

/// `"value":label` entries separated by spaces, for `epsMode`.
pub open spec fn eps_comment_spec(labels: Seq<(Seq<char>, Seq<char>)>) -> Seq<char> {
    join(Seq::new(labels.len(), |i: int| "\""@ + labels[i].0 + "\":"@ + labels[i].1), " "@)
}

/// Describes the `epsMode` values in a comment (`"-":なし "abs":絶対誤差 ...`).
pub fn eps_comment(labels: &Vec<(&'static str, &'static str)>) -> (r: String)
    ensures
        r@ == eps_comment_spec(pair_views(labels@)),
{
    let mut items: Vec<String> = Vec::new();
    let mut i: usize = 0;
    while i < labels.len()
        invariant
            i <= labels.len(),
            items@.len() == i,
            forall|k: int|
                0 <= k < i ==> (#[trigger] items@[k])@ == "\""@ + labels@[k].0@ + "\":"@
                    + labels@[k].1@,
        decreases labels.len() - i,
    {
        let (code, label) = labels[i];
        let mut acc: Vec<char> = Vec::new();
        push_str(&mut acc, "\"");
        push_str(&mut acc, code);
        push_str(&mut acc, "\":");
        push_str(&mut acc, label);
        items.push(string_of(&acc));
        i = i + 1;
    }
    let r = join_strings(&items, " ");
    assert(views(items@) == Seq::new(
        labels@.len(),
        |i: int| "\""@ + pair_views(labels@)[i].0 + "\":"@ + pair_views(labels@)[i].1,
    ));
    r
}

/// The line `line` with `" # comment"` added when it sets `key`.
pub open spec fn annotate_one(line: Seq<char>, key: Seq<char>, comment: Seq<char>) -> Seq<char> {
    if has_prefix(line, key + " = "@) {
        line + " # "@ + comment
    } else {
        line
    }
}

/// `body` with the line that sets `key` followed by `# comment`, the lines
/// joined with `\n` and ended by one.
pub open spec fn annotated(body: Seq<char>, key: Seq<char>, comment: Seq<char>) -> Seq<char> {
    join(
        Seq::new(lines(body).len(), |i: int| annotate_one(lines(body)[i], key, comment)),
        "\n"@,
    ) + "\n"@
}

/// Adds `# comment` to the line of `body` that sets `key` (`key = ...`).
/// `body` is TOML that this program wrote, so the shape of that line is known.
pub fn annotate_line(body: &str, key: &str, comment: &str) -> (r: String)
    ensures
        r@ == annotated(body@, key@, comment@),
{
    let ls = split_lines(body);
    let mut prefix: Vec<char> = chars_of(key);
    push_str(&mut prefix, " = ");
    let prefix = string_of(&prefix);
    let mut out: Vec<String> = Vec::new();
    let mut i: usize = 0;
    while i < ls.len()
        invariant
            i <= ls.len(),
            ls@.len() == lines(body@).len(),
            forall|k: int| 0 <= k < ls@.len() ==> #[trigger] ls@[k]@ == lines(body@)[k],
            prefix@ == key@ + " = "@,
            out@.len() == i,
            forall|k: int|
                0 <= k < i ==> (#[trigger] out@[k])@ == annotate_one(lines(body@)[k], key@, comment@),
        decreases ls.len() - i,
    {
        let line = &ls[i];
        if starts_with(line.as_str(), prefix.as_str()) {
            let mut acc = chars_of(line.as_str());
            push_str(&mut acc, " # ");
            push_str(&mut acc, comment);
            out.push(string_of(&acc));
        } else {
            out.push(line.clone());
        }
        i = i + 1;
    }
    let joined = join_strings(&out, "\n");
    assert(views(out@) == Seq::new(
        lines(body@).len(),
        |i: int| annotate_one(lines(body@)[i], key@, comment@),
    ));
    let mut acc = chars_of(joined.as_str());
    push_str(&mut acc, "\n");
    string_of(&acc)
}

/// The settings body with `problemType`, `judgeType` and `epsMode` annotated.
pub open spec fn settings_annotated(body: Seq<char>) -> Seq<char> {
    annotated(
        annotated(
            annotated(body, "problemType"@, code_comment_spec(problem_type_table())),
            "judgeType"@,
            code_comment_spec(judge_type_table()),
        ),
        "epsMode"@,
        eps_comment_spec(eps_mode_table()),
    )
}

/// Annotates the numeric codes of a settings body with their meanings.
pub fn annotate_settings(body: &str) -> (r: String)
    ensures
        r@ == settings_annotated(body@),
{
    let pt = crate::models::problem_type_labels();
    let jt = crate::models::judge_type_labels();
    let em = crate::models::eps_mode_labels();
    let c1 = code_comment(&pt);
    let b1 = annotate_line(body, "problemType", c1.as_str());
    let c2 = code_comment(&jt);
    let b2 = annotate_line(b1.as_str(), "judgeType", c2.as_str());
    let c3 = eps_comment(&em);
    annotate_line(b2.as_str(), "epsMode", c3.as_str())
}

// ---------------------------------------------------------------------------
// The test case directory

/// A file of the test case directory counts unless its name starts with `.`.
pub open spec fn visible(name: Seq<char>) -> bool {
    !(name.len() > 0 && name[0] == '.')
}

/// The position of the first counted file, from `i` on, whose name the
/// server would change.
pub open spec fn first_renamed(files: Seq<(Seq<char>, Seq<u8>)>, i: int) -> Option<int>
    decreases files.len() - i,
{
    if i < 0 || i >= files.len() {
        None
    } else if visible(files[i].0) && !all_name_chars(files[i].0) {
        Some(i)
    } else {
        first_renamed(files, i + 1)
    }
}

/// The content of the last counted file named `name` among the first `k`.
pub open spec fn last_content(files: Seq<(Seq<char>, Seq<u8>)>, name: Seq<char>, k: int) -> Option<Seq<u8>>
    decreases k,
{
    if k <= 0 {
        None
    } else if visible(files[k - 1].0) && files[k - 1].0 == name {
        Some(files[k - 1].1)
    } else {
        last_content(files, name, k - 1)
    }
}

/// The names strictly increase.
pub open spec fn names_sorted(v: Seq<(Seq<char>, Seq<u8>)>) -> bool {
    forall|i: int, j: int| 0 <= i < j < v.len() ==> lex_less(#[trigger] v[i].0, #[trigger] v[j].0)
}

proof fn lemma_first_renamed_skip(files: Seq<(Seq<char>, Seq<u8>)>, k: int)
    requires
        0 <= k <= files.len(),
        forall|j: int| 0 <= j < k ==> !(visible(#[trigger] files[j].0) && !all_name_chars(files[j].0)),
    ensures
        first_renamed(files, 0) == first_renamed(files, k),
    decreases k,
{
    if k > 0 {
        lemma_first_renamed_skip(files, k - 1);
    }
}

proof fn lemma_insert_sorted(s: Seq<(Seq<char>, Seq<u8>)>, pos: int, x: (Seq<char>, Seq<u8>))
    requires
        0 <= pos <= s.len(),
        names_sorted(s),
        forall|i: int| 0 <= i < pos ==> lex_less(#[trigger] s[i].0, x.0),
        pos < s.len() ==> lex_less(x.0, s[pos].0),
    ensures
        names_sorted(s.insert(pos, x)),
{
    let t = s.insert(pos, x);
    assert forall|i: int, j: int| 0 <= i < j < t.len() implies lex_less(#[trigger] t[i].0, #[trigger] t[j].0) by {
        if j < pos {
            assert(t[i] == s[i] && t[j] == s[j]);
        } else if j == pos {
            assert(t[i] == s[i]);
        } else if i < pos {
            assert(t[i] == s[i] && t[j] == s[j - 1]);
        } else if i == pos {
            assert(t[j] == s[j - 1]);
            if j - 1 > pos {
                assert(lex_less(s[pos].0, s[j - 1].0));
                lemma_lex_transitive(x.0, s[pos].0, s[j - 1].0);
            }
        } else {
            assert(t[i] == s[i - 1] && t[j] == s[j - 1]);
        }
    }
}

/// The test cases of a directory listing (`files`: each file's name and
/// bytes, in the order the listing gave them): files whose name starts with
/// `.` are not test cases; a name the server would change stops everything
/// (the first such file is reported); the rest come in name order, one per
/// name (the last file of a name counts).
#[verifier::rlimit(60)]
pub fn collect_testcases(which: Which, files: Vec<(String, Vec<u8>)>) -> (r: Result<Vec<(String, Vec<u8>)>, LocalError>)
    ensures
        ({
            let fv = case_views(files@);
            match r {
                Ok(v) => {
                    &&& first_renamed(fv, 0) is None
                    &&& names_sorted(case_views(v@))
                    &&& forall|i: int| 0 <= i < v@.len() ==> last_content(fv, #[trigger] v@[i].0@, fv.len() as int) == Some(v@[i].1@)
                    &&& forall|j: int| 0 <= j < fv.len() && visible(#[trigger] fv[j].0) ==> exists|i: int| 0 <= i < v@.len() && v@[i].0@ == fv[j].0
                },
                Err(e) => first_renamed(fv, 0) matches Some(i) && (e matches LocalError::RenamedByServer { which: w, name, sanitized: s }
                    && w == which && name@ == fv[i].0 && s@ == sanitized(fv[i].0)),
            }
        }),
{
    let ghost fv = case_views(files@);
    let ghost n: int = fv.len() as int;
    let mut rest = files;
    let mut out: Vec<(String, Vec<u8>)> = Vec::new();
    let ghost mut k: int = 0;
    while rest.len() > 0
        invariant
            fv == case_views(files@),
            0 <= k <= n,
            n == fv.len(),
            case_views(rest@) == fv.subrange(k, n),
            forall|j: int| 0 <= j < k ==> !(visible(#[trigger] fv[j].0) && !all_name_chars(fv[j].0)),
            names_sorted(case_views(out@)),
            forall|i: int| 0 <= i < out@.len() ==> last_content(fv, #[trigger] out@[i].0@, k) == Some(out@[i].1@),
            forall|j: int| 0 <= j < k && visible(#[trigger] fv[j].0) ==> exists|i: int| 0 <= i < out@.len() && out@[i].0@ == fv[j].0,
        decreases rest@.len(),
    {
        let ghost before = rest@;
        let (name, content) = rest.remove(0);
        let ghost f = (name@, content@);
        proof {
            assert(before.len() > 0);
            assert(case_views(before).len() == before.len());
            assert(k < n);
            assert(case_views(before)[0] == fv.subrange(k, n)[0]);
            assert(f == fv[k]);
            assert(rest@ == before.remove(0));
            assert forall|j: int| 0 <= j < rest@.len() implies case_views(rest@)[j] == fv.subrange(k + 1, n)[j] by {
                assert(rest@[j] == before[j + 1]);
                assert(case_views(before)[j + 1] == fv.subrange(k, n)[j + 1]);
            }
            assert(case_views(rest@) =~= fv.subrange(k + 1, n));
        }
        if is_hidden(name.as_str()) {
            proof {
                assert(!visible(f.0));
                assert forall|i: int| 0 <= i < out@.len() implies last_content(fv, #[trigger] out@[i].0@, k + 1) == Some(out@[i].1@) by {
                    assert(last_content(fv, out@[i].0@, k + 1) == last_content(fv, out@[i].0@, k));
                }
                k = k + 1;
            }
        } else {
            match check_testcase_name(which, name.as_str()) {
                Err(e) => {
                    proof {
                        assert(f == fv[k]);
                        assert(visible(fv[k].0));
                        assert(!all_name_chars(fv[k].0));
                        lemma_first_renamed_skip(fv, k);
                        assert(first_renamed(fv, k) == Some(k));
                    }
                    return Err(e);
                },
                Ok(()) => {},
            }
            let mut pos: usize = 0;
            while pos < out.len() && crate::text::str_less(out[pos].0.as_str(), name.as_str())
                invariant
                    pos <= out@.len(),
                    forall|i: int| 0 <= i < pos ==> lex_less(#[trigger] out@[i].0@, name@),
                decreases out@.len() - pos,
            {
                pos = pos + 1;
            }
            let ghost old_out = out@;
            let ghost ov = case_views(out@);
            if pos < out.len() && crate::text::str_eq(out[pos].0.as_str(), name.as_str()) {
                out.set(pos, (name, content));
                proof {
                    assert(out@ == old_out.update(pos as int, (name, content)));
                    assert(case_views(out@) =~= ov.update(pos as int, f));
                    assert forall|i: int, j: int| 0 <= i < j < out@.len() implies lex_less(#[trigger] case_views(out@)[i].0, #[trigger] case_views(out@)[j].0) by {
                        assert(case_views(out@)[i].0 == ov[i].0);
                        assert(case_views(out@)[j].0 == ov[j].0);
                    }
                    assert(ov[pos as int].0 == name@);
                    assert forall|i: int| 0 <= i < out@.len() implies last_content(fv, #[trigger] out@[i].0@, k + 1) == Some(out@[i].1@) by {
                        if i != pos {
                            assert(out@[i] == old_out[i]);
                            assert(last_content(fv, old_out[i].0@, k) == Some(old_out[i].1@));
                            assert(ov[i].0 == old_out[i].0@);
                            assert(ov[i].0 != ov[pos as int].0) by {
                                if i < pos {
                                    assert(lex_less(ov[i].0, ov[pos as int].0));
                                } else {
                                    assert(lex_less(ov[pos as int].0, ov[i].0));
                                }
                                lemma_lex_irreflexive(ov[pos as int].0);
                            }
                        }
                    }
                    assert forall|j: int| 0 <= j < k + 1 && visible(#[trigger] fv[j].0) implies exists|i: int| 0 <= i < out@.len() && out@[i].0@ == fv[j].0 by {
                        if j == k {
                            assert(out@[pos as int].0@ == fv[j].0);
                        } else {
                            let i = choose|i: int| 0 <= i < old_out.len() && old_out[i].0@ == fv[j].0;
                            assert(out@[i].0@ == fv[j].0);
                        }
                    }
                }
            } else {
                proof {
                    if pos < out@.len() {
                        crate::text::lemma_lex_total(out@[pos as int].0@, name@);
                    }
                    assert forall|i: int| 0 <= i < pos implies lex_less(#[trigger] ov[i].0, f.0) by {
                        assert(ov[i].0 == out@[i].0@);
                    }
                    lemma_insert_sorted(ov, pos as int, f);
                }
                out.insert(pos, (name, content));
                proof {
                    assert(out@ == old_out.insert(pos as int, (name, content)));
                    assert(case_views(out@) =~= ov.insert(pos as int, f));
                    assert forall|i: int| 0 <= i < out@.len() implies last_content(fv, #[trigger] out@[i].0@, k + 1) == Some(out@[i].1@) by {
                        if i < pos {
                            assert(out@[i] == old_out[i]);
                            assert(lex_less(old_out[i].0@, name@));
                            crate::text::lemma_lex_irreflexive(name@);
                        } else if i > pos {
                            assert(out@[i] == old_out[i - 1]);
                            assert(lex_less(name@, old_out[i - 1].0@)) by {
                                if i - 1 > pos {
                                    assert(lex_less(ov[pos as int].0, ov[i - 1].0));
                                    crate::text::lemma_lex_transitive(name@, ov[pos as int].0, ov[i - 1].0);
                                }
                            }
                            crate::text::lemma_lex_irreflexive(name@);
                        }
                    }
                    assert forall|j: int| 0 <= j < k + 1 && visible(#[trigger] fv[j].0) implies exists|i: int| 0 <= i < out@.len() && out@[i].0@ == fv[j].0 by {
                        if j == k {
                            assert(out@[pos as int].0@ == fv[j].0);
                        } else {
                            let i = choose|i: int| 0 <= i < old_out.len() && old_out[i].0@ == fv[j].0;
                            if i < pos {
                                assert(out@[i].0@ == fv[j].0);
                            } else {
                                assert(out@[i + 1].0@ == fv[j].0);
                            }
                        }
                    }
                }
            }
            proof {
                k = k + 1;
            }
        }
    }
    proof {
        assert(k == n) by {
            assert(case_views(rest@).len() == rest@.len());
        }
        lemma_first_renamed_skip(fv, k);
    }
    Ok(out)
}

} // verus!

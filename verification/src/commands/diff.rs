//! `yuki-tool diff`: what differs between the local files and the server.
//!
//! Every section reports either that it is the same or what differs; the
//! command fails with [`EXIT_DIFF`] under `--exit-code` when anything does.

use vstd::prelude::*;

use crate::commands::testcases::{
    bytes_view, case_names, local_states, remote_only, state_of, TestcaseState,
};
use crate::commands::push::{names_of, to_upload, upload_spec};
use crate::local::{case_views, GeneratorConfig, JudgeConfig};
use crate::models::{
    eps_mode_label, eps_mode_name, judge_type_label, judge_type_name, problem_type_label,
    problem_type_name, GeneratorContent, JudgeCodeContent, Statement, Which,
};
use crate::text::{chars_of, push_str, str_eq, string_of, views};

verus! {

/// The exit status of `diff --exit-code` when something differs.
pub const EXIT_DIFF: i32 = 2;

/// One setting as the API's JSON has it: the key, the value's JSON text,
/// and the value as an integer, a string or a floating-point number when it
/// is one.
pub struct JsonField {
    pub key: String,
    /// `serde_json`'s text of the value (`2000`, `"abs"`, `["cpp"]`).
    pub text: String,
    pub number: Option<i64>,
    pub string: Option<String>,
    /// The bits of the value (`f64::to_bits`) when it is a floating-point number.
    pub float: Option<u64>,
}

/// The sign bit of an `f64`.
pub const F64_SIGN: u64 = 0x8000_0000_0000_0000;

/// The bits of an `f64` infinity without its sign; above it lie the NaNs.
pub const F64_INFINITY: u64 = 0x7ff0_0000_0000_0000;

/// Whether the `f64`s with bits `a` and `b` are equal (`==`): a NaN equals
/// nothing, and `0.0` equals `-0.0`.
pub open spec fn f64_bits_eq(a: u64, b: u64) -> bool {
    let ma = a % F64_SIGN;
    let mb = b % F64_SIGN;
    ma <= F64_INFINITY && mb <= F64_INFINITY && (a == b || (ma == 0 && mb == 0))
}

/// `f64` equality on bits.
pub fn f64_bits_equal(a: u64, b: u64) -> (r: bool)
    ensures
        r == f64_bits_eq(a, b),
{
    let ma = a % F64_SIGN;
    let mb = b % F64_SIGN;
    ma <= F64_INFINITY && mb <= F64_INFINITY && (a == b || (ma == 0 && mb == 0))
}

/// Whether two settings have equal JSON values. Two floating-point numbers
/// are compared as `f64`s. Any other values are equal exactly when their
/// texts are: `serde_json` writes equal values without floating-point numbers
/// in one way only (object keys sorted), and a float's text never equals the
/// text of a value of another kind.
pub open spec fn same_value(a: JsonField, b: JsonField) -> bool {
    match (a.float, b.float) {
        (Some(x), Some(y)) => f64_bits_eq(x, y),
        _ => a.text@ == b.text@,
    }
}

fn same_value_exec(a: &JsonField, b: &JsonField) -> (r: bool)
    ensures
        r == same_value(*a, *b),
{
    match (a.float, b.float) {
        (Some(x), Some(y)) => f64_bits_equal(x, y),
        _ => str_eq(a.text.as_str(), b.text.as_str()),
    }
}

/// The label shown beside a coded setting.
pub open spec fn field_label(f: JsonField) -> Option<Seq<char>> {
    if f.key@ == "judgeType"@ {
        match f.number {
            Some(n) => judge_type_name(n as int),
            None => None,
        }
    } else if f.key@ == "problemType"@ {
        match f.number {
            Some(n) => problem_type_name(n as int),
            None => None,
        }
    } else if f.key@ == "epsMode"@ {
        match f.string {
            Some(s) => eps_mode_name(s@),
            None => None,
        }
    } else {
        None
    }
}

/// A setting as shown: its JSON text, with the label of a coded value
/// (`1 (スペシャル)`).
pub open spec fn shown(f: JsonField) -> Seq<char> {
    match field_label(f) {
        Some(l) => f.text@ + " ("@ + l + ")"@,
        None => f.text@,
    }
}

/// A setting's value as shown, with the meaning of a numeric code beside it.
pub fn display_value(f: &JsonField) -> (r: String)
    ensures
        r@ == shown(*f),
{
    let label = if str_eq(f.key.as_str(), "judgeType") {
        match f.number {
            Some(n) => judge_type_label(n),
            None => None,
        }
    } else if str_eq(f.key.as_str(), "problemType") {
        match f.number {
            Some(n) => problem_type_label(n),
            None => None,
        }
    } else if str_eq(f.key.as_str(), "epsMode") {
        match &f.string {
            Some(s) => eps_mode_label(s.as_str()),
            None => None,
        }
    } else {
        None
    };
    match label {
        Some(l) => {
            let mut acc = chars_of(f.text.as_str());
            push_str(&mut acc, " (");
            push_str(&mut acc, l);
            push_str(&mut acc, ")");
            string_of(&acc)
        },
        None => f.text.clone(),
    }
}

/// The first field of `fields` with key `key`.
pub open spec fn field_of(fields: Seq<JsonField>, key: Seq<char>) -> Option<JsonField>
    decreases fields.len(),
{
    if fields.len() == 0 {
        None
    } else if fields[0].key@ == key {
        Some(fields[0])
    } else {
        field_of(fields.drop_first(), key)
    }
}

/// The settings of `remote` whose value differs in `local` (or that `local`
/// lacks), in order: the key, the remote value and the local one (empty when
/// missing), as shown.
pub open spec fn changes_spec(remote: Seq<JsonField>, local: Seq<JsonField>) -> Seq<(Seq<char>, Seq<char>, Seq<char>)>
    decreases remote.len(),
{
    if remote.len() == 0 {
        seq![]
    } else {
        let rest = changes_spec(remote.drop_last(), local);
        let f = remote.last();
        match field_of(local, f.key@) {
            Some(l) => if same_value(l, f) {
                rest
            } else {
                rest.push((f.key@, shown(f), shown(l)))
            },
            None => rest.push((f.key@, shown(f), seq![])),
        }
    }
}

pub open spec fn triple_views(v: Seq<(String, String, String)>) -> Seq<(Seq<char>, Seq<char>, Seq<char>)> {
    Seq::new(v.len(), |i: int| (v[i].0@, v[i].1@, v[i].2@))
}

fn find_field(fields: &Vec<JsonField>, key: &str) -> (r: Option<usize>)
    ensures
        match r {
            Some(i) => i < fields@.len() && field_of(fields@, key@) == Some(fields@[i as int]),
            None => field_of(fields@, key@) is None,
        },
{
    let mut i: usize = 0;
    assert(fields@.subrange(0, fields@.len() as int) == fields@);
    while i < fields.len()
        invariant
            i <= fields@.len(),
            field_of(fields@, key@) == field_of(fields@.subrange(i as int, fields@.len() as int), key@),
        decreases fields@.len() - i,
    {
        let ghost rest = fields@.subrange(i as int, fields@.len() as int);
        assert(rest.drop_first() == fields@.subrange(i + 1, fields@.len() as int));
        if str_eq(fields[i].key.as_str(), key) {
            return Some(i);
        }
        i = i + 1;
    }
    assert(fields@.subrange(i as int, fields@.len() as int).len() == 0);
    None
}

/// The settings that differ, compared key by key on their JSON values (the
/// keys in the order of `remote`): `(key, remote value, local value)`, the
/// values shown with their labels and a missing local value shown empty.
pub fn settings_changes(remote: &Vec<JsonField>, local: &Vec<JsonField>) -> (r: Vec<(String, String, String)>)
    ensures
        triple_views(r@) == changes_spec(remote@, local@),
{
    let mut out: Vec<(String, String, String)> = Vec::new();
    let mut i: usize = 0;
    while i < remote.len()
        invariant
            i <= remote@.len(),
            triple_views(out@) == changes_spec(remote@.subrange(0, i as int), local@),
        decreases remote@.len() - i,
    {
        let ghost prefix = remote@.subrange(0, i + 1);
        assert(prefix.drop_last() == remote@.subrange(0, i as int));
        assert(prefix.last() == remote@[i as int]);
        let f = &remote[i];
        let ghost before = out@;
        match find_field(local, f.key.as_str()) {
            Some(j) => {
                if !same_value_exec(&local[j], f) {
                    let entry = (f.key.clone(), display_value(f), display_value(&local[j]));
                    out.push(entry);
                    assert(triple_views(out@) =~= triple_views(before).push(
                        (f.key@, shown(*f), shown(local@[j as int])),
                    ));
                }
            },
            None => {
                let entry = (f.key.clone(), display_value(f), String::new());
                out.push(entry);
                assert(triple_views(out@) =~= triple_views(before).push((f.key@, shown(*f), seq![])));
            },
        }
        i = i + 1;
    }
    assert(remote@.subrange(0, remote@.len() as int) == remote@);
    out
}

/// `Markdown` or `HTML`.
pub fn format_kind(is_markdown: bool) -> (r: &'static str)
    ensures
        r@ == (if is_markdown { "Markdown"@ } else { "HTML"@ }),
{
    if is_markdown {
        "Markdown"
    } else {
        "HTML"
    }
}

/// The unified diff that `similar` writes for two texts, compared line by
/// line, with `context` lines around each change and the two headers.
pub uninterp spec fn unified_diff_text(
    old: Seq<char>,
    new: Seq<char>,
    context: nat,
    old_header: Seq<char>,
    new_header: Seq<char>,
) -> Seq<char>;

/// `similar::TextDiff::from_lines(old, new).unified_diff()`, with the
/// context radius and the headers given, written out as text. Its result is
/// only named: it depends on the arguments alone (the diff runs with no
/// deadline).
#[verifier::external_body]
fn unified_diff(old: &str, new: &str, context: usize, old_header: &str, new_header: &str) -> (r: String)
    ensures
        r@ == unified_diff_text(old@, new@, context as nat, old_header@, new_header@),
{
    similar::TextDiff::from_lines(old, new).unified_diff().context_radius(context).header(
        old_header,
        new_header,
    ).to_string()
}

/// The lines of context around a change.
pub const DIFF_CONTEXT: usize = 3;

/// The difference of the server's text and the local one: `None` when they
/// are equal, else their unified diff (3 lines of context, headed
/// `yukicoder` and `ローカル`).
pub fn text_diff(remote: &str, local: &str) -> (r: Option<String>)
    ensures
        r is None <==> remote@ == local@,
        r matches Some(d) ==> d@ == unified_diff_text(remote@, local@, 3, "yukicoder"@, "ローカル"@),
{
    if str_eq(remote, local) {
        None
    } else {
        Some(unified_diff(remote, local, DIFF_CONTEXT, "yukicoder", "ローカル"))
    }
}

// ---------------------------------------------------------------------------
// The report

/// The part of a problem that a line is about.
#[derive(Debug, Clone, Copy, PartialEq, Eq, Structural)]
pub enum Section {
    Statement,
    Editorial,
    Generator,
    JudgeCode,
}

/// One line of the report.
pub enum DiffLine {
    /// No setting differs.
    SettingsSame,
    /// A setting differs (values as shown; the local one empty when missing).
    SettingChanged { key: String, remote: String, local: String },
    /// The server keeps the text as Markdown and the local file is HTML, or
    /// the other way round.
    KindDiffers { section: Section, remote_markdown: bool, local_markdown: bool },
    /// The texts are equal.
    TextSame { section: Section },
    /// The texts differ: their unified diff.
    TextChanged { section: Section, diff: String },
    /// The generator's language differs.
    GeneratorLang { remote: String, local: String },
    /// The generator's number of cases differs.
    GeneratorCases { remote_cases: i64, local_cases: i64 },
    /// The server has no judge code API; nothing was compared.
    JudgeUnsupported,
    /// The judge code's language differs.
    JudgeLang { remote: String, local: String },
    /// A test case is on one side only, or differs.
    Testcase { which: Which, name: String, state: TestcaseState },
    /// No test case differs; `count` local ones.
    TestcasesSame { which: Which, count: usize },
}

/// Whether a line reports a difference.
pub open spec fn is_difference(l: DiffLine) -> bool {
    !(l is SettingsSame || l is TextSame || l is JudgeUnsupported || l is TestcasesSame)
}

pub open spec fn has_difference(ls: Seq<DiffLine>) -> bool {
    exists|i: int| 0 <= i < ls.len() && is_difference(#[trigger] ls[i])
}

/// Whether the report shows any difference (the exit status of
/// `--exit-code`).
pub fn any_difference(lines: &Vec<DiffLine>) -> (r: bool)
    ensures
        r == has_difference(lines@),
{
    let mut i: usize = 0;
    while i < lines.len()
        invariant
            i <= lines@.len(),
            forall|k: int| 0 <= k < i ==> !is_difference(#[trigger] lines@[k]),
        decreases lines@.len() - i,
    {
        let same = match &lines[i] {
            DiffLine::SettingsSame => true,
            DiffLine::TextSame { .. } => true,
            DiffLine::JudgeUnsupported => true,
            DiffLine::TestcasesSame { .. } => true,
            _ => false,
        };
        if !same {
            assert(is_difference(lines@[i as int]));
            return true;
        }
        i = i + 1;
    }
    false
}

/// The settings lines: `SettingsSame`, or one `SettingChanged` per setting
/// that differs (see [`settings_changes`]).
pub fn settings_lines(remote: &Vec<JsonField>, local: &Vec<JsonField>) -> (r: Vec<DiffLine>)
    ensures
        ({
            let changes = changes_spec(remote@, local@);
            &&& changes.len() == 0 ==> r@.len() == 1 && r@[0] is SettingsSame
            &&& changes.len() > 0 ==> r@.len() == changes.len() && forall|i: int| 0 <= i < changes.len() ==> (#[trigger] r@[i] matches DiffLine::SettingChanged { key, remote, local }
                && (key@, remote@, local@) == changes[i])
            &&& has_difference(r@) <==> changes.len() > 0
        }),
{
    let changes = settings_changes(remote, local);
    let mut out: Vec<DiffLine> = Vec::new();
    if changes.len() == 0 {
        out.push(DiffLine::SettingsSame);
        assert(!is_difference(out@[0]));
        return out;
    }
    let mut i: usize = 0;
    while i < changes.len()
        invariant
            i <= changes@.len(),
            triple_views(changes@) == changes_spec(remote@, local@),
            out@.len() == i,
            forall|k: int| 0 <= k < i ==> (#[trigger] out@[k] matches DiffLine::SettingChanged { key, remote, local }
                && (key@, remote@, local@) == triple_views(changes@)[k]),
        decreases changes@.len() - i,
    {
        let c = &changes[i];
        out.push(DiffLine::SettingChanged { key: c.0.clone(), remote: c.1.clone(), local: c.2.clone() });
        i = i + 1;
    }
    assert(is_difference(out@[0]));
    out
}

/// The line comparing two texts.
fn text_line(section: Section, remote: &str, local: &str) -> (r: DiffLine)
    ensures
        remote@ == local@ ==> r == (DiffLine::TextSame { section }),
        remote@ != local@ ==> (r matches DiffLine::TextChanged { section: s, diff } && s == section && diff@
            == unified_diff_text(remote@, local@, 3, "yukicoder"@, "ローカル"@)),
{
    match text_diff(remote, local) {
        None => DiffLine::TextSame { section },
        Some(diff) => DiffLine::TextChanged { section, diff },
    }
}

/// The lines for a statement or an editorial: a `KindDiffers` line when the
/// formats differ (push sends the local format, so that is a difference too),
/// then the text line.
pub fn document_lines(section: Section, remote_text: &str, remote_markdown: bool, local: &Statement) -> (r: Vec<DiffLine>)
    ensures
        ({
            let kinds = remote_markdown != local.is_markdown_spec();
            let last = r@.len() - 1;
            &&& r@.len() == (if kinds { 2int } else { 1int })
            &&& kinds ==> r@[0] == (DiffLine::KindDiffers {
                section,
                remote_markdown,
                local_markdown: local.is_markdown_spec(),
            })
            &&& remote_text@ == local.text_spec() ==> r@[last] == (DiffLine::TextSame { section })
            &&& remote_text@ != local.text_spec() ==> (r@[last] matches DiffLine::TextChanged { section: s, diff }
                && s == section && diff@ == unified_diff_text(remote_text@, local.text_spec(), 3, "yukicoder"@, "ローカル"@))
            &&& has_difference(r@) <==> (kinds || remote_text@ != local.text_spec())
        }),
{
    let mut out: Vec<DiffLine> = Vec::new();
    let local_markdown = local.is_markdown();
    if remote_markdown != local_markdown {
        out.push(DiffLine::KindDiffers { section, remote_markdown, local_markdown });
    }
    let line = text_line(section, remote_text, local.text());
    out.push(line);
    proof {
        if remote_markdown != local_markdown {
            assert(is_difference(out@[0]));
        }
        if remote_text@ != local.text_spec() {
            assert(is_difference(out@[out@.len() - 1]));
        }
    }
    out
}

/// The generator lines: language and number of cases when they differ, then
/// the source.
pub fn generator_lines(remote: &GeneratorContent, local: &GeneratorConfig, source: &str) -> (r: Vec<DiffLine>)
    ensures
        ({
            let lang = remote.lang_id@ != local.lang_id@;
            let cases = remote.test_case_num != local.test_case_num;
            let n = (if lang { 1int } else { 0int }) + (if cases { 1int } else { 0int });
            &&& r@.len() == n + 1
            &&& lang ==> (r@[0] matches DiffLine::GeneratorLang { remote: a, local: b } && a@ == remote.lang_id@
                && b@ == local.lang_id@)
            &&& cases ==> r@[n - 1] == (DiffLine::GeneratorCases {
                remote_cases: remote.test_case_num,
                local_cases: local.test_case_num,
            })
            &&& remote.source@ == source@ ==> r@[n] == (DiffLine::TextSame { section: Section::Generator })
            &&& remote.source@ != source@ ==> (r@[n] matches DiffLine::TextChanged { section, diff }
                && section == Section::Generator && diff@ == unified_diff_text(remote.source@, source@, 3, "yukicoder"@, "ローカル"@))
            &&& has_difference(r@) <==> (lang || cases || remote.source@ != source@)
        }),
{
    let mut out: Vec<DiffLine> = Vec::new();
    let lang = !str_eq(remote.lang_id.as_str(), local.lang_id.as_str());
    if lang {
        out.push(DiffLine::GeneratorLang { remote: remote.lang_id.clone(), local: local.lang_id.clone() });
    }
    if remote.test_case_num != local.test_case_num {
        out.push(DiffLine::GeneratorCases { remote_cases: remote.test_case_num, local_cases: local.test_case_num });
    }
    let line = text_line(Section::Generator, remote.source.as_str(), source);
    out.push(line);
    proof {
        if lang {
            assert(is_difference(out@[0]));
        }
        if remote.test_case_num != local.test_case_num {
            assert(is_difference(out@[out@.len() - 2]));
        }
        if remote.source@ != source@ {
            assert(is_difference(out@[out@.len() - 1]));
        }
    }
    out
}

/// The judge code lines: `JudgeUnsupported` when the server has no judge
/// code API; else the language when it differs, then the source.
pub fn judge_lines(remote: &Option<JudgeCodeContent>, local: &JudgeConfig, source: &str) -> (r: Vec<DiffLine>)
    ensures
        match remote {
            None => r@.len() == 1 && r@[0] is JudgeUnsupported,
            Some(c) => {
                let lang = c.lang_id@ != local.lang_id@;
                let last = r@.len() - 1;
                &&& r@.len() == (if lang { 2int } else { 1int })
                &&& lang ==> (r@[0] matches DiffLine::JudgeLang { remote: a, local: b } && a@ == c.lang_id@
                    && b@ == local.lang_id@)
                &&& c.source@ == source@ ==> r@[last] == (DiffLine::TextSame { section: Section::JudgeCode })
                &&& c.source@ != source@ ==> (r@[last] matches DiffLine::TextChanged { section, diff }
                    && section == Section::JudgeCode && diff@ == unified_diff_text(c.source@, source@, 3, "yukicoder"@, "ローカル"@))
            },
        },
        has_difference(r@) <==> (remote matches Some(c) && (c.lang_id@ != local.lang_id@ || c.source@ != source@)),
{
    let mut out: Vec<DiffLine> = Vec::new();
    match remote {
        None => {
            out.push(DiffLine::JudgeUnsupported);
            assert(!is_difference(out@[0]));
        },
        Some(c) => {
            let lang = !str_eq(c.lang_id.as_str(), local.lang_id.as_str());
            if lang {
                out.push(DiffLine::JudgeLang { remote: c.lang_id.clone(), local: local.lang_id.clone() });
            }
            let line = text_line(Section::JudgeCode, c.source.as_str(), source);
            out.push(line);
            proof {
                if lang {
                    assert(is_difference(out@[0]));
                }
                if c.source@ != source@ {
                    assert(is_difference(out@[out@.len() - 1]));
                }
            }
        },
    }
    out
}

/// The states of the local test cases given the server's copies.
pub open spec fn states_spec(local: Seq<(String, Vec<u8>)>, fetched: Seq<Option<Vec<u8>>>) -> Seq<TestcaseState> {
    Seq::new(local.len(), |i: int| state_of(local[i].1@, bytes_view(fetched[i])))
}

/// The local test cases that are not the same on the server, with their
/// states, in order.
pub open spec fn local_diffs(names: Seq<Seq<char>>, states: Seq<TestcaseState>) -> Seq<(Seq<char>, TestcaseState)>
    decreases names.len(),
{
    if names.len() == 0 || states.len() == 0 {
        seq![]
    } else if states.last() == TestcaseState::Same {
        local_diffs(names.drop_last(), states.drop_last())
    } else {
        local_diffs(names.drop_last(), states.drop_last()).push((names.last(), states.last()))
    }
}

/// What the test case lines report, in order: the server's test cases that
/// are not local, then the local ones that are not the same on the server.
pub open spec fn testcase_diffs(
    local: Seq<(String, Vec<u8>)>,
    remote_names: Seq<String>,
    fetched: Seq<Option<Vec<u8>>>,
) -> Seq<(Seq<char>, TestcaseState)> {
    let ro = crate::commands::testcases::missing_from(views(remote_names), case_names(local));
    Seq::new(ro.len(), |i: int| (ro[i], TestcaseState::RemoteOnly)) + local_diffs(
        case_names(local),
        states_spec(local, fetched),
    )
}

/// The test case lines of one side (`in` / `out`): one line per test case
/// that is on one side only or differs, or else `TestcasesSame`. `fetched[i]`
/// is the server's copy of `local[i]` (`None`: the server has no test case of
/// that name).
#[verifier::rlimit(30)]
pub fn testcase_lines(
    which: Which,
    local: &Vec<(String, Vec<u8>)>,
    remote_names: &Vec<String>,
    fetched: &Vec<Option<Vec<u8>>>,
) -> (r: Vec<DiffLine>)
    requires
        fetched@.len() == local@.len(),
    ensures
        ({
            let e = testcase_diffs(local@, remote_names@, fetched@);
            &&& e.len() == 0 ==> (r@.len() == 1 && (r@[0] matches DiffLine::TestcasesSame { which: w, count }
                && w == which && count == local@.len()))
            &&& e.len() > 0 ==> r@.len() == e.len() && forall|i: int| 0 <= i < e.len() ==> (#[trigger] r@[i] matches DiffLine::Testcase { which: w, name, state }
                && w == which && name@ == e[i].0 && state == e[i].1)
            &&& has_difference(r@) <==> e.len() > 0
        }),
{
    let ro = remote_only(local, remote_names);
    let states = local_states(local, fetched);
    let ghost e = testcase_diffs(local@, remote_names@, fetched@);
    let ghost head = Seq::new(views(ro@).len(), |i: int| (views(ro@)[i], TestcaseState::RemoteOnly));
    assert forall|k: int| 0 <= k < ro@.len() implies #[trigger] head[k] == (ro@[k]@, TestcaseState::RemoteOnly) by {
        assert(views(ro@)[k] == ro@[k]@);
    }
    assert(states@ == states_spec(local@, fetched@));
    let mut out: Vec<DiffLine> = Vec::new();
    let mut i: usize = 0;
    while i < ro.len()
        invariant
            i <= ro@.len(),
            head.len() == ro@.len(),
            forall|k: int| 0 <= k < ro@.len() ==> #[trigger] head[k] == (ro@[k]@, TestcaseState::RemoteOnly),
            out@.len() == i,
            forall|k: int| 0 <= k < i ==> (#[trigger] out@[k] matches DiffLine::Testcase { which: w, name, state }
                && w == which && name@ == head[k].0 && state == head[k].1),
        decreases ro@.len() - i,
    {
        out.push(DiffLine::Testcase { which, name: ro[i].clone(), state: TestcaseState::RemoteOnly });
        i = i + 1;
    }
    let ghost mid = out@.len();
    let mut j: usize = 0;
    while j < local.len()
        invariant
            j <= local@.len(),
            states@.len() == local@.len(),
            states@ == states_spec(local@, fetched@),
            mid == head.len(),
            out@.len() == mid + local_diffs(case_names(local@).subrange(0, j as int), states@.subrange(0, j as int)).len(),
            forall|k: int| 0 <= k < mid ==> (#[trigger] out@[k] matches DiffLine::Testcase { which: w, name, state }
                && w == which && name@ == head[k].0 && state == head[k].1),
            forall|k: int| 0 <= k < out@.len() - mid ==> (#[trigger] out@[mid + k] matches DiffLine::Testcase { which: w, name, state }
                && w == which && name@ == local_diffs(case_names(local@).subrange(0, j as int), states@.subrange(0, j as int))[k].0
                && state == local_diffs(case_names(local@).subrange(0, j as int), states@.subrange(0, j as int))[k].1),
        decreases local@.len() - j,
    {
        let ghost ns = case_names(local@).subrange(0, j + 1);
        let ghost ss = states@.subrange(0, j + 1);
        assert(ns.drop_last() == case_names(local@).subrange(0, j as int));
        assert(ss.drop_last() == states@.subrange(0, j as int));
        assert(ns.last() == local@[j as int].0@);
        assert(ss.last() == states@[j as int]);
        let ghost prev = local_diffs(case_names(local@).subrange(0, j as int), states@.subrange(0, j as int));
        if states[j] != TestcaseState::Same {
            out.push(DiffLine::Testcase { which, name: local[j].0.clone(), state: states[j] });
            assert(local_diffs(ns, ss) == prev.push((local@[j as int].0@, states@[j as int])));
        }
        j = j + 1;
    }
    assert(case_names(local@).subrange(0, local@.len() as int) == case_names(local@));
    assert(states@.subrange(0, local@.len() as int) == states@);
    assert(head =~= Seq::new(
        crate::commands::testcases::missing_from(views(remote_names@), case_names(local@)).len(),
        |i: int| (crate::commands::testcases::missing_from(views(remote_names@), case_names(local@))[i], TestcaseState::RemoteOnly),
    ));
    if out.len() == 0 {
        out.push(DiffLine::TestcasesSame { which, count: local.len() });
        assert(!is_difference(out@[0]));
        return out;
    }
    proof {
        assert forall|k: int| 0 <= k < e.len() implies (#[trigger] out@[k] matches DiffLine::Testcase { which: w, name, state }
            && w == which && name@ == e[k].0 && state == e[k].1) by {
            if k >= mid {
                assert(out@[mid + (k - mid)] == out@[k]);
            }
        }
        assert(is_difference(out@[0]));
    }
    out
}

/// The names of reported test cases.
pub open spec fn diff_names(d: Seq<(Seq<char>, TestcaseState)>) -> Seq<Seq<char>> {
    Seq::new(d.len(), |i: int| d[i].0)
}

proof fn lemma_local_diffs_are_uploads(cases: Seq<(Seq<char>, Seq<u8>)>, states: Seq<TestcaseState>)
    requires
        cases.len() == states.len(),
        forall|i: int| 0 <= i < states.len() ==> #[trigger] states[i] != TestcaseState::RemoteOnly,
    ensures
        diff_names(local_diffs(names_of(cases), states)) == names_of(upload_spec(cases, states)),
    decreases cases.len(),
{
    if cases.len() > 0 {
        let cr = cases.drop_last();
        let sr = states.drop_last();
        assert forall|i: int| 0 <= i < sr.len() implies #[trigger] sr[i] != TestcaseState::RemoteOnly by {
            assert(sr[i] == states[i]);
        }
        lemma_local_diffs_are_uploads(cr, sr);
        assert(names_of(cases).drop_last() == names_of(cr));
        assert(names_of(cases).last() == cases.last().0);
        assert(states.last() == states[states.len() - 1]);
        let prev = local_diffs(names_of(cr), sr);
        let prev_ups = upload_spec(cr, sr);
        if states.last() == TestcaseState::Same {
            assert(!to_upload(states.last()));
        } else {
            assert(to_upload(states.last()));
            assert(diff_names(prev.push((cases.last().0, states.last()))) =~= diff_names(prev).push(cases.last().0));
            assert(names_of(prev_ups.push(cases.last())) =~= names_of(prev_ups).push(cases.last().0));
        }
    } else {
        assert(diff_names(local_diffs(names_of(cases), states)) =~= names_of(upload_spec(cases, states)));
    }
}

/// `diff` lists exactly what `push` changes: first the server's test cases
/// that are not local (which `push --prune` deletes), then the local ones
/// that `push` uploads, in the same order.
pub proof fn lemma_diff_lists_what_push_changes(
    local: Seq<(String, Vec<u8>)>,
    remote_names: Seq<String>,
    fetched: Seq<Option<Vec<u8>>>,
)
    requires
        fetched.len() == local.len(),
    ensures
        diff_names(testcase_diffs(local, remote_names, fetched)) == crate::commands::testcases::missing_from(
            views(remote_names),
            case_names(local),
        ) + names_of(upload_spec(case_views(local), states_spec(local, fetched))),
{
    let ro = crate::commands::testcases::missing_from(views(remote_names), case_names(local));
    let head = Seq::new(ro.len(), |i: int| (ro[i], TestcaseState::RemoteOnly));
    let states = states_spec(local, fetched);
    assert(case_names(local) =~= names_of(case_views(local)));
    assert forall|i: int| 0 <= i < states.len() implies #[trigger] states[i] != TestcaseState::RemoteOnly by {
        assert(states[i] == state_of(local[i].1@, bytes_view(fetched[i])));
    }
    lemma_local_diffs_are_uploads(case_views(local), states);
    let tail = local_diffs(case_names(local), states);
    assert(diff_names(head + tail) =~= diff_names(head) + diff_names(tail));
    assert(diff_names(head) =~= ro);
}

} // verus!

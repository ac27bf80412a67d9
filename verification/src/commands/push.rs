//! `yuki-tool push`: what is sent to the server, and what its answers mean.
//!
//! Writes replace the whole resource (PUT), so every setting is sent each
//! time. A judge code is followed until it compiles, a validator until it has
//! checked the test cases that were sent; a failure of either fails the push.

use vstd::prelude::*;

use crate::commands::testcases::TestcaseState;
use crate::local::{case_view, case_views, copy_bytes};
use crate::local::GeneratorConfig;
use crate::models::{is_final_status, GeneratorRequest, JudgeCodeContent, ValidatorContent};
use crate::text::{
    is_blank, join, join_strings, lines, split_lines, str_eq, string_of, trim, trim_str, views,
};

verus! {

/// What `push` does besides the settings and the statement.
#[derive(Debug, Clone, Copy)]
pub struct Options {
    /// Show what would be sent, and send nothing.
    pub dry_run: bool,
    /// Push the test cases.
    pub testcases: bool,
    /// Delete the server's test cases that are not local.
    pub prune: bool,
    /// Start generating cases after saving the generator.
    pub generate: bool,
    /// Wait for the judge code's compilation and the validator's result.
    pub wait_compile: bool,
}

/// What a validator's failing state says.
#[derive(Debug, Clone, Copy, PartialEq, Eq, Structural)]
pub enum ValidationFailure {
    /// `WA`: a test case does not pass the validator.
    TestcaseRejected,
    /// `CE`: the validator does not compile.
    CompileError,
    /// `RE` / `TLE` / `MLE` / `OLE`: the validator did not run through.
    RuntimeError,
    /// Any other state.
    Other,
}

/// Why a push fails after the server accepted what was sent.
#[derive(Debug, PartialEq, Eq)]
pub enum PushError {
    /// The judge code does not compile; `status` is its final state.
    CompileFailed { status: String },
    /// The validator did not accept the test cases.
    ValidationFailed { failure: ValidationFailure, status: String },
}

// ---------------------------------------------------------------------------
// Saving

/// What is shown after a save: the server's message, or else what was done.
pub open spec fn save_message_spec(message: Seq<char>, deleting: bool) -> Seq<char> {
    if trim(message).len() == 0 {
        if deleting {
            "削除しました"@
        } else {
            "保存しました"@
        }
    } else {
        trim(message)
    }
}

/// The server's message about a save (trimmed), or, when it sent none,
/// "deleted" / "saved".
pub fn save_message(message: &str, deleting: bool) -> (r: String)
    ensures
        r@ == save_message_spec(message@, deleting),
{
    if is_blank(message) {
        if deleting {
            "削除しました".to_string()
        } else {
            "保存しました".to_string()
        }
    } else {
        trim_str(message)
    }
}

/// What is done with a request that replaces a resource on the server (the
/// problem, the generator, the editorial).
#[derive(Debug, PartialEq, Eq, Structural)]
pub enum SaveStep {
    /// Show the request; send nothing.
    Show,
    /// Send it.
    Send,
}

/// What `options` make of a request that replaces a resource.
pub open spec fn save_step_of(options: Options) -> SaveStep {
    if options.dry_run {
        SaveStep::Show
    } else {
        SaveStep::Send
    }
}

/// Under `--dry-run` the request is only shown; otherwise it is sent.
pub fn save_step(options: Options) -> (r: SaveStep)
    ensures
        r == save_step_of(options),
{
    if options.dry_run {
        SaveStep::Show
    } else {
        SaveStep::Send
    }
}

/// The generator request for the local generator: its configuration and
/// source, and `generate: true` when case generation is to start.
pub fn generator_request(config: GeneratorConfig, source: String, generate: bool) -> (r: GeneratorRequest)
    ensures
        r.lang_id == config.lang_id,
        r.source == source,
        r.test_case_num == config.test_case_num,
        r.generate == (if generate { Some(true) } else { None::<bool> }),
        r.prefix == config.prefix,
{
    GeneratorRequest {
        lang_id: config.lang_id,
        source,
        test_case_num: config.test_case_num,
        generate: if generate { Some(true) } else { None },
        prefix: config.prefix,
    }
}

// ---------------------------------------------------------------------------
// Judge code

/// The first step for the judge code.
#[derive(Debug, PartialEq, Eq, Structural)]
pub enum JudgeCodeStep {
    /// Show the request; send nothing.
    DryRun,
    /// Save it; a blank source deletes the judge code.
    Save { deleting: bool },
}

/// How following a judge code ends.
#[derive(Debug, PartialEq, Eq, Structural)]
pub enum CompileDone {
    /// It was deleted; nothing compiles.
    Deleted,
    /// Waiting was turned off.
    NotWaiting,
    /// It compiled (`AC`).
    Compiled,
    /// It did not reach a final state in time.
    TimedOut,
    /// The server no longer answers for the judge code.
    Unsupported,
}

/// The next step after saving or polling a judge code.
#[derive(Debug, PartialEq, Eq, Structural)]
pub enum CompileStep {
    Finish(CompileDone),
    /// Sleep, then fetch the judge code again.
    Poll,
}

/// The first step for the local judge code: a warning when the judge type is
/// the normal one (0), under which the judge code is saved but not used; then
/// the dry run, or the save (a deletion for a blank source).
pub fn judge_code_start(judge_type: i64, source: &str, dry_run: bool) -> (r: (bool, JudgeCodeStep))
    ensures
        r.0 == (judge_type == 0),
        dry_run ==> r.1 == JudgeCodeStep::DryRun,
        !dry_run ==> r.1 == (JudgeCodeStep::Save { deleting: trim(source@).len() == 0 }),
{
    let warn = judge_type == 0;
    if dry_run {
        (warn, JudgeCodeStep::DryRun)
    } else {
        (warn, JudgeCodeStep::Save { deleting: is_blank(source) })
    }
}

/// After the judge code is saved: a deletion compiles nothing and is not
/// waited for; otherwise the compilation is followed unless waiting is off.
pub fn judge_code_after_save(deleting: bool, wait: bool) -> (r: CompileStep)
    ensures
        deleting ==> r == CompileStep::Finish(CompileDone::Deleted),
        !deleting && !wait ==> r == CompileStep::Finish(CompileDone::NotWaiting),
        !deleting && wait ==> r == CompileStep::Poll,
{
    if deleting {
        CompileStep::Finish(CompileDone::Deleted)
    } else if !wait {
        CompileStep::Finish(CompileDone::NotWaiting)
    } else {
        CompileStep::Poll
    }
}

/// One poll of the judge code (`None`: the server no longer answers for it),
/// `timed_out` telling whether the time to wait is over. Only `AC` and `CE`
/// are final: the states before them (`WJ`, `Judge`) are waited through and
/// never taken for a failure; `CE` fails the push.
pub fn compile_poll(code: &Option<JudgeCodeContent>, timed_out: bool) -> (r: Result<CompileStep, PushError>)
    ensures
        match code {
            None => r == Ok::<CompileStep, PushError>(CompileStep::Finish(CompileDone::Unsupported)),
            Some(c) => if is_final_status(c.status@) {
                if c.status@ == "AC"@ {
                    r == Ok::<CompileStep, PushError>(CompileStep::Finish(CompileDone::Compiled))
                } else {
                    r matches Err(PushError::CompileFailed { status }) && status@ == c.status@
                }
            } else if timed_out {
                r == Ok::<CompileStep, PushError>(CompileStep::Finish(CompileDone::TimedOut))
            } else {
                r == Ok::<CompileStep, PushError>(CompileStep::Poll)
            },
        },
{
    match code {
        None => Ok(CompileStep::Finish(CompileDone::Unsupported)),
        Some(c) => {
            if crate::models::judge_status_is_final(c.status.as_str()) {
                if str_eq(c.status.as_str(), crate::models::JUDGE_STATUS_OK) {
                    Ok(CompileStep::Finish(CompileDone::Compiled))
                } else {
                    Err(PushError::CompileFailed { status: c.status.clone() })
                }
            } else if timed_out {
                Ok(CompileStep::Finish(CompileDone::TimedOut))
            } else {
                Ok(CompileStep::Poll)
            }
        },
    }
}

// ---------------------------------------------------------------------------
// Validator

/// The local validator against the server's.
#[derive(Debug, Clone, Copy, PartialEq, Eq, Structural)]
pub struct ValidatorPlan {
    /// The local source is blank: saving deletes the validator.
    pub deleting: bool,
    /// Same language and source as the server's: nothing to save.
    pub unchanged: bool,
}

/// How following a validator ends.
#[derive(Debug, PartialEq, Eq, Structural)]
pub enum ValidatorDone {
    /// The server has no validator API.
    Unsupported,
    /// Neither side has a validator.
    NothingRegistered,
    /// Dry run: what would be sent.
    DryRun(ValidatorPlan),
    /// Unchanged, and its result for the current test cases is `AC`.
    UpToDate,
    /// It was deleted; nothing is validated.
    Deleted,
    /// Waiting was turned off; `behind` when the result was still out.
    NotWaiting { behind: bool },
    /// The server cannot tell which states are still running, so the result
    /// is not waited for.
    NoStatuses,
    /// It checked the current test cases: `AC`.
    Validated,
    /// The result did not come in time.
    TimedOut,
}

/// The next step for the validator.
#[derive(Debug, PartialEq, Eq, Structural)]
pub enum ValidatorStep {
    Finish(ValidatorDone),
    /// Fetch the status list (`GET /v1/statuses`).
    FetchStatuses(ValidatorPlan),
    /// Save (PUT) the local validator.
    Save(ValidatorPlan),
    /// Sleep, then fetch the validator again; `behind` when it is unchanged
    /// but its result is not the current one yet.
    Poll { behind: bool },
}

/// The failure a validator state stands for.
pub open spec fn failure_of(status: Seq<char>) -> ValidationFailure {
    if status == "WA"@ {
        ValidationFailure::TestcaseRejected
    } else if status == "CE"@ {
        ValidationFailure::CompileError
    } else if status == "RE"@ || status == "TLE"@ || status == "MLE"@ || status == "OLE"@ {
        ValidationFailure::RuntimeError
    } else {
        ValidationFailure::Other
    }
}

/// What a failing validator state means.
pub fn validation_failure(status: &str) -> (r: ValidationFailure)
    ensures
        r == failure_of(status@),
{
    if str_eq(status, "WA") {
        ValidationFailure::TestcaseRejected
    } else if str_eq(status, "CE") {
        ValidationFailure::CompileError
    } else if str_eq(status, "RE") || str_eq(status, "TLE") || str_eq(status, "MLE") || str_eq(
        status,
        "OLE",
    ) {
        ValidationFailure::RuntimeError
    } else {
        ValidationFailure::Other
    }
}

fn fail_validation(status: &String) -> (r: PushError)
    ensures
        r matches PushError::ValidationFailed { failure, status: s } && failure == failure_of(status@)
            && s@ == status@,
{
    PushError::ValidationFailed { failure: validation_failure(status.as_str()), status: status.clone() }
}

/// The first step for the local validator (`lang_id`, `source`) against the
/// server's (`None`: no validator API): nothing to do when neither has one;
/// the dry run; or else the status list is needed.
pub fn validator_start(lang_id: &str, source: &str, remote: &Option<ValidatorContent>, dry_run: bool) -> (r: ValidatorStep)
    ensures
        match remote {
            None => r == ValidatorStep::Finish(ValidatorDone::Unsupported),
            Some(v) => {
                let deleting = trim(source@).len() == 0;
                let plan = ValidatorPlan {
                    deleting,
                    unchanged: !deleting && v.lang_id@ == lang_id@ && v.source@ == source@,
                };
                if deleting && trim(v.source@).len() == 0 {
                    r == ValidatorStep::Finish(ValidatorDone::NothingRegistered)
                } else if dry_run {
                    r == ValidatorStep::Finish(ValidatorDone::DryRun(plan))
                } else {
                    r == ValidatorStep::FetchStatuses(plan)
                }
            },
        },
{
    match remote {
        None => ValidatorStep::Finish(ValidatorDone::Unsupported),
        Some(v) => {
            let deleting = is_blank(source);
            if deleting && is_blank(v.source.as_str()) {
                return ValidatorStep::Finish(ValidatorDone::NothingRegistered);
            }
            let unchanged = !deleting && str_eq(v.lang_id.as_str(), lang_id) && str_eq(
                v.source.as_str(),
                source,
            );
            let plan = ValidatorPlan { deleting, unchanged };
            if dry_run {
                ValidatorStep::Finish(ValidatorDone::DryRun(plan))
            } else {
                ValidatorStep::FetchStatuses(plan)
            }
        },
    }
}

/// Waiting for the result, unless waiting is off.
pub open spec fn wait_step(wait: bool, behind: bool) -> ValidatorStep {
    if wait {
        ValidatorStep::Poll { behind }
    } else {
        ValidatorStep::Finish(ValidatorDone::NotWaiting { behind })
    }
}

fn wait_or_not(wait: bool, behind: bool) -> (r: ValidatorStep)
    ensures
        r == wait_step(wait, behind),
{
    if wait {
        ValidatorStep::Poll { behind }
    } else {
        ValidatorStep::Finish(ValidatorDone::NotWaiting { behind })
    }
}

/// The step once the status list is known (`judging`: the ids of the
/// running states; `None` when the server has no status list).
///
/// A changed validator is saved. An unchanged one is not (saving would run the
/// validation once more): when the test cases did not change either, its
/// current result decides (`AC` passes, any other final state fails);
/// otherwise the server's new validation is waited for.
pub fn validator_with_statuses(
    plan: ValidatorPlan,
    remote: &ValidatorContent,
    judging: &Option<Vec<String>>,
    testcases_changed: bool,
    wait: bool,
) -> (r: Result<ValidatorStep, PushError>)
    ensures
        !plan.unchanged ==> r == Ok::<ValidatorStep, PushError>(ValidatorStep::Save(plan)),
        plan.unchanged ==> match judging {
            None => r == Ok::<ValidatorStep, PushError>(ValidatorStep::Finish(ValidatorDone::NoStatuses)),
            Some(j) => if testcases_changed {
                r == Ok::<ValidatorStep, PushError>(wait_step(wait, false))
            } else if remote.up_to_date_spec(views(j@)) {
                if remote.status@ == "AC"@ {
                    r == Ok::<ValidatorStep, PushError>(ValidatorStep::Finish(ValidatorDone::UpToDate))
                } else {
                    r matches Err(PushError::ValidationFailed { failure, status }) && failure == failure_of(
                        remote.status@,
                    ) && status@ == remote.status@
                }
            } else {
                r == Ok::<ValidatorStep, PushError>(wait_step(wait, true))
            },
        },
{
    if !plan.unchanged {
        return Ok(ValidatorStep::Save(plan));
    }
    match judging {
        None => Ok(ValidatorStep::Finish(ValidatorDone::NoStatuses)),
        Some(j) => {
            if testcases_changed {
                Ok(wait_or_not(wait, false))
            } else if remote.is_up_to_date(j) {
                if str_eq(remote.status.as_str(), crate::models::JUDGE_STATUS_OK) {
                    Ok(ValidatorStep::Finish(ValidatorDone::UpToDate))
                } else {
                    Err(fail_validation(&remote.status))
                }
            } else {
                Ok(wait_or_not(wait, true))
            }
        },
    }
}

/// The step after the validator was saved: a deletion is not validated, and
/// without the status list the result cannot be waited for.
pub fn validator_after_save(plan: ValidatorPlan, statuses_known: bool, wait: bool) -> (r: ValidatorStep)
    ensures
        plan.deleting ==> r == ValidatorStep::Finish(ValidatorDone::Deleted),
        !plan.deleting && !statuses_known ==> r == ValidatorStep::Finish(ValidatorDone::NoStatuses),
        !plan.deleting && statuses_known ==> r == wait_step(wait, false),
{
    if plan.deleting {
        ValidatorStep::Finish(ValidatorDone::Deleted)
    } else if !statuses_known {
        ValidatorStep::Finish(ValidatorDone::NoStatuses)
    } else {
        wait_or_not(wait, false)
    }
}

/// One poll of the validator (`None`: the server no longer answers for it),
/// `timed_out` telling whether the time to wait is over. The result counts
/// once it is for the current test cases: `AC` passes, any other state fails.
pub fn validator_poll(current: &Option<ValidatorContent>, judging: &Vec<String>, timed_out: bool) -> (r: Result<ValidatorStep, PushError>)
    ensures
        match current {
            None => r == Ok::<ValidatorStep, PushError>(ValidatorStep::Finish(ValidatorDone::Unsupported)),
            Some(v) => if v.up_to_date_spec(views(judging@)) {
                if v.status@ == "AC"@ {
                    r == Ok::<ValidatorStep, PushError>(ValidatorStep::Finish(ValidatorDone::Validated))
                } else {
                    r matches Err(PushError::ValidationFailed { failure, status }) && failure == failure_of(v.status@)
                        && status@ == v.status@
                }
            } else if timed_out {
                r == Ok::<ValidatorStep, PushError>(ValidatorStep::Finish(ValidatorDone::TimedOut))
            } else {
                r == Ok::<ValidatorStep, PushError>(ValidatorStep::Poll { behind: false })
            },
        },
{
    match current {
        None => Ok(ValidatorStep::Finish(ValidatorDone::Unsupported)),
        Some(v) => {
            if v.is_up_to_date(judging) {
                if str_eq(v.status.as_str(), crate::models::JUDGE_STATUS_OK) {
                    Ok(ValidatorStep::Finish(ValidatorDone::Validated))
                } else {
                    Err(fail_validation(&v.status))
                }
            } else if timed_out {
                Ok(ValidatorStep::Finish(ValidatorDone::TimedOut))
            } else {
                Ok(ValidatorStep::Poll { behind: false })
            }
        },
    }
}

// ---------------------------------------------------------------------------
// Test cases

/// A local test case is uploaded when the server lacks it or has other bytes.
pub open spec fn to_upload(state: TestcaseState) -> bool {
    state == TestcaseState::LocalOnly || state == TestcaseState::Differs
}

/// The test cases to upload, in order.
pub open spec fn upload_spec(local: Seq<(Seq<char>, Seq<u8>)>, states: Seq<TestcaseState>) -> Seq<(Seq<char>, Seq<u8>)>
    decreases local.len(),
{
    if local.len() == 0 || states.len() == 0 {
        seq![]
    } else if to_upload(states.last()) {
        upload_spec(local.drop_last(), states.drop_last()).push(local.last())
    } else {
        upload_spec(local.drop_last(), states.drop_last())
    }
}

/// The local test cases to upload (`states[i]` is the state of `local[i]`):
/// those the server lacks or holds with other bytes, in order.
pub fn uploads(local: &Vec<(String, Vec<u8>)>, states: &Vec<TestcaseState>) -> (r: Vec<(String, Vec<u8>)>)
    requires
        states@.len() == local@.len(),
    ensures
        case_views(r@) == upload_spec(case_views(local@), states@),
{
    let mut out: Vec<(String, Vec<u8>)> = Vec::new();
    let mut i: usize = 0;
    while i < local.len()
        invariant
            i <= local@.len(),
            states@.len() == local@.len(),
            case_views(out@) == upload_spec(
                case_views(local@).subrange(0, i as int),
                states@.subrange(0, i as int),
            ),
        decreases local@.len() - i,
    {
        let ghost lv = case_views(local@).subrange(0, i + 1);
        let ghost sv = states@.subrange(0, i + 1);
        assert(lv.drop_last() == case_views(local@).subrange(0, i as int));
        assert(sv.drop_last() == states@.subrange(0, i as int));
        assert(lv.last() == case_view(local@[i as int]));
        if states[i] == TestcaseState::LocalOnly || states[i] == TestcaseState::Differs {
            let name = local[i].0.clone();
            let content = copy_bytes(&local[i].1);
            let ghost before = out@;
            out.push((name, content));
            assert(case_views(out@) =~= case_views(before).push(case_view(local@[i as int])));
        }
        i = i + 1;
    }
    assert(case_views(local@).subrange(0, local@.len() as int) == case_views(local@));
    assert(states@.subrange(0, local@.len() as int) == states@);
    out
}

/// Whether the push changed the server's test cases (then the validator is
/// run again): something was uploaded, or deleted with `--prune`, and it was
/// no dry run.
pub fn server_changed(options: Options, uploaded: usize, remote_only: usize) -> (r: bool)
    ensures
        r == (!options.dry_run && (uploaded > 0 || (options.prune && remote_only > 0))),
{
    !options.dry_run && (uploaded > 0 || (options.prune && remote_only > 0))
}

/// What is done with a test case that the server has and the repository
/// does not.
#[derive(Debug, PartialEq, Eq, Structural)]
pub enum RemoteOnlyStep {
    /// Keep it, and say that `--prune` would delete it.
    Keep,
    /// Say that it would be deleted; send nothing.
    ShowDelete,
    /// Delete it.
    Delete,
}

/// What `options` make of a test case only the server has.
pub open spec fn remote_only_step_of(options: Options) -> RemoteOnlyStep {
    if !options.prune {
        RemoteOnlyStep::Keep
    } else if options.dry_run {
        RemoteOnlyStep::ShowDelete
    } else {
        RemoteOnlyStep::Delete
    }
}

/// Without `--prune` a test case only the server has is kept; with it, it is
/// deleted, or under `--dry-run` only shown as to be deleted.
pub fn remote_only_step(options: Options) -> (r: RemoteOnlyStep)
    ensures
        r == remote_only_step_of(options),
{
    if !options.prune {
        RemoteOnlyStep::Keep
    } else if options.dry_run {
        RemoteOnlyStep::ShowDelete
    } else {
        RemoteOnlyStep::Delete
    }
}

/// The most bytes one upload request holds (the server takes 30 MiB with the
/// headers).
pub const UPLOAD_CHUNK_BYTES: usize = 20971520;
/// The most files one upload request holds.
pub const UPLOAD_CHUNK_FILES: usize = 100;
/// What a file adds to a request besides its name and content (the multipart
/// headers).
pub const PART_OVERHEAD: usize = 256;

/// What a file counts for in a request: content, name (UTF-8 bytes) and the
/// part's headers.
pub open spec fn entry_size(f: (Seq<char>, Seq<u8>)) -> int {
    f.1.len() + crate::body::utf8(f.0).len() + PART_OVERHEAD
}

/// What a request of the files `b` counts.
pub open spec fn batch_size(b: Seq<(Seq<char>, Seq<u8>)>) -> int
    decreases b.len(),
{
    if b.len() == 0 {
        0
    } else {
        batch_size(b.drop_last()) + entry_size(b.last())
    }
}

/// The files of the batches, in order.
pub open spec fn flatten(bs: Seq<Seq<(Seq<char>, Seq<u8>)>>) -> Seq<(Seq<char>, Seq<u8>)>
    decreases bs.len(),
{
    if bs.len() == 0 {
        seq![]
    } else {
        flatten(bs.drop_last()) + bs.last()
    }
}

/// A batch within the limits: not empty, at most [`UPLOAD_CHUNK_FILES`]
/// files, and at most [`UPLOAD_CHUNK_BYTES`] unless it is a single file
/// (which goes alone, whatever its size).
pub open spec fn batch_ok(b: Seq<(Seq<char>, Seq<u8>)>) -> bool {
    &&& 0 < b.len() <= UPLOAD_CHUNK_FILES
    &&& (b.len() > 1 ==> batch_size(b) <= UPLOAD_CHUNK_BYTES)
}

/// A batch is closed only when the next file does not fit: it is full, or
/// the next file would take it over the byte limit.
pub open spec fn closed_before(b: Seq<(Seq<char>, Seq<u8>)>, next: (Seq<char>, Seq<u8>)) -> bool {
    b.len() >= UPLOAD_CHUNK_FILES || batch_size(b) + entry_size(next) > UPLOAD_CHUNK_BYTES
}

pub open spec fn batch_views(bs: Seq<Vec<(String, Vec<u8>)>>) -> Seq<Seq<(Seq<char>, Seq<u8>)>> {
    Seq::new(bs.len(), |i: int| case_views(bs[i]@))
}

/// The batches are the files in order, each batch within the limits, each
/// closed only when the next file did not fit into it.
pub open spec fn batching_of(bs: Seq<Seq<(Seq<char>, Seq<u8>)>>, files: Seq<(Seq<char>, Seq<u8>)>) -> bool {
    &&& flatten(bs) == files
    &&& forall|i: int| 0 <= i < bs.len() ==> batch_ok(#[trigger] bs[i])
    &&& forall|i: int| 0 <= i < bs.len() - 1 ==> closed_before(#[trigger] bs[i], bs[i + 1][0])
}

proof fn lemma_flatten_push(bs: Seq<Seq<(Seq<char>, Seq<u8>)>>, b: Seq<(Seq<char>, Seq<u8>)>)
    ensures
        flatten(bs.push(b)) == flatten(bs) + b,
{
    assert(bs.push(b).drop_last() == bs);
}

proof fn lemma_batch_size_push(b: Seq<(Seq<char>, Seq<u8>)>, f: (Seq<char>, Seq<u8>))
    ensures
        batch_size(b.push(f)) == batch_size(b) + entry_size(f),
{
    assert(b.push(f).drop_last() == b);
}

proof fn lemma_batch_size_nonneg(b: Seq<(Seq<char>, Seq<u8>)>)
    ensures
        batch_size(b) >= b.len() * PART_OVERHEAD,
    decreases b.len(),
{
    if b.len() > 0 {
        lemma_batch_size_nonneg(b.drop_last());
    }
}

fn entry_bytes(name: &String, content: &Vec<u8>) -> (r: u128)
    ensures
        r == entry_size((name@, content@)),
        r < 0x4_0000_0000_0000_0000,
{
    let bytes = name.as_str().as_bytes();
    content.len() as u128 + bytes.len() as u128 + PART_OVERHEAD as u128
}

/// Splits the files to upload into requests: in order, each request within
/// [`UPLOAD_CHUNK_FILES`] files and (unless it holds a single file)
/// [`UPLOAD_CHUNK_BYTES`] bytes, a request being closed only when the next
/// file does not fit.
#[verifier::rlimit(40)]
pub fn batches(files: Vec<(String, Vec<u8>)>) -> (r: Vec<Vec<(String, Vec<u8>)>>)
    ensures
        batching_of(batch_views(r@), case_views(files@)),
{
    let ghost all = case_views(files@);
    let mut rest = files;
    let mut out: Vec<Vec<(String, Vec<u8>)>> = Vec::new();
    let mut current: Vec<(String, Vec<u8>)> = Vec::new();
    let mut size: u128 = 0;
    let ghost mut k: int = 0;
    while rest.len() > 0
        invariant
            0 <= k <= all.len(),
            case_views(rest@) == all.subrange(k, all.len() as int),
            flatten(batch_views(out@)) + case_views(current@) == all.subrange(0, k),
            forall|i: int| 0 <= i < out@.len() ==> batch_ok(#[trigger] batch_views(out@)[i]),
            forall|i: int| 0 <= i < out@.len() - 1 ==> closed_before(
                #[trigger] batch_views(out@)[i],
                batch_views(out@)[i + 1][0],
            ),
            out@.len() > 0 && current@.len() > 0 ==> closed_before(
                batch_views(out@).last(),
                case_views(current@)[0],
            ),
            out@.len() > 0 ==> current@.len() > 0,
            current@.len() <= UPLOAD_CHUNK_FILES,
            size == batch_size(case_views(current@)),
            current@.len() > 1 ==> size <= UPLOAD_CHUNK_BYTES,
            current@.len() == 1 ==> size < 0x4_0000_0000_0000_0000,
            current@.len() == 0 ==> size == 0,
        decreases rest@.len(),
    {
        let ghost before = rest@;
        let (name, content) = rest.remove(0);
        let entry = entry_bytes(&name, &content);
        let ghost f = (name@, content@);
        proof {
            assert(before.len() > 0);
            assert(case_views(before).len() == before.len());
            assert(k < all.len());
            assert(case_views(before)[0] == all.subrange(k, all.len() as int)[0]);
            assert(f == all[k]);
            assert(rest@ == before.remove(0));
            assert forall|j: int| 0 <= j < rest@.len() implies case_views(rest@)[j] == all.subrange(
                k + 1,
                all.len() as int,
            )[j] by {
                assert(rest@[j] == before[j + 1]);
                assert(case_views(before)[j + 1] == all.subrange(k, all.len() as int)[j + 1]);
            }
            assert(case_views(rest@) =~= all.subrange(k + 1, all.len() as int));
        }
        if current.len() > 0 && (size + entry > UPLOAD_CHUNK_BYTES as u128 || current.len() >= UPLOAD_CHUNK_FILES) {
            let ghost bv = batch_views(out@);
            let ghost cv = case_views(current@);
            out.push(current);
            proof {
                assert(batch_views(out@) == bv.push(cv));
                lemma_flatten_push(bv, cv);
                assert(closed_before(cv, f));
                assert(batch_views(out@).last() == cv);
            }
            current = Vec::new();
            size = 0;
        }
        let ghost cv = case_views(current@);
        current.push((name, content));
        proof {
            assert(case_views(current@) == cv.push(f));
            lemma_batch_size_push(cv, f);
            if out@.len() > 0 {
                assert(case_views(current@)[0] == cv.push(f)[0]);
                if cv.len() > 0 {
                    assert(cv.push(f)[0] == cv[0]);
                }
            }
        }
        size = size + entry;
        proof {
            k = k + 1;
        }
        assert(all.subrange(0, k) == all.subrange(0, k - 1).push(f));
    }
    if current.len() > 0 {
        let ghost bv = batch_views(out@);
        let ghost cv = case_views(current@);
        out.push(current);
        proof {
            assert(batch_views(out@) == bv.push(cv));
            lemma_flatten_push(bv, cv);
        }
    }
    assert(all.subrange(0, all.len() as int) == all);
    out
}

/// The uploaded files whose stored bytes differ from what was sent, with
/// the stored bytes.
pub open spec fn adjusted_spec(sent: Seq<(Seq<char>, Seq<u8>)>, stored: Seq<Seq<u8>>) -> Seq<(Seq<char>, Seq<u8>)>
    decreases sent.len(),
{
    if sent.len() == 0 || stored.len() == 0 {
        seq![]
    } else if stored.last() != sent.last().1 {
        adjusted_spec(sent.drop_last(), stored.drop_last()).push((sent.last().0, stored.last()))
    } else {
        adjusted_spec(sent.drop_last(), stored.drop_last())
    }
}

pub open spec fn bytes_views(v: Seq<Vec<u8>>) -> Seq<Seq<u8>> {
    Seq::new(v.len(), |i: int| v[i]@)
}

/// The server rewrites test cases as it stores them (line endings, trailing
/// spaces, the final newline); the rule is the server's, so the client takes
/// the stored bytes back instead of imitating it. `stored[i]` is what the
/// server holds for `uploaded[i]` after the upload; the result lists the
/// files to write back, with the stored bytes.
pub fn adjusted(uploaded: &Vec<(String, Vec<u8>)>, stored: &Vec<Vec<u8>>) -> (r: Vec<(String, Vec<u8>)>)
    requires
        stored@.len() == uploaded@.len(),
    ensures
        case_views(r@) == adjusted_spec(case_views(uploaded@), bytes_views(stored@)),
{
    let mut out: Vec<(String, Vec<u8>)> = Vec::new();
    let mut i: usize = 0;
    while i < uploaded.len()
        invariant
            i <= uploaded@.len(),
            stored@.len() == uploaded@.len(),
            case_views(out@) == adjusted_spec(
                case_views(uploaded@).subrange(0, i as int),
                bytes_views(stored@).subrange(0, i as int),
            ),
        decreases uploaded@.len() - i,
    {
        let ghost uv = case_views(uploaded@).subrange(0, i + 1);
        let ghost sv = bytes_views(stored@).subrange(0, i + 1);
        assert(uv.drop_last() == case_views(uploaded@).subrange(0, i as int));
        assert(sv.drop_last() == bytes_views(stored@).subrange(0, i as int));
        assert(uv.last() == case_view(uploaded@[i as int]));
        assert(sv.last() == stored@[i as int]@);
        if !crate::local::bytes_eq(&stored[i], &uploaded[i].1) {
            let name = uploaded[i].0.clone();
            let content = copy_bytes(&stored[i]);
            let ghost before = out@;
            out.push((name, content));
            assert(case_views(out@) =~= case_views(before).push((uploaded@[i as int].0@, stored@[i as int]@)));
        }
        i = i + 1;
    }
    assert(case_views(uploaded@).subrange(0, uploaded@.len() as int) == case_views(uploaded@));
    assert(bytes_views(stored@).subrange(0, uploaded@.len() as int) == bytes_views(stored@));
    out
}

proof fn adjusted_indices(sent: Seq<(Seq<char>, Seq<u8>)>, stored: Seq<Seq<u8>>, m: int) -> (idx: Seq<int>)
    requires
        sent.len() == stored.len(),
        0 <= m <= sent.len(),
    ensures
        crate::text::picks(idx, m, |i: int| stored[i] != sent[i].1),
        idx.len() == adjusted_spec(sent.subrange(0, m), stored.subrange(0, m)).len(),
        forall|k: int| 0 <= k < idx.len() ==> #[trigger] adjusted_spec(sent.subrange(0, m), stored.subrange(0, m))[k]
            == (sent[idx[k]].0, stored[idx[k]]),
    decreases m,
{
    let a = sent.subrange(0, m);
    let b = stored.subrange(0, m);
    if m == 0 {
        seq![]
    } else {
        let prev = adjusted_indices(sent, stored, m - 1);
        assert(a.drop_last() == sent.subrange(0, m - 1));
        assert(b.drop_last() == stored.subrange(0, m - 1));
        let r0 = adjusted_spec(sent.subrange(0, m - 1), stored.subrange(0, m - 1));
        let keep = |i: int| stored[i] != sent[i].1;
        if stored[m - 1] != sent[m - 1].1 {
            let idx = prev.push(m - 1);
            assert forall|k: int| 0 <= k < idx.len() implies #[trigger] adjusted_spec(a, b)[k] == (sent[idx[k]].0, stored[idx[k]]) by {
                if k < prev.len() {
                    assert(adjusted_spec(a, b)[k] == r0[k]);
                }
            }
            assert forall|i: int| 0 <= i < m && #[trigger] keep(i) implies idx.contains(i) by {
                if i < m - 1 {
                    let k = choose|k: int| 0 <= k < prev.len() && prev[k] == i;
                    assert(idx[k] == i);
                } else {
                    assert(idx[idx.len() - 1] == i);
                }
            }
            assert forall|k: int, l: int| 0 <= k < l < idx.len() implies #[trigger] idx[k] < #[trigger] idx[l] by {
                if l < idx.len() - 1 {
                    assert(prev[k] < prev[l]);
                } else {
                    assert(0 <= prev[k] < m - 1);
                }
            }
            idx
        } else {
            assert forall|i: int| 0 <= i < m && #[trigger] keep(i) implies prev.contains(i) by {
                assert(i < m - 1);
            }
            prev
        }
    }
}

/// Every file the server rewrote is taken back, and only those: the result
/// lists `(sent[i].0, stored[i])`, in order, for exactly the positions `i`
/// where the stored bytes differ from the bytes sent.
pub proof fn lemma_adjusted_takes_back_every_rewrite(sent: Seq<(Seq<char>, Seq<u8>)>, stored: Seq<Seq<u8>>)
    requires
        sent.len() == stored.len(),
    ensures
        ({
            let n = sent.len() as int;
            let r = adjusted_spec(sent, stored);
            &&& forall|i: int| 0 <= i < n && stored[i] != sent[i].1 ==> r.contains((sent[i].0, stored[i]))
            &&& forall|k: int| 0 <= k < r.len() ==> exists|i: int|
                0 <= i < n && stored[i] != sent[i].1 && #[trigger] r[k] == (sent[i].0, stored[i])
            &&& exists|idx: Seq<int>|
                crate::text::picks(idx, n, |i: int| stored[i] != sent[i].1) && idx.len() == r.len()
                    && forall|k: int| 0 <= k < r.len() ==> #[trigger] r[k] == (sent[idx[k]].0, stored[idx[k]])
        }),
{
    let n = sent.len() as int;
    let r = adjusted_spec(sent, stored);
    let idx = adjusted_indices(sent, stored, n);
    assert(sent.subrange(0, n) == sent);
    assert(stored.subrange(0, n) == stored);
    assert forall|i: int| 0 <= i < n && stored[i] != sent[i].1 implies r.contains((sent[i].0, stored[i])) by {
        let keep = |i: int| stored[i] != sent[i].1;
        assert(keep(i));
        let k = choose|k: int| 0 <= k < idx.len() && idx[k] == i;
        assert(r[k] == (sent[i].0, stored[i]));
    }
    assert forall|k: int| 0 <= k < r.len() implies exists|i: int|
        0 <= i < n && stored[i] != sent[i].1 && #[trigger] r[k] == (sent[i].0, stored[i]) by {
        assert(r[k] == (sent[idx[k]].0, stored[idx[k]]));
    }
}

/// The pairs `(sent, saved)` of the first `n` names that differ.
pub open spec fn renamed_spec(sent: Seq<Seq<char>>, saved: Seq<Seq<char>>, n: int) -> Seq<(Seq<char>, Seq<char>)>
    decreases n,
{
    if n <= 0 {
        seq![]
    } else if sent[n - 1] != saved[n - 1] {
        renamed_spec(sent, saved, n - 1).push((sent[n - 1], saved[n - 1]))
    } else {
        renamed_spec(sent, saved, n - 1)
    }
}

pub open spec fn min(a: int, b: int) -> int {
    if a <= b {
        a
    } else {
        b
    }
}

pub open spec fn pair_views(v: Seq<(String, String)>) -> Seq<(Seq<char>, Seq<char>)> {
    Seq::new(v.len(), |i: int| (v[i].0@, v[i].1@))
}

/// The files the server stored under another name than the one sent:
/// `sent` and `saved` are paired in order, and the pairs that differ are
/// kept (such a file would show as a difference at every push).
pub fn renamed_files(sent: &Vec<String>, saved: &Vec<String>) -> (r: Vec<(String, String)>)
    ensures
        pair_views(r@) == renamed_spec(views(sent@), views(saved@), min(sent@.len() as int, saved@.len() as int)),
{
    let n = if sent.len() <= saved.len() {
        sent.len()
    } else {
        saved.len()
    };
    let mut out: Vec<(String, String)> = Vec::new();
    let mut i: usize = 0;
    while i < n
        invariant
            i <= n,
            n == min(sent@.len() as int, saved@.len() as int),
            pair_views(out@) == renamed_spec(views(sent@), views(saved@), i as int),
        decreases n - i,
    {
        assert(views(sent@)[i as int] == sent@[i as int]@);
        assert(views(saved@)[i as int] == saved@[i as int]@);
        if !str_eq(sent[i].as_str(), saved[i].as_str()) {
            let a = sent[i].clone();
            let b = saved[i].clone();
            let ghost before = out@;
            out.push((a, b));
            assert(pair_views(out@) =~= pair_views(before).push((sent@[i as int]@, saved@[i as int]@)));
        }
        i = i + 1;
    }
    out
}

proof fn renamed_indices(sent: Seq<Seq<char>>, saved: Seq<Seq<char>>, n: int) -> (idx: Seq<int>)
    requires
        0 <= n <= sent.len(),
        n <= saved.len(),
    ensures
        crate::text::picks(idx, n, |i: int| sent[i] != saved[i]),
        idx.len() == renamed_spec(sent, saved, n).len(),
        forall|k: int| 0 <= k < idx.len() ==> #[trigger] renamed_spec(sent, saved, n)[k] == (sent[idx[k]], saved[idx[k]]),
    decreases n,
{
    if n <= 0 {
        seq![]
    } else {
        let prev = renamed_indices(sent, saved, n - 1);
        let r0 = renamed_spec(sent, saved, n - 1);
        let keep = |i: int| sent[i] != saved[i];
        if sent[n - 1] != saved[n - 1] {
            let idx = prev.push(n - 1);
            assert forall|k: int| 0 <= k < idx.len() implies #[trigger] renamed_spec(sent, saved, n)[k] == (sent[idx[k]], saved[idx[k]]) by {
                if k < prev.len() {
                    assert(renamed_spec(sent, saved, n)[k] == r0[k]);
                }
            }
            assert forall|i: int| 0 <= i < n && #[trigger] keep(i) implies idx.contains(i) by {
                if i < n - 1 {
                    let k = choose|k: int| 0 <= k < prev.len() && prev[k] == i;
                    assert(idx[k] == i);
                } else {
                    assert(idx[idx.len() - 1] == i);
                }
            }
            assert forall|k: int, l: int| 0 <= k < l < idx.len() implies #[trigger] idx[k] < #[trigger] idx[l] by {
                if l < idx.len() - 1 {
                    assert(prev[k] < prev[l]);
                } else {
                    assert(0 <= prev[k] < n - 1);
                }
            }
            idx
        } else {
            assert forall|i: int| 0 <= i < n && #[trigger] keep(i) implies prev.contains(i) by {
                assert(i < n - 1);
            }
            prev
        }
    }
}

/// Every file stored under another name is reported, and only those: the
/// result lists `(sent[i], saved[i])`, in order, for exactly the positions
/// `i` (below both lengths) where the two names differ.
pub proof fn lemma_renamed_reports_every_rename(sent: Seq<Seq<char>>, saved: Seq<Seq<char>>)
    ensures
        ({
            let n = min(sent.len() as int, saved.len() as int);
            let r = renamed_spec(sent, saved, n);
            &&& forall|i: int| 0 <= i < n && sent[i] != saved[i] ==> r.contains((sent[i], saved[i]))
            &&& forall|k: int| 0 <= k < r.len() ==> exists|i: int|
                0 <= i < n && sent[i] != saved[i] && #[trigger] r[k] == (sent[i], saved[i])
            &&& exists|idx: Seq<int>|
                crate::text::picks(idx, n, |i: int| sent[i] != saved[i]) && idx.len() == r.len()
                    && forall|k: int| 0 <= k < r.len() ==> #[trigger] r[k] == (sent[idx[k]], saved[idx[k]])
        }),
{
    let n = min(sent.len() as int, saved.len() as int);
    let r = renamed_spec(sent, saved, n);
    let idx = renamed_indices(sent, saved, n);
    assert forall|i: int| 0 <= i < n && sent[i] != saved[i] implies r.contains((sent[i], saved[i])) by {
        let keep = |i: int| sent[i] != saved[i];
        assert(keep(i));
        let k = choose|k: int| 0 <= k < idx.len() && idx[k] == i;
        assert(r[k] == (sent[i], saved[i]));
    }
    assert forall|k: int| 0 <= k < r.len() implies exists|i: int|
        0 <= i < n && sent[i] != saved[i] && #[trigger] r[k] == (sent[i], saved[i]) by {
        assert(r[k] == (sent[idx[k]], saved[idx[k]]));
    }
}

// ---------------------------------------------------------------------------
// Dry run

/// `n` spaces.
pub open spec fn spaces(n: nat) -> Seq<char> {
    Seq::new(n, |i: int| ' ')
}

/// The lines of `text` with `n` spaces before each, joined with `\n`.
pub open spec fn indent_spec(text: Seq<char>, n: nat) -> Seq<char> {
    join(Seq::new(lines(text).len(), |i: int| spaces(n) + lines(text)[i]), "\n"@)
}

/// Indents every line of `text` (a request shown by a dry run) by `n`
/// spaces.
pub fn indent(text: &str, n: usize) -> (r: String)
    ensures
        r@ == indent_spec(text@, n as nat),
{
    let mut pad: Vec<char> = Vec::new();
    let mut k: usize = 0;
    while k < n
        invariant
            k <= n,
            pad@ == spaces(k as nat),
        decreases n - k,
    {
        pad.push(' ');
        k = k + 1;
        assert(pad@ =~= spaces(k as nat));
    }
    let ls = split_lines(text);
    let mut padded: Vec<String> = Vec::new();
    let mut i: usize = 0;
    while i < ls.len()
        invariant
            i <= ls@.len(),
            pad@ == spaces(n as nat),
            ls@.len() == lines(text@).len(),
            forall|j: int| 0 <= j < ls@.len() ==> #[trigger] ls@[j]@ == lines(text@)[j],
            padded@.len() == i,
            forall|j: int| 0 <= j < i ==> #[trigger] padded@[j]@ == spaces(n as nat) + lines(text@)[j],
        decreases ls@.len() - i,
    {
        let mut acc = pad.clone();
        crate::text::push_str(&mut acc, ls[i].as_str());
        padded.push(string_of(&acc));
        i = i + 1;
    }
    assert(views(padded@) =~= Seq::new(lines(text@).len(), |j: int| spaces(n as nat) + lines(text@)[j]));
    join_strings(&padded, "\n")
}

// ---------------------------------------------------------------------------
// What a push leaves on the server

/// The server's copy of a test case, `None` when it has none of that name.
pub open spec fn stored(server: Map<Seq<char>, Seq<u8>>, name: Seq<char>) -> Option<Seq<u8>> {
    if server.dom().contains(name) {
        Some(server[name])
    } else {
        None
    }
}

/// The server's test cases after the files `ups` are uploaded in order, the
/// server storing what it is sent (a file replaces one of the same name).
pub open spec fn after_uploads(server: Map<Seq<char>, Seq<u8>>, ups: Seq<(Seq<char>, Seq<u8>)>) -> Map<Seq<char>, Seq<u8>>
    decreases ups.len(),
{
    if ups.len() == 0 {
        server
    } else {
        after_uploads(server, ups.drop_last()).insert(ups.last().0, ups.last().1)
    }
}

/// No two test cases share a name (a directory's files do not).
pub open spec fn distinct_names(s: Seq<(Seq<char>, Seq<u8>)>) -> bool {
    forall|i: int, j: int| 0 <= i < j < s.len() ==> #[trigger] s[i].0 != #[trigger] s[j].0
}

/// The states of the local test cases against the server's.
pub open spec fn states_against(local: Seq<(Seq<char>, Seq<u8>)>, server: Map<Seq<char>, Seq<u8>>) -> Seq<TestcaseState> {
    Seq::new(local.len(), |i: int| crate::commands::testcases::state_of(local[i].1, stored(server, local[i].0)))
}

/// The names of the test cases.
pub open spec fn names_of(s: Seq<(Seq<char>, Seq<u8>)>) -> Seq<Seq<char>> {
    Seq::new(s.len(), |i: int| s[i].0)
}

/// The uploads of the first `k` local test cases.
pub open spec fn uploads_upto(local: Seq<(Seq<char>, Seq<u8>)>, server: Map<Seq<char>, Seq<u8>>, k: int) -> Seq<(Seq<char>, Seq<u8>)> {
    upload_spec(local.subrange(0, k), states_against(local, server).subrange(0, k))
}

proof fn lemma_push_prefix(local: Seq<(Seq<char>, Seq<u8>)>, server: Map<Seq<char>, Seq<u8>>, k: int)
    requires
        distinct_names(local),
        0 <= k <= local.len(),
    ensures
        forall|i: int| 0 <= i < k ==> stored(after_uploads(server, uploads_upto(local, server, k)), #[trigger] local[i].0) == Some(local[i].1),
        forall|n: Seq<char>| (forall|i: int| 0 <= i < k ==> local[i].0 != n) ==> #[trigger] stored(after_uploads(server, uploads_upto(local, server, k)), n) == stored(server, n),
        forall|n: Seq<char>| #[trigger] after_uploads(server, uploads_upto(local, server, k)).dom().contains(n) ==> server.dom().contains(n) || exists|i: int| 0 <= i < k && local[i].0 == n,
    decreases k,
{
    if k > 0 {
        lemma_push_prefix(local, server, k - 1);
        let states = states_against(local, server);
        let lk = local.subrange(0, k);
        let sk = states.subrange(0, k);
        assert(lk.drop_last() == local.subrange(0, k - 1));
        assert(sk.drop_last() == states.subrange(0, k - 1));
        assert(lk.last() == local[k - 1]);
        assert(sk.last() == states[k - 1]);
        let prev = after_uploads(server, uploads_upto(local, server, k - 1));
        let cur = after_uploads(server, uploads_upto(local, server, k));
        let x = local[k - 1];
        if to_upload(states[k - 1]) {
            assert(uploads_upto(local, server, k) == uploads_upto(local, server, k - 1).push(x));
            assert(uploads_upto(local, server, k).drop_last() == uploads_upto(local, server, k - 1));
            assert(cur == prev.insert(x.0, x.1));
            assert forall|i: int| 0 <= i < k implies stored(cur, #[trigger] local[i].0) == Some(local[i].1) by {
                if i < k - 1 {
                    assert(local[i].0 != local[k - 1].0);
                }
            }
        } else {
            assert(uploads_upto(local, server, k) == uploads_upto(local, server, k - 1));
            assert(states[k - 1] == TestcaseState::Same);
            assert forall|i: int| 0 <= i < k implies stored(cur, #[trigger] local[i].0) == Some(local[i].1) by {
                if i == k - 1 {
                    assert forall|i2: int| 0 <= i2 < k - 1 implies #[trigger] local[i2].0 != local[k - 1].0 by {
                        assert(local[i2].0 != local[k - 1].0);
                    }
                    assert(stored(prev, local[k - 1].0) == stored(server, local[k - 1].0));
                }
            }
        }
        assert forall|n: Seq<char>| (forall|i: int| 0 <= i < k ==> local[i].0 != n) implies #[trigger] stored(cur, n) == stored(server, n) by {
            assert(local[k - 1].0 != n);
            assert forall|i: int| 0 <= i < k - 1 implies #[trigger] local[i].0 != n by {
                assert(local[i].0 != n);
            }
            assert(stored(prev, n) == stored(server, n));
            if to_upload(states[k - 1]) {
                assert(cur == prev.insert(x.0, x.1));
            } else {
                assert(cur == prev);
            }
        }
        assert forall|n: Seq<char>| #[trigger] cur.dom().contains(n) implies server.dom().contains(n) || exists|i: int| 0 <= i < k && local[i].0 == n by {
            if n == x.0 {
                assert(local[k - 1].0 == n);
            } else if prev.dom().contains(n) {
            }
        }
    } else {
        assert(uploads_upto(local, server, 0).len() == 0);
        assert(after_uploads(server, uploads_upto(local, server, 0)) == server);
    }
}

/// A push makes the server hold every local test case, byte for byte, when
/// the server stores what it is sent: the ones that were the same stay, the
/// others are uploaded. With `--prune` the server's other test cases go, so
/// it holds exactly the local ones.
pub proof fn lemma_push_makes_the_server_match(local: Seq<(Seq<char>, Seq<u8>)>, server: Map<Seq<char>, Seq<u8>>)
    requires
        distinct_names(local),
    ensures
        ({
            let after = after_uploads(server, upload_spec(local, states_against(local, server)));
            let pruned = after.remove_keys(Set::new(|n: Seq<char>| server.dom().contains(n) && !names_of(local).contains(n)));
            &&& forall|i: int| 0 <= i < local.len() ==> stored(after, #[trigger] local[i].0) == Some(local[i].1)
            &&& forall|i: int| 0 <= i < local.len() ==> stored(pruned, #[trigger] local[i].0) == Some(local[i].1)
            &&& forall|n: Seq<char>| #[trigger] pruned.dom().contains(n) ==> names_of(local).contains(n)
        }),
{
    let states = states_against(local, server);
    let n = local.len() as int;
    lemma_push_prefix(local, server, n);
    assert(local.subrange(0, n) == local);
    assert(states.subrange(0, n) == states);
    let after = after_uploads(server, upload_spec(local, states));
    let gone = Set::new(|m: Seq<char>| server.dom().contains(m) && !names_of(local).contains(m));
    let pruned = after.remove_keys(gone);
    assert forall|i: int| 0 <= i < local.len() implies stored(pruned, #[trigger] local[i].0) == Some(local[i].1) by {
        assert(names_of(local)[i] == local[i].0);
        assert(!gone.contains(local[i].0));
    }
    assert forall|m: Seq<char>| #[trigger] pruned.dom().contains(m) implies names_of(local).contains(m) by {
        assert(after.dom().contains(m));
        if !server.dom().contains(m) {
            let i = choose|i: int| 0 <= i < n && local[i].0 == m;
            assert(names_of(local)[i] == m);
        }
    }
}

/// The upload requests for `files`: none under `--dry-run`, else
/// [`batches`] of them.
pub fn upload_requests(options: Options, files: Vec<(String, Vec<u8>)>) -> (r: Vec<Vec<(String, Vec<u8>)>>)
    ensures
        options.dry_run ==> r@.len() == 0,
        !options.dry_run ==> batching_of(batch_views(r@), case_views(files@)),
{
    if options.dry_run {
        Vec::new()
    } else {
        batches(files)
    }
}

/// `--dry-run` sends nothing: no resource is replaced, no test case is
/// uploaded or deleted, and the server's test cases count as unchanged.
pub proof fn lemma_dry_run_sends_nothing(options: Options)
    requires
        options.dry_run,
    ensures
        save_step_of(options) == SaveStep::Show,
        remote_only_step_of(options) != RemoteOnlyStep::Delete,
{
}

} // verus!

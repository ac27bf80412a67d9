use yukicoder_tools::commands::diff::{
    any_difference, display_value, document_lines, format_kind, generator_lines, judge_lines,
    f64_bits_equal, settings_changes, settings_lines, testcase_lines, text_diff, DiffLine, JsonField, Section,
};
use yukicoder_tools::commands::init::dotenv_ignored;
use yukicoder_tools::commands::languages::language_suffix;
use yukicoder_tools::commands::new::{new_problem_dir, relative_dir, skeleton_dirs, NewError};
use yukicoder_tools::commands::pull::{
    check_returned_id, generator_config, judge_config, source_file_name, JudgePull, PullError,
};
use yukicoder_tools::commands::push::{
    adjusted, batches, compile_poll, generator_request, indent, judge_code_after_save,
    judge_code_start, remote_only_step, renamed_files, save_message, save_step, server_changed,
    upload_requests, uploads, validation_failure, RemoteOnlyStep, SaveStep,
    validator_after_save, validator_poll, validator_start, validator_with_statuses, CompileDone,
    CompileStep, JudgeCodeStep, Options, PushError, ValidationFailure, ValidatorDone,
    ValidatorPlan, ValidatorStep, UPLOAD_CHUNK_BYTES, UPLOAD_CHUNK_FILES,
};
use yukicoder_tools::commands::submit::{
    member_id, solution_message, solution_request, submission_id, Member,
};
use yukicoder_tools::commands::testcases::{local_states, on_server, remote_only, TestcaseState};
use yukicoder_tools::commands::{Context, Target};
use yukicoder_tools::config::{Config, ConfigError, Problem, Repo};
use yukicoder_tools::local::{GeneratorConfig, JudgeConfig};
use yukicoder_tools::models::{GeneratorContent, JudgeCodeContent, Statement, ValidatorContent, Which};

// ---- new -------------------------------------------------------------

#[test]
fn defaults_to_the_problem_id() {
    assert_eq!(relative_dir(None, 13954).unwrap(), "13954");
}

#[test]
fn nested_names_are_allowed() {
    assert_eq!(relative_dir(Some("abc001/a".into()), 1).unwrap(), "abc001/a");
}

#[test]
fn escaping_paths_are_rejected() {
    for bad in ["../x", "/abs", "a/../../x", "", "  "] {
        assert!(relative_dir(Some(bad.into()), 1).is_err(), "{bad}");
    }
}

#[test]
fn only_plain_components_are_accepted() {
    for ok in ["a/./b", "a//b", "...", "a/..b", "x/"] {
        assert!(relative_dir(Some(ok.into()), 1).is_ok(), "{ok}");
    }
    for bad in [".", "./a", "a/..", ".."] {
        assert_eq!(
            relative_dir(Some(bad.into()), 1),
            Err(NewError::NotRelative { dir: bad.into() }),
            "{bad}"
        );
    }
}

fn repo() -> Repo {
    Repo { root: "/repo".into(), config: Config::default() }
}

#[test]
fn new_problems_get_their_own_directory() {
    let problems = vec![Problem { id: 13954, dir: "/repo/problems/x".into(), sync: true }];
    assert_eq!(
        new_problem_dir(&repo(), &problems, 13954, None).err(),
        Some(NewError::Exists { problem_id: 13954, dir: "/repo/problems/x".into() })
    );
    let dir = new_problem_dir(&repo(), &problems, 20000, Some("abc001/a".into())).unwrap();
    assert_eq!(dir.root(), "/repo/problems/abc001/a");
    assert_eq!(dir.problem_id(), 20000);
    assert_eq!(
        skeleton_dirs(&dir),
        vec![
            "/repo/problems/abc001/a/testcases/in".to_string(),
            "/repo/problems/abc001/a/testcases/out".to_string(),
            "/repo/problems/abc001/a/solutions".to_string(),
        ]
    );
}

#[test]
fn the_context_resolves_problem_directories() {
    let ctx = Context { repo: repo() };
    let problems = vec![Problem { id: 5, dir: "/repo/problems/five".into(), sync: true }];
    assert_eq!(ctx.problem_dir(&problems, 5, true).unwrap().root(), "/repo/problems/five");
    assert_eq!(ctx.problem_dir(&problems, 6, false).unwrap().root(), "/repo/problems/6");
    assert_eq!(
        ctx.problem_dir(&problems, 6, true).err(),
        Some(ConfigError::OtherProblemDir { dir: "/repo/problems/6".into(), problem_id: 6 })
    );
    let target = Target { problem_id: None, all: true };
    assert_eq!(ctx.repo.target_problems(target.problem_id, target.all, &problems).unwrap(), vec![5]);
}

// ---- pull ------------------------------------------------------------

#[test]
fn source_files_are_named_by_language() {
    assert_eq!(source_file_name("judge", "cpp17"), "judge.cpp");
    assert_eq!(source_file_name("generator", "python3"), "generator.py");
    assert_eq!(source_file_name("generator", "pypy3"), "generator.py");
    assert_eq!(source_file_name("judge", "rust"), "judge.rs");
    assert_eq!(source_file_name("judge", "go"), "judge.go");
    assert_eq!(source_file_name("judge", "java21"), "judge.java");
    assert_eq!(source_file_name("judge", "haskell"), "judge.txt");
}

#[test]
fn the_server_must_answer_for_the_asked_problem() {
    assert!(check_returned_id(1, 1).is_ok());
    assert_eq!(check_returned_id(1, 2), Err(PullError::OtherProblem { requested: 1, returned: 2 }));
}

#[test]
fn unregistered_generators_make_no_file() {
    let none = GeneratorContent { lang_id: String::new(), source: " \n".into(), enable: false, test_case_num: 0 };
    assert!(generator_config(&none, None).is_none());
    let g = GeneratorContent { lang_id: "python3".into(), source: "print(1)".into(), enable: true, test_case_num: 5 };
    let c = generator_config(&g, None).unwrap();
    assert_eq!(c.lang_id, "python3");
    assert_eq!(c.source_file, "generator.py");
    assert_eq!(c.test_case_num, 5);
    assert!(c.prefix.is_none());
    let kept = generator_config(&g, Some("gen_main.py".into())).unwrap();
    assert_eq!(kept.source_file, "gen_main.py");
}

#[test]
fn judge_code_pulls_depend_on_the_server() {
    assert!(matches!(judge_config(&None, None), JudgePull::Unsupported));
    let empty = JudgeCodeContent { lang_id: String::new(), source: String::new(), status: String::new() };
    assert!(matches!(judge_config(&Some(empty), None), JudgePull::NotRegistered));
    let code = JudgeCodeContent { lang_id: "cpp17".into(), source: "int main(){}".into(), status: "AC".into() };
    match judge_config(&Some(code), None) {
        JudgePull::Write(c) => {
            assert_eq!(c.lang_id, "cpp17");
            assert_eq!(c.source_file, "judge.cpp");
        }
        _ => panic!("the judge code should be written"),
    }
}

// ---- push ------------------------------------------------------------

fn options(dry_run: bool) -> Options {
    Options { dry_run, testcases: true, prune: false, generate: false, wait_compile: true }
}

#[test]
fn save_messages_fall_back_to_what_was_done() {
    assert_eq!(save_message("  保存されました。 ", false), "保存されました。");
    assert_eq!(save_message("", false), "保存しました");
    assert_eq!(save_message(" ", true), "削除しました");
}

#[test]
fn generator_requests_start_generation_only_when_asked() {
    let config = GeneratorConfig { lang_id: "cpp17".into(), source_file: "g.cpp".into(), test_case_num: 3, prefix: Some("r_".into()) };
    let req = generator_request(config, "src".into(), true);
    assert_eq!(req.generate, Some(true));
    assert_eq!(req.prefix.as_deref(), Some("r_"));
    assert_eq!(req.test_case_num, 3);
    let config = GeneratorConfig { lang_id: "cpp17".into(), source_file: "g.cpp".into(), test_case_num: 3, prefix: None };
    assert_eq!(generator_request(config, "src".into(), false).generate, None);
}

#[test]
fn judge_code_pushes_warn_and_delete() {
    assert_eq!(judge_code_start(0, "x", true), (true, JudgeCodeStep::DryRun));
    assert_eq!(judge_code_start(1, "x", false), (false, JudgeCodeStep::Save { deleting: false }));
    assert_eq!(judge_code_start(1, " \n", false), (false, JudgeCodeStep::Save { deleting: true }));
    assert_eq!(judge_code_after_save(true, true), CompileStep::Finish(CompileDone::Deleted));
    assert_eq!(judge_code_after_save(false, false), CompileStep::Finish(CompileDone::NotWaiting));
    assert_eq!(judge_code_after_save(false, true), CompileStep::Poll);
}

fn code(status: &str) -> Option<JudgeCodeContent> {
    Some(JudgeCodeContent { lang_id: "cpp17".into(), source: "x".into(), status: status.into() })
}

#[test]
fn compilation_is_followed_until_ac_or_ce() {
    for waiting in ["WJ", "Judge", ""] {
        assert_eq!(compile_poll(&code(waiting), false), Ok(CompileStep::Poll), "{waiting}");
        assert_eq!(
            compile_poll(&code(waiting), true),
            Ok(CompileStep::Finish(CompileDone::TimedOut))
        );
    }
    assert_eq!(compile_poll(&code("AC"), true), Ok(CompileStep::Finish(CompileDone::Compiled)));
    assert_eq!(compile_poll(&code("CE"), false), Err(PushError::CompileFailed { status: "CE".into() }));
    assert_eq!(compile_poll(&None, false), Ok(CompileStep::Finish(CompileDone::Unsupported)));
}

fn remote_validator(source: &str, status: &str, latest_check: i64, test_case_latest: i64) -> ValidatorContent {
    ValidatorContent {
        lang_id: "cpp17".into(),
        source: source.into(),
        status: status.into(),
        latest_check,
        test_case_latest,
    }
}

#[test]
fn validators_are_saved_only_when_changed() {
    let remote = Some(remote_validator("v", "AC", 2, 1));
    assert_eq!(validator_start("cpp17", "v", &None, false), ValidatorStep::Finish(ValidatorDone::Unsupported));
    let same = ValidatorPlan { deleting: false, unchanged: true };
    assert_eq!(validator_start("cpp17", "v", &remote, false), ValidatorStep::FetchStatuses(same));
    assert_eq!(validator_start("cpp17", "v", &remote, true), ValidatorStep::Finish(ValidatorDone::DryRun(same)));
    let changed = ValidatorPlan { deleting: false, unchanged: false };
    assert_eq!(validator_start("cpp23", "v", &remote, false), ValidatorStep::FetchStatuses(changed));
    let empty = Some(remote_validator("", "", 0, 0));
    assert_eq!(validator_start("cpp17", " ", &empty, false), ValidatorStep::Finish(ValidatorDone::NothingRegistered));
    let deleting = ValidatorPlan { deleting: true, unchanged: false };
    assert_eq!(validator_start("cpp17", "", &remote, false), ValidatorStep::FetchStatuses(deleting));
}

#[test]
fn unchanged_validators_report_their_current_result() {
    let same = ValidatorPlan { deleting: false, unchanged: true };
    let judging = Some(vec!["WJ".to_string(), "Pending".to_string()]);
    let ok = remote_validator("v", "AC", 2, 1);
    assert_eq!(
        validator_with_statuses(same, &ok, &judging, false, true),
        Ok(ValidatorStep::Finish(ValidatorDone::UpToDate))
    );
    let wa = remote_validator("v", "WA", 2, 1);
    assert_eq!(
        validator_with_statuses(same, &wa, &judging, false, true),
        Err(PushError::ValidationFailed { failure: ValidationFailure::TestcaseRejected, status: "WA".into() })
    );
    let pending = remote_validator("v", "Pending", 2, 1);
    assert_eq!(validator_with_statuses(same, &pending, &judging, false, true), Ok(ValidatorStep::Poll { behind: true }));
    assert_eq!(
        validator_with_statuses(same, &pending, &judging, false, false),
        Ok(ValidatorStep::Finish(ValidatorDone::NotWaiting { behind: true }))
    );
    assert_eq!(validator_with_statuses(same, &ok, &judging, true, true), Ok(ValidatorStep::Poll { behind: false }));
    assert_eq!(
        validator_with_statuses(same, &ok, &None, false, true),
        Ok(ValidatorStep::Finish(ValidatorDone::NoStatuses))
    );
    let changed = ValidatorPlan { deleting: false, unchanged: false };
    assert_eq!(validator_with_statuses(changed, &ok, &judging, false, true), Ok(ValidatorStep::Save(changed)));
}

#[test]
fn saved_validators_are_waited_for() {
    let deleting = ValidatorPlan { deleting: true, unchanged: false };
    let saving = ValidatorPlan { deleting: false, unchanged: false };
    assert_eq!(validator_after_save(deleting, true, true), ValidatorStep::Finish(ValidatorDone::Deleted));
    assert_eq!(validator_after_save(saving, false, true), ValidatorStep::Finish(ValidatorDone::NoStatuses));
    assert_eq!(validator_after_save(saving, true, true), ValidatorStep::Poll { behind: false });
    let judging = vec!["WJ".to_string()];
    assert_eq!(
        validator_poll(&Some(remote_validator("v", "AC", 5, 4)), &judging, false),
        Ok(ValidatorStep::Finish(ValidatorDone::Validated))
    );
    assert_eq!(
        validator_poll(&Some(remote_validator("v", "AC", 4, 4)), &judging, false),
        Ok(ValidatorStep::Poll { behind: false })
    );
    assert_eq!(
        validator_poll(&Some(remote_validator("v", "WJ", 5, 4)), &judging, true),
        Ok(ValidatorStep::Finish(ValidatorDone::TimedOut))
    );
    assert_eq!(
        validator_poll(&Some(remote_validator("v", "TLE", 5, 4)), &judging, false),
        Err(PushError::ValidationFailed { failure: ValidationFailure::RuntimeError, status: "TLE".into() })
    );
    assert_eq!(validator_poll(&None, &judging, false), Ok(ValidatorStep::Finish(ValidatorDone::Unsupported)));
}

#[test]
fn validation_failures_are_named_by_status() {
    assert_eq!(validation_failure("WA"), ValidationFailure::TestcaseRejected);
    assert_eq!(validation_failure("CE"), ValidationFailure::CompileError);
    for s in ["RE", "TLE", "MLE", "OLE"] {
        assert_eq!(validation_failure(s), ValidationFailure::RuntimeError);
    }
    assert_eq!(validation_failure("IE"), ValidationFailure::Other);
}

fn case(name: &str, content: &[u8]) -> (String, Vec<u8>) {
    (name.to_string(), content.to_vec())
}

#[test]
fn changed_and_new_test_cases_are_uploaded() {
    let local = vec![case("1.txt", b"1\n"), case("2.txt", b"2\n"), case("3.txt", b"3\n")];
    let remote_names = vec!["1.txt".to_string(), "2.txt".to_string(), "9.txt".to_string()];
    assert_eq!(on_server(&local, &remote_names), vec![true, true, false]);
    let fetched = vec![Some(b"1\n".to_vec()), Some(b"two\n".to_vec()), None];
    let states = local_states(&local, &fetched);
    assert_eq!(states, vec![TestcaseState::Same, TestcaseState::Differs, TestcaseState::LocalOnly]);
    assert_eq!(uploads(&local, &states), vec![case("2.txt", b"2\n"), case("3.txt", b"3\n")]);
    assert_eq!(remote_only(&local, &remote_names), vec!["9.txt".to_string()]);
    assert!(server_changed(options(false), 2, 0));
    assert!(!server_changed(options(true), 2, 1));
    assert!(!server_changed(options(false), 0, 1), "without --prune nothing is deleted");
    let prune = Options { prune: true, ..options(false) };
    assert!(server_changed(prune, 0, 1));
}

#[test]
fn uploads_are_split_within_the_limits() {
    let files: Vec<(String, Vec<u8>)> = (0..250).map(|i| case(&format!("{i}.txt"), b"x")).collect();
    let out = batches(files.clone());
    assert_eq!(out.iter().map(|b| b.len()).collect::<Vec<_>>(), vec![100, 100, 50]);
    assert_eq!(out.concat(), files);

    let half = vec![0u8; UPLOAD_CHUNK_BYTES / 2 - 300];
    let files = vec![case("a.txt", &half), case("b.txt", &half), case("c.txt", b"y")];
    let out = batches(files.clone());
    assert_eq!(out.iter().map(|b| b.len()).collect::<Vec<_>>(), vec![2, 1], "a third file would go over the byte limit");
    assert_eq!(out.concat(), files);
    assert!(batches(Vec::new()).is_empty());
    assert_eq!(UPLOAD_CHUNK_FILES, 100);
}

#[test]
fn oversized_files_go_alone() {
    let huge = vec![1u8; UPLOAD_CHUNK_BYTES + 1];
    let files = vec![case("a.txt", b"a"), case("huge.txt", &huge), case("b.txt", b"b")];
    let out = batches(files.clone());
    assert_eq!(out.iter().map(|b| b.len()).collect::<Vec<_>>(), vec![1, 1, 1]);
    assert_eq!(out.concat(), files);
}

#[test]
fn stored_contents_are_taken_back() {
    let uploaded = vec![case("1.txt", b"1 \r\n"), case("2.txt", b"2\n")];
    let stored = vec![b"1\n".to_vec(), b"2\n".to_vec()];
    assert_eq!(adjusted(&uploaded, &stored), vec![case("1.txt", b"1\n")]);
    let sent = vec!["case-1.txt".to_string(), "b.txt".to_string()];
    let saved = vec!["case1.txt".to_string(), "b.txt".to_string(), "extra.txt".to_string()];
    assert_eq!(renamed_files(&sent, &saved), vec![("case-1.txt".to_string(), "case1.txt".to_string())]);
}

#[test]
fn dry_runs_indent_the_request() {
    assert_eq!(indent("{\n  \"a\": 1\n}", 4), "    {\n      \"a\": 1\n    }");
    assert_eq!(indent("", 2), "");
    assert_eq!(indent("x\r\ny\n", 1), " x\n y");
}

// ---- diff ------------------------------------------------------------

fn field(key: &str, text: &str, number: Option<i64>, string: Option<&str>) -> JsonField {
    JsonField { key: key.into(), text: text.into(), number, string: string.map(String::from), float: None }
}

#[test]
fn coded_values_show_their_meaning() {
    assert_eq!(display_value(&field("judgeType", "1", Some(1), None)), "1 (スペシャル)");
    assert_eq!(display_value(&field("problemType", "9", Some(9), None)), "9");
    assert_eq!(display_value(&field("epsMode", "\"abs\"", None, Some("abs"))), "\"abs\" (絶対誤差)");
    assert_eq!(display_value(&field("timeLimitMs", "2000", Some(2000), None)), "2000");
}

#[test]
fn changed_settings_are_listed_by_key() {
    let remote = vec![
        field("judgeType", "0", Some(0), None),
        field("timeLimitMs", "2000", Some(2000), None),
        field("title", "\"a\"", None, Some("a")),
    ];
    let local = vec![
        field("timeLimitMs", "2000", Some(2000), None),
        field("judgeType", "1", Some(1), None),
    ];
    assert_eq!(
        settings_changes(&remote, &local),
        vec![
            ("judgeType".to_string(), "0 (通常)".to_string(), "1 (スペシャル)".to_string()),
            ("title".to_string(), "\"a\"".to_string(), String::new()),
        ]
    );
    let lines = settings_lines(&remote, &local);
    assert_eq!(lines.len(), 2);
    assert!(any_difference(&lines));
    let same = settings_lines(&local, &local);
    assert!(matches!(same[..], [DiffLine::SettingsSame]));
    assert!(!any_difference(&same));
}

fn level(x: f64) -> JsonField {
    JsonField {
        key: "level".into(),
        text: serde_json::to_string(&x).unwrap(),
        number: None,
        string: None,
        float: Some(x.to_bits()),
    }
}

#[test]
fn floating_point_settings_are_compared_as_numbers() {
    assert!(settings_changes(&vec![level(0.0)], &vec![level(-0.0)]).is_empty());
    assert!(settings_changes(&vec![level(2.5)], &vec![level(2.5)]).is_empty());
    assert_eq!(
        settings_changes(&vec![level(2.5)], &vec![level(3.0)]),
        vec![("level".to_string(), "2.5".to_string(), "3.0".to_string())]
    );
    assert!(!f64_bits_equal(f64::NAN.to_bits(), f64::NAN.to_bits()));
    assert!(f64_bits_equal(0.0f64.to_bits(), (-0.0f64).to_bits()));
    assert!(!f64_bits_equal(1.0f64.to_bits(), (-1.0f64).to_bits()));
    assert!(f64_bits_equal(f64::INFINITY.to_bits(), f64::INFINITY.to_bits()));
}

#[test]
fn texts_are_compared_line_by_line() {
    assert!(text_diff("a\nb\n", "a\nb\n").is_none());
    let d = text_diff("a\nb\n", "a\nc\n").unwrap();
    assert_eq!(d, "--- yukicoder\n+++ ローカル\n@@ -1,2 +1,2 @@\n a\n-b\n+c\n");
    assert_eq!(format_kind(true), "Markdown");
    assert_eq!(format_kind(false), "HTML");
}

#[test]
fn documents_differ_in_format_or_text() {
    let local = Statement::Markdown("x\n".into());
    let same = document_lines(Section::Statement, "x\n", true, &local);
    assert!(matches!(same[..], [DiffLine::TextSame { section: Section::Statement }]));
    assert!(!any_difference(&same));
    let kind = document_lines(Section::Editorial, "x\n", false, &local);
    assert!(matches!(
        kind[..],
        [DiffLine::KindDiffers { section: Section::Editorial, remote_markdown: false, local_markdown: true }, DiffLine::TextSame { .. }]
    ));
    assert!(any_difference(&kind));
    let text = document_lines(Section::Statement, "y\n", true, &local);
    assert!(matches!(text[..], [DiffLine::TextChanged { .. }]));
}

#[test]
fn generator_and_judge_code_differences() {
    let remote = GeneratorContent { lang_id: "cpp17".into(), source: "s".into(), enable: true, test_case_num: 5 };
    let local = GeneratorConfig { lang_id: "cpp23".into(), source_file: "g.cpp".into(), test_case_num: 6, prefix: None };
    let lines = generator_lines(&remote, &local, "s");
    assert_eq!(lines.len(), 3);
    assert!(matches!(lines[1], DiffLine::GeneratorCases { remote_cases: 5, local_cases: 6 }));
    assert!(any_difference(&lines));

    let judge = JudgeConfig { lang_id: "cpp17".into(), source_file: "j.cpp".into() };
    let unsupported = judge_lines(&None, &judge, "s");
    assert!(matches!(unsupported[..], [DiffLine::JudgeUnsupported]));
    assert!(!any_difference(&unsupported));
    let same = judge_lines(&code("AC").map(|c| JudgeCodeContent { source: "s".into(), ..c }), &judge, "s");
    assert!(!any_difference(&same));
}

#[test]
fn test_case_differences_are_listed() {
    let local = vec![case("1.txt", b"1"), case("2.txt", b"2")];
    let remote_names = vec!["0.txt".to_string(), "1.txt".to_string()];
    let fetched = vec![Some(b"1".to_vec()), None];
    let lines = testcase_lines(Which::In, &local, &remote_names, &fetched);
    assert_eq!(lines.len(), 2);
    assert!(matches!(&lines[0], DiffLine::Testcase { which: Which::In, name, state: TestcaseState::RemoteOnly } if name == "0.txt"));
    assert!(matches!(&lines[1], DiffLine::Testcase { which: Which::In, name, state: TestcaseState::LocalOnly } if name == "2.txt"));
    let same = testcase_lines(Which::Out, &local[..1].to_vec(), &vec!["1.txt".to_string()], &vec![Some(b"1".to_vec())]);
    assert!(matches!(same[..], [DiffLine::TestcasesSame { which: Which::Out, count: 1 }]));
    assert!(!any_difference(&same));
}

// ---- submit / solution / languages / init -----------------------------

#[test]
fn parses_plain_number() {
    assert_eq!(submission_id("1234567"), Some(1234567));
}

#[test]
fn parses_json_shapes() {
    assert_eq!(submission_id(r#"{"SubmissionId":42}"#), Some(42));
    assert_eq!(submission_id(r#"{"submissionId":"42"}"#), Some(42));
    assert_eq!(submission_id(r#"{"Id":7,"Message":"ok"}"#), Some(7));
}

#[test]
fn returns_none_for_unknown_shape() {
    assert_eq!(submission_id(r#"{"Message":"受け付けました"}"#), None);
    assert_eq!(submission_id("ok"), None);
}

#[test]
fn members_decide_the_id_in_order() {
    assert_eq!(member_id(&Member::Number(Some(3))), Some(Some(3)));
    assert_eq!(member_id(&Member::Number(None)), Some(None));
    assert_eq!(member_id(&Member::Text("12".into())), Some(Some(12)));
    assert_eq!(member_id(&Member::Text("x".into())), None);
    assert_eq!(member_id(&Member::Absent), None);
    assert_eq!(member_id(&Member::Other), None);
    assert_eq!(submission_id(r#"{"SubmissionId":"x","id":9}"#), Some(9));
    assert_eq!(submission_id(r#"{"SubmissionId":1.5,"id":9}"#), None);
}

#[test]
fn solution_requests_and_messages() {
    let req = solution_request(Some("DP".into()), false);
    assert_eq!(req.summary.as_deref(), Some("DP"));
    assert_eq!(req.delete, None);
    let del = solution_request(Some("DP".into()), true);
    assert_eq!(del.summary, None);
    assert_eq!(del.delete, Some(true));
    assert_eq!(solution_message(" ", true), "想定解の登録を消しました");
    assert_eq!(solution_message("", false), "想定解に登録しました");
    assert_eq!(solution_message(" ok ", false), "ok");
}

#[test]
fn disabled_languages_are_listed_on_request() {
    assert_eq!(language_suffix("", false).as_deref(), Some(""));
    assert_eq!(language_suffix("enable", false).as_deref(), Some(""));
    assert_eq!(language_suffix("disable", false), None);
    assert_eq!(language_suffix("disable", true).as_deref(), Some(" [disable]"));
}

#[test]
fn gitignore_must_list_dotenv() {
    assert!(dotenv_ignored(Some("target\n  .env  \n")));
    assert!(!dotenv_ignored(Some(".env.example\n")));
    assert!(!dotenv_ignored(None));
}

#[test]
fn pushing_makes_the_server_hold_the_local_cases() {
    let mut server: std::collections::BTreeMap<String, Vec<u8>> = [
        ("1.txt", b"1\n".to_vec()),
        ("2.txt", b"old\n".to_vec()),
        ("9.txt", b"9\n".to_vec()),
    ]
    .into_iter()
    .map(|(k, v)| (k.to_string(), v))
    .collect();
    let local = vec![case("1.txt", b"1\n"), case("2.txt", b"2\n"), case("3.txt", b"3\n")];
    let remote_names: Vec<String> = server.keys().cloned().collect();
    let fetched: Vec<Option<Vec<u8>>> = local.iter().map(|(n, _)| server.get(n).cloned()).collect();
    assert_eq!(on_server(&local, &remote_names), fetched.iter().map(Option::is_some).collect::<Vec<_>>());
    let states = local_states(&local, &fetched);
    for batch in batches(uploads(&local, &states)) {
        for (name, content) in batch {
            server.insert(name, content);
        }
    }
    for name in remote_only(&local, &remote_names) {
        server.remove(&name);
    }
    let after: Vec<(String, Vec<u8>)> = server.into_iter().collect();
    assert_eq!(after, local);
}

#[test]
fn a_dry_run_sends_nothing() {
    assert_eq!(save_step(options(true)), SaveStep::Show);
    assert_eq!(save_step(options(false)), SaveStep::Send);

    let files = vec![("a.txt".to_string(), b"1\n".to_vec()), ("b.txt".to_string(), b"2\n".to_vec())];
    assert!(upload_requests(options(true), files.clone()).is_empty());
    assert_eq!(upload_requests(options(false), files.clone()), vec![files]);

    let prune = |dry_run: bool| Options { prune: true, ..options(dry_run) };
    assert_eq!(remote_only_step(options(false)), RemoteOnlyStep::Keep);
    assert_eq!(remote_only_step(options(true)), RemoteOnlyStep::Keep);
    assert_eq!(remote_only_step(prune(true)), RemoteOnlyStep::ShowDelete);
    assert_eq!(remote_only_step(prune(false)), RemoteOnlyStep::Delete);
}

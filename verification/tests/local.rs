use yukicoder_tools::local::{
    annotate_line, annotate_settings, check_problem_id, check_testcase_name, code_comment, collect_testcases,
    is_hidden, normalize, path_join, read_one_of, sanitized_file_name, LocalError, ProblemDir,
};
use yukicoder_tools::models::{judge_type_labels, Statement, Which};

#[test]
fn text_line_endings_become_lf() {
    assert_eq!(normalize("a\r\nb\rc"), "a\nb\nc");
    assert_eq!(normalize("\u{feff}a"), "a", "BOM を落とす");
}

#[test]
fn normalizing_twice_changes_nothing() {
    for text in ["a\r\n\r\nb", "\u{feff}\u{feff}x\ry", "plain\n", ""] {
        let once = normalize(text);
        assert!(!once.contains('\r'));
        assert_eq!(normalize(&once), once);
    }
}

#[test]
fn coded_lines_are_annotated() {
    let body = "judgeType = 2\ntimeLimitMs = 2000\n";
    let body = annotate_line(body, "judgeType", &code_comment(&judge_type_labels()));
    assert_eq!(body, "judgeType = 2 # 0:通常 1:スペシャル 2:リアクティブ\ntimeLimitMs = 2000\n");
    let parsed: toml::Value = toml::from_str(&body).unwrap();
    assert_eq!(parsed["judgeType"].as_integer(), Some(2));
}

#[test]
fn all_coded_settings_are_annotated() {
    let body = "epsMode = \"abs\"\nproblemType = 6\njudgeType = 0\ntitle = \"judgeType = 1\"\n";
    let text = annotate_settings(body);
    assert!(text.contains("epsMode = \"abs\" # \"-\":なし \"abs\":絶対誤差 \"rel\":相対誤差 \"all\":両方\n"));
    assert!(text.contains("problemType = 6 # 0:通常"));
    assert!(text.contains("judgeType = 0 # 0:通常 1:スペシャル 2:リアクティブ\n"));
    assert!(text.ends_with("title = \"judgeType = 1\"\n"));
}

#[test]
fn file_names_lose_unsupported_characters() {
    assert_eq!(sanitized_file_name("1_sample_1.txt"), "1_sample_1.txt");
    assert_eq!(sanitized_file_name("case-01.txt"), "case01.txt");
    assert_eq!(sanitized_file_name("テスト 1.txt"), "1.txt");
}

#[test]
fn test_case_names_the_server_would_change_are_refused() {
    assert!(check_testcase_name(Which::In, "01.txt").is_ok());
    assert_eq!(
        check_testcase_name(Which::Out, "case-01.txt"),
        Err(LocalError::RenamedByServer {
            which: Which::Out,
            name: "case-01.txt".into(),
            sanitized: "case01.txt".into(),
        })
    );
    assert!(is_hidden(".gitkeep"));
    assert!(!is_hidden("a.txt"));
}

#[test]
fn exactly_one_format_is_read() {
    assert_eq!(read_one_of(Some("a".into()), Some("b".into())).err(), Some(LocalError::BothFormats));
    assert_eq!(read_one_of(None, None).err(), Some(LocalError::Missing));
    let md = read_one_of(Some("x\r\ny".into()), None).unwrap();
    assert!(md.is_markdown());
    assert_eq!(md.text(), "x\ny");
    let html = read_one_of(None, Some("<p>".into())).unwrap();
    assert!(!html.is_markdown());
}

#[test]
fn the_problem_id_in_the_file_must_match() {
    assert!(check_problem_id(None, 5).is_ok());
    assert!(check_problem_id(Some(5), 5).is_ok());
    assert_eq!(check_problem_id(Some(6), 5), Err(LocalError::OtherProblem { found: 6, expected: 5 }));
}

#[test]
fn problem_directory_layout() {
    let dir = ProblemDir::new("problems/abc".into(), 13954);
    assert_eq!(dir.root(), "problems/abc");
    assert_eq!(dir.problem_id(), 13954);
    assert_eq!(dir.settings_path(), "problems/abc/problem.toml");
    assert_eq!(dir.statement_path(true), "problems/abc/statement.md");
    assert_eq!(dir.editorial_path(false), "problems/abc/editorial.html");
    assert_eq!(dir.generator_config_path(), "problems/abc/generator/generator.toml");
    assert_eq!(dir.judge_config_path(), "problems/abc/judge/judge.toml");
    assert_eq!(dir.validator_config_path(), "problems/abc/validator/validator.toml");
    assert_eq!(dir.testcase_path(Which::In, "1.txt"), "problems/abc/testcases/in/1.txt");
    assert_eq!(path_join("a/", "b"), "a/b");
    assert_eq!(path_join("a", "/b"), "/b");
}

#[test]
fn switching_formats_removes_the_other_file() {
    let dir = ProblemDir::new("p".into(), 1);
    let w = dir.write_statement(&Statement::Html("a\r\n".into()));
    assert_eq!(w.path, "p/statement.html");
    assert_eq!(w.text, "a\n");
    assert_eq!(w.stale, "p/statement.md");
    let e = dir.write_editorial(&Statement::Markdown("b".into()));
    assert_eq!(e.path, "p/editorial.md");
    assert_eq!(e.stale, "p/editorial.html");
    assert!(dir.read_statement(Some("s".into()), None).unwrap().is_markdown());
    assert_eq!(dir.read_editorial(None, None).err(), Some(LocalError::Missing));
}

#[test]
fn settings_file_keeps_the_id_and_the_sync_flag() {
    let dir = ProblemDir::new("p".into(), 42);
    let text = dir.settings_text("judgeType = 1\n", false);
    assert!(text.contains("problemId = 42\nsync = false\njudgeType = 1 # 0:通常 1:スペシャル 2:リアクティブ\n"));
    let synced = dir.settings_text("title = \"t\"\n", true);
    assert!(synced.ends_with("problemId = 42\ntitle = \"t\"\n"));
    assert!(!synced.contains("sync"));
}

#[test]
fn test_case_files_come_sorted_without_hidden_ones() {
    let files = vec![
        ("b.txt".to_string(), b"b".to_vec()),
        (".gitkeep".to_string(), Vec::new()),
        ("a.txt".to_string(), b"a".to_vec()),
        ("a.txt".to_string(), b"A".to_vec()),
        ("10.txt".to_string(), b"10".to_vec()),
    ];
    let cases = collect_testcases(Which::In, files).unwrap();
    assert_eq!(
        cases,
        vec![
            ("10.txt".to_string(), b"10".to_vec()),
            ("a.txt".to_string(), b"A".to_vec()),
            ("b.txt".to_string(), b"b".to_vec()),
        ]
    );
    let bad = vec![("ok.txt".to_string(), Vec::new()), ("case-1.txt".to_string(), Vec::new()), ("x y".to_string(), Vec::new())];
    assert_eq!(
        collect_testcases(Which::Out, bad),
        Err(LocalError::RenamedByServer { which: Which::Out, name: "case-1.txt".into(), sanitized: "case1.txt".into() })
    );
    assert_eq!(collect_testcases(Which::In, Vec::new()), Ok(Vec::new()));
}

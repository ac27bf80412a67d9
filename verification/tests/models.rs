use yukicoder_tools::models::{
    eps_mode_label, judge_status_is_final, judge_type_label, judging_ids, problem_type_label,
    EditorialRequest, ModelError, ProblemEditRequest, ProblemSettings, Statement, StatusInfo,
    ValidatorContent, Which,
};

fn settings() -> ProblemSettings {
    ProblemSettings {
        title: "タイトル".into(),
        tags: String::new(),
        level: "2.5".into(),
        time_limit_ms: 2000,
        memory_limit: 1024,
        eps_mode: "-".into(),
        eps: "0.0".into(),
        wip: true,
        recruiting_tester: false,
        problem_type: 0,
        judge_type: 0,
        show_ans: true,
        enable_pure_judge: false,
        force_single_server_judge: false,
        allowed_langs: vec![],
    }
}

#[test]
fn markdown_goes_to_markdown_with_empty_html() {
    let req = ProblemEditRequest::new(settings(), Statement::Markdown("# 問題".into())).unwrap();
    assert_eq!(req.html, "");
    assert_eq!(req.markdown.as_deref(), Some("# 問題"));
}

#[test]
fn html_omits_markdown() {
    let req = ProblemEditRequest::new(settings(), Statement::Html("<p>問題</p>".into())).unwrap();
    assert_eq!(req.html, "<p>問題</p>");
    assert!(req.markdown.is_none());
}

#[test]
fn empty_statement_is_rejected() {
    assert!(ProblemEditRequest::new(settings(), Statement::Markdown("  \n".into())).is_err());
    assert!(EditorialRequest::new(Statement::Html(String::new())).is_err());
}

#[test]
fn blank_bodies_get_their_own_errors() {
    assert_eq!(
        ProblemEditRequest::new(settings(), Statement::Html("\t".into())).err(),
        Some(ModelError::EmptyStatement)
    );
    assert_eq!(
        EditorialRequest::new(Statement::Markdown(" ".into())).err(),
        Some(ModelError::EmptyEditorial)
    );
    let editorial = EditorialRequest::new(Statement::Markdown("解説".into())).unwrap();
    assert_eq!(editorial.html, "");
    assert_eq!(editorial.markdown.as_deref(), Some("解説"));
}

#[test]
fn the_settings_are_sent_whole() {
    let req = ProblemEditRequest::new(settings(), Statement::Markdown("本文".into())).unwrap();
    assert_eq!(req.settings.time_limit_ms, 2000);
    assert_eq!(req.settings.title, "タイトル");
    assert!(req.settings.show_ans);
}

#[test]
fn only_ac_and_ce_are_final_judge_statuses() {
    assert!(judge_status_is_final("AC"));
    assert!(judge_status_is_final("CE"));
    for in_progress in ["WJ", "Judge", "", "Compiling"] {
        assert!(!judge_status_is_final(in_progress), "{in_progress} を確定扱いしてはいけない");
    }
}

fn validator(status: &str, latest_check: i64, test_case_latest: i64) -> ValidatorContent {
    ValidatorContent {
        lang_id: String::new(),
        source: String::new(),
        status: status.into(),
        latest_check,
        test_case_latest,
    }
}

#[test]
fn validator_result_must_be_newer_than_the_testcases() {
    let statuses = [
        ("WJ", "judging"),
        ("Pending", "judging"),
        ("NewWait", "judging"),
        ("AC", "success"),
        ("WA", "wrong"),
    ]
    .into_iter()
    .map(|(id, category)| StatusInfo { id: id.into(), category: category.into() })
    .collect::<Vec<_>>();
    let judging = judging_ids(&statuses);

    assert!(validator("AC", 200, 100).is_up_to_date(&judging));
    assert!(
        !validator("AC", 100, 200).is_up_to_date(&judging),
        "テストケースの方が新しい間は、前回の AC で完了にしない"
    );
    assert!(!validator("AC", 100, 100).is_up_to_date(&judging), "同時刻は未完了");
    for in_progress in ["WJ", "Pending", "NewWait"] {
        assert!(
            !validator(in_progress, 200, 100).is_up_to_date(&judging),
            "{in_progress} は実行中・実行待ち"
        );
    }
    assert!(
        validator("WA", 200, 100).is_up_to_date(&judging),
        "失敗の終端も「結果が出た」ではある"
    );
    assert!(
        validator("AC", 100, 0).is_up_to_date(&judging),
        "テストケース未更新 (NULL=0) でも結果があれば完了"
    );
    assert!(!validator("", 200, 100).is_up_to_date(&judging), "未登録");
}

#[test]
fn judging_ids_keep_the_order_of_the_list() {
    let statuses = vec![
        StatusInfo { id: "AC".into(), category: "success".into() },
        StatusInfo { id: "WJ".into(), category: "judging".into() },
        StatusInfo { id: "IE".into(), category: "danger".into() },
        StatusInfo { id: "Judge".into(), category: "judging".into() },
    ];
    assert_eq!(judging_ids(&statuses), vec!["WJ".to_string(), "Judge".to_string()]);
    assert!(judging_ids(&Vec::new()).is_empty());
}

#[test]
fn code_labels_are_available() {
    assert_eq!(judge_type_label(1), Some("スペシャル"));
    assert_eq!(problem_type_label(6), Some("ショートコード"));
    assert_eq!(eps_mode_label("abs"), Some("絶対誤差"));
    assert_eq!(judge_type_label(9), None, "未知のコードは名前なし");
}

#[test]
fn every_code_has_its_label() {
    assert_eq!(problem_type_label(0), Some("通常"));
    assert_eq!(problem_type_label(7), None);
    assert_eq!(judge_type_label(2), Some("リアクティブ"));
    assert_eq!(eps_mode_label("-"), Some("なし"));
    assert_eq!(eps_mode_label("ABS"), None);
}

#[test]
fn statements_know_their_format() {
    let md = Statement::new("a".into(), true);
    assert!(md.is_markdown());
    assert_eq!(md.text(), "a");
    let html = Statement::new("<p>b</p>".into(), false);
    assert!(!html.is_markdown());
    assert_eq!(html.text(), "<p>b</p>");
    assert_eq!(Which::In.as_str(), "in");
    assert_eq!(Which::Out.as_str(), "out");
}

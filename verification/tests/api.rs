use yukicoder_tools::api::{
    base_url, check_server_names, check_token, failure_message, file_path, files_path, json_body,
    problem_path, solution_path, status_hint, url, ApiError,
};
use yukicoder_tools::models::Which;

#[test]
fn base_urls_lose_their_trailing_slashes() {
    assert_eq!(base_url("https://yukicoder.me/api//"), "https://yukicoder.me/api");
    assert_eq!(base_url("http://localhost:8080"), "http://localhost:8080");
    assert_eq!(url("http://x", "/v1/languages"), "http://x/v1/languages");
}

#[test]
fn tokens_must_not_be_blank() {
    assert_eq!(check_token(" \n"), Err(ApiError::EmptyToken));
    assert!(check_token("ypt_abc").is_ok());
}

#[test]
fn api_paths() {
    assert_eq!(problem_path(13954, "edit"), "/v1/problems/13954/edit");
    assert_eq!(files_path(13954, Which::In), "/v1/problems/13954/file/in");
    assert_eq!(file_path(1, Which::Out, "a.txt"), "/v1/problems/1/file/out/a.txt");
    assert_eq!(solution_path(99), "/v1/submissions/99/solution");
}

#[test]
fn failures_carry_a_hint_and_the_body() {
    assert!(status_hint(401).contains("トークン"));
    assert!(status_hint(503).contains("サーバ側"));
    assert_eq!(status_hint(418), "");
    assert_eq!(
        failure_message("問題の取得", 404, "  Not Found \n"),
        "問題の取得 に失敗しました (HTTP 404)\nヒント: 問題 ID かファイル名を確認してください。\nレスポンス: Not Found"
    );
    assert_eq!(failure_message("提出", 400, " "), "提出 に失敗しました (HTTP 400)");
}

#[test]
fn testcase_names_from_the_server_are_validated() {
    let ok = vec!["1.txt".to_string(), "sample_1.txt".to_string()];
    assert!(check_server_names(&ok).is_ok());
    for bad in ["../evil", "a/b.txt", ""] {
        let names = vec![bad.to_string()];
        assert_eq!(
            check_server_names(&names),
            Err(ApiError::BadTestcaseName { name: bad.to_string() }),
            "{bad}"
        );
    }
}

#[test]
fn blank_answers_read_as_an_empty_object() {
    assert_eq!(json_body(" \n"), "{}");
    assert_eq!(json_body("{\"Message\":\"x\"}"), "{\"Message\":\"x\"}");
}

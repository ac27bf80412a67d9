use yukicoder_tools::config::{
    choose_token, dotenv_get, parse_dotenv, parse_i64, problem_id_for, problem_in, select_token, token_keys,
    Config, ConfigError, Problem, Repo, DEFAULT_BASE_URL,
};

fn dotenv(pairs: &[(&str, &str)]) -> Vec<(String, String)> {
    pairs.iter().map(|(k, v)| (k.to_string(), v.to_string())).collect()
}

fn no_env(keys: &[String]) -> Vec<Option<String>> {
    keys.iter().map(|_| None).collect()
}

#[test]
fn dotenv_reads_key_values() {
    let vars = parse_dotenv(
        "# コメント\n\nYUKICODER_TOKEN=ypt_abc\nexport YUKICODER_TOKEN_13954=\"ypt_def\"\nOTHER='x y'\n",
    )
    .unwrap();
    assert_eq!(dotenv_get(&vars, "YUKICODER_TOKEN").unwrap(), "ypt_abc");
    assert_eq!(dotenv_get(&vars, "YUKICODER_TOKEN_13954").unwrap(), "ypt_def");
    assert_eq!(dotenv_get(&vars, "OTHER").unwrap(), "x y");
}

#[test]
fn dotenv_rejects_broken_line() {
    assert_eq!(parse_dotenv("YUKICODER_TOKEN\n"), Err(ConfigError::DotenvLine { line: 1 }));
    assert_eq!(
        parse_dotenv("# ok\nA=1\nbroken\n"),
        Err(ConfigError::DotenvLine { line: 3 })
    );
}

#[test]
fn the_last_dotenv_value_wins() {
    let vars = parse_dotenv("A=1\nA = \"2\"\n").unwrap();
    assert_eq!(dotenv_get(&vars, "A").unwrap(), "2");
    assert!(dotenv_get(&vars, "B").is_none());
}

#[test]
fn per_problem_tokens_live_side_by_side() {
    let dotenv = dotenv(&[
        ("YUKICODER_TOKEN_13954", "ypt_for_13954"),
        ("YUKICODER_TOKEN_20000", "ypt_for_20000"),
    ]);
    let keys = token_keys(13954);
    assert_eq!(select_token(&keys, &no_env(&keys), &dotenv).unwrap(), "ypt_for_13954");
    let keys = token_keys(20000);
    assert_eq!(select_token(&keys, &no_env(&keys), &dotenv).unwrap(), "ypt_for_20000");
    let keys = token_keys(99999);
    assert!(select_token(&keys, &no_env(&keys), &dotenv).is_none());
}

#[test]
fn per_problem_token_wins_over_the_shared_one() {
    let dotenv = dotenv(&[
        ("YUKICODER_TOKEN_13954", "ypt_for_13954"),
        ("YUKICODER_TOKEN", "ypt_shared"),
        ("YUKICODER_API_KEY", "account_key"),
    ]);
    let keys = token_keys(13954);
    assert_eq!(select_token(&keys, &no_env(&keys), &dotenv).unwrap(), "ypt_for_13954");
    let keys = token_keys(20000);
    assert_eq!(select_token(&keys, &no_env(&keys), &dotenv).unwrap(), "ypt_shared");
    let only_api_key = dotenv_only_api_key();
    assert_eq!(select_token(&keys, &no_env(&keys), &only_api_key).unwrap(), "account_key");
}

fn dotenv_only_api_key() -> Vec<(String, String)> {
    dotenv(&[("YUKICODER_API_KEY", "account_key")])
}

#[test]
fn environment_wins_over_dotenv() {
    let dotenv = dotenv(&[("YUKICODER_TOKEN_13954", "ypt_from_dotenv")]);
    let keys = token_keys(13954);
    let env: Vec<Option<String>> = keys
        .iter()
        .map(|k| (k == "YUKICODER_TOKEN_13954").then(|| "ypt_from_env".to_string()))
        .collect();
    assert_eq!(select_token(&keys, &env, &dotenv).unwrap(), "ypt_from_env");
}

#[test]
fn empty_values_are_skipped() {
    let dotenv = dotenv(&[("YUKICODER_TOKEN_13954", "   "), ("YUKICODER_TOKEN", "ypt_shared")]);
    let keys = token_keys(13954);
    let env: Vec<Option<String>> = keys.iter().map(|_| Some(String::new())).collect();
    assert_eq!(select_token(&keys, &env, &dotenv).unwrap(), "ypt_shared");
}

#[test]
fn token_keys_are_tried_in_order() {
    assert_eq!(
        token_keys(7),
        vec![
            "YUKICODER_TOKEN_7".to_string(),
            "YUKICODER_TOKEN".to_string(),
            "YUKICODER_API_KEY".to_string()
        ]
    );
}

#[test]
fn a_broken_dotenv_does_not_hide_an_environment_token() {
    let keys = token_keys(1);
    let env: Vec<Option<String>> =
        keys.iter().map(|k| (k == "YUKICODER_TOKEN").then(|| " t ".to_string())).collect();
    let broken = Err(ConfigError::DotenvLine { line: 2 });
    let (token, warning) = choose_token(keys.clone(), &env, broken).unwrap();
    assert_eq!(token, "t");
    assert_eq!(warning, Some(ConfigError::DotenvLine { line: 2 }));
    let none: Vec<Option<String>> = keys.iter().map(|_| None).collect();
    assert_eq!(
        choose_token(keys.clone(), &none, Err(ConfigError::DotenvLine { line: 2 })).unwrap_err(),
        ConfigError::DotenvLine { line: 2 }
    );
    assert_eq!(
        choose_token(keys.clone(), &none, Ok(Vec::new())).unwrap_err(),
        ConfigError::NoToken { keys }
    );
}

#[test]
fn integers_parse_like_the_standard_library() {
    assert_eq!(parse_i64("13954"), Some(13954));
    assert_eq!(parse_i64("-7"), Some(-7));
    assert_eq!(parse_i64("+7"), Some(7));
    assert_eq!(parse_i64("9223372036854775807"), Some(i64::MAX));
    assert_eq!(parse_i64("-9223372036854775808"), Some(i64::MIN));
    assert_eq!(parse_i64("9223372036854775808"), None);
    assert_eq!(parse_i64(""), None);
    assert_eq!(parse_i64("-"), None);
    assert_eq!(parse_i64("1a"), None);
}

fn repo() -> Repo {
    Repo { root: "/repo".into(), config: Config::default() }
}

fn problem(id: i64, dir: &str) -> Problem {
    Problem { id, dir: dir.into(), sync: true }
}

#[test]
fn problems_are_found_by_the_id_in_the_file() {
    let repo = repo();
    let found = vec![problem(20000, "/repo/problems/abc001/a"), problem(13954, "/repo/problems/tutorial-dp")];
    let problems = repo.problems(&found).unwrap();
    assert_eq!(problems.iter().map(|p| p.id).collect::<Vec<_>>(), [13954, 20000]);
    assert!(problems[0].dir.ends_with("tutorial-dp"));
    assert!(problems[1].dir.ends_with("a"));
    assert_eq!(repo.problem_dir(&problems, 13954, false).unwrap(), problems[0].dir);
}

#[test]
fn directory_name_is_the_fallback_id() {
    assert_eq!(problem_id_for(None, Some("13954")), Ok(13954));
    assert_eq!(problem_id_for(Some(5), Some("13954")), Ok(5));
}

#[test]
fn missing_problem_id_is_an_error() {
    assert_eq!(problem_id_for(None, Some("no-id-here")), Err(ConfigError::MissingProblemId));
    assert_eq!(problem_id_for(None, None), Err(ConfigError::MissingProblemId));
}

#[test]
fn duplicate_problem_ids_are_rejected() {
    let found = vec![problem(13954, "a"), problem(1, "c"), problem(13954, "b")];
    assert_eq!(
        repo().problems(&found).unwrap_err(),
        ConfigError::Duplicate { id: 13954, first: "a".into(), second: "b".into() }
    );
}

#[test]
fn target_problems_needs_explicit_id_when_many() {
    let repo = repo();
    let problems = vec![problem(1, "a"), problem(2, "b")];
    assert!(repo.target_problems(None, false, &problems).is_err());
    assert_eq!(repo.target_problems(Some(2), false, &problems).unwrap(), vec![2]);
    assert_eq!(repo.target_problems(None, true, &problems).unwrap(), vec![1, 2]);
    assert!(
        repo.target_problems(Some(2), true, &problems).is_err(),
        "--all と ID の同時指定はどちらを意図したか分からない"
    );
}

#[test]
fn target_problems_uses_the_only_problem() {
    let problems = vec![problem(13954, "only")];
    assert_eq!(repo().target_problems(None, false, &problems).unwrap(), vec![13954]);
}

#[test]
fn unknown_problems_fall_back_to_the_default_directory() {
    let repo = repo();
    assert!(repo.problem_dir(&Vec::new(), 13954, false).unwrap().ends_with("problems/13954"));
    assert!(repo.target_problems(None, false, &Vec::new()).is_err());
}

#[test]
fn fallback_owned_by_another_problem_is_rejected() {
    let repo = repo();
    let problems = vec![problem(200, "/repo/problems/100")];
    assert!(repo.problem_dir(&problems, 100, true).is_err());
    assert!(repo.problem_dir(&problems, 200, true).unwrap().ends_with("100"));
}

#[test]
fn unsynced_problems_are_left_out_of_all() {
    let repo = repo();
    let problems = vec![problem(1, "a"), Problem { id: 2, dir: "b".into(), sync: false }, problem(3, "c")];
    assert_eq!(repo.target_problems(None, true, &problems).unwrap(), vec![1, 3]);
    assert_eq!(repo.target_problems(Some(2), false, &problems).unwrap(), vec![2]);
    assert_eq!(
        repo.target_problems(None, true, &Vec::new()).unwrap_err(),
        ConfigError::NoProblems { dir: "/repo/problems".into() }
    );
    assert_eq!(repo.target_problems(None, false, &problems).unwrap_err(), ConfigError::Ambiguous);
    assert_eq!(repo.target_problems(None, false, &Vec::new()).unwrap_err(), ConfigError::NoTarget);
}

#[test]
fn default_config_points_at_problems_and_the_public_api() {
    let config = Config::default();
    assert_eq!(config.problems_dir, "problems");
    assert_eq!(config.base_url, DEFAULT_BASE_URL);
    assert_eq!(repo().fallback_dir(7), "/repo/problems/7");
}

#[test]
fn problem_files_can_opt_out_of_all() {
    let p = problem_in("/repo/problems/13954".into(), Some("13954"), None, Some(false)).unwrap();
    assert_eq!(p, Problem { id: 13954, dir: "/repo/problems/13954".into(), sync: false });
    let q = problem_in("/repo/problems/dp".into(), Some("dp"), Some(5), None).unwrap();
    assert!(q.sync);
    assert_eq!(q.id, 5);
    assert_eq!(problem_in("x".into(), Some("dp"), None, Some(true)), Err(ConfigError::MissingProblemId));
}

#[test]
fn an_unreadable_dotenv_yields_to_the_environment() {
    let keys = token_keys(13954);
    let mut env: Vec<Option<String>> = keys.iter().map(|_| None).collect();
    assert_eq!(
        choose_token(keys.clone(), &env, Err(ConfigError::DotenvUnreadable)).unwrap_err(),
        ConfigError::DotenvUnreadable
    );
    env[1] = Some("t".to_string());
    let (token, warning) = choose_token(keys, &env, Err(ConfigError::DotenvUnreadable)).unwrap();
    assert_eq!(token, "t");
    assert_eq!(warning, Some(ConfigError::DotenvUnreadable));
}

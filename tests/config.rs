use jig_cli::commands::{auto_transition, browse_url};
use jig_cli::config::{
    cache_dir, config_dir, config_file, normalize_url, validate, workspace_config_file,
    Config, ConfigError, Credential, DecodeError, Invalid, RawConfig,
};
use jig_cli::tree::Tree;

fn table(entries: Vec<(&str, Tree)>) -> Tree {
    Tree::Table(entries.into_iter().map(|(k, v)| (k.to_string(), v)).collect())
}

fn s(v: &str) -> Tree {
    Tree::Str(v.to_string())
}

fn base_entries() -> Vec<(&'static str, Tree)> {
    vec![
        ("jira_url", s("jira.example.com/")),
        ("issue_query", s("assignee = currentUser()")),
        ("retry_query", s("project = X")),
    ]
}

fn raw(user_login: Option<&str>, api_token: Option<&str>, pat_token: Option<&str>) -> RawConfig {
    RawConfig {
        jira_url: "https://jira.example.com".to_string(),
        issue_query: "q".to_string(),
        retry_query: "r".to_string(),
        user_login: user_login.map(|v| v.to_string()),
        api_token: api_token.map(|v| v.to_string()),
        pat_token: pat_token.map(|v| v.to_string()),
        always_confirm_date: None,
        always_short_branch_names: None,
        max_query_results: None,
        enable_comment_prompts: None,
        one_transition_auto_move: None,
        inclusive_filters: None,
        timeout: None,
    }
}

#[test]
fn validation_exclusivity() {
    assert_eq!(validate(&raw(None, None, None)), Err(Invalid::NoCredential));
    assert_eq!(validate(&raw(None, Some("t"), None)), Err(Invalid::LoginRequired));
    assert_eq!(validate(&raw(Some("me"), None, None)), Err(Invalid::ApiTokenRequired));
    assert_eq!(validate(&raw(None, None, Some("p"))), Ok(()));
    assert_eq!(validate(&raw(Some("me"), Some("t"), None)), Ok(()));
    assert_eq!(validate(&raw(Some("me"), None, Some("p"))), Err(Invalid::ApiTokenRequired));
}

#[test]
fn invalid_messages() {
    assert_eq!(Invalid::NoCredential.message(), "Neither api_token nor pat_token specified");
    assert_eq!(
        Invalid::LoginRequired.message(),
        "'user_login' missing, required with api_token"
    );
    assert_eq!(
        Invalid::ApiTokenRequired.message(),
        "'api_token' missing, required with user_login"
    );
}

#[test]
fn url_normalization() {
    let once = normalize_url(&"jira.example.com/".to_string());
    assert_eq!(once, "https://jira.example.com");
    assert_eq!(normalize_url(&once), once);
    assert_eq!(normalize_url(&"http://x.org".to_string()), "http://x.org");
    assert_eq!(normalize_url(&"https://x.org/".to_string()), "https://x.org");
    assert_eq!(normalize_url(&"".to_string()), "https:/");
}

#[test]
fn defaults_are_injected() {
    let cfg = Config::from_record(raw(None, None, Some("p"))).unwrap();
    assert_eq!(cfg.jira_cfg.max_query_results, 50);
    assert_eq!(cfg.jira_cfg.timeout, 10);
    assert_eq!(cfg.jira_cfg.credential, Credential::PersonalAccessToken("p".to_string()));
}

#[test]
fn credential_api_token_with_login() {
    let cfg = Config::from_record(raw(Some("me"), Some("t"), None)).unwrap();
    assert_eq!(
        cfg.jira_cfg.credential,
        Credential::ApiToken { login: "me".to_string(), token: "t".to_string() }
    );
}

#[test]
fn layer_fallback_uses_workspace_alone() {
    let mut entries = base_entries();
    entries.push(("pat_token", s("p")));
    entries.push(("timeout", Tree::Int(30)));
    let cfg = Config::load(Err("missing".to_string()), Ok(table(entries))).unwrap();
    assert_eq!(cfg.jira_cfg.url, "https://jira.example.com");
    assert_eq!(cfg.jira_cfg.timeout, 30);
    assert_eq!(cfg.jira_cfg.max_query_results, 50);
    assert_eq!(cfg.issue_query, "assignee = currentUser()");
}

#[test]
fn both_layers_failed_reports_global_cause() {
    let r = Config::load(Err("global gone".to_string()), Err("local gone".to_string()));
    assert_eq!(r, Err(ConfigError::Load("global gone".to_string())));
}

#[test]
fn workspace_layer_wins() {
    let mut global = base_entries();
    global.push(("pat_token", s("p")));
    global.push(("max_query_results", Tree::Int(20)));
    let local = vec![("issue_query", s("local query")), ("inclusive_filters", Tree::Bool(true))];
    let cfg = Config::load(Ok(table(global)), Ok(table(local))).unwrap();
    assert_eq!(cfg.issue_query, "local query");
    assert_eq!(cfg.retry_query, "project = X");
    assert_eq!(cfg.inclusive_filters, Some(true));
    assert_eq!(cfg.jira_cfg.max_query_results, 20);
}

#[test]
fn invalid_record_is_refused() {
    let r = Config::load(Ok(table(base_entries())), Err("none".to_string()));
    assert_eq!(r, Err(ConfigError::Invalid(Invalid::NoCredential)));
}

#[test]
fn decode_rejects_unknown_field() {
    let mut entries = base_entries();
    entries.push(("colour", s("blue")));
    assert_eq!(
        RawConfig::decode(&table(entries)),
        Err(DecodeError::UnknownField("colour".to_string()))
    );
}

#[test]
fn decode_rejects_bad_field() {
    let mut entries = base_entries();
    entries.push(("timeout", s("soon")));
    assert_eq!(
        RawConfig::decode(&table(entries)),
        Err(DecodeError::BadField("timeout".to_string()))
    );
    let entries = vec![("jira_url", s("u")), ("issue_query", s("q"))];
    assert_eq!(
        RawConfig::decode(&table(entries)),
        Err(DecodeError::BadField("retry_query".to_string()))
    );
    let mut entries = base_entries();
    entries.push(("max_query_results", Tree::Int(-1)));
    assert_eq!(
        RawConfig::decode(&table(entries)),
        Err(DecodeError::BadField("max_query_results".to_string()))
    );
}

#[test]
fn decode_names_first_problem() {
    let entries = vec![
        ("issue_query", s("q")),
        ("retry_query", s("r")),
        ("timeout", s("soon")),
    ];
    assert_eq!(
        RawConfig::decode(&table(entries)),
        Err(DecodeError::BadField("jira_url".to_string()))
    );
    let mut entries = base_entries();
    entries.push(("zeta", Tree::Int(1)));
    entries.push(("alpha", Tree::Int(2)));
    assert_eq!(
        RawConfig::decode(&table(entries)),
        Err(DecodeError::UnknownField("zeta".to_string()))
    );
}

#[test]
fn decode_rejects_non_table() {
    assert_eq!(RawConfig::decode(&Tree::Int(1)), Err(DecodeError::NotATable));
}

#[test]
fn decode_reads_fields() {
    let mut entries = base_entries();
    entries.push(("user_login", s("me")));
    entries.push(("always_confirm_date", Tree::Bool(false)));
    entries.push(("max_query_results", Tree::Int(5)));
    let r = RawConfig::decode(&table(entries)).unwrap();
    assert_eq!(r.jira_url, "jira.example.com/");
    assert_eq!(r.user_login, Some("me".to_string()));
    assert_eq!(r.always_confirm_date, Some(false));
    assert_eq!(r.max_query_results, Some(5));
    assert_eq!(r.timeout, None);
}

#[test]
fn config_paths() {
    let base = "/home/u/.config".to_string();
    assert_eq!(config_dir(&base), "/home/u/.config/jig");
    assert_eq!(config_file(&base), "/home/u/.config/jig/config.toml");
    assert_eq!(config_file(&"/c/".to_string()), "/c/jig/config.toml");
    assert_eq!(cache_dir(&"/home/u/.cache".to_string()), "/home/u/.cache/jig");
    assert_eq!(workspace_config_file(&"/repo".to_string()), "/repo/.jig.toml");
}

#[test]
fn browse_address() {
    let url = browse_url(&"https://jira.example.com".to_string(), &"AB-12".to_string());
    assert_eq!(url, "https://jira.example.com/browse/AB-12");
}

#[test]
fn transition_taken_without_asking() {
    assert!(auto_transition(1, Some(true)));
    assert!(!auto_transition(1, None));
    assert!(!auto_transition(2, Some(true)));
    assert!(!auto_transition(0, Some(true)));
}

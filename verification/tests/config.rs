use adroit::adr::Status;
use adroit::config::{upsert_env_text, default_dir, env_var_for, parse_remote_url, resolve_dir, Config, DateSource, Layout, Provider, RelinkScope};
use adroit::format::Format;
use std::path::{Path, PathBuf};

fn cfg_dir(d: &str) -> Config {
    Config { dir: Some(d.to_string()), ..Config::default() }
}

#[test]
fn default_config_has_no_dir() {
    let config = Config::default();
    assert!(config.dir.is_none());
    assert!(config.editor.is_none());
}

#[test]
fn resolve_cli_takes_precedence() {
    let config = cfg_dir("from-config");
    let result = resolve_dir(Some("from-cli"), &config);
    assert_eq!(PathBuf::from(result), PathBuf::from("from-cli"));
}

#[test]
fn resolve_config_relative_joins_data_dir() {
    let result = resolve_dir(None, &cfg_dir("my-project"));
    assert_eq!(PathBuf::from(&result), Path::new(&default_dir()).join("my-project"));
}

#[test]
fn resolve_config_nested_relative() {
    let result = resolve_dir(None, &cfg_dir("org/team/decisions"));
    assert_eq!(PathBuf::from(&result), Path::new(&default_dir()).join("org/team/decisions"));
}

#[test]
fn resolve_config_absolute_passes_through() {
    let result = resolve_dir(None, &cfg_dir("/opt/adrs"));
    assert_eq!(PathBuf::from(result), PathBuf::from("/opt/adrs"));
}

#[test]
fn resolve_config_tilde_expands() {
    let result = resolve_dir(None, &cfg_dir("~/my-adrs"));
    let p = PathBuf::from(&result);
    assert!(p.is_absolute());
    assert!(p.ends_with("my-adrs"));
    assert!(!result.contains('~'));
}

#[test]
fn resolve_cli_relative_stays_relative() {
    let result = resolve_dir(Some("local-adrs"), &Config::default());
    assert_eq!(PathBuf::from(result), PathBuf::from("local-adrs"));
}

#[test]
fn resolve_cli_tilde_expands() {
    let result = resolve_dir(Some("~/my-adrs"), &Config::default());
    let p = PathBuf::from(&result);
    assert!(p.is_absolute());
    assert!(p.ends_with("my-adrs"));
    assert!(!result.contains('~'));
}

#[test]
fn resolve_falls_back_to_xdg_data_dir() {
    let result = resolve_dir(None, &Config::default());
    assert_eq!(result, default_dir());
    assert!(Path::new(&result).is_absolute());
}

#[test]
fn default_dir_ends_with_adroit() {
    let dir = PathBuf::from(default_dir());
    assert!(dir.ends_with("adroit"));
    assert!(dir.is_absolute());
}

#[test]
fn defaults_are_markdown_by_status() {
    let config = Config::default();
    assert_eq!(config.format, Format::Markdown);
    assert_eq!(config.layout, Layout::ByStatus);
    assert_eq!(config.default_template, "madr");
    assert_eq!(config.default_status, Status::Proposed);
    assert!(config.open_on_new);
}

#[test]
fn dir_for_status_defaults_to_lowercase() {
    let config = Config::default();
    assert_eq!(config.dir_for(Status::Proposed), "proposed");
    assert_eq!(config.dir_for(Status::Superseded), "superseded");
    assert_eq!(config.dir_for(Status::Rejected), "rejected");
}

#[test]
fn dir_for_honors_overrides() {
    let config = Config { status_dirs: vec![(Status::Accepted, "done".to_string())], ..Config::default() };
    assert_eq!(config.dir_for(Status::Accepted), "done");
    assert_eq!(config.dir_for(Status::Deprecated), "deprecated");
}

#[test]
fn review_defaults() {
    let config = Config::default();
    assert_eq!(config.review_days, 3);
    assert_eq!(config.review_quorum, 3);
    assert_eq!(config.review_overdue_days, 30);
}

#[test]
fn date_source_defaults_to_auto() {
    assert_eq!(Config::default().date_source, DateSource::Auto);
}

#[test]
fn config_get_set_str_round_trip_and_validation() {
    let mut c = Config::default();
    assert_eq!(c.get_str("layout").as_deref(), Some("by_status"));
    assert_eq!(c.get_str("date_source").as_deref(), Some("auto"));
    assert_eq!(c.get_str("relink_scope").as_deref(), Some("all"));
    c.set_str("relink_scope", "self").unwrap();
    assert_eq!(c.get_str("relink_scope").as_deref(), Some("self"));
    c.set_str("relink_scope", "none").unwrap();
    assert_eq!(c.get_str("relink_scope").as_deref(), Some("none"));
    assert_eq!(c.get_str("forge.provider").as_deref(), Some("none"));
    assert_eq!(c.get_str("forge.branch_prefix").as_deref(), Some("adr/"));
    assert_eq!(c.get_str("forge.repo"), None);
    c.set_str("forge.provider", "github").unwrap();
    c.set_str("forge.repo", "como-technologies/adroit").unwrap();
    c.set_str("forge.tracker", "jira").unwrap();
    assert_eq!(c.get_str("forge.provider").as_deref(), Some("github"));
    assert_eq!(c.get_str("forge.repo").as_deref(), Some("como-technologies/adroit"));
    assert_eq!(c.get_str("forge.tracker").as_deref(), Some("jira"));
    assert!(c.set_str("forge.provider", "bitbucket").is_err());
    assert!(c.set_str("forge.token", "secret").is_err());
    c.set_str("layout", "flat").unwrap();
    c.set_str("review_overdue_days", "45").unwrap();
    assert_eq!(c.get_str("layout").as_deref(), Some("flat"));
    assert_eq!(c.get_str("review_overdue_days").as_deref(), Some("45"));
    assert!(c.set_str("layout", "sideways").is_err());
    assert!(c.set_str("relink_scope", "partial").is_err());
    assert!(c.set_str("review_days", "lots").is_err());
    assert!(c.set_str("bogus", "x").is_err());
    assert_eq!(c.get_str("bogus"), None);
    assert_eq!(c.get_str("editor"), None);
}

#[test]
fn set_str_error_messages_and_unchanged_config() {
    let mut c = Config::default();
    assert_eq!(c.set_str("layout", "sideways"), Err("invalid layout (by_status|by_category|flat) `sideways`".to_string()));
    assert_eq!(c.set_str("bogus", "x"), Err("unknown config key `bogus`".to_string()));
    assert_eq!(c.layout, Layout::ByStatus);
    assert!(c.forge.is_none());
    assert!(c.set_str("forge.tracker", "nope").is_err());
    assert!(c.forge.is_none(), "a failed forge set must not create the block");
    c.set_str("open_on_new", "false").unwrap();
    assert_eq!(c.get_str("open_on_new").as_deref(), Some("false"));
    assert!(c.set_str("open_on_new", "FALSE").is_err());
    c.set_str("default_status", "ACCEPTED").unwrap();
    assert_eq!(c.get_str("default_status").as_deref(), Some("Accepted"));
    assert_eq!(c.relink_scope, RelinkScope::All);
    c.set_str("relink_scope", "Self").unwrap();
    assert_eq!(c.relink_scope, RelinkScope::SelfOnly);
    c.set_str("dir", "~/x").unwrap();
    assert_eq!(c.get_str("dir").as_deref(), Some("~/x"));
}

#[test]
fn parse_remote_url_handles_common_forms() {
    let gh = (Provider::Github, "owner/repo".to_string(), None);
    assert_eq!(parse_remote_url("git@github.com:owner/repo.git"), Some(gh.clone()));
    assert_eq!(parse_remote_url("https://github.com/owner/repo.git"), Some(gh.clone()));
    assert_eq!(parse_remote_url("https://github.com/owner/repo"), Some(gh));
    assert_eq!(parse_remote_url("git@gitlab.com:grp/sub/proj.git"), Some((Provider::Gitlab, "grp/sub/proj".to_string(), None)));
    assert_eq!(
        parse_remote_url("https://gitlab.example.com/grp/proj.git"),
        Some((Provider::Gitlab, "grp/proj".to_string(), Some("gitlab.example.com".to_string())))
    );
    assert_eq!(parse_remote_url("https://bitbucket.org/o/r.git"), None);
    assert_eq!(parse_remote_url("ssh://git@github.com/owner/repo"), Some((Provider::Github, "owner/repo".to_string(), None)));
}

#[test]
fn env_var_mapping() {
    assert_eq!(env_var_for("layout"), Some("ADROIT_LAYOUT"));
    assert_eq!(env_var_for("date_source"), Some("ADROIT_DATE_SOURCE"));
    assert_eq!(env_var_for("relink_scope"), Some("ADROIT_RELINK_SCOPE"));
    assert_eq!(env_var_for("review_overdue_days"), Some("ADROIT_REVIEW_OVERDUE_DAYS"));
    assert_eq!(env_var_for("editor"), None);
}

#[test]
fn upsert_env_replaces_or_appends_preserving_other_lines() {
    let text = "# keep me\nADROIT_DIR=/x\n";
    let text = upsert_env_text(text, "ADROIT_LAYOUT", "flat"); // append
    let out = upsert_env_text(&text, "ADROIT_DIR", "/y"); // replace
    assert!(out.contains("ADROIT_DIR=/y"));
    assert!(!out.contains("ADROIT_DIR=/x"));
    assert!(out.contains("ADROIT_LAYOUT=flat"));
    assert!(out.contains("# keep me"));
    assert_eq!(out, "# keep me\nADROIT_DIR=/y\nADROIT_LAYOUT=flat\n");
}

#[test]
fn upsert_env_replaces_only_the_first_active_line() {
    let out = upsert_env_text("#ADROIT_DIR=/c\n  ADROIT_DIR=/a\nADROIT_DIR=/b", "ADROIT_DIR", "/z");
    assert_eq!(out, "#ADROIT_DIR=/c\nADROIT_DIR=/z\nADROIT_DIR=/b\n");
    assert_eq!(upsert_env_text("", "K", "v"), "K=v\n");
}

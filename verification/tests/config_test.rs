use swal_agent::config::{Config, PartialConfig};

#[test]
fn test_config_defaults() {
    let config = Config::default();
    assert_eq!(config.model, "mock");
    assert_eq!(config.provider, "mock");
    assert_eq!(config.session_dir.as_str(), "data/sessions");
    assert_eq!(config.max_steps, 10);
}

#[test]
fn config_file_complete_overrides_everything() {
    let partial = PartialConfig {
        model: Some("gpt-4".to_string()),
        provider: Some("openai".to_string()),
        session_dir: Some("custom/path".to_string()),
        max_steps: Some(25),
    };
    let config = Config::default().overlay(partial);
    assert_eq!(config.model, "gpt-4");
    assert_eq!(config.provider, "openai");
    assert_eq!(config.session_dir, "custom/path");
    assert_eq!(config.max_steps, 25);
}

#[test]
fn config_file_partial_keeps_defaults() {
    let partial = PartialConfig { model: Some("large-3".to_string()), ..Default::default() };
    let config = Config::default().overlay(partial);
    assert_eq!(config.model, "large-3");
    assert_eq!(config.provider, "mock");
    assert_eq!(config.session_dir, "data/sessions");
    assert_eq!(config.max_steps, 10);
}

#[test]
fn config_precedence_file_over_env_over_default() {
    let env = Config::from_env_values(
        Some("env-model".to_string()),
        Some("env-provider".to_string()),
        None,
        Some("42".to_string()),
    );
    let partial = PartialConfig { model: Some("file-model".to_string()), ..Default::default() };
    let config = env.overlay(partial);
    assert_eq!(config.model, "file-model");
    assert_eq!(config.provider, "env-provider");
    assert_eq!(config.max_steps, 42);
    assert_eq!(config.session_dir, "data/sessions");
}

#[test]
fn config_bad_step_count_is_ignored() {
    let c = Config::from_env_values(None, None, Some("x".to_string()), Some("many".to_string()));
    assert_eq!(c.max_steps, 10);
    assert_eq!(c.session_dir, "x");
    let c = Config::from_env_values(None, None, None, Some("+7".to_string()));
    assert_eq!(c.max_steps, 7);
    let c = Config::from_env_values(None, None, None, Some("".to_string()));
    assert_eq!(c.max_steps, 10);
}

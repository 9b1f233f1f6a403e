use ogma_core::config::keychain::{self, KeychainWrite};
use ogma_core::config::secrets;
use ogma_core::config::{Config, DEFAULT_WHISPER_MODEL};

fn cfg_with_secrets(openai: &str, anthropic: &str, notion: &str) -> Config {
    Config {
        openai_api_key: openai.to_string(),
        anthropic_api_key: anthropic.to_string(),
        notion_api_key: notion.to_string(),
        ..Config::default()
    }
}

#[test]
fn hydrate_keeps_existing_plaintext_secret() {
    let mut cfg = cfg_with_secrets("plaintext-openai", "plaintext-anthropic", "plaintext-notion");
    secrets::hydrate(&mut cfg);
    assert_eq!(cfg.openai_api_key, "plaintext-openai");
    assert_eq!(cfg.anthropic_api_key, "plaintext-anthropic");
    assert_eq!(cfg.notion_api_key, "plaintext-notion");
}

#[test]
fn fallback_keeps_secrets_in_config() {
    assert!(!secrets::ENABLED);
    let cfg = cfg_with_secrets("sk-o", "sk-a", "sk-n");
    let on_disk = secrets::externalize(&cfg).unwrap();
    assert_eq!(on_disk.openai_api_key, "sk-o");
    assert_eq!(on_disk.anthropic_api_key, "sk-a");
    assert_eq!(on_disk.notion_api_key, "sk-n");
}

#[test]
fn config_path_joins_data_dir() {
    assert_eq!(Config::config_path("/data/ogma"), "/data/ogma/config.json");
    assert_eq!(Config::config_path("/data/ogma/"), "/data/ogma/config.json");
    assert_eq!(Config::config_path(""), "config.json");
}

#[test]
fn with_defaults_fills_only_empty_models() {
    let cfg = Config::with_defaults(Config::default(), "notes-default");
    assert_eq!(cfg.notes_model, "notes-default");
    assert_eq!(cfg.whisper_model, DEFAULT_WHISPER_MODEL);
    assert_eq!(cfg.whisper_model, "whisper-1");
    let custom = Config {
        notes_model: "my-model".into(),
        language: "es".into(),
        ..Config::default()
    };
    let cfg = Config::with_defaults(custom, "notes-default");
    assert_eq!(cfg.notes_model, "my-model");
    assert_eq!(cfg.whisper_model, "whisper-1");
    assert_eq!(cfg.language, "es");
}

#[test]
fn default_config_is_blank() {
    let cfg = Config::default();
    assert!(cfg.openai_api_key.is_empty());
    assert!(cfg.markdown_dir.is_empty());
    assert!(!cfg.apple_notes_enabled);
}

#[test]
fn keychain_externalize_blanks_stored_secrets() {
    let cfg = cfg_with_secrets("sk-openai", "sk-anthropic", "sk-notion");
    let on_disk = keychain::externalize(&cfg, true, true, true);
    assert!(on_disk.openai_api_key.is_empty());
    assert!(on_disk.anthropic_api_key.is_empty());
    assert!(on_disk.notion_api_key.is_empty());
    // A secret the keystore refused stays in the file.
    let on_disk = keychain::externalize(&cfg, true, false, true);
    assert!(on_disk.openai_api_key.is_empty());
    assert_eq!(on_disk.anthropic_api_key, "sk-anthropic");
    assert!(on_disk.notion_api_key.is_empty());
}

#[test]
fn keychain_put_outcomes() {
    assert_eq!(keychain::put_outcome("openai", false, KeychainWrite::Done).unwrap(), true);
    assert_eq!(keychain::put_outcome("openai", false, KeychainWrite::Unavailable).unwrap(), false);
    assert_eq!(keychain::put_outcome("openai", true, KeychainWrite::Unavailable).unwrap(), true);
    assert_eq!(keychain::put_outcome("openai", true, KeychainWrite::NoEntry).unwrap(), true);
    assert_eq!(keychain::put_outcome("openai", false, KeychainWrite::Failed("locked".into())).unwrap(), false);
    let err = keychain::put_outcome("openai", true, KeychainWrite::Failed("locked".into())).unwrap_err();
    assert_eq!(err.message(), "config error: failed to remove openai from the keychain: locked");
}

#[test]
fn keychain_hydrate_fills_only_blank_secrets() {
    let mut cfg = cfg_with_secrets("plaintext-openai", "", "");
    assert!(!keychain::needs_keychain_read(&cfg.openai_api_key));
    assert!(keychain::needs_keychain_read(&cfg.anthropic_api_key));
    keychain::hydrate(&mut cfg, Some("kc-openai".into()), Some("kc-anthropic".into()), None);
    assert_eq!(cfg.openai_api_key, "plaintext-openai");
    assert_eq!(cfg.anthropic_api_key, "kc-anthropic");
    assert_eq!(cfg.notion_api_key, "");
}

#[test]
fn no_migration_without_a_keystore() {
    assert!(!secrets::should_migrate(&cfg_with_secrets("sk-o", "", "")));
    assert!(!secrets::should_migrate(&Config::default()));
}

#[test]
fn keystore_migration_needs_a_plaintext_secret() {
    assert!(keychain::should_migrate(&cfg_with_secrets("", "sk-a", "")));
    assert!(!keychain::should_migrate(&Config::default()));
}

use zettel_core::config::{ConfigManager, ZettelConfig};

#[test]
fn test_default_config_is_valid() {
    let config = ZettelConfig::default();
    assert!(ConfigManager::validate_config(&config).is_ok());
}

#[test]
fn test_invalid_match_rule_validation() {
    let mut config = ZettelConfig::default();
    config.id.match_rule = "invalid".to_string();
    assert!(ConfigManager::validate_config(&config).is_err());
}

#[test]
fn test_empty_separator_with_separator_rule() {
    let mut config = ZettelConfig::default();
    config.id.match_rule = "separator".to_string();
    config.id.separator = "".to_string();
    assert!(ConfigManager::validate_config(&config).is_err());
}

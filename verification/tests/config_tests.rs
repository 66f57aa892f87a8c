//! Configuration values and file discovery.
use klassenbuch::config::{
    config_exists, AccountConfig, CompanyConfig, Config, GlobalConfig, OptionsSettings,
    SignatureConfig, WebsiteConfig,
};

#[test]
fn config_exists_is_the_any_fold() {
    assert!(!config_exists(&vec![]));
    assert!(!config_exists(&vec![false, false]));
    assert!(config_exists(&vec![false, true, false]));
    assert!(config_exists(&vec![true]));
}

#[test]
fn getters_return_the_decoded_values() {
    let config = Config::new(GlobalConfig {
        account: AccountConfig { user_name: "user".to_string(), password: "pw".to_string() },
        company: CompanyConfig {
            educator_name: "E. Ducator".to_string(),
            location: "Musterstadt".to_string(),
        },
        signature: SignatureConfig {
            signature: "M. Muster".to_string(),
            font_name: "Brush Script".to_string(),
            font_size: 20,
        },
        website: WebsiteConfig { base_url: "https://example.test".to_string() },
        options: OptionsSettings { test_mode: true },
    });
    assert_eq!(config.get_user_name(), "user");
    assert_eq!(config.get_password(), "pw");
    assert_eq!(config.get_educator_name(), "E. Ducator");
    assert_eq!(config.get_location(), "Musterstadt");
    assert_eq!(config.get_signature(), "M. Muster");
    assert_eq!(config.get_font_name(), "Brush Script");
    assert_eq!(config.get_font_size(), 20);
    assert_eq!(config.get_base_url(), "https://example.test");
    assert!(config.get_test_mode());
}

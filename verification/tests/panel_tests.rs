use essentia_payment_plugin::errors::{ConfigurationError, PaymentError};
use essentia_payment_plugin::flexforge::{FlexForgePaymentConfig, PanelFieldKind};
use essentia_payment_plugin::PaymentFlexForgeIntegration;

fn refused(kind: ConfigurationError) -> Result<(), PaymentError> {
    Err(PaymentError::Configuration(kind))
}

#[test]
fn panel_starts_with_defaults() {
    let panel = PaymentFlexForgeIntegration::default();
    let config = panel.config();
    assert!(config.lightning_enabled);
    assert!(config.micropayments_enabled);
    assert_eq!(config.default_network, "mainnet");
    assert_eq!(config.min_channel_capacity, 100_000);
    assert!(!config.auto_channel);
    assert!(config.pqc_channels);
    assert_eq!(panel.panel_id(), "payment_config");
    assert_eq!(panel.display_name(), "Payments");
}

#[test]
fn panel_applies_changes_by_key() {
    let mut panel = PaymentFlexForgeIntegration::new();
    assert_eq!(panel.on_config_changed("lightning_enabled", "false"), Ok(()));
    assert_eq!(panel.on_config_changed("micropayments_enabled", "false"), Ok(()));
    assert_eq!(panel.on_config_changed("default_network", "regtest"), Ok(()));
    assert_eq!(panel.on_config_changed("min_channel_capacity", "25000"), Ok(()));
    assert_eq!(panel.on_config_changed("auto_channel", "true"), Ok(()));
    assert_eq!(panel.on_config_changed("pqc_channels", "false"), Ok(()));
    let config = panel.config();
    assert!(!config.lightning_enabled);
    assert!(!config.micropayments_enabled);
    assert_eq!(config.default_network, "regtest");
    assert_eq!(config.min_channel_capacity, 25_000);
    assert!(config.auto_channel);
    assert!(!config.pqc_channels);
}

#[test]
fn panel_refuses_unknown_keys_and_bad_values() {
    let mut panel = PaymentFlexForgeIntegration::new();
    assert_eq!(panel.on_config_changed("colour", "blue"), refused(ConfigurationError::UnknownKey));
    assert_eq!(panel.on_config_changed("", ""), refused(ConfigurationError::UnknownKey));
    assert_eq!(panel.on_config_changed("auto_channel", "yes"), refused(ConfigurationError::InvalidChoice));
    assert_eq!(panel.on_config_changed("min_channel_capacity", "lots"), refused(ConfigurationError::InvalidNumber));
    assert_eq!(panel.on_config_changed("min_channel_capacity", ""), refused(ConfigurationError::InvalidNumber));
    assert_eq!(panel.on_config_changed("min_channel_capacity", "-5"), refused(ConfigurationError::InvalidNumber));
    assert_eq!(panel.on_config_changed("min_channel_capacity", "0"), refused(ConfigurationError::InvalidNumber));
    assert_eq!(
        panel.on_config_changed("min_channel_capacity", "18446744073709551616"),
        refused(ConfigurationError::InvalidNumber)
    );
    let config = panel.config();
    assert_eq!(config.min_channel_capacity, 100_000);
    assert_eq!(config.default_network, "mainnet");
    assert!(!config.auto_channel);
}

#[test]
fn panel_takes_every_capacity_that_is_positive() {
    let mut panel = PaymentFlexForgeIntegration::new();
    assert_eq!(panel.on_config_changed("min_channel_capacity", "1"), Ok(()));
    assert_eq!(panel.config().min_channel_capacity, 1);
    assert_eq!(panel.on_config_changed("min_channel_capacity", "9999"), Ok(()));
    assert_eq!(panel.config().min_channel_capacity, 9_999);
    assert_eq!(panel.on_config_changed("min_channel_capacity", "10000001"), Ok(()));
    assert_eq!(panel.config().min_channel_capacity, 10_000_001);
    assert_eq!(panel.on_config_changed("min_channel_capacity", "18446744073709551615"), Ok(()));
    assert_eq!(panel.config().min_channel_capacity, u64::MAX);
}

#[test]
fn panel_takes_any_network_name() {
    let mut panel = PaymentFlexForgeIntegration::new();
    assert_eq!(panel.network_choices(), vec!["mainnet", "testnet", "regtest"]);
    assert_eq!(panel.on_config_changed("default_network", "testnet"), Ok(()));
    assert_eq!(panel.config().default_network, "testnet");
    assert_eq!(panel.on_config_changed("default_network", "signet"), Ok(()));
    assert_eq!(panel.config().default_network, "signet");
    assert_eq!(panel.on_config_changed("default_network", ""), Ok(()));
    assert_eq!(panel.config().default_network, "");
}

#[test]
fn panel_round_trips_its_configuration() {
    let mut panel = PaymentFlexForgeIntegration::new();
    panel.on_config_changed("default_network", "testnet").unwrap();
    panel.on_config_changed("min_channel_capacity", "54321").unwrap();
    panel.on_config_changed("auto_channel", "true").unwrap();
    let entries = panel.get_current_config();
    let expected: Vec<(String, String)> = [
        ("lightning_enabled", "true"),
        ("micropayments_enabled", "true"),
        ("default_network", "testnet"),
        ("min_channel_capacity", "54321"),
        ("auto_channel", "true"),
        ("pqc_channels", "true"),
    ]
    .iter()
    .map(|(k, v)| (k.to_string(), v.to_string()))
    .collect();
    assert_eq!(entries, expected);
    let mut other = PaymentFlexForgeIntegration::new();
    assert_eq!(other.apply_config(&entries), Ok(()));
    assert_eq!(other.get_current_config(), entries);
    other.reset_to_defaults();
    assert_eq!(other.config().default_network, "mainnet");
    assert_eq!(other.config().min_channel_capacity, 100_000);
}

#[test]
fn apply_config_applies_all_entries_or_none() {
    let mut panel = PaymentFlexForgeIntegration::new();
    let entries = vec![
        ("auto_channel".to_string(), "true".to_string()),
        ("nonsense".to_string(), "1".to_string()),
        ("pqc_channels".to_string(), "false".to_string()),
    ];
    assert_eq!(panel.apply_config(&entries), refused(ConfigurationError::UnknownKey));
    let config = panel.config();
    assert!(!config.auto_channel);
    assert!(config.pqc_channels);
    let entries = vec![
        ("default_network".to_string(), "regtest".to_string()),
        ("min_channel_capacity".to_string(), "0".to_string()),
    ];
    assert_eq!(panel.apply_config(&entries), refused(ConfigurationError::InvalidNumber));
    assert_eq!(panel.config().default_network, "mainnet");
    assert_eq!(panel.config().min_channel_capacity, 100_000);
    let entries = vec![
        ("auto_channel".to_string(), "true".to_string()),
        ("min_channel_capacity".to_string(), "5".to_string()),
        ("auto_channel".to_string(), "false".to_string()),
        ("min_channel_capacity".to_string(), "7".to_string()),
    ];
    assert_eq!(panel.apply_config(&entries), Ok(()));
    assert!(!panel.config().auto_channel);
    assert_eq!(panel.config().min_channel_capacity, 7);
    assert_eq!(panel.apply_config(&[]), Ok(()));
}

#[test]
fn set_config_replaces_the_configuration() {
    let mut panel = PaymentFlexForgeIntegration::new();
    panel.set_config(FlexForgePaymentConfig {
        lightning_enabled: false,
        micropayments_enabled: false,
        default_network: "regtest".to_string(),
        min_channel_capacity: 12_345,
        auto_channel: true,
        pqc_channels: false,
    });
    let config = panel.config();
    assert!(!config.lightning_enabled);
    assert_eq!(config.default_network, "regtest");
    assert_eq!(config.min_channel_capacity, 12_345);
}

#[test]
fn schema_lists_the_fields() {
    let fields = PaymentFlexForgeIntegration::new().config_schema();
    let keys: Vec<&str> = fields.iter().map(|f| f.key).collect();
    assert_eq!(
        keys,
        vec![
            "lightning_enabled",
            "micropayments_enabled",
            "default_network",
            "min_channel_capacity",
            "auto_channel",
            "pqc_channels"
        ]
    );
    assert_eq!(fields[0].kind, PanelFieldKind::Toggle { on_by_default: true });
    assert_eq!(fields[2].kind, PanelFieldKind::Network);
    assert_eq!(
        fields[3].kind,
        PanelFieldKind::Number { default_value: 100_000, min: 10_000, max: 10_000_000 }
    );
    assert_eq!(fields[3].label, "Min Channel (sats)");
    assert_eq!(fields[4].kind, PanelFieldKind::Toggle { on_by_default: false });
}

#[test]
fn first_refused_points_at_the_entry_that_fails() {
    let mut panel = PaymentFlexForgeIntegration::new();
    let entries = vec![
        ("auto_channel".to_string(), "true".to_string()),
        ("min_channel_capacity".to_string(), "12".to_string()),
        ("nonsense".to_string(), "1".to_string()),
        ("pqc_channels".to_string(), "maybe".to_string()),
    ];
    assert_eq!(panel.first_refused(&entries), Some(2));
    assert_eq!(panel.first_refused(&entries[..2]), None);
    assert_eq!(panel.first_refused(&entries[3..]), Some(0));
    assert_eq!(panel.first_refused(&[]), None);
    assert_eq!(panel.apply_config(&entries), refused(ConfigurationError::UnknownKey));
    assert_eq!(panel.config().min_channel_capacity, 100_000);
}

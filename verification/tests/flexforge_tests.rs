use essentia_payment_plugin::PaymentFlexForgeIntegration;

#[test]
fn test_default_config() {
    let integration = PaymentFlexForgeIntegration::new();
    let config = integration.config();
    assert!(config.lightning_enabled);
    assert!(config.pqc_channels);
}

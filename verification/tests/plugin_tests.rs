use essentia_payment_plugin::{PaymentConfig, PaymentPlugin};

#[test]
fn plugin_test_plugin_creation() {
    let plugin = PaymentPlugin::default();
    assert!(plugin.config().max_channel_capacity > 0);
}

#[test]
fn test_create_invoice() {
    let mut plugin = PaymentPlugin::default();
    let invoice = plugin.create_invoice(Some(1000), "Test payment");
    assert!(invoice.is_ok());
}

#[test]
fn test_initial_balance() {
    let plugin = PaymentPlugin::default();
    assert_eq!(plugin.spendable_balance().satoshis, 0);
}

#[test]
fn lib_test_plugin_creation() {
    let config = PaymentConfig::default();
    assert!(config.max_channel_capacity > 0);
}

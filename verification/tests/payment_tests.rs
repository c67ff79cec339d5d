//! Payment Plugin Tests

use essentia_payment_plugin::{LightningNodeImpl, PaymentAmount, PaymentConfig, PaymentPlugin, SubscriptionTier};

#[test]
fn test_payment_amount_conversion() {
    let amount = PaymentAmount::from_satoshis(1000);
    assert_eq!(amount.satoshis, 1000);
    assert_eq!(amount.as_millisatoshis(), 1_000_000);
}

#[test]
fn test_lightning_invoice_creation() {
    let node = LightningNodeImpl::new("TestNode".to_string());
    let node_info = node.get_node_info();
    assert_eq!(node_info.alias, "TestNode");
}

#[test]
fn test_subscription_tier_features() {
    let free_features = SubscriptionTier::Free.limits();
    assert_eq!(free_features.ai_operations_per_month, 10);
    assert_eq!(free_features.private_repos, 0);

    let pro_features = SubscriptionTier::Pro.limits();
    assert_eq!(pro_features.ai_operations_per_month, 1000);
    assert!(pro_features.priority_seeding);
}

#[test]
fn every_tier_has_its_limits() {
    let free = SubscriptionTier::Free.limits();
    assert!(!free.priority_seeding && !free.sla_guarantee);
    assert_eq!(free.max_repo_size_gb, 1);
    let pro = SubscriptionTier::Pro.limits();
    assert_eq!(pro.private_repos, 10);
    assert!(!pro.sla_guarantee);
    assert_eq!(pro.max_repo_size_gb, 10);
    let enterprise = SubscriptionTier::Enterprise.limits();
    assert_eq!(enterprise.ai_operations_per_month, u32::MAX);
    assert_eq!(enterprise.private_repos, u32::MAX);
    assert!(enterprise.priority_seeding && enterprise.sla_guarantee);
    assert_eq!(enterprise.max_repo_size_gb, 100);
}

#[test]
fn test_subscription_pricing() {
    assert_eq!(SubscriptionTier::Free.monthly_price_sats(), 0);
    assert_eq!(SubscriptionTier::Pro.monthly_price_sats(), 10_000);
    assert_eq!(SubscriptionTier::Enterprise.monthly_price_sats(), 100_000);
}

#[test]
fn test_payment_plugin_creation() {
    let config = PaymentConfig::default();
    let _plugin = PaymentPlugin::new(config);
    // Just check that it creates successfully
}

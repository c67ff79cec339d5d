use essentia_payment_plugin::errors::{ChannelError, ConfigurationError, InvoiceError, PaymentError};
use essentia_payment_plugin::{
    ChannelState, LightningNodeImpl, PaymentAmount, PaymentConfig, PaymentHash, PaymentPlugin,
    PaymentProcessor, PaymentStatus, Satoshis,
};

fn key(tag: u8) -> [u8; 33] {
    let mut k = [tag; 33];
    k[0] = 2;
    k
}

#[test]
fn node_has_the_demo_key_and_colour() {
    let node = LightningNodeImpl::new("TestNode".to_string());
    let info = node.get_node_info();
    assert_eq!(info.alias, "TestNode");
    assert_eq!(info.color, [0x49, 0x68, 0xad]);
    assert_eq!(info.pubkey[0], 0x02);
    assert_eq!(info.pubkey[1], 7);
    assert_eq!(info.pubkey[2], 14);
    assert_eq!(info.pubkey[32], 224);
    assert_eq!(info.pubkey[37 - 5], ((32 * 7) % 256) as u8);
    assert_eq!(node.total_balance(), 0);
}

#[test]
fn node_invoice_has_the_short_encoding() {
    let mut node = LightningNodeImpl::new("n".to_string());
    let mut hash = [0u8; 32];
    for (i, byte) in hash.iter_mut().enumerate() {
        *byte = i as u8 + 0xa0;
    }
    let invoice = node.create_invoice_at(2500, "beans", 600, PaymentHash::new(hash), 1_000).unwrap();
    assert_eq!(invoice.bolt11, "lnbc2500n1a0a1a2a3a4a5a6a7a8a9aaabacadaeaf");
    assert_eq!(invoice.amount_sats, Some(2500));
    assert_eq!(invoice.description, "beans");
    assert_eq!(invoice.expiry, 1_600);
    assert_eq!(invoice.payment_hash.as_bytes(), &hash);
    assert_eq!(node.check_invoice(&PaymentHash::new(hash)), Ok(PaymentStatus::Succeeded));
    assert_eq!(
        node.check_invoice(&PaymentHash::new([0u8; 32])),
        Err(PaymentError::Invoice(InvoiceError::UnknownPaymentHash))
    );
    assert_eq!(
        node.create_invoice_at(1, "again", 600, PaymentHash::new(hash), 1_000).unwrap_err(),
        PaymentError::Invoice(InvoiceError::DuplicatePaymentHash)
    );
    assert_eq!(
        node.create_invoice_at(1, "", 600, PaymentHash::new([1u8; 32]), 1_000).unwrap_err(),
        PaymentError::Invoice(InvoiceError::EmptyDescription)
    );
    assert_eq!(
        node.create_invoice_at(1, "late", 2, PaymentHash::new([1u8; 32]), u64::MAX - 1).unwrap_err(),
        PaymentError::Invoice(InvoiceError::ExpiryOutOfRange)
    );
}

#[test]
fn node_creates_invoices_with_fresh_hashes() {
    let mut node = LightningNodeImpl::new("n".to_string());
    let a = node.create_invoice(10, "a", 60).unwrap();
    let b = node.create_invoice(10, "b", 60).unwrap();
    assert!(!a.payment_hash.same_as(&b.payment_hash));
    assert!(a.bolt11.starts_with("lnbc10n1"));
    assert_eq!(a.bolt11.len(), 8 + 32);
    assert_eq!(node.check_invoice(&a.payment_hash), Ok(PaymentStatus::Succeeded));
    assert_eq!(node.create_invoice(10, "", 60).unwrap_err(), PaymentError::Invoice(InvoiceError::EmptyDescription));
}

#[test]
fn node_channels_and_payments() {
    let mut node = LightningNodeImpl::new("n".to_string());
    let id = node.open_channel(key(1), 50_000, 20_000).unwrap();
    assert_eq!(node.total_balance(), 30_000);
    assert_eq!(
        node.open_channel(key(1), 50_000, 50_001).unwrap_err(),
        PaymentError::Channel(ChannelError::PushExceedsCapacity)
    );
    assert_eq!(node.open_channel_with_id(key(1), 10, 0, [4u8; 32]), Ok([4u8; 32]));
    assert_eq!(
        node.open_channel_with_id(key(1), 10, 0, [4u8; 32]),
        Err(PaymentError::Channel(ChannelError::DuplicateChannel))
    );
    assert_eq!(node.total_balance(), 30_010);
    let hash = PaymentHash::new([3u8; 32]);
    let cheap = node.create_invoice_at(30_010, "fits", 60, hash, 0).unwrap();
    assert_eq!(node.pay_invoice(&cheap), Ok(PaymentStatus::Succeeded));
    let dear = node.create_invoice_at(30_011, "too much", 60, PaymentHash::new([4u8; 32]), 0).unwrap();
    assert_eq!(
        node.pay_invoice(&dear),
        Err(PaymentError::InsufficientFunds { needed: 30_011, available: 30_010 })
    );
    assert_eq!(node.close_channel(&id), Ok(()));
    assert_eq!(node.close_channel(&id), Err(PaymentError::Channel(ChannelError::TerminalChannel)));
    assert_eq!(node.close_channel(&[0u8; 32]), Err(PaymentError::Channel(ChannelError::UnknownChannel)));
    assert_eq!(node.total_balance(), 10);
}

#[test]
fn configuration_defaults_and_ranges() {
    let config = PaymentConfig::default();
    assert_eq!(config.max_channel_capacity, 10_000_000);
    assert_eq!(config.min_channel_capacity, 20_000);
    assert_eq!(config.default_invoice_expiry, 3600);
    assert_eq!(config.max_payment_retries, 3);
    assert_eq!(config.payment_timeout, 60);
    assert!(config.auto_channel_management);
    assert_eq!(config.validate(), Ok(()));
    let zero = PaymentConfig { min_channel_capacity: 0, ..config };
    assert_eq!(zero.validate(), Err(PaymentError::Configuration(ConfigurationError::ZeroCapacity)));
    let zero = PaymentConfig { max_channel_capacity: 0, ..config };
    assert_eq!(zero.validate(), Err(PaymentError::Configuration(ConfigurationError::ZeroCapacity)));
    let inverted = PaymentConfig { min_channel_capacity: 10_000_001, ..config };
    assert_eq!(inverted.validate(), Err(PaymentError::Configuration(ConfigurationError::CapacityRangeInverted)));
    let none = PaymentConfig { max_payment_retries: 0, ..config };
    assert_eq!(none.validate(), Ok(()));
}

#[test]
fn plugin_uses_the_configured_capacity_limits() {
    let mut plugin = PaymentPlugin::new(PaymentConfig {
        min_channel_capacity: 500,
        max_channel_capacity: 600,
        ..PaymentConfig::default()
    });
    assert!(plugin.channels_mut().open_channel(key(1), 499).is_err());
    assert!(plugin.channels_mut().open_channel(key(1), 601).is_err());
    let id = plugin.channels_mut().open_channel(key(1), 600).unwrap();
    assert_eq!(plugin.channels().get(&id).unwrap().state, ChannelState::Opening);
    assert_eq!(plugin.spendable_balance().satoshis, 0);
    plugin.channels_mut().confirm_funding(&id).unwrap();
    assert_eq!(plugin.spendable_balance().satoshis, 600);
    assert_eq!(PaymentProcessor::spendable_balance(&plugin), 600);
    assert_eq!(plugin.router().node_count(), 0);
    assert!(PaymentProcessor::find_route(&plugin, &key(2), 1).is_err());
}

#[test]
fn plugin_lightning_node_round() {
    let mut plugin = PaymentPlugin::default();
    assert_eq!(plugin.lightning_node().get_node_info().alias, "EssentiaNode");
    let invoice = plugin.create_lightning_invoice(0, "free", 60).unwrap();
    assert_eq!(plugin.check_lightning_invoice(&invoice.payment_hash), Ok(PaymentStatus::Succeeded));
    assert_eq!(plugin.send_lightning_payment(&invoice), Ok(PaymentStatus::Succeeded));
    let dear = plugin.create_lightning_invoice(5, "dear", 60).unwrap();
    assert_eq!(
        plugin.send_lightning_payment(&dear),
        Err(PaymentError::InsufficientFunds { needed: 5, available: 0 })
    );
    plugin.lightning_node_mut().open_channel(key(1), 100, 0).unwrap();
    assert_eq!(plugin.send_lightning_payment(&dear), Ok(PaymentStatus::Succeeded));
    assert_eq!(
        plugin.get_payment_status(&[0u8; 32]),
        Err(PaymentError::Invoice(InvoiceError::UnknownPaymentHash))
    );
}

#[test]
fn amounts_convert_between_units() {
    assert_eq!(PaymentAmount::from_millisatoshis(1_999).satoshis, 1);
    assert_eq!(PaymentAmount::from_millisatoshis(999).satoshis, 0);
    assert_eq!(PaymentAmount::from_satoshis(3).checked_as_millisatoshis(), Some(3_000));
    assert_eq!(PaymentAmount::from_satoshis(u64::MAX / 1000).checked_as_millisatoshis(), Some(u64::MAX / 1000 * 1000));
    assert_eq!(PaymentAmount::from_satoshis(u64::MAX / 1000 + 1).checked_as_millisatoshis(), None);
    assert_eq!(Satoshis::new(5).as_u64(), 5);
    assert!(Satoshis::new(5) < Satoshis::new(6));
    let all = [PaymentStatus::Pending, PaymentStatus::InFlight, PaymentStatus::Succeeded, PaymentStatus::Failed];
    let edges = [(PaymentStatus::Pending, PaymentStatus::InFlight), (PaymentStatus::Pending, PaymentStatus::Failed), (PaymentStatus::InFlight, PaymentStatus::Succeeded), (PaymentStatus::InFlight, PaymentStatus::Failed)];
    for from in all {
        for to in all {
            assert_eq!(from.can_transition_to(to), edges.contains(&(from, to)));
        }
    }
    assert!(PaymentStatus::Succeeded.is_terminal() && PaymentStatus::Failed.is_terminal() && !PaymentStatus::Pending.is_terminal());
}

#[test]
fn processor_does_not_send_a_paid_invoice_again() {
    use_processor(PaymentPlugin::default());
}

fn use_processor<P: PaymentProcessor>(mut processor: P) {
    let invoice = essentia_payment_plugin::PaymentInvoice {
        payment_hash: [1u8; 32],
        amount: Some(0),
        description: "nothing".to_string(),
        expiry: u64::MAX,
        encoded: String::new(),
        payment_secret: None,
    };
    assert_eq!(processor.spendable_balance(), 0);
    // no route: the payment fails, and may be sent again
    let first = processor.send_payment(&invoice, key(9));
    assert!(first.is_err());
    let second = processor.send_payment(&invoice, key(9));
    assert_eq!(first, second);
}

#[test]
fn node_refuses_terms_before_drawing_an_identifier() {
    let mut node = LightningNodeImpl::new("n".to_string());
    let mut bad = key(1);
    bad[0] = 5;
    assert_eq!(
        node.open_channel(bad, 50_000, 60_000),
        Err(PaymentError::Channel(ChannelError::InvalidPeerKey))
    );
    assert_eq!(
        node.open_channel(key(1), 2_100_000_000_000_001, 0),
        Err(PaymentError::Channel(ChannelError::CapacityOutOfBounds))
    );
    assert_eq!(
        node.open_channel(key(1), 10, 11),
        Err(PaymentError::Channel(ChannelError::PushExceedsCapacity))
    );
    assert_eq!(node.total_balance(), 0);
    let id = node.open_channel(key(1), 10, 4).unwrap();
    assert_eq!(node.total_balance(), 6);
    assert_eq!(node.close_channel(&id), Ok(()));
}

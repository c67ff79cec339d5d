use essentia_payment_plugin::errors::{ChannelError, InvoiceError, PaymentError, RoutingError};
use essentia_payment_plugin::implementation::router::FeePolicy;
use essentia_payment_plugin::{
    ChannelState, PaymentConfig, PaymentInvoice, PaymentPlugin, PaymentStatus,
};

fn key(tag: u8) -> [u8; 33] {
    let mut k = [tag; 33];
    k[0] = 2;
    k
}

fn free() -> FeePolicy {
    FeePolicy { base_fee_msat: 0, proportional_millionths: 0, cltv_expiry_delta: 0 }
}

fn invoice(tag: u8, amount: u64, expiry: u64) -> PaymentInvoice {
    PaymentInvoice {
        payment_hash: [tag; 32],
        amount: Some(amount),
        description: "coffee".to_string(),
        expiry,
        encoded: String::new(),
        payment_secret: None,
    }
}

/// A plugin with one active channel of 100 000 satoshis to the peer 2, and a
/// graph local -> 2 -> 3 in which node 2 charges `fee_msat` for forwarding.
fn plugin_with_route(fee_msat: u64) -> (PaymentPlugin, [u8; 32]) {
    let mut plugin = PaymentPlugin::new(PaymentConfig::default());
    let id = [7u8; 32];
    plugin.channels_mut().register_channel(key(2), 100_000, 0, id, true).unwrap();
    let router = plugin.router_mut();
    router.set_local_node(key(1));
    router.add_channel(key(1), key(2), 10, free(), 100_000_000, 0);
    router.add_channel(
        key(2),
        key(3),
        20,
        FeePolicy { base_fee_msat: fee_msat, proportional_millionths: 0, cltv_expiry_delta: 40 },
        200_000_000,
        0,
    );
    (plugin, id)
}

#[test]
fn payment_with_fee_moves_amount_and_fee() {
    // a route fee of 100 satoshis, that is 100 000 millisatoshis
    let (mut plugin, id) = plugin_with_route(100_000);
    let status = plugin.send_payment_at(&invoice(1, 50_000, 2_000), key(3), 1_000).unwrap();
    assert_eq!(status, PaymentStatus::Succeeded);
    let channel = plugin.channels().get(&id).unwrap();
    assert_eq!(channel.local_balance, 49_900);
    assert_eq!(channel.remote_balance, 50_100);
    assert_eq!(channel.local_balance + channel.remote_balance, channel.capacity);
    assert_eq!(plugin.channels().reserved_on(&id), Some(0));
    assert_eq!(plugin.get_payment_status(&[1u8; 32]).unwrap(), PaymentStatus::Succeeded);
}

#[test]
fn payment_fee_below_a_satoshi_is_rounded_up() {
    let (mut plugin, id) = plugin_with_route(100);
    let status = plugin.send_payment_at(&invoice(1, 50_000, 2_000), key(3), 1_000).unwrap();
    assert_eq!(status, PaymentStatus::Succeeded);
    let channel = plugin.channels().get(&id).unwrap();
    assert_eq!(channel.local_balance, 49_999);
    assert_eq!(channel.remote_balance, 50_001);
}

#[test]
fn insufficient_funds_changes_nothing() {
    let mut plugin = PaymentPlugin::new(PaymentConfig {
        min_channel_capacity: 1_000,
        ..PaymentConfig::default()
    });
    let id = [7u8; 32];
    plugin.channels_mut().register_channel(key(2), 1_000, 0, id, true).unwrap();
    assert_eq!(plugin.spendable_balance().satoshis, 1_000);
    let r = plugin.send_payment_at(&invoice(1, 5_000, 2_000), key(3), 1_000);
    assert_eq!(r, Err(PaymentError::InsufficientFunds { needed: 5_000, available: 1_000 }));
    let channel = plugin.channels().get(&id).unwrap();
    assert_eq!(channel.local_balance, 1_000);
    assert_eq!(channel.remote_balance, 0);
    assert_eq!(channel.state, ChannelState::Active);
    assert!(plugin.get_payment_status(&[1u8; 32]).is_err());
}

#[test]
fn expired_invoice_fails_before_balance_check() {
    // no channel at all: a balance check would report insufficient funds
    let mut plugin = PaymentPlugin::new(PaymentConfig::default());
    let r = plugin.send_payment_at(&invoice(1, 5_000, 999), key(3), 1_000);
    assert_eq!(r, Err(PaymentError::Invoice(InvoiceError::Expired)));
    let r = plugin.send_payment_at(&invoice(1, 5_000, 1_000), key(3), 1_000);
    assert_eq!(r, Err(PaymentError::InsufficientFunds { needed: 5_000, available: 0 }));
}

#[test]
fn two_payments_of_60000_against_100000() {
    let (mut plugin, id) = plugin_with_route(0);
    let first = plugin.send_payment_at(&invoice(1, 60_000, 2_000), key(3), 1_000);
    let second = plugin.send_payment_at(&invoice(2, 60_000, 2_000), key(3), 1_000);
    assert_eq!(first, Ok(PaymentStatus::Succeeded));
    assert_eq!(second, Err(PaymentError::InsufficientFunds { needed: 60_000, available: 40_000 }));
    let channel = plugin.channels().get(&id).unwrap();
    assert_eq!(channel.remote_balance, 60_000);
    assert!(channel.remote_balance <= 100_000);
    assert_eq!(channel.local_balance, 40_000);
}

#[test]
fn reservation_blocks_a_second_payment_in_flight() {
    let (mut plugin, id) = plugin_with_route(0);
    assert_eq!(plugin.submit_payment_at(&invoice(1, 60_000, 2_000), key(3), 1_000), Ok(PaymentStatus::Pending));
    assert_eq!(plugin.submit_payment_at(&invoice(2, 60_000, 2_000), key(3), 1_000), Ok(PaymentStatus::Pending));
    assert_eq!(plugin.dispatch_payment(&[1u8; 32]), Ok(PaymentStatus::InFlight));
    assert_eq!(plugin.channels().reserved_on(&id), Some(60_000));
    let second = plugin.dispatch_payment(&[2u8; 32]);
    assert_eq!(second, Err(PaymentError::InsufficientFunds { needed: 60_000, available: 100_000 }));
    assert_eq!(plugin.get_payment_status(&[2u8; 32]), Ok(PaymentStatus::Failed));
    assert_eq!(plugin.channels().reserved_on(&id), Some(60_000));
    assert_eq!(plugin.settle_payment(&[1u8; 32]), Ok(PaymentStatus::Succeeded));
    assert_eq!(plugin.channels().reserved_on(&id), Some(0));
    assert_eq!(plugin.channels().get(&id).unwrap().local_balance, 40_000);
}

#[test]
fn resubmitting_a_payment_in_progress_returns_its_status() {
    let (mut plugin, id) = plugin_with_route(0);
    let inv = invoice(1, 10_000, 2_000);
    assert_eq!(plugin.submit_payment_at(&inv, key(3), 1_000), Ok(PaymentStatus::Pending));
    assert_eq!(plugin.submit_payment_at(&inv, key(3), 1_000), Ok(PaymentStatus::Pending));
    assert_eq!(plugin.dispatch_payment(&inv.payment_hash), Ok(PaymentStatus::InFlight));
    assert_eq!(plugin.send_payment_at(&inv, key(3), 1_000), Ok(PaymentStatus::InFlight));
    assert_eq!(plugin.dispatch_payment(&inv.payment_hash), Ok(PaymentStatus::InFlight));
    assert_eq!(plugin.channels().reserved_on(&id), Some(10_000));
    assert_eq!(plugin.settle_payment(&inv.payment_hash), Ok(PaymentStatus::Succeeded));
    // a payment that has succeeded is not paid twice
    assert_eq!(plugin.send_payment_at(&inv, key(3), 1_000), Ok(PaymentStatus::Succeeded));
    assert_eq!(plugin.channels().get(&id).unwrap().local_balance, 90_000);
}

#[test]
fn payment_without_route_fails_with_router_error() {
    let mut plugin = PaymentPlugin::new(PaymentConfig::default());
    let id = [7u8; 32];
    plugin.channels_mut().register_channel(key(2), 100_000, 0, id, true).unwrap();
    let r = plugin.send_payment_at(&invoice(1, 10_000, 2_000), key(3), 1_000);
    assert_eq!(r, Err(PaymentError::Routing(RoutingError::NoPath)));
    assert_eq!(plugin.get_payment_status(&[1u8; 32]), Ok(PaymentStatus::Failed));
    assert_eq!(plugin.channels().get(&id).unwrap().local_balance, 100_000);
    assert_eq!(plugin.channels().reserved_on(&id), Some(0));
}

#[test]
fn failed_hop_is_retried_around_the_failing_channel() {
    let (mut plugin, id) = plugin_with_route(0);
    // a second, dearer way from node 2 to node 3
    plugin.router_mut().add_channel(
        key(2),
        key(3),
        30,
        FeePolicy { base_fee_msat: 2_000, proportional_millionths: 0, cltv_expiry_delta: 10 },
        200_000_000,
        0,
    );
    let inv = invoice(1, 10_000, 2_000);
    assert_eq!(plugin.submit_payment_at(&inv, key(3), 1_000), Ok(PaymentStatus::Pending));
    assert_eq!(plugin.dispatch_payment(&inv.payment_hash), Ok(PaymentStatus::InFlight));
    assert_eq!(plugin.channels().reserved_on(&id), Some(10_000));
    assert_eq!(plugin.fail_payment(&inv.payment_hash, 20), Ok(PaymentStatus::InFlight));
    // the new route costs 2 satoshis of fees
    assert_eq!(plugin.channels().reserved_on(&id), Some(10_002));
    assert_eq!(plugin.fail_payment(&inv.payment_hash, 30), Ok(PaymentStatus::Failed));
    assert_eq!(plugin.channels().reserved_on(&id), Some(0));
    assert_eq!(plugin.channels().get(&id).unwrap().local_balance, 100_000);
}

#[test]
fn retries_are_limited_by_the_configuration() {
    let mut plugin = PaymentPlugin::new(PaymentConfig { max_payment_retries: 0, ..PaymentConfig::default() });
    let id = [7u8; 32];
    plugin.channels_mut().register_channel(key(2), 100_000, 0, id, true).unwrap();
    let router = plugin.router_mut();
    router.set_local_node(key(1));
    router.add_channel(key(1), key(2), 10, free(), 100_000_000, 0);
    router.add_channel(key(1), key(2), 11, free(), 100_000_000, 0);
    let inv = invoice(1, 10_000, 2_000);
    assert_eq!(plugin.submit_payment_at(&inv, key(2), 1_000), Ok(PaymentStatus::Pending));
    assert_eq!(plugin.dispatch_payment(&inv.payment_hash), Ok(PaymentStatus::InFlight));
    assert_eq!(plugin.fail_payment(&inv.payment_hash, 10), Ok(PaymentStatus::Failed));
    assert_eq!(plugin.channels().reserved_on(&id), Some(0));
}

#[test]
fn cancel_is_for_pending_payments_only() {
    let (mut plugin, id) = plugin_with_route(0);
    let inv = invoice(1, 10_000, 2_000);
    assert_eq!(plugin.cancel_payment(&inv.payment_hash), Err(PaymentError::Invoice(InvoiceError::UnknownPaymentHash)));
    assert_eq!(plugin.submit_payment_at(&inv, key(3), 1_000), Ok(PaymentStatus::Pending));
    assert_eq!(plugin.cancel_payment(&inv.payment_hash), Ok(PaymentStatus::Failed));
    assert_eq!(plugin.submit_payment_at(&inv, key(3), 1_000), Ok(PaymentStatus::Pending));
    assert_eq!(plugin.dispatch_payment(&inv.payment_hash), Ok(PaymentStatus::InFlight));
    assert_eq!(plugin.cancel_payment(&inv.payment_hash), Ok(PaymentStatus::InFlight));
    assert_eq!(plugin.channels().reserved_on(&id), Some(10_000));
}

#[test]
fn timeout_fails_the_payment_and_releases_the_reservation() {
    let (mut plugin, id) = plugin_with_route(0);
    let inv = invoice(1, 10_000, 2_000);
    assert_eq!(plugin.submit_payment_at(&inv, key(3), 1_000), Ok(PaymentStatus::Pending));
    assert_eq!(plugin.dispatch_payment(&inv.payment_hash), Ok(PaymentStatus::InFlight));
    // the default timeout is 60 seconds
    assert_eq!(plugin.expire_payment_at(&inv.payment_hash, 1_060), Ok(PaymentStatus::InFlight));
    assert_eq!(plugin.channels().reserved_on(&id), Some(10_000));
    assert_eq!(plugin.expire_payment_at(&inv.payment_hash, 1_061), Err(PaymentError::Timeout));
    assert_eq!(plugin.get_payment_status(&inv.payment_hash), Ok(PaymentStatus::Failed));
    assert_eq!(plugin.channels().reserved_on(&id), Some(0));
    assert_eq!(plugin.expire_payment_at(&inv.payment_hash, 5_000), Ok(PaymentStatus::Failed));
}

#[test]
fn settling_after_the_channel_was_closed_fails_the_payment() {
    let (mut plugin, id) = plugin_with_route(0);
    let inv = invoice(1, 10_000, 2_000);
    assert_eq!(plugin.submit_payment_at(&inv, key(3), 1_000), Ok(PaymentStatus::Pending));
    assert_eq!(plugin.dispatch_payment(&inv.payment_hash), Ok(PaymentStatus::InFlight));
    plugin.channels_mut().close_channel(&id).unwrap();
    assert_eq!(
        plugin.settle_payment(&inv.payment_hash),
        Err(PaymentError::Channel(ChannelError::TerminalChannel))
    );
    assert_eq!(plugin.get_payment_status(&inv.payment_hash), Ok(PaymentStatus::Failed));
    assert_eq!(plugin.channels().get(&id).unwrap().local_balance, 100_000);
}

#[test]
fn send_payment_reads_the_clock() {
    let (mut plugin, _) = plugin_with_route(0);
    // expiry far in the future
    let status = plugin.send_payment(&invoice(1, 10_000, u64::MAX), key(3));
    assert_eq!(status, Ok(PaymentStatus::Succeeded));
    // expiry at the epoch
    let status = plugin.send_payment(&invoice(2, 10_000, 0), key(3));
    assert_eq!(status, Err(PaymentError::Invoice(InvoiceError::Expired)));
}

#[test]
fn a_new_engine_holds_nothing() {
    let plugin = PaymentPlugin::new(PaymentConfig::default());
    assert_eq!(plugin.channels().list().len(), 0);
    assert_eq!(plugin.router().node_count(), 0);
    assert_eq!(plugin.router().channel_count(), 0);
    assert_eq!(plugin.router().risk_factor(), 1);
    let r = plugin.router().find_route(&key(3), 1_000);
    assert!(matches!(r, Err(PaymentError::Routing(RoutingError::NoPath))));
    assert_eq!(plugin.lightning_node().get_node_info().alias, "EssentiaNode");
    assert_eq!(plugin.lightning_node().total_balance(), 0);
    assert_eq!(plugin.spendable_balance().satoshis, 0);
    let by_default = PaymentPlugin::default();
    assert_eq!(by_default.config().min_channel_capacity, 20_000);
    assert_eq!(by_default.config().max_channel_capacity, 10_000_000);
    assert_eq!(by_default.lightning_node().get_node_info().alias, "EssentiaNode");
    assert_eq!(by_default.router().node_count(), 0);
}

#[test]
fn try_new_takes_a_configuration_in_range_only() {
    let plugin = PaymentPlugin::try_new(PaymentConfig::default()).unwrap();
    assert_eq!(plugin.config().max_payment_retries, 3);
    assert_eq!(plugin.channels().list().len(), 0);
    let r = PaymentPlugin::try_new(PaymentConfig {
        min_channel_capacity: 0,
        ..PaymentConfig::default()
    });
    assert!(matches!(
        r,
        Err(PaymentError::Configuration(
            essentia_payment_plugin::errors::ConfigurationError::ZeroCapacity
        ))
    ));
    let r = PaymentPlugin::try_new(PaymentConfig {
        max_channel_capacity: 0,
        ..PaymentConfig::default()
    });
    assert!(matches!(
        r,
        Err(PaymentError::Configuration(
            essentia_payment_plugin::errors::ConfigurationError::ZeroCapacity
        ))
    ));
    let r = PaymentPlugin::try_new(PaymentConfig {
        min_channel_capacity: 500,
        max_channel_capacity: 499,
        ..PaymentConfig::default()
    });
    assert!(matches!(
        r,
        Err(PaymentError::Configuration(
            essentia_payment_plugin::errors::ConfigurationError::CapacityRangeInverted
        ))
    ));
    let edge = PaymentPlugin::try_new(PaymentConfig {
        min_channel_capacity: 500,
        max_channel_capacity: 500,
        max_payment_retries: 0,
        ..PaymentConfig::default()
    });
    assert!(edge.is_ok());
}

#[test]
fn a_payment_leaves_the_records_of_others_alone() {
    let (mut plugin, _id) = plugin_with_route(0);
    let first = plugin.send_payment_at(&invoice(1, 10_000, 2_000), key(3), 1_000).unwrap();
    assert_eq!(first, PaymentStatus::Succeeded);
    // no route leads to node 9: the second payment fails
    let second = plugin.send_payment_at(&invoice(2, 10_000, 2_000), key(9), 1_000);
    assert!(second.is_err());
    assert_eq!(plugin.get_payment_status(&[1u8; 32]).unwrap(), PaymentStatus::Succeeded);
    assert_eq!(plugin.get_payment_status(&[2u8; 32]).unwrap(), PaymentStatus::Failed);
    // the failed payment is sent again, to a node that can be reached
    let again = plugin.send_payment_at(&invoice(2, 10_000, 2_000), key(3), 1_000).unwrap();
    assert_eq!(again, PaymentStatus::Succeeded);
    let third = plugin.send_payment_at(&invoice(3, 10_000, 2_000), key(3), 1_000).unwrap();
    assert_eq!(third, PaymentStatus::Succeeded);
    assert_eq!(plugin.get_payment_status(&[1u8; 32]).unwrap(), PaymentStatus::Succeeded);
    assert_eq!(plugin.get_payment_status(&[2u8; 32]).unwrap(), PaymentStatus::Succeeded);
    assert_eq!(plugin.get_payment_status(&[3u8; 32]).unwrap(), PaymentStatus::Succeeded);
}

use essentia_payment_plugin::errors::{ChannelError, PaymentError};
use essentia_payment_plugin::{ChannelManager, ChannelProvider, ChannelState, PaymentChannel};

fn key(tag: u8) -> [u8; 33] {
    let mut k = [tag; 33];
    k[0] = 3;
    k
}

fn balanced(store: &ChannelManager) {
    for channel in store.list() {
        assert_eq!(channel.local_balance + channel.remote_balance, channel.capacity);
        let reserved = store.reserved_on(&channel.channel_id).unwrap();
        assert!(reserved <= channel.local_balance);
    }
}

#[test]
fn open_channel_starts_opening_with_all_funds_local() {
    let mut store = ChannelManager::new();
    let id = store.open_channel(key(1), 100_000).unwrap();
    let channel = store.get(&id).unwrap();
    assert_eq!(channel.state, ChannelState::Opening);
    assert_eq!(channel.capacity, 100_000);
    assert_eq!(channel.local_balance, 100_000);
    assert_eq!(channel.remote_balance, 0);
    assert_eq!(channel.peer_pubkey, key(1));
    assert_eq!(store.list().len(), 1);
    // an opening channel cannot be spent from
    assert_eq!(store.total_local_balance(), 0);
    store.confirm_funding(&id).unwrap();
    assert_eq!(store.total_local_balance(), 100_000);
    balanced(&store);
}

#[test]
fn open_channel_draws_fresh_identifiers() {
    let mut store = ChannelManager::new();
    let a = store.open_channel(key(1), 100_000).unwrap();
    let b = store.open_channel(key(1), 100_000).unwrap();
    assert_ne!(a, b);
}

#[test]
fn open_channel_checks_key_and_capacity() {
    let mut store = ChannelManager::new();
    let mut bad = key(1);
    bad[0] = 4;
    assert_eq!(store.open_channel(bad, 100_000), Err(PaymentError::Channel(ChannelError::InvalidPeerKey)));
    assert_eq!(store.open_channel(key(1), 19_999), Err(PaymentError::Channel(ChannelError::CapacityOutOfBounds)));
    assert_eq!(
        store.open_channel(key(1), 10_000_001),
        Err(PaymentError::Channel(ChannelError::CapacityOutOfBounds))
    );
    assert!(store.open_channel(key(1), 20_000).is_ok());
    assert!(store.open_channel(key(1), 10_000_000).is_ok());
    assert_eq!(store.list().len(), 2);
}

#[test]
fn register_channel_refuses_duplicates_and_excess_push() {
    let mut store = ChannelManager::new();
    let id = [9u8; 32];
    assert_eq!(store.register_channel(key(1), 50_000, 10_000, id, true), Ok(id));
    assert_eq!(
        store.register_channel(key(2), 50_000, 0, id, true),
        Err(PaymentError::Channel(ChannelError::DuplicateChannel))
    );
    assert_eq!(
        store.register_channel(key(2), 50_000, 50_001, [8u8; 32], true),
        Err(PaymentError::Channel(ChannelError::PushExceedsCapacity))
    );
    let channel = store.get(&id).unwrap();
    assert_eq!(channel.local_balance, 40_000);
    assert_eq!(channel.remote_balance, 10_000);
    assert_eq!(store.list().len(), 1);
    balanced(&store);
}

#[test]
fn total_capacity_is_bounded_by_the_supply() {
    let mut store = ChannelManager::with_limits(1, u64::MAX);
    let supply = 2_100_000_000_000_000u64;
    assert!(store.register_channel(key(1), supply - 5, 0, [1u8; 32], true).is_ok());
    assert_eq!(
        store.register_channel(key(1), 6, 0, [2u8; 32], true),
        Err(PaymentError::Channel(ChannelError::CapacityOutOfBounds))
    );
    assert!(store.register_channel(key(1), 5, 0, [2u8; 32], true).is_ok());
    assert_eq!(store.total_local_balance(), supply);
    assert_eq!(store.total_capacity(), supply);
}

#[test]
fn close_follows_the_lifecycle() {
    let mut store = ChannelManager::new();
    let id = store.open_channel(key(1), 100_000).unwrap();
    // still opening
    assert_eq!(store.close_channel(&id), Err(PaymentError::Channel(ChannelError::InvalidState)));
    assert_eq!(store.get(&id).unwrap().state, ChannelState::Opening);
    store.confirm_funding(&id).unwrap();
    assert_eq!(store.close_channel(&id), Ok(()));
    assert_eq!(store.get(&id).unwrap().state, ChannelState::Closed);
    // closed is terminal
    assert_eq!(store.close_channel(&id), Err(PaymentError::Channel(ChannelError::TerminalChannel)));
    assert_eq!(store.get(&id).unwrap().state, ChannelState::Closed);
    assert_eq!(store.force_close(&id), Err(PaymentError::Channel(ChannelError::TerminalChannel)));
    assert_eq!(store.confirm_funding(&id), Err(PaymentError::Channel(ChannelError::TerminalChannel)));
    assert_eq!(store.close_channel(&[0u8; 32]), Err(PaymentError::Channel(ChannelError::UnknownChannel)));
    balanced(&store);
}

#[test]
fn force_close_is_terminal_too() {
    let mut store = ChannelManager::new();
    let id = store.open_channel(key(1), 100_000).unwrap();
    assert_eq!(store.force_close(&id), Ok(()));
    assert_eq!(store.get(&id).unwrap().state, ChannelState::ForceClosed);
    assert_eq!(store.close_channel(&id), Err(PaymentError::Channel(ChannelError::TerminalChannel)));
    assert_eq!(store.get(&id).unwrap().state, ChannelState::ForceClosed);
    let other = store.open_channel(key(1), 100_000).unwrap();
    store.confirm_funding(&other).unwrap();
    store.transition(&other, ChannelState::Closing).unwrap();
    assert_eq!(store.transition(&other, ChannelState::Active), Err(PaymentError::Channel(ChannelError::InvalidState)));
    assert_eq!(store.close_channel(&other), Ok(()));
    assert_eq!(store.get(&other).unwrap().state, ChannelState::Closed);
}

#[test]
fn state_transitions_follow_the_graph() {
    let all = [ChannelState::Opening, ChannelState::Active, ChannelState::Closing, ChannelState::ForceClosed, ChannelState::Closed];
    let edges = [
        (ChannelState::Opening, ChannelState::Active),
        (ChannelState::Opening, ChannelState::ForceClosed),
        (ChannelState::Active, ChannelState::Closing),
        (ChannelState::Active, ChannelState::ForceClosed),
        (ChannelState::Closing, ChannelState::Closed),
        (ChannelState::Closing, ChannelState::ForceClosed),
    ];
    for from in all {
        for to in all {
            assert_eq!(from.can_transition_to(to), edges.contains(&(from, to)));
        }
    }
    assert!(ChannelState::Closed.is_terminal());
    assert!(ChannelState::ForceClosed.is_terminal());
    assert!(!ChannelState::Closing.is_terminal());
}

#[test]
fn settle_keeps_balances_equal_to_capacity() {
    let mut store = ChannelManager::new();
    let id = [9u8; 32];
    store.register_channel(key(1), 100_000, 0, id, true).unwrap();
    assert_eq!(store.settle(&id, -30_000, 30_000), Ok(()));
    let channel = store.get(&id).unwrap();
    assert_eq!((channel.local_balance, channel.remote_balance), (70_000, 30_000));
    assert_eq!(store.settle(&id, 10_000, -10_000), Ok(()));
    assert_eq!(store.settle(&id, -1, 2), Err(PaymentError::Channel(ChannelError::BalanceMismatch)));
    assert_eq!(store.settle(&id, -80_001, 80_001), Err(PaymentError::Channel(ChannelError::BalanceMismatch)));
    assert_eq!(store.settle(&id, 20_001, -20_001), Err(PaymentError::Channel(ChannelError::BalanceMismatch)));
    assert_eq!(store.settle(&[1u8; 32], 0, 0), Err(PaymentError::Channel(ChannelError::UnknownChannel)));
    let channel = store.get(&id).unwrap();
    assert_eq!((channel.local_balance, channel.remote_balance), (80_000, 20_000));
    store.reserve(&id, 50_000).unwrap();
    assert_eq!(
        store.settle(&id, -30_001, 30_001),
        Err(PaymentError::InsufficientFunds { needed: 30_001, available: 30_000 })
    );
    assert_eq!(store.settle(&id, -30_000, 30_000), Ok(()));
    balanced(&store);
    store.close_channel(&id).unwrap();
    assert_eq!(store.settle(&id, 0, 0), Err(PaymentError::Channel(ChannelError::TerminalChannel)));
}

#[test]
fn reservations_never_exceed_the_local_balance() {
    let mut store = ChannelManager::new();
    let id = [9u8; 32];
    store.register_channel(key(1), 100_000, 0, id, true).unwrap();
    assert_eq!(store.reserve(&id, 60_000), Ok(()));
    assert_eq!(
        store.reserve(&id, 60_000),
        Err(PaymentError::InsufficientFunds { needed: 60_000, available: 40_000 })
    );
    assert_eq!(store.reserved_on(&id), Some(60_000));
    assert_eq!(store.reserve(&id, 40_000), Ok(()));
    assert_eq!(store.reserved_on(&id), Some(100_000));
    assert_eq!(store.release(&id, 100_001), Err(PaymentError::Channel(ChannelError::ReservationMismatch)));
    assert_eq!(store.release(&id, 40_000), Ok(()));
    assert_eq!(store.commit(&id, 60_001), Err(PaymentError::Channel(ChannelError::ReservationMismatch)));
    assert_eq!(store.commit(&id, 60_000), Ok(()));
    assert_eq!(store.reserved_on(&id), Some(0));
    let channel = store.get(&id).unwrap();
    assert_eq!((channel.local_balance, channel.remote_balance), (40_000, 60_000));
    balanced(&store);
}

#[test]
fn find_spendable_takes_the_first_channel_that_can_pay() {
    let mut store = ChannelManager::new();
    store.register_channel(key(1), 50_000, 0, [1u8; 32], true).unwrap();
    store.register_channel(key(2), 90_000, 0, [2u8; 32], true).unwrap();
    store.register_channel(key(1), 90_000, 0, [3u8; 32], false).unwrap();
    store.register_channel(key(1), 90_000, 0, [4u8; 32], true).unwrap();
    store.register_channel(key(1), 95_000, 0, [5u8; 32], true).unwrap();
    assert_eq!(store.find_spendable(&key(1), 50_000), Some(0));
    assert_eq!(store.find_spendable(&key(1), 50_001), Some(3));
    assert_eq!(store.find_spendable(&key(1), 95_001), None);
    store.reserve(&[4u8; 32], 50_000).unwrap();
    assert_eq!(store.find_spendable(&key(1), 50_001), Some(4));
    assert_eq!(store.find(&[4u8; 32]), Some(3));
    assert_eq!(store.find(&[6u8; 32]), None);
    assert!(store.channel_at(5).is_none());
    assert_eq!(store.channel_at(4).unwrap().capacity, 95_000);
}

#[test]
fn provider_lists_active_channels() {
    fn spendable<P: ChannelProvider>(provider: &P) -> (usize, usize, u64) {
        (provider.channels().len(), provider.active_channels().len(), provider.total_local_balance())
    }
    let mut store = ChannelManager::default();
    store.register_channel(key(1), 50_000, 0, [1u8; 32], true).unwrap();
    store.register_channel(key(2), 60_000, 5_000, [2u8; 32], false).unwrap();
    store.register_channel(key(3), 70_000, 10_000, [3u8; 32], true).unwrap();
    assert_eq!(spendable(&store), (3, 2, 110_000));
    let active: Vec<PaymentChannel> = store.active().into_iter().copied().collect();
    assert_eq!(active[0].channel_id, [1u8; 32]);
    assert_eq!(active[1].channel_id, [3u8; 32]);
    let id = ChannelProvider::open_channel(&mut store, key(4), 100_000).unwrap();
    assert_eq!(ChannelProvider::close_channel(&mut store, &id), Err(PaymentError::Channel(ChannelError::InvalidState)));
    assert_eq!(ChannelProvider::close_channel(&mut store, &[1u8; 32]), Ok(()));
    assert_eq!(spendable(&store), (4, 1, 60_000));
}

#[test]
fn channel_errors_have_descriptions() {
    assert_eq!(ChannelError::EntropyUnavailable.describe(), "Random source unavailable");
    assert_eq!(
        PaymentError::Channel(ChannelError::CapacityOutOfBounds).message(),
        "Channel error: Capacity out of bounds"
    );
}

#[test]
fn check_terms_names_the_first_fault() {
    let store = ChannelManager::new();
    let mut bad = key(1);
    bad[0] = 0;
    assert_eq!(store.check_terms(&bad, 1, 2), Some(ChannelError::InvalidPeerKey));
    assert_eq!(store.check_terms(&key(1), 19_999, 20_000), Some(ChannelError::CapacityOutOfBounds));
    assert_eq!(store.check_terms(&key(1), 20_000, 20_001), Some(ChannelError::PushExceedsCapacity));
    assert_eq!(store.check_terms(&key(1), 20_000, 20_000), None);
}

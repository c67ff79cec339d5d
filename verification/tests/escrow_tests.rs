use essentia_payment_plugin::errors::{ChannelError, EscrowError, PaymentError};
use essentia_payment_plugin::implementation::escrow::{Escrow, EscrowParty};
use essentia_payment_plugin::sources::preimage_matches;
use essentia_payment_plugin::{ChannelManager, EscrowStatus, PaymentHash};
use sha2::Digest;

fn key(tag: u8) -> [u8; 33] {
    let mut k = [tag; 33];
    k[0] = 2;
    k
}

fn store() -> (ChannelManager, [u8; 32]) {
    let mut store = ChannelManager::new();
    let id = [9u8; 32];
    store.register_channel(key(1), 100_000, 0, id, true).unwrap();
    (store, id)
}

fn digest(preimage: &[u8; 32]) -> [u8; 32] {
    sha2::Sha256::digest(preimage).into()
}

#[test]
fn preimage_is_checked_with_sha256() {
    let zeros = [0u8; 32];
    let expected: [u8; 32] = [
        0x66, 0x68, 0x7a, 0xad, 0xf8, 0x62, 0xbd, 0x77, 0x6c, 0x8f, 0xc1, 0x8b, 0x8e, 0x9f, 0x8e,
        0x20, 0x08, 0x97, 0x14, 0x85, 0x6e, 0xe2, 0x33, 0xb3, 0x90, 0x2a, 0x59, 0x1d, 0x0d, 0x5f,
        0x29, 0x25,
    ];
    assert!(preimage_matches(&zeros, &expected));
    assert!(!preimage_matches(&zeros, &zeros));
    assert!(preimage_matches(&[7u8; 32], &digest(&[7u8; 32])));
    assert!(!preimage_matches(&[7u8; 32], &digest(&[8u8; 32])));
}

#[test]
fn hold_escrow_is_released_by_the_preimage() {
    let (mut store, id) = store();
    let preimage = [42u8; 32];
    let mut escrow = Escrow::fund_hold(&mut store, id, 30_000, PaymentHash::new(digest(&preimage))).unwrap();
    assert_eq!(escrow.current_status(), EscrowStatus::Funded);
    assert_eq!(escrow.amount_sats(), 30_000);
    assert_eq!(store.reserved_on(&id), Some(30_000));
    assert_eq!(
        escrow.release_with_preimage(&mut store, [43u8; 32]),
        Err(PaymentError::Escrow(EscrowError::PreimageMismatch))
    );
    assert_eq!(escrow.current_status(), EscrowStatus::Funded);
    assert_eq!(store.reserved_on(&id), Some(30_000));
    assert_eq!(escrow.release_with_preimage(&mut store, preimage), Ok(()));
    assert_eq!(escrow.current_status(), EscrowStatus::Released);
    let channel = store.get(&id).unwrap();
    assert_eq!((channel.local_balance, channel.remote_balance), (70_000, 30_000));
    assert_eq!(store.reserved_on(&id), Some(0));
    assert_eq!(
        escrow.release_with_preimage(&mut store, preimage),
        Err(PaymentError::Escrow(EscrowError::InvalidTransition))
    );
    assert_eq!(escrow.refund(&mut store), Err(PaymentError::Escrow(EscrowError::InvalidTransition)));
}

#[test]
fn hold_escrow_with_the_preimage_as_hash_is_not_released() {
    let (mut store, id) = store();
    let preimage = [42u8; 32];
    let mut escrow = Escrow::fund_hold(&mut store, id, 30_000, PaymentHash::new(preimage)).unwrap();
    assert_eq!(
        escrow.release_with_preimage(&mut store, preimage),
        Err(PaymentError::Escrow(EscrowError::PreimageMismatch))
    );
    // the digest is what counts
    assert_eq!(escrow.release_with_digest(&mut store, [1u8; 32], &preimage), Ok(()));
}

#[test]
fn hold_escrow_needs_funds() {
    let (mut store, id) = store();
    let r = Escrow::fund_hold(&mut store, id, 100_001, PaymentHash::new([1u8; 32]));
    assert_eq!(r.unwrap_err(), PaymentError::InsufficientFunds { needed: 100_001, available: 100_000 });
    let r = Escrow::fund_hold(&mut store, [1u8; 32], 1, PaymentHash::new([1u8; 32]));
    assert_eq!(r.unwrap_err(), PaymentError::Channel(ChannelError::UnknownChannel));
    assert_eq!(store.reserved_on(&id), Some(0));
}

#[test]
fn hold_escrow_is_refunded() {
    let (mut store, id) = store();
    let mut escrow = Escrow::fund_hold(&mut store, id, 30_000, PaymentHash::new([1u8; 32])).unwrap();
    assert_eq!(escrow.refund(&mut store), Ok(()));
    assert_eq!(escrow.current_status(), EscrowStatus::Refunded);
    assert_eq!(store.reserved_on(&id), Some(0));
    assert_eq!(store.get(&id).unwrap().local_balance, 100_000);
    assert_eq!(escrow.dispute(), Err(PaymentError::Escrow(EscrowError::InvalidTransition)));
}

#[test]
fn disputed_escrow_is_resolved_either_way() {
    let (mut store, id) = store();
    let mut first = Escrow::fund_hold(&mut store, id, 30_000, PaymentHash::new([1u8; 32])).unwrap();
    let mut second = Escrow::fund_hold(&mut store, id, 20_000, PaymentHash::new([2u8; 32])).unwrap();
    assert_eq!(first.resolve(&mut store, true), Err(PaymentError::Escrow(EscrowError::InvalidTransition)));
    assert_eq!(first.dispute(), Ok(()));
    assert_eq!(second.dispute(), Ok(()));
    assert_eq!(first.current_status(), EscrowStatus::Disputed);
    assert_eq!(first.refund(&mut store), Err(PaymentError::Escrow(EscrowError::InvalidTransition)));
    assert_eq!(first.resolve(&mut store, true), Ok(()));
    assert_eq!(second.resolve(&mut store, false), Ok(()));
    assert_eq!(first.current_status(), EscrowStatus::Released);
    assert_eq!(second.current_status(), EscrowStatus::Refunded);
    let channel = store.get(&id).unwrap();
    assert_eq!((channel.local_balance, channel.remote_balance), (70_000, 30_000));
    assert_eq!(store.reserved_on(&id), Some(0));
}

#[test]
fn multisig_escrow_needs_two_approvals() {
    let mut escrow = Escrow::record_multisig(
        "funder".to_string(),
        "claimant".to_string(),
        "arbiter".to_string(),
        "script".to_string(),
        5_000,
    );
    assert_eq!(escrow.current_status(), EscrowStatus::Funded);
    assert_eq!(escrow.release_multisig(), Err(PaymentError::Escrow(EscrowError::MissingApproval)));
    assert_eq!(escrow.approve(EscrowParty::Funder), Ok(()));
    assert_eq!(escrow.approve(EscrowParty::Funder), Ok(()));
    assert_eq!(escrow.release_multisig(), Err(PaymentError::Escrow(EscrowError::MissingApproval)));
    assert_eq!(escrow.approve(EscrowParty::Arbiter), Ok(()));
    assert_eq!(escrow.release_multisig(), Ok(()));
    assert_eq!(escrow.current_status(), EscrowStatus::Released);
    assert_eq!(escrow.approve(EscrowParty::Claimant), Err(PaymentError::Escrow(EscrowError::InvalidTransition)));
    assert_eq!(escrow.release_multisig(), Err(PaymentError::Escrow(EscrowError::InvalidTransition)));
}

#[test]
fn escrow_kinds_are_kept_apart() {
    let (mut store, id) = store();
    let mut hold = Escrow::fund_hold(&mut store, id, 1_000, PaymentHash::new([1u8; 32])).unwrap();
    let mut multisig =
        Escrow::record_multisig("f".to_string(), "c".to_string(), "a".to_string(), "s".to_string(), 5);
    assert_eq!(hold.approve(EscrowParty::Funder), Err(PaymentError::Escrow(EscrowError::WrongKind)));
    assert_eq!(hold.release_multisig(), Err(PaymentError::Escrow(EscrowError::WrongKind)));
    assert_eq!(
        multisig.release_with_preimage(&mut store, [1u8; 32]),
        Err(PaymentError::Escrow(EscrowError::WrongKind))
    );
    // a multisig escrow is refunded without touching the store
    assert_eq!(multisig.refund(&mut store), Ok(()));
    assert_eq!(multisig.current_status(), EscrowStatus::Refunded);
    assert_eq!(store.reserved_on(&id), Some(1_000));
}

#[test]
fn escrow_status_transitions_follow_the_graph() {
    let all = [EscrowStatus::Funded, EscrowStatus::Released, EscrowStatus::Refunded, EscrowStatus::Disputed];
    let edges =
        [(EscrowStatus::Funded, EscrowStatus::Released), (EscrowStatus::Funded, EscrowStatus::Refunded), (EscrowStatus::Funded, EscrowStatus::Disputed), (EscrowStatus::Disputed, EscrowStatus::Released), (EscrowStatus::Disputed, EscrowStatus::Refunded)];
    for from in all {
        for to in all {
            assert_eq!(from.can_transition_to(to), edges.contains(&(from, to)));
        }
    }
    assert!(EscrowStatus::Released.is_terminal() && EscrowStatus::Refunded.is_terminal());
    assert!(!EscrowStatus::Funded.is_terminal() && !EscrowStatus::Disputed.is_terminal());
}

//! Escrows: funds held back until a condition for their release or refund
//! is met.
//!
//! A hold escrow reserves funds on a channel against a payment hash; they
//! are paid out when the preimage of the hash is shown. A multisig escrow is
//! a record of an on-chain escrow between a funder, a claimant and an
//! arbiter, released when two of the three approve.

use vstd::prelude::*;

use crate::errors::{EscrowError, PaymentError, PaymentResult};
use crate::implementation::channels::{
    commit_refusal, evolves, index_of, release_refusal, reserve_refusal, ChannelManager,
};
use crate::sources::{sha256, sha256_of_32};
use crate::text::bytes_equal;
use crate::types::{EscrowStatus, EscrowType, PaymentChannel, PaymentHash};

verus! {

/// A party to a multisig escrow.
#[derive(Debug, Clone, Copy, PartialEq, Eq, Structural)]
pub enum EscrowParty {
    /// The party that funded the escrow.
    Funder,
    /// The party that the funds are meant for.
    Claimant,
    /// The party that decides disputes.
    Arbiter,
}

/// Which of the three parties have approved a release.
#[derive(Debug, Clone, Copy, PartialEq, Eq, Structural)]
pub struct Approvals {
    pub funder: bool,
    pub claimant: bool,
    pub arbiter: bool,
}

impl Approvals {
    /// How many parties have approved.
    pub open spec fn count(self) -> int {
        (if self.funder {
            1int
        } else {
            0int
        }) + (if self.claimant {
            1int
        } else {
            0int
        }) + (if self.arbiter {
            1int
        } else {
            0int
        })
    }

    /// The approvals with that of `party` added.
    pub open spec fn with(self, party: EscrowParty) -> Approvals {
        match party {
            EscrowParty::Funder => Approvals { funder: true, ..self },
            EscrowParty::Claimant => Approvals { claimant: true, ..self },
            EscrowParty::Arbiter => Approvals { arbiter: true, ..self },
        }
    }
}

/// An escrow and where it stands.
#[derive(Debug)]
pub struct Escrow {
    kind: EscrowType,
    status: EscrowStatus,
    amount_sats: u64,
    channel_id: [u8; 32],
    approvals: Approvals,
}

impl Escrow {
    /// What kind of escrow this is, with the data of that kind.
    pub closed spec fn kind(&self) -> EscrowType {
        self.kind
    }

    /// Where the escrow stands.
    pub closed spec fn status(&self) -> EscrowStatus {
        self.status
    }

    /// The amount in escrow, in satoshis.
    pub closed spec fn amount(&self) -> u64 {
        self.amount_sats
    }

    /// The channel on which a hold escrow has its funds reserved.
    pub closed spec fn channel(&self) -> [u8; 32] {
        self.channel_id
    }

    /// Who has approved the release of a multisig escrow.
    pub closed spec fn approvals(&self) -> Approvals {
        self.approvals
    }

    /// Whether the escrow is a hold escrow.
    pub open spec fn is_hold(&self) -> bool {
        self.kind() is LightningHold
    }

    /// The payment hash against which a hold escrow is held.
    pub open spec fn hold_hash(&self) -> Seq<u8> {
        match self.kind() {
            EscrowType::LightningHold { payment_hash, .. } => payment_hash.0@,
            _ => Seq::empty(),
        }
    }

    /// The preimage that released a hold escrow.
    pub open spec fn revealed(&self) -> Option<Seq<u8>> {
        match self.kind() {
            EscrowType::LightningHold { preimage: Some(p), .. } => Some(p@),
            _ => None,
        }
    }

    /// Whether only the status differs between this escrow and `before`.
    pub open spec fn moved_from(&self, before: &Escrow, status: EscrowStatus) -> bool {
        &&& self.status() == status
        &&& self.amount() == before.amount()
        &&& self.channel() == before.channel()
        &&& self.approvals() == before.approvals()
        &&& self.is_hold() == before.is_hold()
        &&& self.hold_hash() == before.hold_hash()
    }

    /// Where the escrow stands.
    pub fn current_status(&self) -> (status: EscrowStatus)
        ensures
            status == self.status(),
    {
        self.status
    }

    /// The amount in escrow, in satoshis.
    pub fn amount_sats(&self) -> (amount: u64)
        ensures
            amount == self.amount(),
    {
        self.amount_sats
    }

    /// Funds a hold escrow: `amount_sats` is reserved on the channel against
    /// the payment hash. Nothing is reserved when the store refuses.
    pub fn fund_hold(
        store: &mut ChannelManager,
        channel_id: [u8; 32],
        amount_sats: u64,
        payment_hash: PaymentHash,
    ) -> (r: PaymentResult<Escrow>)
        requires
            old(store).wf(),
        ensures
            final(store).wf(),
            final(store)@ == old(store)@,
            match reserve_refusal(old(store)@, old(store).reservations(), channel_id@,
                amount_sats) {
                Some(e) => r == Err::<Escrow, PaymentError>(e) && final(store).same_as(old(store)),
                None => {
                    &&& r is Ok
                    &&& r->Ok_0.status() == EscrowStatus::Funded
                    &&& r->Ok_0.amount() == amount_sats
                    &&& r->Ok_0.channel() == channel_id
                    &&& r->Ok_0.is_hold()
                    &&& r->Ok_0.hold_hash() == payment_hash.0@
                    &&& r->Ok_0.revealed() is None
                    &&& final(store).reservations() == old(store).reservations().update(
                        index_of(old(store)@, channel_id@),
                        (old(store).reservations()[index_of(old(store)@, channel_id@)]
                            + amount_sats) as u64,
                    )
                },
            },
    {
        match store.reserve(&channel_id, amount_sats) {
            Ok(()) => {},
            Err(e) => {
                return Err(e);
            },
        }
        Ok(
            Escrow {
                kind: EscrowType::LightningHold { payment_hash, preimage: None },
                status: EscrowStatus::Funded,
                amount_sats,
                channel_id,
                approvals: Approvals { funder: false, claimant: false, arbiter: false },
            },
        )
    }

    /// Records a multisig escrow that has been funded on chain.
    pub fn record_multisig(
        funder_pubkey: String,
        claimant_pubkey: String,
        arbiter_pubkey: String,
        redeem_script: String,
        amount_sats: u64,
    ) -> (escrow: Escrow)
        ensures
            escrow.status() == EscrowStatus::Funded,
            escrow.amount() == amount_sats,
            !escrow.is_hold(),
            escrow.approvals() == (Approvals { funder: false, claimant: false, arbiter: false }),
            escrow.kind() == (EscrowType::MultiSig {
                funder_pubkey,
                claimant_pubkey,
                arbiter_pubkey,
                redeem_script,
            }),
    {
        Escrow {
            kind: EscrowType::MultiSig {
                funder_pubkey,
                claimant_pubkey,
                arbiter_pubkey,
                redeem_script,
            },
            status: EscrowStatus::Funded,
            amount_sats,
            channel_id: [0u8;32],
            approvals: Approvals { funder: false, claimant: false, arbiter: false },
        }
    }

    /// Why a hold escrow cannot be released against a preimage with the
    /// given digest, if it cannot: the escrow must be a hold escrow that is
    /// funded, the digest must be the payment hash, and the store must be
    /// able to pay out the reservation.
    pub open spec fn hold_release_refusal(
        &self,
        channels: Seq<PaymentChannel>,
        reserved: Seq<u64>,
        digest: Seq<u8>,
    ) -> Option<PaymentError> {
        if !self.is_hold() {
            Some(PaymentError::Escrow(EscrowError::WrongKind))
        } else if self.status() != EscrowStatus::Funded {
            Some(PaymentError::Escrow(EscrowError::InvalidTransition))
        } else if digest != self.hold_hash() {
            Some(PaymentError::Escrow(EscrowError::PreimageMismatch))
        } else {
            match commit_refusal(channels, reserved, self.channel()@, self.amount()) {
                Some(e) => Some(PaymentError::Channel(e)),
                None => None,
            }
        }
    }

    /// Releases a funded hold escrow against a preimage whose SHA-256
    /// digest is `digest`: the reserved funds are paid to the remote side
    /// of the channel and the preimage is kept. Nothing changes when the
    /// release is refused.
    pub fn release_with_digest(
        &mut self,
        store: &mut ChannelManager,
        preimage: [u8; 32],
        digest: &[u8; 32],
    ) -> (r: PaymentResult<()>)
        requires
            old(store).wf(),
        ensures
            final(store).wf(),
            evolves(old(store)@, final(store)@),
            match old(self).hold_release_refusal(old(store)@, old(store).reservations(), digest@) {
                Some(e) => r == Err::<(), PaymentError>(e) && *final(self) == *old(self)
                    && final(store).same_as(old(store)),
                None => {
                    let c = index_of(old(store)@, old(self).channel()@);
                    let channel = old(store)@[c];
                    &&& r == Ok::<(), PaymentError>(())
                    &&& final(self).moved_from(old(self), EscrowStatus::Released)
                    &&& final(self).revealed() == Some(preimage@)
                    &&& final(store)@ == old(store)@.update(
                        c,
                        PaymentChannel {
                            local_balance: (channel.local_balance - old(self).amount()) as u64,
                            remote_balance: (channel.remote_balance + old(self).amount()) as u64,
                            ..channel
                        },
                    )
                    &&& final(store).reservations() == old(store).reservations().update(
                        c,
                        (old(store).reservations()[c] - old(self).amount()) as u64,
                    )
                },
            },
    {
        proof {
            ChannelManager::lemma_evolves_reflexive(store@);
        }
        let payment_hash = match &self.kind {
            EscrowType::LightningHold { payment_hash, .. } => *payment_hash,
            _ => {
                return Err(PaymentError::Escrow(EscrowError::WrongKind));
            },
        };
        if self.status != EscrowStatus::Funded {
            return Err(PaymentError::Escrow(EscrowError::InvalidTransition));
        }
        if !bytes_equal(digest, &payment_hash.0) {
            return Err(PaymentError::Escrow(EscrowError::PreimageMismatch));
        }
        match store.commit(&self.channel_id, self.amount_sats) {
            Ok(()) => {},
            Err(e) => {
                return Err(e);
            },
        }
        self.kind = EscrowType::LightningHold { payment_hash, preimage: Some(preimage) };
        self.status = EscrowStatus::Released;
        Ok(())
    }

    /// Releases a funded hold escrow against a preimage that hashes to its
    /// payment hash.
    pub fn release_with_preimage(&mut self, store: &mut ChannelManager, preimage: [u8; 32]) -> (r:
        PaymentResult<()>)
        requires
            old(store).wf(),
        ensures
            final(store).wf(),
            evolves(old(store)@, final(store)@),
            match old(self).hold_release_refusal(
                old(store)@,
                old(store).reservations(),
                sha256(preimage@),
            ) {
                Some(e) => r == Err::<(), PaymentError>(e) && *final(self) == *old(self)
                    && final(store).same_as(old(store)),
                None => {
                    let c = index_of(old(store)@, old(self).channel()@);
                    let channel = old(store)@[c];
                    &&& r == Ok::<(), PaymentError>(())
                    &&& final(self).moved_from(old(self), EscrowStatus::Released)
                    &&& final(self).revealed() == Some(preimage@)
                    &&& final(store)@ == old(store)@.update(
                        c,
                        PaymentChannel {
                            local_balance: (channel.local_balance - old(self).amount()) as u64,
                            remote_balance: (channel.remote_balance + old(self).amount()) as u64,
                            ..channel
                        },
                    )
                    &&& final(store).reservations() == old(store).reservations().update(
                        c,
                        (old(store).reservations()[c] - old(self).amount()) as u64,
                    )
                },
            },
    {
        let digest = sha256_of_32(&preimage);
        self.release_with_digest(store, preimage, &digest)
    }

    /// Records the approval of a party to a multisig escrow that is funded
    /// or disputed.
    pub fn approve(&mut self, party: EscrowParty) -> (r: PaymentResult<()>)
        ensures
            if old(self).is_hold() {
                r == Err::<(), PaymentError>(PaymentError::Escrow(EscrowError::WrongKind))
                    && *final(self) == *old(self)
            } else if old(self).status().terminal() {
                r == Err::<(), PaymentError>(PaymentError::Escrow(EscrowError::InvalidTransition))
                    && *final(self) == *old(self)
            } else {
                &&& r == Ok::<(), PaymentError>(())
                &&& final(self).approvals() == old(self).approvals().with(party)
                &&& final(self).status() == old(self).status()
                &&& final(self).amount() == old(self).amount()
                &&& final(self).kind() == old(self).kind()
            },
    {
        if let EscrowType::LightningHold { .. } = &self.kind {
            return Err(PaymentError::Escrow(EscrowError::WrongKind));
        }
        if self.status.is_terminal() {
            return Err(PaymentError::Escrow(EscrowError::InvalidTransition));
        }
        match party {
            EscrowParty::Funder => {
                self.approvals.funder = true;
            },
            EscrowParty::Claimant => {
                self.approvals.claimant = true;
            },
            EscrowParty::Arbiter => {
                self.approvals.arbiter = true;
            },
        }
        Ok(())
    }

    /// Releases a funded multisig escrow that two of the three parties have
    /// approved.
    pub fn release_multisig(&mut self) -> (r: PaymentResult<()>)
        ensures
            if old(self).is_hold() {
                r == Err::<(), PaymentError>(PaymentError::Escrow(EscrowError::WrongKind))
                    && *final(self) == *old(self)
            } else if old(self).status() != EscrowStatus::Funded {
                r == Err::<(), PaymentError>(PaymentError::Escrow(EscrowError::InvalidTransition))
                    && *final(self) == *old(self)
            } else if old(self).approvals().count() < 2 {
                r == Err::<(), PaymentError>(PaymentError::Escrow(EscrowError::MissingApproval))
                    && *final(self) == *old(self)
            } else {
                &&& r == Ok::<(), PaymentError>(())
                &&& final(self).moved_from(old(self), EscrowStatus::Released)
                &&& final(self).kind() == old(self).kind()
            },
    {
        if let EscrowType::LightningHold { .. } = &self.kind {
            return Err(PaymentError::Escrow(EscrowError::WrongKind));
        }
        if self.status != EscrowStatus::Funded {
            return Err(PaymentError::Escrow(EscrowError::InvalidTransition));
        }
        let mut count: u8 = 0;
        if self.approvals.funder {
            count += 1;
        }
        if self.approvals.claimant {
            count += 1;
        }
        if self.approvals.arbiter {
            count += 1;
        }
        if count < 2 {
            return Err(PaymentError::Escrow(EscrowError::MissingApproval));
        }
        self.status = EscrowStatus::Released;
        Ok(())
    }

    /// Marks a funded escrow as disputed.
    pub fn dispute(&mut self) -> (r: PaymentResult<()>)
        ensures
            if old(self).status() == EscrowStatus::Funded {
                &&& r == Ok::<(), PaymentError>(())
                &&& final(self).moved_from(old(self), EscrowStatus::Disputed)
                &&& final(self).kind() == old(self).kind()
            } else {
                r == Err::<(), PaymentError>(PaymentError::Escrow(EscrowError::InvalidTransition))
                    && *final(self) == *old(self)
            },
    {
        if self.status != EscrowStatus::Funded {
            return Err(PaymentError::Escrow(EscrowError::InvalidTransition));
        }
        self.status = EscrowStatus::Disputed;
        Ok(())
    }

    /// Why an escrow cannot be ended the given way by going back to the
    /// store, if it cannot. A hold escrow needs the store to pay out or give
    /// back its reservation; a multisig escrow needs nothing from the store.
    pub open spec fn closing_refusal(
        &self,
        channels: Seq<PaymentChannel>,
        reserved: Seq<u64>,
        pay_out: bool,
    ) -> Option<PaymentError> {
        if !self.is_hold() {
            None
        } else if pay_out {
            match commit_refusal(channels, reserved, self.channel()@, self.amount()) {
                Some(e) => Some(PaymentError::Channel(e)),
                None => None,
            }
        } else {
            match release_refusal(channels, reserved, self.channel()@, self.amount()) {
                Some(e) => Some(PaymentError::Channel(e)),
                None => None,
            }
        }
    }

    /// What ending an escrow does to the store: the reservation of a hold
    /// escrow is paid out or given back; a multisig escrow changes nothing.
    pub open spec fn closed_store(
        &self,
        before: &ChannelManager,
        after: &ChannelManager,
        pay_out: bool,
    ) -> bool {
        let c = index_of(before@, self.channel()@);
        let channel = before@[c];
        if !self.is_hold() {
            after.same_as(before)
        } else {
            &&& after.reservations() == before.reservations().update(
                c,
                (before.reservations()[c] - self.amount()) as u64,
            )
            &&& after@ == if pay_out {
                before@.update(
                    c,
                    PaymentChannel {
                        local_balance: (channel.local_balance - self.amount()) as u64,
                        remote_balance: (channel.remote_balance + self.amount()) as u64,
                        ..channel
                    },
                )
            } else {
                before@
            }
        }
    }

    /// Ends the escrow by going back to the store.
    fn close(&mut self, store: &mut ChannelManager, pay_out: bool) -> (r: PaymentResult<()>)
        requires
            old(store).wf(),
        ensures
            final(store).wf(),
            evolves(old(store)@, final(store)@),
            match old(self).closing_refusal(old(store)@, old(store).reservations(), pay_out) {
                Some(e) => r == Err::<(), PaymentError>(e) && *final(self) == *old(self)
                    && final(store).same_as(old(store)),
                None => {
                    &&& r == Ok::<(), PaymentError>(())
                    &&& final(self).moved_from(
                        old(self),
                        if pay_out {
                            EscrowStatus::Released
                        } else {
                            EscrowStatus::Refunded
                        },
                    )
                    &&& final(self).kind() == old(self).kind()
                    &&& old(self).closed_store(old(store), final(store), pay_out)
                },
            },
    {
        proof {
            ChannelManager::lemma_evolves_reflexive(store@);
        }
        if let EscrowType::LightningHold { .. } = &self.kind {
            let done = if pay_out {
                store.commit(&self.channel_id, self.amount_sats)
            } else {
                store.release(&self.channel_id, self.amount_sats)
            };
            match done {
                Ok(()) => {},
                Err(e) => {
                    return Err(e);
                },
            }
        }
        self.status = if pay_out {
            EscrowStatus::Released
        } else {
            EscrowStatus::Refunded
        };
        Ok(())
    }

    /// Refunds a funded escrow: the reservation of a hold escrow is given
    /// back. Nothing changes when the refund is refused.
    pub fn refund(&mut self, store: &mut ChannelManager) -> (r: PaymentResult<()>)
        requires
            old(store).wf(),
        ensures
            final(store).wf(),
            evolves(old(store)@, final(store)@),
            if old(self).status() != EscrowStatus::Funded {
                r == Err::<(), PaymentError>(PaymentError::Escrow(EscrowError::InvalidTransition))
                    && *final(self) == *old(self) && final(store).same_as(old(store))
            } else {
                match old(self).closing_refusal(old(store)@, old(store).reservations(), false) {
                    Some(e) => r == Err::<(), PaymentError>(e) && *final(self) == *old(self)
                        && final(store).same_as(old(store)),
                    None => {
                        &&& r == Ok::<(), PaymentError>(())
                        &&& final(self).moved_from(old(self), EscrowStatus::Refunded)
                        &&& final(self).kind() == old(self).kind()
                        &&& old(self).closed_store(old(store), final(store), false)
                    },
                }
            },
    {
        proof {
            ChannelManager::lemma_evolves_reflexive(store@);
        }
        if self.status != EscrowStatus::Funded {
            return Err(PaymentError::Escrow(EscrowError::InvalidTransition));
        }
        self.close(store, false)
    }

    /// Records how a dispute was resolved: the escrow is released when
    /// `release`, else refunded, and the reservation of a hold escrow is
    /// paid out or given back accordingly. Nothing changes when the escrow
    /// is not disputed or the store refuses.
    pub fn resolve(&mut self, store: &mut ChannelManager, release: bool) -> (r: PaymentResult<()>)
        requires
            old(store).wf(),
        ensures
            final(store).wf(),
            evolves(old(store)@, final(store)@),
            if old(self).status() != EscrowStatus::Disputed {
                r == Err::<(), PaymentError>(PaymentError::Escrow(EscrowError::InvalidTransition))
                    && *final(self) == *old(self) && final(store).same_as(old(store))
            } else {
                match old(self).closing_refusal(old(store)@, old(store).reservations(), release) {
                    Some(e) => r == Err::<(), PaymentError>(e) && *final(self) == *old(self)
                        && final(store).same_as(old(store)),
                    None => {
                        &&& r == Ok::<(), PaymentError>(())
                        &&& final(self).moved_from(
                            old(self),
                            if release {
                                EscrowStatus::Released
                            } else {
                                EscrowStatus::Refunded
                            },
                        )
                        &&& final(self).kind() == old(self).kind()
                        &&& old(self).closed_store(old(store), final(store), release)
                    },
                }
            },
    {
        proof {
            ChannelManager::lemma_evolves_reflexive(store@);
        }
        if self.status != EscrowStatus::Disputed {
            return Err(PaymentError::Escrow(EscrowError::InvalidTransition));
        }
        self.close(store, release)
    }
}

} // verus!

//! The interfaces of the payment engine's components.
//!
//! Each trait states its contract over spec functions that the implementer
//! defines: an invariant, and a view of the state that the contract speaks of.

use vstd::prelude::*;

use crate::errors::{ChannelError, InvoiceError, PaymentError, PaymentResult};
use crate::implementation::channels::{
    active_of, close_refusal, evolves, has_channel, index_of, terms_refusal, total_local,
    ChannelManager,
};
use crate::implementation::invoices::{
    generation_refusal, has_invoice, verify_outcome, InvoiceGenerator,
};
use crate::implementation::plugin::PaymentPlugin;
use crate::implementation::router::PaymentRouter;
use crate::types::{ChannelState, PaymentChannel, PaymentInvoice, PaymentRoute, PaymentStatus};

verus! {

/// Trait for channel management providers.
pub trait ChannelProvider: Send + Sync {
    /// The provider's invariant.
    spec fn provider_wf(&self) -> bool;

    /// The channels of the provider, in a fixed order.
    spec fn channel_list(&self) -> Seq<PaymentChannel>;

    /// The smallest and the largest capacity that the provider opens a
    /// channel with.
    spec fn capacity_limits(&self) -> (u64, u64);

    /// Get all channels.
    fn channels(&self) -> (all: &[PaymentChannel])
        requires
            self.provider_wf(),
        ensures
            all@ == self.channel_list(),
    ;

    /// Get active channels only.
    fn active_channels(&self) -> (active: Vec<&PaymentChannel>)
        requires
            self.provider_wf(),
        ensures
            active@.len() == active_of(self.channel_list(), self.channel_list().len() as int).len(),
            forall|k: int|
                0 <= k < active@.len() ==> *(#[trigger] active@[k]) == active_of(
                    self.channel_list(),
                    self.channel_list().len() as int,
                )[k],
    ;

    /// Get total local balance across all active channels.
    fn total_local_balance(&self) -> (total: u64)
        requires
            self.provider_wf(),
        ensures
            total == total_local(self.channel_list(), self.channel_list().len() as int),
    ;

    /// Open a new channel with a peer.
    ///
    /// A malformed peer key and a capacity outside the limits or beyond the
    /// supply are refused as such. With sound terms the channel is opened,
    /// unless no identifier could be drawn or the one drawn is taken. A
    /// channel that is opened is new, balanced, and opening or active.
    fn open_channel(&mut self, peer_pubkey: [u8; 33], capacity: u64) -> (r: PaymentResult<[u8; 32]>)
        requires
            old(self).provider_wf(),
        ensures
            final(self).provider_wf(),
            final(self).capacity_limits() == old(self).capacity_limits(),
            evolves(old(self).channel_list(), final(self).channel_list()),
            match terms_refusal(
                old(self).channel_list(),
                old(self).capacity_limits().0,
                old(self).capacity_limits().1,
                peer_pubkey@,
                capacity,
                0,
            ) {
                Some(e) => r == Err::<[u8; 32], PaymentError>(PaymentError::Channel(e)),
                None => r matches Err(e) ==> {
                    ||| e == PaymentError::Channel(ChannelError::EntropyUnavailable)
                    ||| e == PaymentError::Channel(ChannelError::DuplicateChannel)
                },
            },
            r is Err ==> final(self).channel_list() == old(self).channel_list(),
            r matches Ok(id) ==> {
                let opened = final(self).channel_list().last();
                &&& final(self).channel_list().len() == old(self).channel_list().len() + 1
                &&& !has_channel(old(self).channel_list(), id@)
                &&& opened.channel_id == id
                &&& opened.peer_pubkey == peer_pubkey
                &&& opened.capacity == capacity
                &&& opened.balanced()
                &&& opened.state == ChannelState::Opening || opened.state == ChannelState::Active
            },
    ;

    /// Close a channel cooperatively.
    ///
    /// An unknown, terminal or still opening channel is refused, with
    /// nothing changed; any other channel ends up closed.
    fn close_channel(&mut self, channel_id: &[u8; 32]) -> (r: PaymentResult<()>)
        requires
            old(self).provider_wf(),
        ensures
            final(self).provider_wf(),
            evolves(old(self).channel_list(), final(self).channel_list()),
            match close_refusal(old(self).channel_list(), channel_id@) {
                Some(e) => r == Err::<(), PaymentError>(PaymentError::Channel(e))
                    && final(self).channel_list() == old(self).channel_list(),
                None => r == Ok::<(), PaymentError>(()) && final(self).channel_list()
                    == old(self).channel_list().update(
                    index_of(old(self).channel_list(), channel_id@),
                    PaymentChannel {
                        state: ChannelState::Closed,
                        ..old(self).channel_list()[index_of(old(self).channel_list(), channel_id@)]
                    },
                ),
            },
    ;
}

/// Trait for invoice generation and verification.
pub trait InvoiceProvider: Send + Sync {
    /// The provider's invariant.
    spec fn provider_wf(&self) -> bool;

    /// The invoices that the provider has issued, oldest first.
    spec fn issued(&self) -> Seq<PaymentInvoice>;

    /// Generate a new invoice.
    ///
    /// An empty description is refused as such, and nothing else is; with a
    /// description, only the random source, the clock, the expiry's range or
    /// a payment hash drawn twice can stand in the way. An invoice that is
    /// generated carries the amount and the description that were asked for,
    /// has a payment hash that was not issued before, and is kept.
    fn generate_invoice(&mut self, amount: Option<u64>, description: &str) -> (r: PaymentResult<
        PaymentInvoice,
    >)
        requires
            old(self).provider_wf(),
        ensures
            final(self).provider_wf(),
            description@.len() == 0 <==> r == Err::<PaymentInvoice, PaymentError>(
                PaymentError::Invoice(InvoiceError::EmptyDescription),
            ),
            r matches Err(e) ==> description@.len() == 0 || generation_refusal(e),
            r is Err ==> final(self).issued() == old(self).issued(),
            r matches Ok(invoice) ==> invoice.amount == amount && invoice.description@
                == description@ && !has_invoice(old(self).issued(), invoice.payment_hash@)
                && final(self).issued() == old(self).issued().push(invoice),
    ;

    /// Verify an invoice is valid and not expired.
    ///
    /// The result is that of comparing the invoice's expiry with some time,
    /// unless the time cannot be had.
    fn verify_invoice(&self, invoice: &PaymentInvoice) -> (r: PaymentResult<bool>)
        ensures
            r == Err::<bool, PaymentError>(PaymentError::Invoice(InvoiceError::ClockUnavailable))
                || exists|now: u64| r == verify_outcome(invoice.expiry, now),
    ;
}

/// Trait for payment processing.
pub trait PaymentProcessor: Send + Sync {
    /// The processor's invariant.
    spec fn processor_wf(&self) -> bool;

    /// The routing graph that the processor searches.
    spec fn routing_graph(&self) -> PaymentRouter;

    /// The spendable balance, in satoshis.
    spec fn spendable(&self) -> int;

    /// The status of the payment with the given payment hash, if the
    /// processor has a record of one.
    spec fn payment_status(&self, hash: Seq<u8>) -> Option<PaymentStatus>;

    /// Find a route to the destination.
    fn find_route(&self, destination: &[u8; 33], amount_msat: u64) -> (r: PaymentResult<
        PaymentRoute,
    >)
        requires
            self.processor_wf(),
        ensures
            r is Ok <==> self.routing_graph().routable(
                destination@,
                amount_msat,
                Set::empty(),
                true,
            ),
            r matches Ok(route) ==> self.routing_graph().cheapest(
                route,
                destination@,
                amount_msat,
                Set::empty(),
            ),
    ;

    /// Send a payment of the provided invoice to the destination.
    ///
    /// A payment that is recorded as pending, in flight or succeeded is not
    /// sent again: its status is returned. A status that is returned is the
    /// status on record afterwards, and after an error the payment is on
    /// record as failed, if at all.
    fn send_payment(
        &mut self,
        invoice: &PaymentInvoice,
        destination: [u8; 33],
    ) -> (r: PaymentResult<PaymentStatus>)
        requires
            old(self).processor_wf(),
        ensures
            final(self).processor_wf(),
            old(self).payment_status(invoice.payment_hash@) matches Some(status) ==> (status
                != PaymentStatus::Failed ==> r == Ok::<PaymentStatus, PaymentError>(status)),
            r matches Ok(status) ==> final(self).payment_status(invoice.payment_hash@) == Some(
                status,
            ),
            r is Err ==> (final(self).payment_status(invoice.payment_hash@) matches Some(status)
                ==> status == PaymentStatus::Failed),
    ;

    /// Get total spendable balance.
    fn spendable_balance(&self) -> (balance: u64)
        requires
            self.processor_wf(),
        ensures
            balance == self.spendable(),
    ;
}

impl ChannelProvider for ChannelManager {
    open spec fn provider_wf(&self) -> bool {
        self.wf()
    }

    open spec fn channel_list(&self) -> Seq<PaymentChannel> {
        self@
    }

    open spec fn capacity_limits(&self) -> (u64, u64) {
        (self.min_capacity(), self.max_capacity())
    }

    fn channels(&self) -> (all: &[PaymentChannel]) {
        self.list()
    }

    fn active_channels(&self) -> (active: Vec<&PaymentChannel>) {
        self.active()
    }

    fn total_local_balance(&self) -> (total: u64) {
        ChannelManager::total_local_balance(self)
    }

    fn open_channel(
        &mut self,
        peer_pubkey: [u8; 33],
        capacity: u64,
    ) -> (r: PaymentResult<[u8; 32]>) {
        ChannelManager::open_channel(self, peer_pubkey, capacity)
    }

    fn close_channel(&mut self, channel_id: &[u8; 32]) -> (r: PaymentResult<()>) {
        ChannelManager::close_channel(self, channel_id)
    }
}

impl PaymentProcessor for PaymentPlugin {
    open spec fn processor_wf(&self) -> bool {
        self.wf()
    }

    open spec fn routing_graph(&self) -> PaymentRouter {
        self.graph()
    }

    open spec fn spendable(&self) -> int {
        total_local(self.store()@, self.store()@.len() as int)
    }

    open spec fn payment_status(&self, hash: Seq<u8>) -> Option<PaymentStatus> {
        self.status_of(hash)
    }

    fn find_route(&self, destination: &[u8; 33], amount_msat: u64) -> (r: PaymentResult<
        PaymentRoute,
    >) {
        self.router().find_route(destination, amount_msat)
    }

    fn send_payment(
        &mut self,
        invoice: &PaymentInvoice,
        destination: [u8; 33],
    ) -> (r: PaymentResult<PaymentStatus>) {
        let r = PaymentPlugin::send_payment(self, invoice, destination);
        proof {
            if r != Err::<PaymentStatus, PaymentError>(
                PaymentError::Invoice(InvoiceError::ClockUnavailable),
            ) {
            }
        }
        r
    }

    fn spendable_balance(&self) -> (balance: u64) {
        PaymentPlugin::spendable_balance(self).satoshis
    }
}

impl InvoiceProvider for InvoiceGenerator {
    open spec fn provider_wf(&self) -> bool {
        self.wf()
    }

    open spec fn issued(&self) -> Seq<PaymentInvoice> {
        self@
    }

    fn generate_invoice(&mut self, amount: Option<u64>, description: &str) -> (r: PaymentResult<
        PaymentInvoice,
    >) {
        InvoiceGenerator::generate_invoice(self, amount, description)
    }

    fn verify_invoice(&self, invoice: &PaymentInvoice) -> (r: PaymentResult<bool>) {
        self.verify(invoice)
    }
}

} // verus!

//! Payment plugin implementation.
//!
//! The plugin owns the channel store, the invoice registry and the router,
//! and runs payments through them. A payment is submitted (the invoice is
//! verified and the balance checked), dispatched (a route is found and its
//! cost reserved on the channel of the first hop), and settled (the amount
//! moves along the route and the reservation is paid out). A hop that fails
//! releases the reservation; the payment is then routed afresh around the
//! failing channel, as long as retries are left.

use vstd::prelude::*;

use crate::errors::{ChannelError, InvoiceError, PaymentError, PaymentResult, RoutingError};
use crate::implementation::channels::{
    commit_refusal, evolves, first_spendable, has_channel, index_of, lemma_first_spendable,
    release_refusal, total_local, ChannelManager,
};
use crate::implementation::config::PaymentConfig;
use crate::implementation::invoices::{expiry_after, generation_refusal, InvoiceGenerator};
use crate::implementation::lightning::{
    bolt11_text, demo_pubkey, has_lightning_invoice, LightningNodeImpl,
};
use crate::implementation::router::{
    failing_hop, same_shape, settled, PaymentRouter, DEFAULT_RISK_FACTOR,
};
use crate::index::KeyIndex;
use crate::sources::unix_seconds;
use crate::types::{
    ChannelState, LightningInvoice, PaymentAmount, PaymentChannel, PaymentHash, PaymentInvoice,
    PaymentRoute, PaymentStatus, RouteHop, MAX_SATOSHIS,
};

verus! {

/// What the engine records of a payment.
#[derive(Debug)]
pub struct PaymentAttempt {
    /// The payment hash of the invoice being paid.
    pub payment_hash: [u8; 32],
    /// The node that is paid.
    pub destination: [u8; 33],
    /// The amount that the destination receives, in satoshis.
    pub amount_sats: u64,
    /// Where the payment stands.
    pub status: PaymentStatus,
    /// The channel on which the payment holds a reservation.
    pub channel_id: [u8; 32],
    /// What the payment has reserved on that channel, in satoshis.
    pub reserved_sats: u64,
    /// The route of the current attempt.
    pub route: PaymentRoute,
    /// The channels that failed in earlier attempts.
    pub excluded: Vec<u64>,
    /// How many times the payment has been routed afresh.
    pub retries: u32,
    /// When the payment was submitted, in seconds since the Unix epoch.
    pub started_at: u64,
}

/// A payment record as a plain value.
pub ghost struct AttemptView {
    pub payment_hash: Seq<u8>,
    pub destination: Seq<u8>,
    pub amount_sats: u64,
    pub status: PaymentStatus,
    pub channel_id: Seq<u8>,
    pub reserved_sats: u64,
    pub hops: Seq<RouteHop>,
    pub total_fees_msat: u64,
    pub total_cltv_delta: u32,
    pub excluded: Seq<u64>,
    pub retries: u32,
    pub started_at: u64,
}

impl View for PaymentAttempt {
    type V = AttemptView;

    open spec fn view(&self) -> AttemptView {
        AttemptView {
            payment_hash: self.payment_hash@,
            destination: self.destination@,
            amount_sats: self.amount_sats,
            status: self.status,
            channel_id: self.channel_id@,
            reserved_sats: self.reserved_sats,
            hops: self.route.hops@,
            total_fees_msat: self.route.total_fees_msat,
            total_cltv_delta: self.route.total_cltv_delta,
            excluded: self.excluded@,
            retries: self.retries,
            started_at: self.started_at,
        }
    }
}

impl AttemptView {
    /// The record of a payment that has just been submitted.
    pub open spec fn fresh(
        hash: Seq<u8>,
        destination: Seq<u8>,
        amount: u64,
        now: u64,
    ) -> AttemptView {
        AttemptView {
            payment_hash: hash,
            destination,
            amount_sats: amount,
            status: PaymentStatus::Pending,
            channel_id: Seq::new(32, |i: int| 0u8),
            reserved_sats: 0,
            hops: Seq::empty(),
            total_fees_msat: 0,
            total_cltv_delta: 0,
            excluded: Seq::empty(),
            retries: 0,
            started_at: now,
        }
    }

    /// The record once the payment has ended with the given status and
    /// holds no reservation any more.
    pub open spec fn ended(self, status: PaymentStatus) -> AttemptView {
        AttemptView { status, reserved_sats: 0, ..self }
    }

    /// The record once `debit` is reserved on the channel `channel_id` for
    /// the given route.
    pub open spec fn flying(
        self,
        channel_id: Seq<u8>,
        debit: u64,
        route: PaymentRoute,
    ) -> AttemptView {
        AttemptView {
            status: PaymentStatus::InFlight,
            channel_id,
            reserved_sats: debit,
            hops: route.hops@,
            total_fees_msat: route.total_fees_msat,
            total_cltv_delta: route.total_cltv_delta,
            ..self
        }
    }

    /// Whether the payment is pending or in flight.
    pub open spec fn in_progress(self) -> bool {
        self.status == PaymentStatus::Pending || self.status == PaymentStatus::InFlight
    }
}

/// Whether some record has the payment hash `hash`.
pub open spec fn has_attempt(attempts: Seq<AttemptView>, hash: Seq<u8>) -> bool {
    exists|i: int| 0 <= i < attempts.len() && (#[trigger] attempts[i]).payment_hash == hash
}

/// The position of a record with the payment hash `hash`.
pub open spec fn attempt_index(attempts: Seq<AttemptView>, hash: Seq<u8>) -> int {
    choose|i: int| 0 <= i < attempts.len() && (#[trigger] attempts[i]).payment_hash == hash
}

/// Whether `after` holds every record of `before` in its place and as it
/// was, but for the record of the payment `hash`: that one is replaced if
/// `before` has it, and stands behind the others if not. No other record
/// of `after` is one of that payment.
pub open spec fn others_kept(
    before: Seq<AttemptView>,
    after: Seq<AttemptView>,
    hash: Seq<u8>,
) -> bool {
    &&& after.len() == if has_attempt(before, hash) {
        before.len()
    } else {
        before.len() + 1
    }
    &&& forall|k: int|
        0 <= k < before.len() && (#[trigger] before[k]).payment_hash != hash ==> after[k]
            == before[k]
    &&& forall|k: int|
        0 <= k < after.len() && (#[trigger] after[k]).payment_hash == hash ==> k == before.len()
            || before[k].payment_hash == hash
}

/// What a payment takes out of the first-hop channel, in satoshis: the
/// amount, and the route's fees rounded up to whole satoshis.
pub open spec fn debit_sats(amount_sats: u64, fees_msat: u64) -> int {
    amount_sats + (fees_msat + 999) / 1000
}

/// What becomes of a payment that is submitted.
pub ghost enum Submission {
    /// A payment for this invoice is recorded and has not failed: its status
    /// is returned and nothing is started.
    Known(PaymentStatus),
    /// The payment is refused.
    Refused(PaymentError),
    /// The payment is recorded as pending.
    Accepted,
}

/// Decides on a submitted payment: a payment that is already recorded and
/// has not failed is left alone; an expired invoice is refused; so is an
/// amount above the spendable balance.
pub open spec fn submission(
    attempts: Seq<AttemptView>,
    hash: Seq<u8>,
    expiry: u64,
    amount: u64,
    spendable: int,
    now: u64,
) -> Submission {
    if has_attempt(attempts, hash) && attempts[attempt_index(attempts, hash)].status
        != PaymentStatus::Failed {
        Submission::Known(attempts[attempt_index(attempts, hash)].status)
    } else if expiry < now {
        Submission::Refused(PaymentError::Invoice(InvoiceError::Expired))
    } else if amount > spendable {
        Submission::Refused(
            PaymentError::InsufficientFunds { needed: amount, available: spendable as u64 },
        )
    } else {
        Submission::Accepted
    }
}

/// Main payment plugin interface.
#[derive(Debug)]
pub struct PaymentPlugin {
    config: PaymentConfig,
    channel_manager: ChannelManager,
    invoice_generator: InvoiceGenerator,
    router: PaymentRouter,
    lightning_node: LightningNodeImpl,
    attempts: Vec<PaymentAttempt>,
    index: KeyIndex,
}

impl PaymentPlugin {
    /// The configuration.
    pub closed spec fn settings(&self) -> PaymentConfig {
        self.config
    }

    /// The channel store.
    pub closed spec fn store(&self) -> ChannelManager {
        self.channel_manager
    }

    /// The invoice registry.
    pub closed spec fn registry(&self) -> InvoiceGenerator {
        self.invoice_generator
    }

    /// The routing graph.
    pub closed spec fn graph(&self) -> PaymentRouter {
        self.router
    }

    /// The Lightning node.
    pub closed spec fn node(&self) -> LightningNodeImpl {
        self.lightning_node
    }

    /// The payment records, oldest first.
    pub closed spec fn attempts(&self) -> Seq<AttemptView> {
        self.attempts@.map_values(|a: PaymentAttempt| a@)
    }

    /// The index holds exactly the payment hashes of the records, each with
    /// the position of its record.
    pub closed spec fn indexed(&self) -> bool {
        &&& self.index.wf()
        &&& forall|i: int|
            0 <= i < self.attempts@.len() ==> self.index.holds(
                (#[trigger] self.attempts@[i]).payment_hash@,
            ) && self.index.position(self.attempts@[i].payment_hash@) == i
        &&& forall|key: Seq<u8>| #[trigger]
            self.index.holds(key) ==> self.index.position(key) < self.attempts@.len()
                && self.attempts@[self.index.position(key) as int].payment_hash@ == key
    }

    /// The plugin's invariant: every part is well formed, no payment hash
    /// has two records, no recorded amount exceeds the supply, and the index
    /// of the records is up to date.
    pub open spec fn wf(&self) -> bool {
        &&& self.indexed()
        &&& self.store().wf()
        &&& self.registry().wf()
        &&& self.graph().wf()
        &&& self.node().wf()
        &&& forall|i: int, j: int|
            0 <= i < self.attempts().len() && 0 <= j < self.attempts().len() && i != j ==> (
            #[trigger] self.attempts()[i]).payment_hash != (
            #[trigger] self.attempts()[j]).payment_hash
        &&& forall|i: int|
            0 <= i < self.attempts().len() ==> (#[trigger] self.attempts()[i]).amount_sats
                <= MAX_SATOSHIS
    }

    /// Whether everything but the store, the graph and the payment records
    /// is as in `before`.
    pub open spec fn rest_unchanged(&self, before: &PaymentPlugin) -> bool {
        &&& self.settings() == before.settings()
        &&& self.registry() == before.registry()
        &&& self.node() == before.node()
    }

    /// Whether the engine is as it is made from `config`: no channel, no
    /// invoice, no payment, an empty graph without a local node and with the
    /// default risk weight, and a node called `EssentiaNode` that holds
    /// nothing yet.
    pub open spec fn fresh(&self, config: PaymentConfig) -> bool {
        &&& self.settings() == config
        &&& self.store()@.len() == 0
        &&& self.store().min_capacity() == config.min_channel_capacity
        &&& self.store().max_capacity() == config.max_channel_capacity
        &&& self.registry()@.len() == 0
        &&& self.registry().config() == config
        &&& self.graph().nodes().len() == 0
        &&& self.graph().graph().len() == 0
        &&& self.graph().local() is None
        &&& self.graph().risk() == DEFAULT_RISK_FACTOR
        &&& self.attempts().len() == 0
        &&& self.node().pubkey()@ == demo_pubkey()
        &&& self.node().alias() == "EssentiaNode"@
        &&& self.node().channels()@.len() == 0
        &&& self.node().channels().min_capacity() == 0
        &&& self.node().channels().max_capacity() == u64::MAX
        &&& self.node().invoices().len() == 0
    }

    /// Create a new payment plugin. The configuration is taken as it is.
    #[must_use]
    pub fn new(config: PaymentConfig) -> (plugin: Self)
        ensures
            plugin.wf(),
            plugin.fresh(config),
    {
        let invoice_generator = InvoiceGenerator::new(config);
        Self {
            config,
            channel_manager: ChannelManager::with_limits(
                config.min_channel_capacity,
                config.max_channel_capacity,
            ),
            invoice_generator,
            router: PaymentRouter::new(),
            lightning_node: LightningNodeImpl::new("EssentiaNode".to_owned()),
            attempts: Vec::new(),
            index: KeyIndex::new(),
        }
    }

    /// Create a new payment plugin from a configuration whose values lie in
    /// their valid ranges; any other configuration is refused with the first
    /// rule that it breaks.
    pub fn try_new(config: PaymentConfig) -> (r: PaymentResult<Self>)
        ensures
            match config.violation() {
                Some(e) => r matches Err(refusal) && refusal == PaymentError::Configuration(e),
                None => r matches Ok(plugin) && plugin.wf() && plugin.fresh(config),
            },
    {
        match config.validate() {
            Ok(()) => Ok(Self::new(config)),
            Err(e) => Err(e),
        }
    }

    /// Get current configuration.
    #[must_use]
    pub fn config(&self) -> (config: &PaymentConfig)
        ensures
            *config == self.settings(),
    {
        &self.config
    }

    /// Get channel manager.
    #[must_use]
    pub fn channels(&self) -> (store: &ChannelManager)
        ensures
            *store == self.store(),
    {
        &self.channel_manager
    }

    /// Get mutable channel manager.
    pub fn channels_mut(&mut self) -> (store: &mut ChannelManager)
        ensures
            *store == old(self).store(),
            final(self).store() == *final(store),
            final(self).graph() == old(self).graph(),
            final(self).attempts() == old(self).attempts(),
            final(self).rest_unchanged(old(self)),
            old(self).wf() && final(store).wf() ==> final(self).wf(),
    {
        &mut self.channel_manager
    }

    /// Get the payment router.
    #[must_use]
    pub fn router(&self) -> (router: &PaymentRouter)
        ensures
            *router == self.graph(),
    {
        &self.router
    }

    /// Get the mutable payment router.
    pub fn router_mut(&mut self) -> (router: &mut PaymentRouter)
        ensures
            *router == old(self).graph(),
            final(self).graph() == *final(router),
            final(self).store() == old(self).store(),
            final(self).attempts() == old(self).attempts(),
            final(self).rest_unchanged(old(self)),
            old(self).wf() && final(router).wf() ==> final(self).wf(),
    {
        &mut self.router
    }

    /// Get the Lightning node.
    #[must_use]
    pub fn lightning_node(&self) -> (node: &LightningNodeImpl)
        ensures
            *node == self.node(),
    {
        &self.lightning_node
    }

    /// Get mutable Lightning node.
    pub fn lightning_node_mut(&mut self) -> (node: &mut LightningNodeImpl)
        ensures
            *node == old(self).node(),
            final(self).node() == *final(node),
            final(self).store() == old(self).store(),
            final(self).graph() == old(self).graph(),
            final(self).attempts() == old(self).attempts(),
            final(self).settings() == old(self).settings(),
            final(self).registry() == old(self).registry(),
            old(self).wf() && final(node).wf() ==> final(self).wf(),
    {
        &mut self.lightning_node
    }

    /// Get total spendable balance.
    #[must_use]
    pub fn spendable_balance(&self) -> (balance: PaymentAmount)
        requires
            self.wf(),
        ensures
            balance.satoshis == total_local(self.store()@, self.store()@.len() as int),
    {
        PaymentAmount::from_satoshis(self.channel_manager.total_local_balance())
    }
}

impl Default for PaymentPlugin {
    fn default() -> (plugin: Self)
        ensures
            plugin.wf(),
            plugin.fresh(PaymentConfig::default_spec()),
    {
        Self::new(PaymentConfig::default())
    }
}

fn copy_ids(ids: &Vec<u64>) -> (copy: Vec<u64>)
    ensures
        copy@ == ids@,
{
    let mut copy: Vec<u64> = Vec::new();
    let mut i: usize = 0;
    while i < ids.len()
        invariant
            i <= ids.len(),
            copy@ == ids@.take(i as int),
        decreases ids.len() - i,
    {
        copy.push(ids[i]);
        i += 1;
    }
    copy
}

impl PaymentPlugin {
    /// The position of the record with the given payment hash, in expected
    /// constant time.
    fn attempt_position(&self, payment_hash: &[u8; 32]) -> (found: Option<usize>)
        requires
            self.wf(),
        ensures
            found is Some <==> has_attempt(self.attempts(), payment_hash@),
            found is Some <==> self.index.holds(payment_hash@),
            found matches Some(i) ==> i < self.attempts().len() && i as int == attempt_index(
                self.attempts(),
                payment_hash@,
            ) && self.attempts()[i as int].payment_hash == payment_hash@,
    {
        let found = self.index.get(payment_hash);
        found
    }

    /// Puts `attempt` in the place of the record at position `i`, which has
    /// the same payment hash.
    fn replace_attempt(&mut self, i: usize, attempt: PaymentAttempt)
        requires
            old(self).wf(),
            i < old(self).attempts().len(),
            attempt@.payment_hash == old(self).attempts()[i as int].payment_hash,
            attempt.amount_sats <= MAX_SATOSHIS,
        ensures
            final(self).wf(),
            final(self).attempts() == old(self).attempts().update(i as int, attempt@),
            final(self).store() == old(self).store(),
            final(self).graph() == old(self).graph(),
            final(self).rest_unchanged(old(self)),
    {
        let ghost before = self.attempts();
        let ghost view = attempt@;
        self.attempts[i] = attempt;
        proof {
            assert(self.attempts() =~= before.update(i as int, view));
            assert forall|a: int, b: int|
                0 <= a < self.attempts().len() && 0 <= b < self.attempts().len() && a
                    != b implies (#[trigger] self.attempts()[a]).payment_hash != (
            #[trigger] self.attempts()[b]).payment_hash by {
            }
        }
    }

    /// Ends the payment at position `i` with the given status; the record
    /// holds no reservation afterwards.
    fn end_attempt(&mut self, i: usize, status: PaymentStatus)
        requires
            old(self).wf(),
            i < old(self).attempts().len(),
        ensures
            final(self).wf(),
            final(self).attempts() == old(self).attempts().update(
                i as int,
                old(self).attempts()[i as int].ended(status),
            ),
            final(self).store() == old(self).store(),
            final(self).graph() == old(self).graph(),
            final(self).rest_unchanged(old(self)),
    {
        let held = &self.attempts[i];
        let attempt = PaymentAttempt {
            payment_hash: held.payment_hash,
            destination: held.destination,
            amount_sats: held.amount_sats,
            status,
            channel_id: held.channel_id,
            reserved_sats: 0,
            route: held.route.clone(),
            excluded: copy_ids(&held.excluded),
            retries: held.retries,
            started_at: held.started_at,
        };
        self.replace_attempt(i, attempt);
    }

    /// Get payment status by hash.
    pub fn get_payment_status(&self, payment_hash: &[u8; 32]) -> (r: PaymentResult<PaymentStatus>)
        requires
            self.wf(),
        ensures
            r == (if has_attempt(self.attempts(), payment_hash@) {
                Ok::<PaymentStatus, PaymentError>(
                    self.attempts()[attempt_index(self.attempts(), payment_hash@)].status,
                )
            } else {
                Err::<PaymentStatus, PaymentError>(
                    PaymentError::Invoice(InvoiceError::UnknownPaymentHash),
                )
            }),
    {
        match self.attempt_position(payment_hash) {
            Some(i) => {
                Ok(self.attempts[i].status)
            },
            None => Err(PaymentError::Invoice(InvoiceError::UnknownPaymentHash)),
        }
    }

    /// Submits a payment of an invoice to `destination` at the time `now`.
    ///
    /// The invoice is verified first, then its amount is checked against the
    /// spendable balance. A payment that passes is recorded as `Pending`;
    /// nothing is reserved yet. A payment whose record is pending, in flight
    /// or succeeded is not submitted again: its status is returned.
    pub fn submit_payment_at(
        &mut self,
        invoice: &PaymentInvoice,
        destination: [u8; 33],
        now: u64,
    ) -> (r: PaymentResult<PaymentStatus>)
        requires
            old(self).wf(),
        ensures
            final(self).wf(),
            final(self).store() == old(self).store(),
            final(self).graph() == old(self).graph(),
            final(self).rest_unchanged(old(self)),
            match submission(
                old(self).attempts(),
                invoice.payment_hash@,
                invoice.expiry,
                match invoice.amount {
                    Some(a) => a,
                    None => 0,
                },
                total_local(old(self).store()@, old(self).store()@.len() as int),
                now,
            ) {
                Submission::Known(status) => r == Ok::<PaymentStatus, PaymentError>(status)
                    && final(self).attempts() == old(self).attempts(),
                Submission::Refused(e) => r == Err::<PaymentStatus, PaymentError>(e)
                    && final(self).attempts() == old(self).attempts(),
                Submission::Accepted => {
                    let fresh = AttemptView::fresh(
                        invoice.payment_hash@,
                        destination@,
                        match invoice.amount {
                            Some(a) => a,
                            None => 0,
                        },
                        now,
                    );
                    &&& r == Ok::<PaymentStatus, PaymentError>(PaymentStatus::Pending)
                    &&& final(self).attempts() == if has_attempt(
                        old(self).attempts(),
                        invoice.payment_hash@,
                    ) {
                        old(self).attempts().update(
                            attempt_index(old(self).attempts(), invoice.payment_hash@),
                            fresh,
                        )
                    } else {
                        old(self).attempts().push(fresh)
                    }
                },
            },
    {
        let held = self.attempt_position(&invoice.payment_hash);
        if let Some(i) = held {
            let status = self.attempts[i].status;
            if status != PaymentStatus::Failed {
                return Ok(status);
            }
        }
        match self.invoice_generator.verify_at(invoice, now) {
            Ok(_) => {},
            Err(e) => {
                return Err(e);
            },
        }
        let amount = match invoice.amount {
            Some(a) => a,
            None => 0,
        };
        let balance = self.channel_manager.total_local_balance();
        if amount > balance {
            return Err(PaymentError::InsufficientFunds { needed: amount, available: balance });
        }
        let zeros = [0u8;32];
        assert(zeros@ =~= Seq::new(32, |i: int| 0u8));
        let attempt = PaymentAttempt {
            payment_hash: invoice.payment_hash,
            destination,
            amount_sats: amount,
            status: PaymentStatus::Pending,
            channel_id: zeros,
            reserved_sats: 0,
            route: PaymentRoute { hops: Vec::new(), total_fees_msat: 0, total_cltv_delta: 0 },
            excluded: Vec::new(),
            retries: 0,
            started_at: now,
        };
        match held {
            Some(i) => {
                self.replace_attempt(i, attempt);
            },
            None => {
                let ghost before = self.attempts();
                let ghost view = attempt@;
                let at = self.attempts.len();
                self.index.insert(invoice.payment_hash, at);
                self.attempts.push(attempt);
                proof {
                    assert(self.attempts() =~= before.push(view));
                    assert forall|a: int, b: int|
                        0 <= a < self.attempts().len() && 0 <= b < self.attempts().len() && a
                            != b implies (#[trigger] self.attempts()[a]).payment_hash != (
                    #[trigger] self.attempts()[b]).payment_hash by {
                    }
                }
            },
        }
        Ok(PaymentStatus::Pending)
    }

    /// Cancels a payment that is still pending: it fails, and since nothing
    /// was reserved for it, nothing has to be rolled back. A payment in any
    /// other status is left as it is, and its status is returned.
    pub fn cancel_payment(&mut self, payment_hash: &[u8; 32]) -> (r: PaymentResult<PaymentStatus>)
        requires
            old(self).wf(),
        ensures
            final(self).wf(),
            final(self).store() == old(self).store(),
            final(self).graph() == old(self).graph(),
            final(self).rest_unchanged(old(self)),
            !has_attempt(old(self).attempts(), payment_hash@) ==> r == Err::<
                PaymentStatus,
                PaymentError,
            >(PaymentError::Invoice(InvoiceError::UnknownPaymentHash)) && final(self).attempts()
                == old(self).attempts(),
            has_attempt(old(self).attempts(), payment_hash@) ==> {
                let i = attempt_index(old(self).attempts(), payment_hash@);
                let held = old(self).attempts()[i];
                if held.status == PaymentStatus::Pending {
                    &&& r == Ok::<PaymentStatus, PaymentError>(PaymentStatus::Failed)
                    &&& final(self).attempts() == old(self).attempts().update(
                        i,
                        held.ended(PaymentStatus::Failed),
                    )
                } else {
                    &&& r == Ok::<PaymentStatus, PaymentError>(held.status)
                    &&& final(self).attempts() == old(self).attempts()
                }
            },
    {
        let i = match self.attempt_position(payment_hash) {
            Some(i) => i,
            None => {
                return Err(PaymentError::Invoice(InvoiceError::UnknownPaymentHash));
            },
        };
        let status = self.attempts[i].status;
        if status != PaymentStatus::Pending {
            return Ok(status);
        }
        self.end_attempt(i, PaymentStatus::Failed);
        Ok(PaymentStatus::Failed)
    }

    /// Create an invoice.
    pub fn create_invoice(&mut self, amount: Option<u64>, description: &str) -> (r: PaymentResult<
        PaymentInvoice,
    >)
        requires
            old(self).wf(),
        ensures
            final(self).wf(),
            final(self).store() == old(self).store(),
            final(self).graph() == old(self).graph(),
            final(self).attempts() == old(self).attempts(),
            final(self).settings() == old(self).settings(),
            final(self).node() == old(self).node(),
            final(self).registry().config() == old(self).registry().config(),
            description@.len() == 0 <==> r == Err::<PaymentInvoice, PaymentError>(
                PaymentError::Invoice(InvoiceError::EmptyDescription),
            ),
            r matches Err(e) ==> description@.len() == 0 || generation_refusal(e),
            r is Err ==> final(self).registry()@ == old(self).registry()@,
            r matches Ok(invoice) ==> final(self).registry()@ == old(self).registry()@.push(invoice)
                && invoice.consistent() && invoice.amount == amount && invoice.description@
                == description@ && exists|now: u64|
                invoice.expiry == #[trigger] expiry_after(
                    now,
                    old(self).registry().config().default_invoice_expiry,
                ),
    {
        self.invoice_generator.generate_invoice(amount, description)
    }

    /// Create a Lightning invoice.
    pub fn create_lightning_invoice(
        &mut self,
        amount_sats: u64,
        description: &str,
        expiry_secs: u64,
    ) -> (r: PaymentResult<LightningInvoice>)
        requires
            old(self).wf(),
        ensures
            final(self).wf(),
            final(self).store() == old(self).store(),
            final(self).graph() == old(self).graph(),
            final(self).attempts() == old(self).attempts(),
            final(self).settings() == old(self).settings(),
            final(self).registry() == old(self).registry(),
            description@.len() == 0 <==> r == Err::<LightningInvoice, PaymentError>(
                PaymentError::Invoice(InvoiceError::EmptyDescription),
            ),
            r matches Err(e) ==> description@.len() == 0 || generation_refusal(e),
            r is Err ==> final(self).node().invoices() == old(self).node().invoices(),
            r matches Ok(invoice) ==> {
                &&& final(self).node().invoices() == old(self).node().invoices().push(invoice)
                &&& invoice.amount_sats == Some(amount_sats)
                &&& invoice.description@ == description@
                &&& exists|now: u64| invoice.expiry == #[trigger] expiry_after(now, expiry_secs)
                &&& invoice.bolt11@ == bolt11_text(amount_sats, invoice.payment_hash.0@)
                &&& !has_lightning_invoice(old(self).node().invoices(), invoice.payment_hash.0@)
            },
    {
        self.lightning_node.create_invoice(amount_sats, description, expiry_secs)
    }

    /// Send a Lightning payment.
    pub fn send_lightning_payment(&self, invoice: &LightningInvoice) -> (r: PaymentResult<
        PaymentStatus,
    >)
        requires
            self.wf(),
        ensures
            r is Ok <==> total_local(self.node().channels()@, self.node().channels()@.len() as int)
                >= (match invoice.amount_sats {
                Some(a) => a,
                None => 0,
            }),
            r matches Ok(status) ==> status == PaymentStatus::Succeeded,
            r matches Err(e) ==> e == (PaymentError::InsufficientFunds {
                needed: invoice.amount_sats->0,
                available: total_local(
                    self.node().channels()@,
                    self.node().channels()@.len() as int,
                ) as u64,
            }),
    {
        self.lightning_node.pay_invoice(invoice)
    }

    /// Check Lightning invoice status.
    pub fn check_lightning_invoice(&self, payment_hash: &PaymentHash) -> (r: PaymentResult<
        PaymentStatus,
    >)
        requires
            self.wf(),
        ensures
            r is Ok <==> has_lightning_invoice(
                self.node().invoices(),
                payment_hash.0@,
            ),
            r matches Ok(status) ==> status == PaymentStatus::Succeeded,
            r matches Err(e) ==> e == PaymentError::Invoice(InvoiceError::UnknownPaymentHash),
    {
        self.lightning_node.check_invoice(payment_hash)
    }
}

/// What becomes of the payment at position `i` when it is launched along
/// `route`, starting from the record `base` and the reservations `reserved`.
///
/// The route's cost is reserved on the first active channel to the route's
/// first hop that can spare it, and the payment is in flight. When no
/// channel can spare it, the payment fails with `InsufficientFunds` and the
/// reservations stay as they are.
pub open spec fn launch_outcome(
    channels: Seq<PaymentChannel>,
    reserved: Seq<u64>,
    attempts: Seq<AttemptView>,
    base: AttemptView,
    i: int,
    route: PaymentRoute,
    after_reserved: Seq<u64>,
    after_attempts: Seq<AttemptView>,
    r: PaymentResult<PaymentStatus>,
) -> bool {
    let debit = debit_sats(base.amount_sats, route.total_fees_msat) as u64;
    match first_spendable(channels, reserved, route.hops@[0].pubkey@, debit,
        channels.len() as int) {
        Some(c) => {
            &&& r == Ok::<PaymentStatus, PaymentError>(PaymentStatus::InFlight)
            &&& after_reserved == reserved.update(c, (reserved[c] + debit) as u64)
            &&& after_attempts == attempts.update(
                i,
                base.flying(channels[c].channel_id@, debit, route),
            )
        },
        None => {
            &&& r == Err::<PaymentStatus, PaymentError>(
                PaymentError::InsufficientFunds {
                    needed: debit,
                    available: total_local(channels, channels.len() as int) as u64,
                },
            )
            &&& after_reserved == reserved
            &&& after_attempts == attempts.update(i, base.ended(PaymentStatus::Failed))
        },
    }
}

impl PaymentPlugin {
    /// What [`PaymentPlugin::dispatch_payment`] does.
    ///
    /// An unknown payment hash is refused. A payment that is not pending is
    /// left alone and its status returned. For a pending payment the
    /// cheapest route that avoids the channels excluded so far is found: if
    /// there is none, the payment fails with the router's error; else it is
    /// launched along that route. The channels and the graph stay as they
    /// are; only reservations and the payment's record change.
    pub open spec fn dispatched(
        before: &PaymentPlugin,
        after: &PaymentPlugin,
        hash: Seq<u8>,
        r: PaymentResult<PaymentStatus>,
    ) -> bool {
        &&& after.graph() == before.graph()
        &&& after.store()@ == before.store()@
        &&& after.rest_unchanged(before)
        &&& if !has_attempt(before.attempts(), hash) {
            &&& r == Err::<PaymentStatus, PaymentError>(
                PaymentError::Invoice(InvoiceError::UnknownPaymentHash),
            )
            &&& after.attempts() == before.attempts()
            &&& after.store().reservations() == before.store().reservations()
        } else {
            let i = attempt_index(before.attempts(), hash);
            let held = before.attempts()[i];
            if held.status != PaymentStatus::Pending {
                &&& r == Ok::<PaymentStatus, PaymentError>(held.status)
                &&& after.attempts() == before.attempts()
                &&& after.store().reservations() == before.store().reservations()
            } else {
                Self::routed(before, after, i, held, before.store().reservations(), r, false)
            }
        }
    }

    /// What becomes of the payment at position `i`, with the record `base`
    /// and the reservations `reserved`, when it is routed: with no route, it
    /// fails; with one, it is launched along a cheapest route. A payment that
    /// is routed again after a failed hop (`again`) reports the lack of a
    /// route as the status `Failed`, a first routing as the router's error.
    pub open spec fn routed(
        before: &PaymentPlugin,
        after: &PaymentPlugin,
        i: int,
        base: AttemptView,
        reserved: Seq<u64>,
        r: PaymentResult<PaymentStatus>,
        again: bool,
    ) -> bool {
        let amount_msat = (base.amount_sats * 1000) as u64;
        let avoid = base.excluded.to_set();
        if !before.graph().routable(base.destination, amount_msat, avoid, true) {
            &&& r == if again {
                Ok::<PaymentStatus, PaymentError>(PaymentStatus::Failed)
            } else {
                Err::<PaymentStatus, PaymentError>(
                    PaymentError::Routing(
                        if before.graph().routable(base.destination, amount_msat, avoid, false) {
                            RoutingError::InsufficientCapacity
                        } else {
                            RoutingError::NoPath
                        },
                    ),
                )
            }
            &&& after.store().reservations() == reserved
            &&& after.attempts() == before.attempts().update(
                i,
                base.ended(PaymentStatus::Failed),
            )
        } else {
            exists|route: PaymentRoute|
                {
                    &&& #[trigger] before.graph().cheapest(
                        route,
                        base.destination,
                        amount_msat,
                        avoid,
                    )
                    &&& route.totals_consistent()
                    &&& launch_outcome(
                        before.store()@,
                        reserved,
                        before.attempts(),
                        base,
                        i,
                        route,
                        after.store().reservations(),
                        after.attempts(),
                        r,
                    )
                }
        }
    }

    /// What [`PaymentPlugin::fail_payment`] does.
    ///
    /// An unknown payment hash is refused, and a payment that is not in
    /// flight is left alone. For a payment in flight the reservation is
    /// released first; if that cannot be done the error is returned and the
    /// payment fails. With no retries left the payment fails. Otherwise the
    /// failing channel joins the excluded ones, a retry is counted, and the
    /// payment is routed again.
    pub open spec fn hop_failed(
        before: &PaymentPlugin,
        after: &PaymentPlugin,
        hash: Seq<u8>,
        failed_channel: u64,
        r: PaymentResult<PaymentStatus>,
    ) -> bool {
        &&& after.graph() == before.graph()
        &&& after.store()@ == before.store()@
        &&& after.rest_unchanged(before)
        &&& if !has_attempt(before.attempts(), hash) {
            &&& r == Err::<PaymentStatus, PaymentError>(
                PaymentError::Invoice(InvoiceError::UnknownPaymentHash),
            )
            &&& after.attempts() == before.attempts()
            &&& after.store().reservations() == before.store().reservations()
        } else {
            let i = attempt_index(before.attempts(), hash);
            let held = before.attempts()[i];
            if held.status != PaymentStatus::InFlight {
                &&& r == Ok::<PaymentStatus, PaymentError>(held.status)
                &&& after.attempts() == before.attempts()
                &&& after.store().reservations() == before.store().reservations()
            } else {
                Self::rolled_back(before, after, i, held, failed_channel, r)
            }
        }
    }

    /// What becomes of the payment in flight at position `i` when the hop
    /// over `failed_channel` has failed.
    pub open spec fn rolled_back(
        before: &PaymentPlugin,
        after: &PaymentPlugin,
        i: int,
        held: AttemptView,
        failed_channel: u64,
        r: PaymentResult<PaymentStatus>,
    ) -> bool {
        let reserved = before.store().reservations();
        match release_refusal(before.store()@, reserved, held.channel_id, held.reserved_sats) {
            Some(e) => {
                &&& r == Err::<PaymentStatus, PaymentError>(PaymentError::Channel(e))
                &&& after.store().reservations() == reserved
                &&& after.attempts() == before.attempts().update(
                    i,
                    held.ended(PaymentStatus::Failed),
                )
            },
            None => {
                let c = index_of(before.store()@, held.channel_id);
                let freed = reserved.update(c, (reserved[c] - held.reserved_sats) as u64);
                if held.retries >= before.settings().max_payment_retries {
                    &&& r == Ok::<PaymentStatus, PaymentError>(PaymentStatus::Failed)
                    &&& after.store().reservations() == freed
                    &&& after.attempts() == before.attempts().update(
                        i,
                        held.ended(PaymentStatus::Failed),
                    )
                } else {
                    Self::routed(
                        before,
                        after,
                        i,
                        AttemptView {
                            excluded: held.excluded.push(failed_channel),
                            retries: (held.retries + 1) as u32,
                            reserved_sats: 0,
                            ..held
                        },
                        freed,
                        r,
                        true,
                    )
                }
            },
        }
    }

    /// Routes the payment at position `i` and launches it along the route.
    fn route_and_launch(&mut self, i: usize, again: bool) -> (r: PaymentResult<PaymentStatus>)
        requires
            old(self).wf(),
            i < old(self).attempts().len(),
        ensures
            final(self).wf(),
            final(self).graph() == old(self).graph(),
            final(self).store()@ == old(self).store()@,
            final(self).store().min_capacity() == old(self).store().min_capacity(),
            final(self).store().max_capacity() == old(self).store().max_capacity(),
            final(self).rest_unchanged(old(self)),
            Self::routed(
                old(self),
                final(self),
                i as int,
                old(self).attempts()[i as int],
                old(self).store().reservations(),
                r,
                again,
            ),
            r == Ok::<PaymentStatus, PaymentError>(PaymentStatus::InFlight)
                || final(self).attempts()[i as int].status == PaymentStatus::Failed,
            r matches Ok(status) ==> status == final(self).attempts()[i as int].status,
            final(self).attempts().len() == old(self).attempts().len(),
            final(self).attempts()[i as int].payment_hash
                == old(self).attempts()[i as int].payment_hash,
            final(self).attempts()[i as int].retries == old(self).attempts()[i as int].retries,
    {
        let ghost base = self.attempts()[i as int];
        let amount = self.attempts[i].amount_sats;
        let amount_msat = amount * 1000;
        let found = self.router.find_route_excluding(
            &self.attempts[i].destination,
            amount_msat,
            &self.attempts[i].excluded,
        );
        let route = match found {
            Ok(route) => route,
            Err(e) => {
                self.end_attempt(i, PaymentStatus::Failed);
                return if again {
                    Ok(PaymentStatus::Failed)
                } else {
                    Err(e)
                };
            },
        };
        assert(route.hops@.len() > 0) by {
            let q = self.graph().quest(base.destination, amount_msat, base.excluded.to_set(), true);
            let path = choose|path: Seq<crate::implementation::router::Step>|
                {
                    &&& #[trigger] q.admits(path, self.graph().local()->0@)
                    &&& q.describes(path, route)
                };
        }
        let fees = route.total_fees_msat;
        let debit = amount + fees / 1000 + if fees % 1000 != 0 {
            1
        } else {
            0
        };
        let spendable = self.channel_manager.find_spendable(&route.hops[0].pubkey, debit);
        let r = match spendable {
            None => {
                let available = self.channel_manager.total_local_balance();
                self.end_attempt(i, PaymentStatus::Failed);
                Err(PaymentError::InsufficientFunds { needed: debit, available })
            },
            Some(c) => {
                proof {
                    lemma_first_spendable(
                        self.store()@,
                        self.store().reservations(),
                        route.hops@[0].pubkey@,
                        debit,
                        self.store()@.len() as int,
                    );
                }
                let channel = match self.channel_manager.channel_at(c) {
                    Some(channel) => channel,
                    None => {
                        return Err(PaymentError::Channel(ChannelError::UnknownChannel));
                    },
                };
                match self.channel_manager.reserve(&channel.channel_id, debit) {
                    Ok(()) => {},
                    Err(e) => {
                        return Err(e);
                    },
                }
                let held = &self.attempts[i];
                let attempt = PaymentAttempt {
                    payment_hash: held.payment_hash,
                    destination: held.destination,
                    amount_sats: held.amount_sats,
                    status: PaymentStatus::InFlight,
                    channel_id: channel.channel_id,
                    reserved_sats: debit,
                    route,
                    excluded: copy_ids(&held.excluded),
                    retries: held.retries,
                    started_at: held.started_at,
                };
                self.replace_attempt(i, attempt);
                Ok(PaymentStatus::InFlight)
            },
        };
        r
    }

    /// Finds a route for a pending payment and reserves its cost: the
    /// payment is then in flight.
    pub fn dispatch_payment(&mut self, payment_hash: &[u8; 32]) -> (r: PaymentResult<PaymentStatus>)
        requires
            old(self).wf(),
        ensures
            final(self).wf(),
            Self::dispatched(old(self), final(self), payment_hash@, r),
    {
        let i = match self.attempt_position(payment_hash) {
            Some(i) => i,
            None => {
                return Err(PaymentError::Invoice(InvoiceError::UnknownPaymentHash));
            },
        };
        let status = self.attempts[i].status;
        if status != PaymentStatus::Pending {
            return Ok(status);
        }
        self.route_and_launch(i, false)
    }
}

impl PaymentPlugin {
    /// What [`PaymentPlugin::settle_payment`] does.
    ///
    /// An unknown payment hash is refused, and a payment that is not in
    /// flight is left alone. For a payment in flight: if its reservation can
    /// no longer be paid out, the payment fails with the store's error.
    /// Otherwise the amount is carried along the route through the graph.
    /// If every hop succeeds, the reservation is paid out of the first-hop
    /// channel and the payment has succeeded. If a hop fails, the graph stays
    /// as it was and the payment is rolled back as for the first hop that
    /// fails.
    pub open spec fn settled_payment(
        before: &PaymentPlugin,
        after: &PaymentPlugin,
        hash: Seq<u8>,
        r: PaymentResult<PaymentStatus>,
    ) -> bool {
        &&& after.rest_unchanged(before)
        &&& if !has_attempt(before.attempts(), hash) {
            &&& r == Err::<PaymentStatus, PaymentError>(
                PaymentError::Invoice(InvoiceError::UnknownPaymentHash),
            )
            &&& after.attempts() == before.attempts()
            &&& after.store() == before.store()
            &&& after.graph() == before.graph()
        } else {
            let i = attempt_index(before.attempts(), hash);
            let held = before.attempts()[i];
            let reserved = before.store().reservations();
            if held.status != PaymentStatus::InFlight {
                &&& r == Ok::<PaymentStatus, PaymentError>(held.status)
                &&& after.attempts() == before.attempts()
                &&& after.store() == before.store()
                &&& after.graph() == before.graph()
            } else {
                match commit_refusal(before.store()@, reserved, held.channel_id,
                    held.reserved_sats) {
                    Some(e) => {
                        &&& r == Err::<PaymentStatus, PaymentError>(PaymentError::Channel(e))
                        &&& after.store() == before.store()
                        &&& after.graph() == before.graph()
                        &&& after.attempts() == before.attempts().update(
                            i,
                            held.ended(PaymentStatus::Failed),
                        )
                    },
                    None => match settled(
                        before.graph().graph(),
                        held.hops,
                        held.amount_sats * 1000,
                        0,
                    ) {
                        Some(graph) => {
                            let c = index_of(before.store()@, held.channel_id);
                            let channel = before.store()@[c];
                            &&& r == Ok::<PaymentStatus, PaymentError>(PaymentStatus::Succeeded)
                            &&& after.graph().graph() == graph
                            &&& after.graph().nodes() == before.graph().nodes()
                            &&& after.graph().local() == before.graph().local()
                            &&& after.store()@ == before.store()@.update(
                                c,
                                PaymentChannel {
                                    local_balance: (channel.local_balance
                                        - held.reserved_sats) as u64,
                                    remote_balance: (channel.remote_balance
                                        + held.reserved_sats) as u64,
                                    ..channel
                                },
                            )
                            &&& after.store().reservations() == reserved.update(
                                c,
                                (reserved[c] - held.reserved_sats) as u64,
                            )
                            &&& after.attempts() == before.attempts().update(
                                i,
                                held.ended(PaymentStatus::Succeeded),
                            )
                        },
                        None => {
                            &&& after.graph() == before.graph()
                            &&& after.store()@ == before.store()@
                            &&& failing_hop(
                                before.graph().graph(),
                                held.hops,
                                held.amount_sats * 1000,
                                0,
                            ) matches Some(failed_channel) && Self::rolled_back(
                                before,
                                after,
                                i,
                                held,
                                failed_channel,
                                r,
                            )
                        },
                    },
                }
            }
        }
    }

    /// What [`PaymentPlugin::expire_payment_at`] does.
    ///
    /// An unknown payment hash is refused. A payment that has ended, or that
    /// was submitted no longer ago than the configured timeout, is left
    /// alone. Any other payment fails with `Timeout`, and what it had
    /// reserved is released; if that cannot be done, the store's error is
    /// returned instead.
    pub open spec fn expired(
        before: &PaymentPlugin,
        after: &PaymentPlugin,
        hash: Seq<u8>,
        now: u64,
        r: PaymentResult<PaymentStatus>,
    ) -> bool {
        &&& after.rest_unchanged(before)
        &&& after.graph() == before.graph()
        &&& after.store()@ == before.store()@
        &&& if !has_attempt(before.attempts(), hash) {
            &&& r == Err::<PaymentStatus, PaymentError>(
                PaymentError::Invoice(InvoiceError::UnknownPaymentHash),
            )
            &&& after.attempts() == before.attempts()
            &&& after.store().reservations() == before.store().reservations()
        } else {
            let i = attempt_index(before.attempts(), hash);
            let held = before.attempts()[i];
            let reserved = before.store().reservations();
            if !held.in_progress() || now - held.started_at
                <= before.settings().payment_timeout {
                &&& r == Ok::<PaymentStatus, PaymentError>(held.status)
                &&& after.attempts() == before.attempts()
                &&& after.store().reservations() == reserved
            } else {
                &&& after.attempts() == before.attempts().update(
                    i,
                    held.ended(PaymentStatus::Failed),
                )
                &&& if held.status == PaymentStatus::Pending {
                    &&& r == Err::<PaymentStatus, PaymentError>(PaymentError::Timeout)
                    &&& after.store().reservations() == reserved
                } else {
                    match release_refusal(
                        before.store()@,
                        reserved,
                        held.channel_id,
                        held.reserved_sats,
                    ) {
                        Some(e) => {
                            &&& r == Err::<PaymentStatus, PaymentError>(PaymentError::Channel(e))
                            &&& after.store().reservations() == reserved
                        },
                        None => {
                            let c = index_of(before.store()@, held.channel_id);
                            &&& r == Err::<PaymentStatus, PaymentError>(PaymentError::Timeout)
                            &&& after.store().reservations() == reserved.update(
                                c,
                                (reserved[c] - held.reserved_sats) as u64,
                            )
                        },
                    }
                }
            }
        }
    }

    /// Rolls back the payment in flight at position `i` after the hop over
    /// `failed_channel` has failed, and routes it again if retries are left.
    fn roll_back(&mut self, i: usize, failed_channel: u64) -> (r: PaymentResult<PaymentStatus>)
        requires
            old(self).wf(),
            i < old(self).attempts().len(),
            old(self).attempts()[i as int].status == PaymentStatus::InFlight,
        ensures
            final(self).wf(),
            final(self).graph() == old(self).graph(),
            final(self).store()@ == old(self).store()@,
            final(self).store().min_capacity() == old(self).store().min_capacity(),
            final(self).store().max_capacity() == old(self).store().max_capacity(),
            final(self).rest_unchanged(old(self)),
            Self::rolled_back(
                old(self),
                final(self),
                i as int,
                old(self).attempts()[i as int],
                failed_channel,
                r,
            ),
            final(self).attempts().len() == old(self).attempts().len(),
            final(self).attempts()[i as int].payment_hash
                == old(self).attempts()[i as int].payment_hash,
            r == Ok::<PaymentStatus, PaymentError>(PaymentStatus::InFlight)
                || final(self).attempts()[i as int].status == PaymentStatus::Failed,
            r matches Ok(status) ==> status == final(self).attempts()[i as int].status,
            r == Ok::<PaymentStatus, PaymentError>(PaymentStatus::InFlight)
                ==> final(self).attempts()[i as int].retries
                == old(self).attempts()[i as int].retries + 1
                && old(self).attempts()[i as int].retries
                < old(self).settings().max_payment_retries,
    {
        let ghost start = self.attempts();
        let channel_id = self.attempts[i].channel_id;
        let reserved = self.attempts[i].reserved_sats;
        match self.channel_manager.release(&channel_id, reserved) {
            Ok(()) => {},
            Err(e) => {
                self.end_attempt(i, PaymentStatus::Failed);
                return Err(e);
            },
        }
        if self.attempts[i].retries >= self.config.max_payment_retries {
            self.end_attempt(i, PaymentStatus::Failed);
            return Ok(PaymentStatus::Failed);
        }
        let old_record = &self.attempts[i];
        let mut excluded = copy_ids(&old_record.excluded);
        excluded.push(failed_channel);
        let attempt = PaymentAttempt {
            payment_hash: old_record.payment_hash,
            destination: old_record.destination,
            amount_sats: old_record.amount_sats,
            status: old_record.status,
            channel_id: old_record.channel_id,
            reserved_sats: 0,
            route: old_record.route.clone(),
            excluded,
            retries: old_record.retries + 1,
            started_at: old_record.started_at,
        };
        let ghost base = attempt@;
        self.replace_attempt(i, attempt);
        let ghost middle = self.attempts();
        let ghost freed = self.store().reservations();
        let r = self.route_and_launch(i, true);
        proof {
            let amount_msat = (base.amount_sats * 1000) as u64;
            let avoid = base.excluded.to_set();
            if old(self).graph().routable(base.destination, amount_msat, avoid, true) {
                let route = choose|route: PaymentRoute|
                    {
                        &&& #[trigger] old(self).graph().cheapest(
                            route,
                            base.destination,
                            amount_msat,
                            avoid,
                        )
                        &&& route.totals_consistent()
                        &&& launch_outcome(
                            old(self).store()@,
                            freed,
                            middle,
                            base,
                            i as int,
                            route,
                            self.store().reservations(),
                            self.attempts(),
                            r,
                        )
                    };
                let debit = debit_sats(base.amount_sats, route.total_fees_msat) as u64;
                assert(middle.update(i as int, base.ended(PaymentStatus::Failed)) =~= start.update(
                    i as int,
                    base.ended(PaymentStatus::Failed),
                ));
                assert forall|c: int| 0 <= c < old(self).store()@.len() implies middle.update(
                    i as int,
                    base.flying(#[trigger] old(self).store()@[c].channel_id@, debit, route),
                ) =~= start.update(
                    i as int,
                    base.flying(old(self).store()@[c].channel_id@, debit, route),
                ) by {}
                lemma_first_spendable(
                    old(self).store()@,
                    freed,
                    route.hops@[0].pubkey@,
                    debit,
                    old(self).store()@.len() as int,
                );
            } else {
                assert(middle.update(i as int, base.ended(PaymentStatus::Failed)) =~= start.update(
                    i as int,
                    base.ended(PaymentStatus::Failed),
                ));
            }
        }
        r
    }

    /// Reports that the hop over `failed_channel` has failed for a payment
    /// in flight. What the payment had reserved is released, and the payment
    /// is routed afresh around every channel that has failed for it, as
    /// long as retries are left; else it fails.
    pub fn fail_payment(
        &mut self,
        payment_hash: &[u8; 32],
        failed_channel: u64,
    ) -> (r: PaymentResult<PaymentStatus>)
        requires
            old(self).wf(),
        ensures
            final(self).wf(),
            Self::hop_failed(old(self), final(self), payment_hash@, failed_channel, r),
    {
        let i = match self.attempt_position(payment_hash) {
            Some(i) => i,
            None => {
                return Err(PaymentError::Invoice(InvoiceError::UnknownPaymentHash));
            },
        };
        let status = self.attempts[i].status;
        if status != PaymentStatus::InFlight {
            return Ok(status);
        }
        self.roll_back(i, failed_channel)
    }

    /// Settles a payment in flight: the amount is carried along the route,
    /// and the reservation is paid out of the first-hop channel.
    pub fn settle_payment(&mut self, payment_hash: &[u8; 32]) -> (r: PaymentResult<PaymentStatus>)
        requires
            old(self).wf(),
        ensures
            final(self).wf(),
            evolves(old(self).store()@, final(self).store()@),
            same_shape(old(self).graph().graph(), final(self).graph().graph()),
            Self::settled_payment(old(self), final(self), payment_hash@, r),
    {
        let i = match self.attempt_position(payment_hash) {
            Some(i) => i,
            None => {
                return Err(PaymentError::Invoice(InvoiceError::UnknownPaymentHash));
            },
        };
        let status = self.attempts[i].status;
        if status != PaymentStatus::InFlight {
            return Ok(status);
        }
        let channel_id = self.attempts[i].channel_id;
        let reserved = self.attempts[i].reserved_sats;
        if let Some(e) = self.channel_manager.check_commit(&channel_id, reserved) {
            self.end_attempt(i, PaymentStatus::Failed);
            return Err(PaymentError::Channel(e));
        }
        let amount_msat = self.attempts[i].amount_sats * 1000;
        match self.router.apply_route(&self.attempts[i].route, amount_msat) {
            Err(failed_channel) => {
                let r = self.roll_back(i, failed_channel);
                r
            },
            Ok(()) => {
                match self.channel_manager.commit(&channel_id, reserved) {
                    Ok(()) => {},
                    Err(e) => {
                        return Err(e);
                    },
                }
                self.end_attempt(i, PaymentStatus::Succeeded);
                Ok(PaymentStatus::Succeeded)
            },
        }
    }

    /// Fails a payment that has been in progress for longer than the
    /// configured timeout, and releases what it had reserved.
    pub fn expire_payment_at(&mut self, payment_hash: &[u8; 32], now: u64) -> (r: PaymentResult<
        PaymentStatus,
    >)
        requires
            old(self).wf(),
        ensures
            final(self).wf(),
            Self::expired(old(self), final(self), payment_hash@, now, r),
    {
        let i = match self.attempt_position(payment_hash) {
            Some(i) => i,
            None => {
                return Err(PaymentError::Invoice(InvoiceError::UnknownPaymentHash));
            },
        };
        let status = self.attempts[i].status;
        let started_at = self.attempts[i].started_at;
        if status.is_terminal() || now < started_at || now - started_at
            <= self.config.payment_timeout {
            return Ok(status);
        }
        let mut outcome = Err(PaymentError::Timeout);
        if status == PaymentStatus::InFlight {
            let channel_id = self.attempts[i].channel_id;
            let reserved = self.attempts[i].reserved_sats;
            match self.channel_manager.release(&channel_id, reserved) {
                Ok(()) => {},
                Err(e) => {
                    outcome = Err(e);
                },
            }
        }
        self.end_attempt(i, PaymentStatus::Failed);
        outcome
    }
}

impl PaymentPlugin {
    /// Whether the route recorded for a payment is a cheapest route of the
    /// graph for that payment, around the channels that the record excludes.
    pub open spec fn on_cheapest_route(&self, a: AttemptView) -> bool {
        exists|route: PaymentRoute|
            {
                &&& #[trigger] self.graph().cheapest(
                    route,
                    a.destination,
                    (a.amount_sats * 1000) as u64,
                    a.excluded.to_set(),
                )
                &&& route.hops@ == a.hops
                &&& route.total_fees_msat == a.total_fees_msat
                &&& route.total_cltv_delta == a.total_cltv_delta
            }
    }

    /// Whether a payment of `amount` satoshis to `destination` can be
    /// carried out: a route exists, and for every cheapest route the cost can
    /// be reserved on a channel to its first hop and every hop can be
    /// carried.
    pub open spec fn payable(&self, destination: Seq<u8>, amount: u64) -> bool {
        &&& self.graph().routable(destination, (amount * 1000) as u64, Set::empty(), true)
        &&& forall|route: PaymentRoute| #[trigger]
            self.graph().cheapest(route, destination, (amount * 1000) as u64, Set::empty())
                ==> first_spendable(
                self.store()@,
                self.store().reservations(),
                route.hops@[0].pubkey@,
                debit_sats(amount, route.total_fees_msat) as u64,
                self.store()@.len() as int,
            ) is Some && settled(self.graph().graph(), route.hops@, amount * 1000, 0) is Some
    }

    /// The payment at position `i` is in flight along a cheapest route and
    /// holds exactly its cost on an active channel, on top of the
    /// reservations `base`.
    pub open spec fn holding(&self, i: int, base: Seq<u64>) -> bool {
        let a = self.attempts()[i];
        let c = index_of(self.store()@, a.channel_id);
        &&& self.on_cheapest_route(a)
        &&& a.status == PaymentStatus::InFlight
        &&& a.reserved_sats == debit_sats(a.amount_sats, a.total_fees_msat)
        &&& a.hops.len() > 0
        &&& has_channel(self.store()@, a.channel_id)
        &&& self.store()@[c].state == ChannelState::Active
        &&& self.store()@[c].peer_pubkey@ == a.hops[0].pubkey@
        &&& base.len() == self.store()@.len()
        &&& base[c] + a.reserved_sats <= self.store()@[c].local_balance
        &&& self.store().reservations() == base.update(c, (base[c] + a.reserved_sats) as u64)
    }

    /// What [`PaymentPlugin::send_payment_at`] does.
    ///
    /// The payment is submitted. If it is not accepted, nothing changes. If
    /// it is, it is routed, and settled along one route after another until
    /// it has succeeded or failed. Afterwards nothing is reserved that was
    /// not reserved before. A payment that can be carried out succeeds. A
    /// payment that has succeeded went along a cheapest route, has been
    /// carried over every hop of it in the graph, and has moved its cost,
    /// the amount and the fees of its route rounded up to whole satoshis,
    /// from the local to the remote side of an active channel to the first
    /// hop. A payment that has failed has left the channels and the graph as
    /// they were. The records of other payments stay as they were.
    pub open spec fn sent(
        before: &PaymentPlugin,
        after: &PaymentPlugin,
        hash: Seq<u8>,
        expiry: u64,
        amount: u64,
        destination: Seq<u8>,
        now: u64,
        r: PaymentResult<PaymentStatus>,
    ) -> bool {
        &&& after.rest_unchanged(before)
        &&& after.store().reservations() == before.store().reservations()
        &&& after.graph().nodes() == before.graph().nodes()
        &&& after.graph().local() == before.graph().local()
        &&& match submission(
            before.attempts(),
            hash,
            expiry,
            amount,
            total_local(before.store()@, before.store()@.len() as int),
            now,
        ) {
            Submission::Known(status) => {
                &&& r == Ok::<PaymentStatus, PaymentError>(status)
                &&& after.attempts() == before.attempts()
                &&& after.store()@ == before.store()@
                &&& after.graph() == before.graph()
            },
            Submission::Refused(e) => {
                &&& r == Err::<PaymentStatus, PaymentError>(e)
                &&& after.attempts() == before.attempts()
                &&& after.store()@ == before.store()@
                &&& after.graph() == before.graph()
            },
            Submission::Accepted => {
                let a = after.attempts()[attempt_index(after.attempts(), hash)];
                &&& has_attempt(after.attempts(), hash)
                &&& others_kept(before.attempts(), after.attempts(), hash)
                &&& a.amount_sats == amount
                &&& a.destination == destination
                &&& a.reserved_sats == 0
                &&& a.status == PaymentStatus::Succeeded || a.status == PaymentStatus::Failed
                &&& r matches Ok(status) ==> status == a.status
                &&& r is Err ==> a.status == PaymentStatus::Failed
                &&& !before.graph().routable(destination, (amount * 1000) as u64, Set::empty(),
                    true)
                    ==> r == Err::<PaymentStatus, PaymentError>(
                    PaymentError::Routing(
                        if before.graph().routable(
                            destination,
                            (amount * 1000) as u64,
                            Set::empty(),
                            false,
                        ) {
                            RoutingError::InsufficientCapacity
                        } else {
                            RoutingError::NoPath
                        },
                    ),
                )
                &&& before.payable(destination, amount) ==> r == Ok::<PaymentStatus, PaymentError>(
                    PaymentStatus::Succeeded,
                )
                &&& a.status == PaymentStatus::Failed ==> after.store()@ == before.store()@
                    && after.graph() == before.graph()
                &&& a.status == PaymentStatus::Succeeded ==> before.on_cheapest_route(a) && settled(
                    before.graph().graph(),
                    a.hops,
                    amount * 1000,
                    0,
                ) == Some(after.graph().graph())
                &&& a.status == PaymentStatus::Succeeded ==> a.hops.len() > 0 && exists|c: int|
                    {
                        &&& 0 <= c < before.store()@.len()
                        &&& (#[trigger] before.store()@[c]).state == ChannelState::Active
                        &&& before.store()@[c].peer_pubkey@ == a.hops[0].pubkey@
                        &&& debit_sats(amount,
                            a.total_fees_msat) <= before.store()@[c].local_balance
                        &&& after.store()@ == before.store()@.update(
                            c,
                            PaymentChannel {
                                local_balance: (before.store()@[c].local_balance - debit_sats(
                                    amount,
                                    a.total_fees_msat,
                                )) as u64,
                                remote_balance: (before.store()@[c].remote_balance + debit_sats(
                                    amount,
                                    a.total_fees_msat,
                                )) as u64,
                                ..before.store()@[c]
                            },
                        )
                    }
            },
        }
    }

    /// Sends a payment of an invoice to `destination` at the time `now`, from
    /// submission to the end.
    pub fn send_payment_at(
        &mut self,
        invoice: &PaymentInvoice,
        destination: [u8; 33],
        now: u64,
    ) -> (r: PaymentResult<PaymentStatus>)
        requires
            old(self).wf(),
        ensures
            final(self).wf(),
            evolves(old(self).store()@, final(self).store()@),
            same_shape(old(self).graph().graph(), final(self).graph().graph()),
            Self::sent(
                old(self),
                final(self),
                invoice.payment_hash@,
                invoice.expiry,
                invoice.requested(),
                destination@,
                now,
                r,
            ),
    {
        let ghost amount = invoice.requested();
        let ghost base = self.store().reservations();
        let ghost hash = invoice.payment_hash@;
        if let Some(known) = self.attempt_position(&invoice.payment_hash) {
            let status = self.attempts[known].status;
            if status != PaymentStatus::Failed {
                return Ok(status);
            }
        }
        match self.submit_payment_at(invoice, destination, now) {
            Ok(_) => {},
            Err(e) => {
                return Err(e);
            },
        }
        let i = match self.attempt_position(&invoice.payment_hash) {
            Some(i) => i,
            None => {
                proof {
                    if has_attempt(old(self).attempts(), hash) {
                        let k = attempt_index(old(self).attempts(), hash);
                        assert(self.attempts()[k].payment_hash == hash);
                    } else {
                        let k = old(self).attempts().len() as int;
                        assert(self.attempts()[k].payment_hash == hash);
                    }
                }
                return Err(PaymentError::Invoice(InvoiceError::UnknownPaymentHash));
            },
        };
        proof {
            let fresh = AttemptView::fresh(hash, destination@, amount, now);
            assert(fresh.excluded.to_set() =~= Set::<u64>::empty());
        }
        let ghost submitted_state = self.attempts();
        match self.route_and_launch(i, false) {
            Ok(_) => {},
            Err(e) => {
                proof {
                    let fresh = submitted_state[i as int];
                    let amount_msat = (fresh.amount_sats * 1000) as u64;
                }
                return Err(e);
            },
        }
        proof {
            let fresh = submitted_state[i as int];
            let amount_msat = (fresh.amount_sats * 1000) as u64;
            let route = choose|route: PaymentRoute|
                {
                    &&& #[trigger] old(self).graph().cheapest(
                        route,
                        fresh.destination,
                        amount_msat,
                        fresh.excluded.to_set(),
                    )
                    &&& route.totals_consistent()
                    &&& launch_outcome(
                        old(self).store()@,
                        base,
                        submitted_state,
                        fresh,
                        i as int,
                        route,
                        self.store().reservations(),
                        self.attempts(),
                        Ok(PaymentStatus::InFlight),
                    )
                };
            Self::lemma_launched_is_holding(old(self), self, i as int, fresh, base, route);
        }
        let mut status = PaymentStatus::InFlight;
        while status == PaymentStatus::InFlight
            invariant
                self.wf(),
                old(self).wf(),
                i < self.attempts().len(),
                hash == invoice.payment_hash@,
                amount == invoice.requested(),
                self.attempts()[i as int].payment_hash == hash,
                self.attempts()[i as int].amount_sats == amount,
                self.attempts()[i as int].destination == destination@,
                self.attempts()[i as int].retries <= self.settings().max_payment_retries,
                self.rest_unchanged(old(self)),
                others_kept(old(self).attempts(), self.attempts(), hash),
                self.store()@ == old(self).store()@,
                self.graph() == old(self).graph(),
                self.holding(i as int, base),
                base == old(self).store().reservations(),
                forall|c: int|
                    0 <= c < base.len() ==> #[trigger] base[c] <= self.store()@[c].local_balance,
                old(self).graph().routable(destination@, (amount * 1000) as u64, Set::empty(),
                    true),
                old(self).payable(destination@, amount)
                    ==> self.attempts()[i as int].excluded.to_set()
                    == Set::<u64>::empty(),
                submission(
                    old(self).attempts(),
                    hash,
                    invoice.expiry,
                    amount,
                    total_local(old(self).store()@, old(self).store()@.len() as int),
                    now,
                ) == Submission::Accepted,
                status == PaymentStatus::InFlight,
            decreases self.settings().max_payment_retries - self.attempts()[i as int].retries,
        {
            let ghost before = *self;
            let outcome = self.settle_payment(&invoice.payment_hash);
            proof {
                Self::lemma_settle_while_holding(&before, self, i as int, hash, base, outcome);
                if outcome != Ok::<PaymentStatus, PaymentError>(PaymentStatus::InFlight) {
                    let a = self.attempts()[i as int];
                }
            }
            match outcome {
                Ok(PaymentStatus::InFlight) => {},
                Ok(ended) => {
                    return Ok(ended);
                },
                Err(e) => {
                    return Err(e);
                },
            }
        }
        Ok(status)
    }


    /// A payment that has just been launched holds its cost.
    proof fn lemma_launched_is_holding(
        before: &PaymentPlugin,
        after: &PaymentPlugin,
        i: int,
        started: AttemptView,
        base: Seq<u64>,
        route: PaymentRoute,
    )
        requires
            before.store().wf(),
            after.store()@ == before.store()@,
            base.len() == before.store()@.len(),
            forall|c: int| 0 <= c < base.len()
                ==> #[trigger] base[c] <= before.store()@[c].local_balance,
            0 <= i < after.attempts().len(),
            route.hops@.len() > 0,
            started.amount_sats <= MAX_SATOSHIS,
            after.graph() == before.graph(),
            before.graph().cheapest(
                route,
                started.destination,
                (started.amount_sats * 1000) as u64,
                started.excluded.to_set(),
            ),
            exists|attempts: Seq<AttemptView>|
                i < attempts.len() && #[trigger] launch_outcome(
                    before.store()@,
                    base,
                    attempts,
                    started,
                    i,
                    route,
                    after.store().reservations(),
                    after.attempts(),
                    Ok(PaymentStatus::InFlight),
                ),
        ensures
            after.holding(i, base),
            after.attempts()[i].hops == route.hops@,
            after.attempts()[i].excluded == started.excluded,
            after.attempts()[i].retries == started.retries,
            after.attempts()[i].payment_hash == started.payment_hash,
            after.attempts()[i].amount_sats == started.amount_sats,
            after.attempts()[i].destination == started.destination,
    {
        let debit = debit_sats(started.amount_sats, route.total_fees_msat) as u64;
        let channels = before.store()@;
        lemma_first_spendable(channels, base, route.hops@[0].pubkey@, debit, channels.len() as int);
        let a = after.attempts()[i];
        assert(after.graph().cheapest(
            route,
            a.destination,
            (a.amount_sats * 1000) as u64,
            a.excluded.to_set(),
        ));
    }

    /// Settling a payment that holds its cost either pays it out, or leaves
    /// it holding the cost of another route with one retry more, or ends it
    /// with everything it had reserved released.
    proof fn lemma_settle_while_holding(
        before: &PaymentPlugin,
        after: &PaymentPlugin,
        i: int,
        hash: Seq<u8>,
        base: Seq<u64>,
        r: PaymentResult<PaymentStatus>,
    )
        requires
            before.wf(),
            after.wf(),
            0 <= i < before.attempts().len(),
            before.attempts()[i].payment_hash == hash,
            before.holding(i, base),
            forall|c: int| 0 <= c < base.len()
                ==> #[trigger] base[c] <= before.store()@[c].local_balance,
            Self::settled_payment(before, after, hash, r),
        ensures
            after.attempts().len() == before.attempts().len(),
            forall|k: int|
                0 <= k < before.attempts().len() && k != i ==> after.attempts()[k]
                    == #[trigger] before.attempts()[k],
            after.attempts()[i].payment_hash == hash,
            after.attempts()[i].amount_sats == before.attempts()[i].amount_sats,
            after.attempts()[i].destination == before.attempts()[i].destination,
            settled(
                before.graph().graph(),
                before.attempts()[i].hops,
                before.attempts()[i].amount_sats * 1000,
                0,
            ) is Some ==> r == Ok::<PaymentStatus, PaymentError>(PaymentStatus::Succeeded),
            r == Ok::<PaymentStatus, PaymentError>(PaymentStatus::InFlight) ==> {
                &&& after.holding(i, base)
                &&& after.store()@ == before.store()@
                &&& after.graph() == before.graph()
                &&& after.attempts()[i].retries == before.attempts()[i].retries + 1
                &&& before.attempts()[i].retries < before.settings().max_payment_retries
            },
            r != Ok::<PaymentStatus, PaymentError>(PaymentStatus::InFlight) ==> {
                let a = after.attempts()[i];
                let held = before.attempts()[i];
                let c = index_of(before.store()@, held.channel_id);
                &&& after.store().reservations() == base
                &&& a.reserved_sats == 0
                &&& a.status == PaymentStatus::Succeeded || a.status == PaymentStatus::Failed
                &&& r matches Ok(status) ==> status == a.status
                &&& r is Err ==> a.status == PaymentStatus::Failed
                &&& a.status == PaymentStatus::Failed ==> after.store()@ == before.store()@
                    && after.graph() == before.graph()
                &&& a.status == PaymentStatus::Succeeded ==> {
                    &&& a.hops == held.hops
                    &&& a.total_fees_msat == held.total_fees_msat
                    &&& before.on_cheapest_route(a)
                    &&& settled(before.graph().graph(), a.hops, a.amount_sats * 1000, 0) == Some(
                        after.graph().graph(),
                    )
                    &&& after.graph().nodes() == before.graph().nodes()
                    &&& after.graph().local() == before.graph().local()
                    &&& after.store()@ == before.store()@.update(
                        c,
                        PaymentChannel {
                            local_balance: (before.store()@[c].local_balance
                                - held.reserved_sats) as u64,
                            remote_balance: (before.store()@[c].remote_balance
                                + held.reserved_sats) as u64,
                            ..before.store()@[c]
                        },
                    )
                }
            },
    {
        let held = before.attempts()[i];
        let channels = before.store()@;
        let reserved = before.store().reservations();
        let c = index_of(channels, held.channel_id);
        let freed = reserved.update(c, (reserved[c] - held.reserved_sats) as u64);
        assert(freed =~= base);
        match settled(before.graph().graph(), held.hops, held.amount_sats * 1000, 0) {
            Some(graph) => {
                let a = after.attempts()[i];
                let route = choose|route: PaymentRoute|
                    {
                        &&& #[trigger] before.graph().cheapest(
                            route,
                            held.destination,
                            (held.amount_sats * 1000) as u64,
                            held.excluded.to_set(),
                        )
                        &&& route.hops@ == held.hops
                        &&& route.total_fees_msat == held.total_fees_msat
                        &&& route.total_cltv_delta == held.total_cltv_delta
                    };
                assert(before.graph().cheapest(
                    route,
                    a.destination,
                    (a.amount_sats * 1000) as u64,
                    a.excluded.to_set(),
                ));
            },
            None => {
                let failed_channel = failing_hop(
                    before.graph().graph(),
                    held.hops,
                    held.amount_sats * 1000,
                    0,
                )->0;
                if !(held.retries >= before.settings().max_payment_retries) {
                    let again = AttemptView {
                        excluded: held.excluded.push(failed_channel),
                        retries: (held.retries + 1) as u32,
                        reserved_sats: 0,
                        ..held
                    };
                    let amount_msat = (again.amount_sats * 1000) as u64;
                    if before.graph().routable(
                        again.destination,
                        amount_msat,
                        again.excluded.to_set(),
                        true,
                    ) {
                        let route = choose|route: PaymentRoute|
                            {
                                &&& #[trigger] before.graph().cheapest(
                                    route,
                                    again.destination,
                                    amount_msat,
                                    again.excluded.to_set(),
                                )
                                &&& route.totals_consistent()
                                &&& launch_outcome(
                                    channels,
                                    freed,
                                    before.attempts(),
                                    again,
                                    i,
                                    route,
                                    after.store().reservations(),
                                    after.attempts(),
                                    r,
                                )
                            };
                        Self::lemma_cheapest_has_hops(
                            before.graph(),
                            route,
                            again.destination,
                            amount_msat,
                            again.excluded.to_set(),
                        );
                        if r == Ok::<PaymentStatus, PaymentError>(PaymentStatus::InFlight) {
                            Self::lemma_launched_is_holding(before, after, i, again, base, route);
                        }
                    }
                }
            },
        }
    }

    /// A cheapest route has at least one hop.
    proof fn lemma_cheapest_has_hops(
        graph: PaymentRouter,
        route: PaymentRoute,
        destination: Seq<u8>,
        amount: u64,
        avoid: Set<u64>,
    )
        requires
            graph.cheapest(route, destination, amount, avoid),
        ensures
            route.hops@.len() > 0,
    {
        let q = graph.quest(destination, amount, avoid, true);
    }

    /// Send a payment of an invoice to `destination`.
    ///
    /// The time is read from the system clock; the rest is
    /// [`PaymentPlugin::send_payment_at`].
    pub fn send_payment(&mut self, invoice: &PaymentInvoice, destination: [u8; 33]) -> (r:
        PaymentResult<PaymentStatus>)
        requires
            old(self).wf(),
        ensures
            final(self).wf(),
            evolves(old(self).store()@, final(self).store()@),
            same_shape(old(self).graph().graph(), final(self).graph().graph()),
            old(self).status_of(invoice.payment_hash@) matches Some(status) ==> (status
                != PaymentStatus::Failed ==> r == Ok::<PaymentStatus, PaymentError>(status)),
            (r == Err::<PaymentStatus, PaymentError>(
                PaymentError::Invoice(InvoiceError::ClockUnavailable),
            ) && final(self).store() == old(self).store() && final(self).graph()
                == old(self).graph() && final(self).attempts() == old(self).attempts()
                && final(self).rest_unchanged(old(self))) || exists|now: u64| #[trigger]
                Self::sent(
                    old(self),
                    final(self),
                    invoice.payment_hash@,
                    invoice.expiry,
                    invoice.requested(),
                    destination@,
                    now,
                    r,
                ),
    {
        if let Ok(status) = self.get_payment_status(&invoice.payment_hash) {
            if status != PaymentStatus::Failed {
                assert(Self::sent(
                    old(self),
                    self,
                    invoice.payment_hash@,
                    invoice.expiry,
                    invoice.requested(),
                    destination@,
                    0,
                    Ok(status),
                ));
                return Ok(status);
            }
        }
        let now = match unix_seconds() {
            Some(now) => now,
            None => {
                return Err(PaymentError::Invoice(InvoiceError::ClockUnavailable));
            },
        };
        self.send_payment_at(invoice, destination, now)
    }

    /// The status of the payment with the given payment hash, if there is
    /// a record of one.
    pub open spec fn status_of(&self, hash: Seq<u8>) -> Option<PaymentStatus> {
        if has_attempt(self.attempts(), hash) {
            Some(self.attempts()[attempt_index(self.attempts(), hash)].status)
        } else {
            None
        }
    }
}

} // verus!

//! Lightning Network integration for the payment plugin.

use vstd::prelude::*;
use vstd::slice::slice_subrange;

use crate::errors::{ChannelError, InvoiceError, PaymentError, PaymentResult};
use crate::implementation::channels::{
    close_refusal, evolves, has_channel, index_of, open_refusal, terms_refusal, total_local,
    ChannelManager,
};
use crate::implementation::invoices::{expiry_after, generation_refusal};
use crate::index::KeyIndex;
use crate::sources::{random_bytes_32, unix_seconds};
use crate::text::{chars_of, decimal_of, hex_of, push_decimal, push_hex, string_from_chars};
use crate::types::{
    ChannelState, LightningInvoice, LightningNode, PaymentChannel, PaymentHash, PaymentStatus,
    MAX_SATOSHIS,
};

verus! {

/// The key of a node made by [`LightningNodeImpl::new`]: the prefix byte 2,
/// then, at each position, seven times the position modulo 256.
pub open spec fn demo_pubkey() -> Seq<u8> {
    Seq::new(
        33,
        |i: int|
            if i == 0 {
                2u8
            } else {
                ((i * 7) % 256) as u8
            },
    )
}

/// The encoded form of a Lightning invoice: `lnbc`, the amount in decimal,
/// `n1`, and the first sixteen bytes of the payment hash in hexadecimal.
pub open spec fn bolt11_text(amount_sats: u64, payment_hash: Seq<u8>) -> Seq<char> {
    "lnbc"@ + decimal_of(amount_sats as nat) + "n1"@ + hex_of(payment_hash.subrange(0, 16))
}

/// Whether some invoice has the payment hash `hash`.
pub open spec fn has_lightning_invoice(invoices: Seq<LightningInvoice>, hash: Seq<u8>) -> bool {
    exists|i: int| 0 <= i < invoices.len() && (#[trigger] invoices[i]).payment_hash.0@ == hash
}

/// Why a Lightning invoice cannot be created, if it cannot.
pub open spec fn lightning_invoice_refusal(
    invoices: Seq<LightningInvoice>,
    description: Seq<char>,
    expiry_secs: u64,
    payment_hash: Seq<u8>,
    now: u64,
) -> Option<InvoiceError> {
    if description.len() == 0 {
        Some(InvoiceError::EmptyDescription)
    } else if now + expiry_secs > u64::MAX {
        Some(InvoiceError::ExpiryOutOfRange)
    } else if has_lightning_invoice(invoices, payment_hash) {
        Some(InvoiceError::DuplicatePaymentHash)
    } else {
        None
    }
}

/// Lightning Network node implementation
#[derive(Debug)]
pub struct LightningNodeImpl {
    /// Node public key
    pubkey: [u8; 33],
    /// Node alias
    alias: String,
    /// Active channels
    channels: ChannelManager,
    /// Pending invoices
    invoices: Vec<LightningInvoice>,
    /// The positions of the invoices by payment hash
    index: KeyIndex,
}

impl LightningNodeImpl {
    /// The node's public key.
    pub closed spec fn pubkey(&self) -> [u8; 33] {
        self.pubkey
    }

    /// The node's alias.
    pub closed spec fn alias(&self) -> Seq<char> {
        self.alias@
    }

    /// The node's channels.
    pub closed spec fn channels(&self) -> ChannelManager {
        self.channels
    }

    /// The invoices that the node has created, oldest first.
    pub closed spec fn invoices(&self) -> Seq<LightningInvoice> {
        self.invoices@
    }

    /// The index holds exactly the payment hashes of the invoices, each with
    /// the position of its invoice.
    pub closed spec fn indexed(&self) -> bool {
        &&& self.index.wf()
        &&& forall|i: int|
            0 <= i < self.invoices@.len() ==> self.index.holds(
                (#[trigger] self.invoices@[i]).payment_hash.0@,
            ) && self.index.position(self.invoices@[i].payment_hash.0@) == i
        &&& forall|key: Seq<u8>| #[trigger]
            self.index.holds(key) ==> self.index.position(key) < self.invoices@.len()
                && self.invoices@[self.index.position(key) as int].payment_hash.0@ == key
    }

    /// The node's invariant: its channel store is well formed, no payment
    /// hash was used for two invoices, and the index of the invoices is up
    /// to date.
    pub open spec fn wf(&self) -> bool {
        &&& self.indexed()
        &&& self.channels().wf()
        &&& forall|i: int, j: int|
            0 <= i < self.invoices().len() && 0 <= j < self.invoices().len() && i != j ==> (
            #[trigger] self.invoices()[i]).payment_hash.0@ != (
            #[trigger] self.invoices()[j]).payment_hash.0@
    }

    /// Create new Lightning node
    pub fn new(alias: String) -> (node: Self)
        ensures
            node.wf(),
            node.pubkey()@ == demo_pubkey(),
            node.alias() == alias@,
            node.channels()@.len() == 0,
            node.channels().min_capacity() == 0,
            node.channels().max_capacity() == u64::MAX,
            node.invoices().len() == 0,
    {
        let mut pubkey = [0u8;33];
        pubkey[0] = 2;
        let mut i: usize = 1;
        while i < 33
            invariant
                1 <= i <= 33,
                pubkey@[0] == 2,
                forall|j: int| 1 <= j < i ==> pubkey@[j] == ((j * 7) % 256) as u8,
            decreases 33 - i,
        {
            pubkey[i] = ((i * 7) % 256) as u8;
            i += 1;
        }
        Self {
            pubkey,
            alias,
            channels: ChannelManager::with_limits(0, u64::MAX),
            invoices: Vec::new(),
            index: KeyIndex::new(),
        }
    }

    /// Get node info
    pub fn get_node_info(&self) -> (info: LightningNode)
        ensures
            info.pubkey == self.pubkey(),
            info.alias@ == self.alias(),
            info.color@ == seq![0x49u8, 0x68u8, 0xadu8],
    {
        let color = [0x49u8, 0x68u8, 0xadu8];
        LightningNode { pubkey: self.pubkey, alias: self.alias.clone(), color }
    }

    /// The position of the invoice with the given payment hash, in expected
    /// constant time.
    fn invoice_position(&self, payment_hash: &PaymentHash) -> (found: Option<usize>)
        requires
            self.wf(),
        ensures
            found is Some <==> has_lightning_invoice(self.invoices(), payment_hash.0@),
            found is Some <==> self.index.holds(payment_hash.0@),
            found matches Some(i) ==> i < self.invoices().len()
                && self.invoices()[i as int].payment_hash.0@
                == payment_hash.0@,
    {
        let found = self.index.get(&payment_hash.0);
        found
    }

    /// Creates a Lightning invoice with the given payment hash at the time
    /// `now`. The invoice expires `expiry_secs` later. Nothing changes when
    /// it is refused.
    pub fn create_invoice_at(
        &mut self,
        amount_sats: u64,
        description: &str,
        expiry_secs: u64,
        payment_hash: PaymentHash,
        now: u64,
    ) -> (r: PaymentResult<LightningInvoice>)
        requires
            old(self).wf(),
        ensures
            final(self).wf(),
            final(self).channels() == old(self).channels(),
            final(self).pubkey() == old(self).pubkey(),
            final(self).alias() == old(self).alias(),
            match lightning_invoice_refusal(
                old(self).invoices(),
                description@,
                expiry_secs,
                payment_hash.0@,
                now,
            ) {
                Some(e) => r == Err::<LightningInvoice, PaymentError>(PaymentError::Invoice(e))
                    && final(self).invoices() == old(self).invoices(),
                None => r is Ok && final(self).invoices() == old(self).invoices().push(r->Ok_0) && {
                    let invoice = r->Ok_0;
                    &&& invoice.payment_hash == payment_hash
                    &&& invoice.amount_sats == Some(amount_sats)
                    &&& invoice.description@ == description@
                    &&& invoice.expiry == now + expiry_secs
                    &&& invoice.bolt11@ == bolt11_text(amount_sats, payment_hash.0@)
                    &&& invoice.payment_secret is None
                },
            },
    {
        if description.is_empty() {
            return Err(PaymentError::Invoice(InvoiceError::EmptyDescription));
        }
        if now > u64::MAX - expiry_secs {
            return Err(PaymentError::Invoice(InvoiceError::ExpiryOutOfRange));
        }
        if self.invoice_position(&payment_hash).is_some() {
            return Err(PaymentError::Invoice(InvoiceError::DuplicatePaymentHash));
        }
        let mut chars = chars_of("lnbc");
        push_decimal(&mut chars, amount_sats);
        chars.push('n');
        chars.push('1');
        proof {
            reveal_strlit("n1");
        }
        push_hex(&mut chars, slice_subrange(payment_hash.0.as_slice(), 0, 16));
        let invoice = LightningInvoice {
            payment_hash,
            amount_sats: Some(amount_sats),
            description: description.to_owned(),
            expiry: now + expiry_secs,
            bolt11: string_from_chars(&chars),
            payment_secret: None,
        };
        let copy = invoice.clone();
        let at = self.invoices.len();
        self.index.insert(payment_hash.0, at);
        self.invoices.push(invoice);
        proof {
            assert forall|i: int, j: int|
                0 <= i < self.invoices().len() && 0 <= j < self.invoices().len() && i
                    != j implies (#[trigger] self.invoices()[i]).payment_hash.0@ != (
            #[trigger] self.invoices()[j]).payment_hash.0@ by {
            }
        }
        Ok(copy)
    }

    /// Create a Lightning invoice
    ///
    /// The payment hash is drawn from the operating system's random source
    /// and the time of issue is read from the system clock. An empty
    /// description is refused as such, and nothing else is; with a
    /// description, only the random source, the clock, the expiry's range or
    /// a payment hash drawn twice can stand in the way.
    pub fn create_invoice(&mut self, amount_sats: u64, description: &str, expiry_secs: u64) -> (r:
        PaymentResult<LightningInvoice>)
        requires
            old(self).wf(),
        ensures
            final(self).wf(),
            final(self).channels() == old(self).channels(),
            final(self).pubkey() == old(self).pubkey(),
            final(self).alias() == old(self).alias(),
            description@.len() == 0 <==> r == Err::<LightningInvoice, PaymentError>(
                PaymentError::Invoice(InvoiceError::EmptyDescription),
            ),
            r matches Err(e) ==> description@.len() == 0 || generation_refusal(e),
            r is Err ==> final(self).invoices() == old(self).invoices(),
            r matches Ok(invoice) ==> final(self).invoices() == old(self).invoices().push(invoice)
                && invoice.amount_sats == Some(amount_sats) && invoice.description@
                == description@ && (exists|now: u64|
                invoice.expiry == #[trigger] expiry_after(now, expiry_secs)) && invoice.bolt11@
                == bolt11_text(
                amount_sats,
                invoice.payment_hash.0@,
            ) && !has_lightning_invoice(old(self).invoices(), invoice.payment_hash.0@),
    {
        if description.is_empty() {
            return Err(PaymentError::Invoice(InvoiceError::EmptyDescription));
        }
        let payment_hash = match random_bytes_32() {
            Some(bytes) => PaymentHash::new(bytes),
            None => {
                return Err(PaymentError::Invoice(InvoiceError::EntropyUnavailable));
            },
        };
        let now = match unix_seconds() {
            Some(now) => now,
            None => {
                return Err(PaymentError::Invoice(InvoiceError::ClockUnavailable));
            },
        };
        let r = self.create_invoice_at(amount_sats, description, expiry_secs, payment_hash, now);
        proof {
            if r is Ok {
                assert(r->Ok_0.expiry == expiry_after(now, expiry_secs));
            }
        }
        r
    }

    /// Check invoice payment status
    ///
    /// An invoice that this node created counts as paid; any other payment
    /// hash is unknown.
    pub fn check_invoice(&self, payment_hash: &PaymentHash) -> (r: PaymentResult<PaymentStatus>)
        requires
            self.wf(),
        ensures
            r == (if has_lightning_invoice(self.invoices(), payment_hash.0@) {
                Ok::<PaymentStatus, PaymentError>(PaymentStatus::Succeeded)
            } else {
                Err::<PaymentStatus, PaymentError>(
                    PaymentError::Invoice(InvoiceError::UnknownPaymentHash),
                )
            }),
    {
        match self.invoice_position(payment_hash) {
            Some(_) => Ok(PaymentStatus::Succeeded),
            None => Err(PaymentError::Invoice(InvoiceError::UnknownPaymentHash)),
        }
    }

    /// Pay an invoice
    ///
    /// The payment succeeds when the node's spendable balance covers the
    /// invoice's amount; an invoice without an amount asks for nothing.
    pub fn pay_invoice(&self, invoice: &LightningInvoice) -> (r: PaymentResult<PaymentStatus>)
        requires
            self.wf(),
        ensures
            r == (if total_local(self.channels()@, self.channels()@.len() as int) < (
            match invoice.amount_sats {
                Some(a) => a,
                None => 0,
            }) {
                Err::<PaymentStatus, PaymentError>(
                    PaymentError::InsufficientFunds {
                        needed: invoice.amount_sats->0,
                        available: total_local(
                            self.channels()@,
                            self.channels()@.len() as int,
                        ) as u64,
                    },
                )
            } else {
                Ok::<PaymentStatus, PaymentError>(PaymentStatus::Succeeded)
            }),
    {
        let total_balance = self.channels.total_local_balance();
        let amount = match invoice.amount_sats {
            Some(a) => a,
            None => 0,
        };
        if total_balance < amount {
            return Err(PaymentError::InsufficientFunds { needed: amount,
                available: total_balance });
        }
        Ok(PaymentStatus::Succeeded)
    }

    /// Opens a channel under an identifier chosen by the caller.
    ///
    /// The channel is active at once, with `push_sats` on the peer's side
    /// and the rest of the capacity on the local side.
    pub fn open_channel_with_id(
        &mut self,
        peer_pubkey: [u8; 33],
        capacity_sats: u64,
        push_sats: u64,
        channel_id: [u8; 32],
    ) -> (r: PaymentResult<[u8; 32]>)
        requires
            old(self).wf(),
        ensures
            final(self).wf(),
            final(self).invoices() == old(self).invoices(),
            final(self).pubkey() == old(self).pubkey(),
            final(self).alias() == old(self).alias(),
            evolves(old(self).channels()@, final(self).channels()@),
            final(self).channels().min_capacity() == old(self).channels().min_capacity(),
            final(self).channels().max_capacity() == old(self).channels().max_capacity(),
            match open_refusal(
                old(self).channels()@,
                old(self).channels().min_capacity(),
                old(self).channels().max_capacity(),
                peer_pubkey@,
                capacity_sats,
                push_sats,
                channel_id@,
            ) {
                Some(e) => r == Err::<[u8; 32], PaymentError>(PaymentError::Channel(e))
                    && final(self).channels().same_as(&old(self).channels()),
                None => r == Ok::<[u8; 32], PaymentError>(channel_id) && final(self).channels()@
                    == old(self).channels()@.push(
                    PaymentChannel {
                        channel_id,
                        peer_pubkey,
                        capacity: capacity_sats,
                        local_balance: (capacity_sats - push_sats) as u64,
                        remote_balance: push_sats,
                        state: ChannelState::Active,
                    },
                ),
            },
    {
        self.channels.register_channel(peer_pubkey, capacity_sats, push_sats, channel_id, true)
    }

    /// Open a channel with a peer
    ///
    /// Terms that no identifier can mend are refused first: a malformed peer
    /// key, a capacity beyond what the node may hold, a push above the
    /// capacity. Then the identifier is drawn from the operating system's
    /// random source. If the source fails, or gives an identifier that a
    /// channel of the node already has, the channel is refused; else it is
    /// opened under that identifier, active at once, with `push_sats` on the
    /// peer's side. Nothing changes when the channel is refused.
    pub fn open_channel(&mut self, peer_pubkey: [u8; 33], capacity_sats: u64, push_sats: u64) -> (r:
        PaymentResult<[u8; 32]>)
        requires
            old(self).wf(),
        ensures
            final(self).wf(),
            final(self).invoices() == old(self).invoices(),
            final(self).pubkey() == old(self).pubkey(),
            final(self).alias() == old(self).alias(),
            evolves(old(self).channels()@, final(self).channels()@),
            final(self).channels().min_capacity() == old(self).channels().min_capacity(),
            final(self).channels().max_capacity() == old(self).channels().max_capacity(),
            r is Err ==> final(self).channels().same_as(&old(self).channels()),
            match terms_refusal(
                old(self).channels()@,
                old(self).channels().min_capacity(),
                old(self).channels().max_capacity(),
                peer_pubkey@,
                capacity_sats,
                push_sats,
            ) {
                Some(e) => r == Err::<[u8; 32], PaymentError>(PaymentError::Channel(e)),
                None => match r {
                    Ok(id) => {
                        &&& !has_channel(old(self).channels()@, id@)
                        &&& final(self).channels()@ == old(self).channels()@.push(
                            PaymentChannel {
                                channel_id: id,
                                peer_pubkey,
                                capacity: capacity_sats,
                                local_balance: (capacity_sats - push_sats) as u64,
                                remote_balance: push_sats,
                                state: ChannelState::Active,
                            },
                        )
                    },
                    Err(e) => {
                        ||| e == PaymentError::Channel(ChannelError::EntropyUnavailable)
                        ||| e == PaymentError::Channel(ChannelError::DuplicateChannel)
                            && old(self).channels()@.len() > 0
                    },
                },
            },
    {
        proof {
            ChannelManager::lemma_evolves_reflexive(self.channels()@);
        }
        if let Some(e) = self.channels.check_terms(&peer_pubkey, capacity_sats, push_sats) {
            return Err(PaymentError::Channel(e));
        }
        let channel_id = match random_bytes_32() {
            Some(channel_id) => channel_id,
            None => {
                return Err(PaymentError::Channel(ChannelError::EntropyUnavailable));
            },
        };
        self.open_channel_with_id(peer_pubkey, capacity_sats, push_sats, channel_id)
    }

    /// Close a channel
    pub fn close_channel(&mut self, channel_id: &[u8; 32]) -> (r: PaymentResult<()>)
        requires
            old(self).wf(),
        ensures
            final(self).wf(),
            final(self).invoices() == old(self).invoices(),
            final(self).pubkey() == old(self).pubkey(),
            final(self).alias() == old(self).alias(),
            evolves(old(self).channels()@, final(self).channels()@),
            final(self).channels().min_capacity() == old(self).channels().min_capacity(),
            final(self).channels().max_capacity() == old(self).channels().max_capacity(),
            match close_refusal(old(self).channels()@, channel_id@) {
                Some(e) => r == Err::<(), PaymentError>(PaymentError::Channel(e))
                    && final(self).channels().same_as(&old(self).channels()),
                None => r == Ok::<(), PaymentError>(()) && final(self).channels()@
                    == old(self).channels()@.update(
                    index_of(old(self).channels()@, channel_id@),
                    PaymentChannel {
                        state: ChannelState::Closed,
                        ..old(self).channels()@[index_of(old(self).channels()@, channel_id@)]
                    },
                ),
            },
    {
        self.channels.close_channel(channel_id)
    }

    /// Get total channel balance: the local balances of the active
    /// channels, added up.
    pub fn total_balance(&self) -> (total: u64)
        requires
            self.wf(),
        ensures
            total == total_local(self.channels()@, self.channels()@.len() as int),
            total <= MAX_SATOSHIS,
    {
        self.channels.total_local_balance()
    }
}

} // verus!

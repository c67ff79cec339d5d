//! Value types of the payment engine: channels, invoices, routes and their states.

use vstd::prelude::*;

use crate::text::bytes_equal;

verus! {

/// Upper bound on any amount of satoshis that the engine accounts for: the
/// total supply, 21 million coins of 100 million satoshis each.
pub const MAX_SATOSHIS: u64 = 2_100_000_000_000_000;

/// Channel state.
///
/// The lifecycle is linear: `Opening`, `Active`, `Closing`, then `Closed` or
/// `ForceClosed`. A channel may also be force-closed while opening or active.
#[derive(Debug, Clone, Copy, PartialEq, Eq, Structural)]
pub enum ChannelState {
    /// Channel is being opened.
    Opening,
    /// Channel is active.
    Active,
    /// Channel is being closed cooperatively.
    Closing,
    /// Channel was force closed.
    ForceClosed,
    /// Channel is fully closed.
    Closed,
}

impl ChannelState {
    /// Whether the lifecycle has an edge from `self` to `next`.
    pub open spec fn may_become(self, next: ChannelState) -> bool {
        match self {
            ChannelState::Opening => next == ChannelState::Active || next
                == ChannelState::ForceClosed,
            ChannelState::Active => next == ChannelState::Closing || next
                == ChannelState::ForceClosed,
            ChannelState::Closing => next == ChannelState::Closed || next
                == ChannelState::ForceClosed,
            ChannelState::ForceClosed => false,
            ChannelState::Closed => false,
        }
    }

    /// Whether the state is `Closed` or `ForceClosed`.
    pub open spec fn terminal(self) -> bool {
        self == ChannelState::Closed || self == ChannelState::ForceClosed
    }

    /// How far along the lifecycle the state is.
    pub open spec fn stage(self) -> nat {
        match self {
            ChannelState::Opening => 0,
            ChannelState::Active => 1,
            ChannelState::Closing => 2,
            ChannelState::ForceClosed => 3,
            ChannelState::Closed => 3,
        }
    }

    /// Whether the state is `Closed` or `ForceClosed`.
    pub fn is_terminal(&self) -> (r: bool)
        ensures
            r == self.terminal(),
    {
        match self {
            ChannelState::Closed => true,
            ChannelState::ForceClosed => true,
            _ => false,
        }
    }

    /// Whether the lifecycle allows going from this state to `next`.
    pub fn can_transition_to(&self, next: ChannelState) -> (r: bool)
        ensures
            r == self.may_become(next),
    {
        match self {
            ChannelState::Opening => next == ChannelState::Active || next
                == ChannelState::ForceClosed,
            ChannelState::Active => next == ChannelState::Closing || next
                == ChannelState::ForceClosed,
            ChannelState::Closing => next == ChannelState::Closed || next
                == ChannelState::ForceClosed,
            ChannelState::ForceClosed => false,
            ChannelState::Closed => false,
        }
    }

    /// Whether `later` is this state or can be reached from it along the
    /// edges of the lifecycle.
    pub open spec fn leads_to(self, later: ChannelState) -> bool {
        ||| self == later
        ||| self.may_become(later)
        ||| exists|mid: ChannelState| #[trigger] self.may_become(mid) && mid.may_become(later)
        ||| exists|mid: ChannelState, mid2: ChannelState| #[trigger]
            self.may_become(mid) && #[trigger] mid.may_become(mid2) && mid2.may_become(later)
    }

    /// Every edge of the lifecycle moves strictly forward, so the lifecycle
    /// has no cycle, and nothing follows a terminal state.
    pub proof fn lemma_lifecycle_is_linear(from: ChannelState, to: ChannelState)
        ensures
            from.may_become(to) ==> from.stage() < to.stage(),
            from.terminal() ==> !from.may_become(to),
            from.terminal() && from.leads_to(to) ==> to == from,
    {
    }

    /// A state leads to exactly itself and the states further along.
    pub proof fn lemma_leads_to_is_progress(a: ChannelState, b: ChannelState)
        ensures
            a.leads_to(b) <==> (a == b || a.stage() < b.stage()),
    {
        if a != b && a.stage() < b.stage() {
            assert(ChannelState::Opening.may_become(ChannelState::Active));
            assert(ChannelState::Active.may_become(ChannelState::Closing));
        }
    }

    /// Following the lifecycle twice is following it once: `leads_to` is
    /// closed under composition.
    pub proof fn lemma_leads_to_transitive(a: ChannelState, b: ChannelState, c: ChannelState)
        requires
            a.leads_to(b),
            b.leads_to(c),
        ensures
            a.leads_to(c),
    {
    }
}

/// Payment channel representation.
#[derive(Debug, Clone, Copy)]
pub struct PaymentChannel {
    /// Channel identifier.
    pub channel_id: [u8; 32],
    /// Remote peer public key.
    pub peer_pubkey: [u8; 33],
    /// Channel capacity in satoshis.
    pub capacity: u64,
    /// Local balance in satoshis.
    pub local_balance: u64,
    /// Remote balance in satoshis.
    pub remote_balance: u64,
    /// Current channel state.
    pub state: ChannelState,
}

impl PaymentChannel {
    /// The two balances add up to the capacity.
    pub open spec fn balanced(&self) -> bool {
        self.local_balance + self.remote_balance == self.capacity
    }

    /// Whether the two balances add up to the capacity.
    pub fn is_balanced(&self) -> (r: bool)
        ensures
            r == self.balanced(),
    {
        self.local_balance <= self.capacity && self.capacity - self.local_balance
            == self.remote_balance
    }

    /// Whether the channel is in the `Active` state.
    pub fn is_active(&self) -> (r: bool)
        ensures
            r == (self.state == ChannelState::Active),
    {
        self.state == ChannelState::Active
    }
}

/// Payment invoice.
#[derive(Debug)]
pub struct PaymentInvoice {
    /// Invoice identifier (payment hash).
    pub payment_hash: [u8; 32],
    /// Amount in satoshis (None for any amount).
    pub amount: Option<u64>,
    /// Invoice description.
    pub description: String,
    /// Expiry timestamp.
    pub expiry: u64,
    /// Encoded invoice string.
    pub encoded: String,
    /// Secret that authenticates multi-path payments.
    pub payment_secret: Option<[u8; 32]>,
}

impl Clone for PaymentInvoice {
    fn clone(&self) -> (copy: Self)
        ensures
            copy == *self,
    {
        PaymentInvoice {
            payment_hash: self.payment_hash,
            amount: self.amount,
            description: self.description.clone(),
            expiry: self.expiry,
            encoded: self.encoded.clone(),
            payment_secret: self.payment_secret,
        }
    }
}

/// Single hop in a payment route.
#[derive(Debug, Clone, Copy)]
pub struct RouteHop {
    /// Node public key.
    pub pubkey: [u8; 33],
    /// Short channel ID.
    pub short_channel_id: u64,
    /// Fee in millisatoshis.
    pub fee_msat: u64,
    /// CLTV expiry delta.
    pub cltv_expiry_delta: u16,
}

/// Payment route.
#[derive(Debug)]
pub struct PaymentRoute {
    /// Route hops.
    pub hops: Vec<RouteHop>,
    /// Total fees in millisatoshis.
    pub total_fees_msat: u64,
    /// Total time lock delta.
    pub total_cltv_delta: u32,
}

/// The fees of the first `count` hops, added up.
pub open spec fn sum_fees(hops: Seq<RouteHop>, count: int) -> int
    decreases count,
{
    if count <= 0 {
        0
    } else {
        sum_fees(hops, count - 1) + hops[count - 1].fee_msat
    }
}

/// The time-lock deltas of the first `count` hops, added up.
pub open spec fn sum_cltv(hops: Seq<RouteHop>, count: int) -> int
    decreases count,
{
    if count <= 0 {
        0
    } else {
        sum_cltv(hops, count - 1) + hops[count - 1].cltv_expiry_delta
    }
}

impl PaymentRoute {
    /// The two totals are the sums over the hops.
    pub open spec fn totals_consistent(&self) -> bool {
        &&& self.total_fees_msat == sum_fees(self.hops@, self.hops@.len() as int)
        &&& self.total_cltv_delta == sum_cltv(self.hops@, self.hops@.len() as int)
    }
}

impl Clone for PaymentRoute {
    fn clone(&self) -> (copy: Self)
        ensures
            copy.hops@ == self.hops@,
            copy.total_fees_msat == self.total_fees_msat,
            copy.total_cltv_delta == self.total_cltv_delta,
    {
        let mut hops: Vec<RouteHop> = Vec::new();
        let mut i: usize = 0;
        while i < self.hops.len()
            invariant
                i <= self.hops.len(),
                hops@ == self.hops@.take(i as int),
            decreases self.hops.len() - i,
        {
            hops.push(self.hops[i]);
            assert(self.hops@.take(i as int).push(self.hops@[i as int]) =~= self.hops@.take(i + 1));
            i += 1;
        }
        assert(self.hops@.take(self.hops.len() as int) =~= self.hops@);
        PaymentRoute {
            hops,
            total_fees_msat: self.total_fees_msat,
            total_cltv_delta: self.total_cltv_delta,
        }
    }
}

/// Payment status.
///
/// A payment is `Pending` until a route is reserved, `InFlight` while it is
/// being settled, and ends `Succeeded` or `Failed`. A pending payment that is
/// cancelled or times out fails without ever being in flight.
#[derive(Debug, Clone, Copy, PartialEq, Eq, Structural)]
pub enum PaymentStatus {
    /// Payment is pending.
    Pending,
    /// Payment is in flight.
    InFlight,
    /// Payment succeeded.
    Succeeded,
    /// Payment failed.
    Failed,
}

impl PaymentStatus {
    /// Whether the lifecycle has an edge from `self` to `next`.
    pub open spec fn may_become(self, next: PaymentStatus) -> bool {
        match self {
            PaymentStatus::Pending => next == PaymentStatus::InFlight || next
                == PaymentStatus::Failed,
            PaymentStatus::InFlight => next == PaymentStatus::Succeeded || next
                == PaymentStatus::Failed,
            PaymentStatus::Succeeded => false,
            PaymentStatus::Failed => false,
        }
    }

    /// Whether the status is `Succeeded` or `Failed`.
    pub open spec fn terminal(self) -> bool {
        self == PaymentStatus::Succeeded || self == PaymentStatus::Failed
    }

    /// Whether the status is `Succeeded` or `Failed`.
    pub fn is_terminal(&self) -> (r: bool)
        ensures
            r == self.terminal(),
    {
        match self {
            PaymentStatus::Succeeded => true,
            PaymentStatus::Failed => true,
            _ => false,
        }
    }

    /// Whether the lifecycle allows going from this status to `next`.
    pub fn can_transition_to(&self, next: PaymentStatus) -> (r: bool)
        ensures
            r == self.may_become(next),
    {
        match self {
            PaymentStatus::Pending => next == PaymentStatus::InFlight || next
                == PaymentStatus::Failed,
            PaymentStatus::InFlight => next == PaymentStatus::Succeeded || next
                == PaymentStatus::Failed,
            _ => false,
        }
    }
}

/// Payment amount representation.
#[derive(Debug, Clone, Copy)]
pub struct PaymentAmount {
    /// Amount in satoshis.
    pub satoshis: u64,
}

impl PaymentAmount {
    /// Create from satoshis.
    #[must_use]
    pub fn from_satoshis(sats: u64) -> (amount: Self)
        ensures
            amount.satoshis == sats,
    {
        Self { satoshis: sats }
    }

    /// Create from millisatoshis, dropping any fraction of a satoshi.
    #[must_use]
    pub fn from_millisatoshis(msats: u64) -> (amount: Self)
        ensures
            amount.satoshis == msats / 1000,
    {
        Self { satoshis: msats / 1000 }
    }

    /// Get as millisatoshis.
    #[must_use]
    pub fn as_millisatoshis(&self) -> (msats: u64)
        requires
            self.satoshis * 1000 <= u64::MAX,
        ensures
            msats == self.satoshis * 1000,
    {
        self.satoshis * 1000
    }

    /// Get as millisatoshis, or `None` when the product does not fit in 64 bits.
    pub fn checked_as_millisatoshis(&self) -> (msats: Option<u64>)
        ensures
            msats == (if self.satoshis * 1000 <= u64::MAX {
                Some((self.satoshis * 1000) as u64)
            } else {
                None::<u64>
            }),
    {
        if self.satoshis <= u64::MAX / 1000 {
            Some(self.as_millisatoshis())
        } else {
            None
        }
    }
}

/// Lightning Network node interface
#[derive(Debug)]
pub struct LightningNode {
    /// Node public key
    pub pubkey: [u8; 33],
    /// Node alias
    pub alias: String,
    /// Color for node identification
    pub color: [u8; 3],
}

impl Clone for LightningNode {
    fn clone(&self) -> (copy: Self)
        ensures
            copy == *self,
    {
        LightningNode { pubkey: self.pubkey, alias: self.alias.clone(), color: self.color }
    }
}

/// Payment hash wrapper
#[derive(Debug, Clone, Copy, PartialEq, Eq, Hash)]
pub struct PaymentHash(pub [u8; 32]);

impl PaymentHash {
    /// Create new payment hash from bytes
    pub fn new(bytes: [u8; 32]) -> (hash: Self)
        ensures
            hash.0 == bytes,
    {
        Self(bytes)
    }

    /// Get as byte array
    pub fn as_bytes(&self) -> (bytes: &[u8; 32])
        ensures
            *bytes == self.0,
    {
        &self.0
    }

    /// Whether two payment hashes hold the same bytes.
    pub fn same_as(&self, other: &PaymentHash) -> (same: bool)
        ensures
            same == (self.0@ == other.0@),
    {
        bytes_equal(&self.0, &other.0)
    }
}

/// Lightning invoice (BOLT11)
#[derive(Debug)]
pub struct LightningInvoice {
    /// Payment hash
    pub payment_hash: PaymentHash,
    /// Amount in satoshis
    pub amount_sats: Option<u64>,
    /// Description
    pub description: String,
    /// Expiry timestamp
    pub expiry: u64,
    /// Encoded BOLT11 string
    pub bolt11: String,
    /// Payment secret for AMP
    pub payment_secret: Option<[u8; 32]>,
}

impl Clone for LightningInvoice {
    fn clone(&self) -> (copy: Self)
        ensures
            copy == *self,
    {
        LightningInvoice {
            payment_hash: self.payment_hash,
            amount_sats: self.amount_sats,
            description: self.description.clone(),
            expiry: self.expiry,
            bolt11: self.bolt11.clone(),
            payment_secret: self.payment_secret,
        }
    }
}

/// Satoshis wrapper for type safety
#[derive(Debug, Clone, Copy, PartialEq, Eq, PartialOrd, Ord, Structural)]
pub struct Satoshis(pub u64);

impl Satoshis {
    /// Create from u64
    pub fn new(amount: u64) -> (sats: Self)
        ensures
            sats.0 == amount,
    {
        Self(amount)
    }

    /// Get as u64
    pub fn as_u64(&self) -> (amount: u64)
        ensures
            amount == self.0,
    {
        self.0
    }
}

/// Escrow types for bounty system
#[derive(Debug)]
pub enum EscrowType {
    /// Lightning hold invoice (preimage release on completion)
    LightningHold { payment_hash: PaymentHash, preimage: Option<[u8; 32]> },
    /// On-chain multi-sig (2-of-3)
    MultiSig {
        funder_pubkey: String,
        claimant_pubkey: String,
        arbiter_pubkey: String,
        redeem_script: String,
    },
}

impl Clone for EscrowType {
    fn clone(&self) -> (copy: Self)
        ensures
            copy == *self,
    {
        match self {
            EscrowType::LightningHold { payment_hash, preimage } => EscrowType::LightningHold {
                payment_hash: *payment_hash,
                preimage: *preimage,
            },
            EscrowType::MultiSig {
                funder_pubkey,
                claimant_pubkey,
                arbiter_pubkey,
                redeem_script,
            } => EscrowType::MultiSig {
                funder_pubkey: funder_pubkey.clone(),
                claimant_pubkey: claimant_pubkey.clone(),
                arbiter_pubkey: arbiter_pubkey.clone(),
                redeem_script: redeem_script.clone(),
            },
        }
    }
}

/// Escrow status.
///
/// An escrow starts `Funded`. It is then released, refunded or disputed; a
/// dispute resolves to a release or a refund.
#[derive(Debug, Clone, Copy, PartialEq, Eq, Structural)]
pub enum EscrowStatus {
    /// Funds deposited
    Funded,
    /// Funds released to recipient
    Released,
    /// Funds refunded to sender
    Refunded,
    /// Escrow disputed
    Disputed,
}

impl EscrowStatus {
    /// Whether the lifecycle has an edge from `self` to `next`.
    pub open spec fn may_become(self, next: EscrowStatus) -> bool {
        match self {
            EscrowStatus::Funded => next == EscrowStatus::Released || next
                == EscrowStatus::Refunded || next == EscrowStatus::Disputed,
            EscrowStatus::Disputed => next == EscrowStatus::Released || next
                == EscrowStatus::Refunded,
            EscrowStatus::Released => false,
            EscrowStatus::Refunded => false,
        }
    }

    /// Whether the status is `Released` or `Refunded`.
    pub open spec fn terminal(self) -> bool {
        self == EscrowStatus::Released || self == EscrowStatus::Refunded
    }

    /// Whether the lifecycle allows going from this status to `next`.
    pub fn can_transition_to(&self, next: EscrowStatus) -> (r: bool)
        ensures
            r == self.may_become(next),
    {
        match self {
            EscrowStatus::Funded => next == EscrowStatus::Released || next
                == EscrowStatus::Refunded || next == EscrowStatus::Disputed,
            EscrowStatus::Disputed => next == EscrowStatus::Released || next
                == EscrowStatus::Refunded,
            _ => false,
        }
    }

    /// Whether the status is `Released` or `Refunded`.
    pub fn is_terminal(&self) -> (r: bool)
        ensures
            r == self.terminal(),
    {
        match self {
            EscrowStatus::Released => true,
            EscrowStatus::Refunded => true,
            _ => false,
        }
    }
}

/// Subscription tier for VCS
#[derive(Debug, Clone, Copy, PartialEq, Eq, Structural)]
pub enum SubscriptionTier {
    /// Free tier - basic P2P features
    Free,
    /// Pro tier - AI features, priority seeding
    Pro,
    /// Enterprise - private repos, SLA
    Enterprise,
}

/// What a subscription tier includes, in whole numbers.
#[derive(Debug, Clone, Copy, PartialEq, Eq, Structural)]
pub struct TierLimits {
    /// AI operations per month.
    pub ai_operations_per_month: u32,
    /// Private repositories.
    pub private_repos: u32,
    /// Whether the tier's repositories are seeded first.
    pub priority_seeding: bool,
    /// Whether the tier comes with a service-level guarantee.
    pub sla_guarantee: bool,
    /// The largest size of a repository, in gigabytes.
    pub max_repo_size_gb: u32,
}

impl SubscriptionTier {
    /// What each tier includes. The enterprise tier is unlimited in
    /// operations and private repositories, which the largest number stands
    /// for.
    pub open spec fn limits_spec(self) -> TierLimits {
        match self {
            SubscriptionTier::Free => TierLimits {
                ai_operations_per_month: 10,
                private_repos: 0,
                priority_seeding: false,
                sla_guarantee: false,
                max_repo_size_gb: 1,
            },
            SubscriptionTier::Pro => TierLimits {
                ai_operations_per_month: 1000,
                private_repos: 10,
                priority_seeding: true,
                sla_guarantee: false,
                max_repo_size_gb: 10,
            },
            SubscriptionTier::Enterprise => TierLimits {
                ai_operations_per_month: u32::MAX,
                private_repos: u32::MAX,
                priority_seeding: true,
                sla_guarantee: true,
                max_repo_size_gb: 100,
            },
        }
    }

    /// Features included
    pub fn limits(&self) -> (l: TierLimits)
        ensures
            l == self.limits_spec(),
    {
        match self {
            Self::Free => TierLimits {
                ai_operations_per_month: 10,
                private_repos: 0,
                priority_seeding: false,
                sla_guarantee: false,
                max_repo_size_gb: 1,
            },
            Self::Pro => TierLimits {
                ai_operations_per_month: 1000,
                private_repos: 10,
                priority_seeding: true,
                sla_guarantee: false,
                max_repo_size_gb: 10,
            },
            Self::Enterprise => TierLimits {
                ai_operations_per_month: u32::MAX,
                private_repos: u32::MAX,
                priority_seeding: true,
                sla_guarantee: true,
                max_repo_size_gb: 100,
            },
        }
    }

    /// The monthly price of each tier, in satoshis.
    pub open spec fn price(self) -> u64 {
        match self {
            SubscriptionTier::Free => 0,
            SubscriptionTier::Pro => 10_000,
            SubscriptionTier::Enterprise => 100_000,
        }
    }

    /// Monthly price in satoshis
    pub fn monthly_price_sats(&self) -> (price: u64)
        ensures
            price == self.price(),
    {
        match self {
            Self::Free => 0,
            Self::Pro => 10_000,
            Self::Enterprise => 100_000,
        }
    }
}

} // verus!

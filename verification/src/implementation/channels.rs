//! Payment channel management.
//!
//! The channel manager is the store of this node's channels. It is the only
//! place where balances change, and it keeps, for every channel, the two
//! balances equal to the capacity and the outstanding reservations within the
//! local balance.

use vstd::prelude::*;

use crate::errors::{ChannelError, PaymentError, PaymentResult};
use crate::index::KeyIndex;
use crate::sources::random_bytes_32;
use crate::text::bytes_equal;
use crate::types::{ChannelState, PaymentChannel, MAX_SATOSHIS};

verus! {

/// The capacities of the first `count` channels, added up.
pub open spec fn total_capacity(channels: Seq<PaymentChannel>, count: int) -> int
    decreases count,
{
    if count <= 0 {
        0
    } else {
        total_capacity(channels, count - 1) + channels[count - 1].capacity
    }
}

/// The local balances of the active channels among the first `count`, added up.
pub open spec fn total_local(channels: Seq<PaymentChannel>, count: int) -> int
    decreases count,
{
    if count <= 0 {
        0
    } else {
        total_local(channels, count - 1) + if channels[count - 1].state == ChannelState::Active {
            channels[count - 1].local_balance as int
        } else {
            0
        }
    }
}

/// Whether some channel has the identifier `id`.
pub open spec fn has_channel(channels: Seq<PaymentChannel>, id: Seq<u8>) -> bool {
    exists|i: int| 0 <= i < channels.len() && (#[trigger] channels[i]).channel_id@ == id
}

/// The position of a channel with the identifier `id`.
pub open spec fn index_of(channels: Seq<PaymentChannel>, id: Seq<u8>) -> int {
    choose|i: int| 0 <= i < channels.len() && (#[trigger] channels[i]).channel_id@ == id
}

/// No two channels share an identifier.
pub open spec fn distinct_ids(channels: Seq<PaymentChannel>) -> bool {
    forall|i: int, j: int|
        0 <= i < channels.len() && 0 <= j < channels.len() && i != j ==> (
        #[trigger] channels[i]).channel_id@ != (#[trigger] channels[j]).channel_id@
}

/// Whether a peer key starts with one of the two prefix bytes of a
/// compressed public key.
pub open spec fn peer_key_well_formed(key: Seq<u8>) -> bool {
    key.len() == 33 && (key[0] == 2 || key[0] == 3)
}

/// How a store may change over time: channels are only added, keep their
/// identity, peer and capacity, and move along the lifecycle.
pub open spec fn evolves(before: Seq<PaymentChannel>, after: Seq<PaymentChannel>) -> bool {
    &&& before.len() <= after.len()
    &&& forall|i: int|
        0 <= i < before.len() ==> {
            &&& (#[trigger] after[i]).channel_id == before[i].channel_id
            &&& after[i].peer_pubkey == before[i].peer_pubkey
            &&& after[i].capacity == before[i].capacity
            &&& before[i].state.leads_to(after[i].state)
        }
}

/// The channels among the first `count` that are active, in order.
pub open spec fn active_of(channels: Seq<PaymentChannel>, count: int) -> Seq<PaymentChannel>
    decreases count,
{
    if count <= 0 {
        Seq::empty()
    } else if channels[count - 1].state == ChannelState::Active {
        active_of(channels, count - 1).push(channels[count - 1])
    } else {
        active_of(channels, count - 1)
    }
}

/// Whether the channel at position `i` is active, leads to `peer`, and holds
/// at least `amount` that is not reserved.
pub open spec fn spendable_at(
    channels: Seq<PaymentChannel>,
    reserved: Seq<u64>,
    peer: Seq<u8>,
    amount: u64,
    i: int,
) -> bool {
    &&& channels[i].state == ChannelState::Active
    &&& channels[i].peer_pubkey@ == peer
    &&& channels[i].local_balance - reserved[i] >= amount
}

/// The first of the first `count` channels that is spendable for `amount`
/// toward `peer`.
pub open spec fn first_spendable(
    channels: Seq<PaymentChannel>,
    reserved: Seq<u64>,
    peer: Seq<u8>,
    amount: u64,
    count: int,
) -> Option<int>
    decreases count,
{
    if count <= 0 {
        None
    } else {
        match first_spendable(channels, reserved, peer, amount, count - 1) {
            Some(i) => Some(i),
            None => if spendable_at(channels, reserved, peer, amount, count - 1) {
                Some(count - 1)
            } else {
                None
            },
        }
    }
}

/// A channel that is found spendable is one of the channels, and spendable.
pub proof fn lemma_first_spendable(
    channels: Seq<PaymentChannel>,
    reserved: Seq<u64>,
    peer: Seq<u8>,
    amount: u64,
    count: int,
)
    ensures
        first_spendable(channels, reserved, peer, amount, count) matches Some(i) ==> 0 <= i < count
            && spendable_at(channels, reserved, peer, amount, i),
    decreases count,
{
    if count > 0 {
        lemma_first_spendable(channels, reserved, peer, amount, count - 1);
    }
}

/// A channel that is found among the first channels is found among more.
pub proof fn lemma_first_spendable_stable(
    channels: Seq<PaymentChannel>,
    reserved: Seq<u64>,
    peer: Seq<u8>,
    amount: u64,
    count: int,
    more: int,
)
    requires
        count <= more,
        first_spendable(channels, reserved, peer, amount, count) is Some,
    ensures
        first_spendable(channels, reserved, peer, amount, more) == first_spendable(
            channels,
            reserved,
            peer,
            amount,
            count,
        ),
    decreases more - count,
{
    if count < more {
        lemma_first_spendable_stable(channels, reserved, peer, amount, count, more - 1);
    }
}

/// Why a channel cannot be registered, if it cannot.
pub open spec fn open_refusal(
    channels: Seq<PaymentChannel>,
    min_capacity: u64,
    max_capacity: u64,
    peer_pubkey: Seq<u8>,
    capacity: u64,
    push_sats: u64,
    channel_id: Seq<u8>,
) -> Option<ChannelError> {
    if !peer_key_well_formed(peer_pubkey) {
        Some(ChannelError::InvalidPeerKey)
    } else if capacity < min_capacity || capacity > max_capacity || total_capacity(
        channels,
        channels.len() as int,
    ) + capacity > MAX_SATOSHIS {
        Some(ChannelError::CapacityOutOfBounds)
    } else if push_sats > capacity {
        Some(ChannelError::PushExceedsCapacity)
    } else if has_channel(channels, channel_id) {
        Some(ChannelError::DuplicateChannel)
    } else {
        None
    }
}

/// Why a channel cannot be registered under any identifier, if it cannot:
/// the peer key is malformed, the capacity lies outside the limits or would
/// take the store beyond the supply, or more is pushed than the channel
/// holds.
pub open spec fn terms_refusal(
    channels: Seq<PaymentChannel>,
    min_capacity: u64,
    max_capacity: u64,
    peer_pubkey: Seq<u8>,
    capacity: u64,
    push_sats: u64,
) -> Option<ChannelError> {
    if !peer_key_well_formed(peer_pubkey) {
        Some(ChannelError::InvalidPeerKey)
    } else if capacity < min_capacity || capacity > max_capacity || total_capacity(
        channels,
        channels.len() as int,
    ) + capacity > MAX_SATOSHIS {
        Some(ChannelError::CapacityOutOfBounds)
    } else if push_sats > capacity {
        Some(ChannelError::PushExceedsCapacity)
    } else {
        None
    }
}

/// Why the state of a channel cannot be moved to `next`, if it cannot.
pub open spec fn transition_refusal(
    channels: Seq<PaymentChannel>,
    channel_id: Seq<u8>,
    next: ChannelState,
) -> Option<ChannelError> {
    if !has_channel(channels, channel_id) {
        Some(ChannelError::UnknownChannel)
    } else if channels[index_of(channels, channel_id)].state.terminal() {
        Some(ChannelError::TerminalChannel)
    } else if !channels[index_of(channels, channel_id)].state.may_become(next) {
        Some(ChannelError::InvalidState)
    } else {
        None
    }
}

/// Why a channel cannot be closed, if it cannot: it must be known, and
/// active or already closing.
pub open spec fn close_refusal(channels: Seq<PaymentChannel>, channel_id: Seq<u8>) -> Option<
    ChannelError,
> {
    if !has_channel(channels, channel_id) {
        Some(ChannelError::UnknownChannel)
    } else if channels[index_of(channels, channel_id)].state.terminal() {
        Some(ChannelError::TerminalChannel)
    } else if channels[index_of(channels, channel_id)].state == ChannelState::Opening {
        Some(ChannelError::InvalidState)
    } else {
        None
    }
}

/// Why the balances of a channel cannot be used, if they cannot: the channel
/// must be known and active.
pub open spec fn usage_refusal(channels: Seq<PaymentChannel>, channel_id: Seq<u8>) -> Option<
    ChannelError,
> {
    if !has_channel(channels, channel_id) {
        Some(ChannelError::UnknownChannel)
    } else if channels[index_of(channels, channel_id)].state.terminal() {
        Some(ChannelError::TerminalChannel)
    } else if channels[index_of(channels, channel_id)].state != ChannelState::Active {
        Some(ChannelError::InvalidState)
    } else {
        None
    }
}

/// Why a settlement is refused, if it is.
///
/// The channel must be usable, the deltas must cancel out, neither balance
/// may become negative, and the local balance may not fall below what is
/// reserved.
pub open spec fn settle_refusal(
    channels: Seq<PaymentChannel>,
    reserved: Seq<u64>,
    channel_id: Seq<u8>,
    delta_local: i64,
    delta_remote: i64,
) -> Option<PaymentError> {
    match usage_refusal(channels, channel_id) {
        Some(e) => Some(PaymentError::Channel(e)),
        None => {
            let i = index_of(channels, channel_id);
            if delta_local + delta_remote != 0 || channels[i].local_balance + delta_local < 0
                || channels[i].remote_balance + delta_remote < 0 {
                Some(PaymentError::Channel(ChannelError::BalanceMismatch))
            } else if channels[i].local_balance + delta_local < reserved[i] {
                Some(
                    PaymentError::InsufficientFunds {
                        needed: (-delta_local) as u64,
                        available: (channels[i].local_balance - reserved[i]) as u64,
                    },
                )
            } else {
                None
            }
        },
    }
}

/// Why a reservation is refused, if it is.
pub open spec fn reserve_refusal(
    channels: Seq<PaymentChannel>,
    reserved: Seq<u64>,
    channel_id: Seq<u8>,
    amount: u64,
) -> Option<PaymentError> {
    match usage_refusal(channels, channel_id) {
        Some(e) => Some(PaymentError::Channel(e)),
        None => {
            let i = index_of(channels, channel_id);
            if amount > channels[i].local_balance - reserved[i] {
                Some(
                    PaymentError::InsufficientFunds {
                        needed: amount,
                        available: (channels[i].local_balance - reserved[i]) as u64,
                    },
                )
            } else {
                None
            }
        },
    }
}

/// Why a release is refused, if it is: the channel must be known and hold a
/// reservation of at least the amount.
pub open spec fn release_refusal(
    channels: Seq<PaymentChannel>,
    reserved: Seq<u64>,
    channel_id: Seq<u8>,
    amount: u64,
) -> Option<ChannelError> {
    if !has_channel(channels, channel_id) {
        Some(ChannelError::UnknownChannel)
    } else if amount > reserved[index_of(channels, channel_id)] {
        Some(ChannelError::ReservationMismatch)
    } else {
        None
    }
}

/// Why a commit is refused, if it is: the channel must be usable and hold a
/// reservation of at least the amount.
pub open spec fn commit_refusal(
    channels: Seq<PaymentChannel>,
    reserved: Seq<u64>,
    channel_id: Seq<u8>,
    amount: u64,
) -> Option<ChannelError> {
    match usage_refusal(channels, channel_id) {
        Some(e) => Some(e),
        None => if amount > reserved[index_of(channels, channel_id)] {
            Some(ChannelError::ReservationMismatch)
        } else {
            None
        },
    }
}

/// The first `count` capacities never add up to more than all of them.
pub proof fn lemma_total_capacity_monotone(channels: Seq<PaymentChannel>, a: int, b: int)
    requires
        a <= b,
    ensures
        total_capacity(channels, a) <= total_capacity(channels, b),
    decreases b - a,
{
    if a < b {
        lemma_total_capacity_monotone(channels, a, b - 1);
    }
}

/// The spendable total never exceeds the total capacity.
pub proof fn lemma_total_local_bounded(channels: Seq<PaymentChannel>, count: int)
    requires
        count <= channels.len(),
        forall|i: int| 0 <= i < channels.len() ==> (#[trigger] channels[i]).balanced(),
    ensures
        0 <= total_local(channels, count) <= total_capacity(channels, count),
    decreases count,
{
    if count > 0 {
        lemma_total_local_bounded(channels, count - 1);
    }
}

proof fn lemma_totals_ignore_tail(
    before: Seq<PaymentChannel>,
    after: Seq<PaymentChannel>,
    count: int,
)
    requires
        count <= before.len(),
        count <= after.len(),
        forall|i: int| 0 <= i < count ==> before[i] == after[i],
    ensures
        total_capacity(before, count) == total_capacity(after, count),
        total_local(before, count) == total_local(after, count),
        active_of(before, count) == active_of(after, count),
    decreases count,
{
    if count > 0 {
        lemma_totals_ignore_tail(before, after, count - 1);
    }
}

proof fn lemma_totals_after_update(
    channels: Seq<PaymentChannel>,
    i: int,
    changed: PaymentChannel,
    count: int,
)
    requires
        0 <= i < channels.len(),
        count <= channels.len(),
        changed.capacity == channels[i].capacity,
    ensures
        total_capacity(channels.update(i, changed), count) == total_capacity(channels, count),
    decreases count,
{
    if count > 0 {
        lemma_totals_after_update(channels, i, changed, count - 1);
    }
}

/// Channel manager for Lightning Network channels.
#[derive(Debug)]
pub struct ChannelManager {
    channels: Vec<PaymentChannel>,
    reserved: Vec<u64>,
    min_capacity: u64,
    max_capacity: u64,
    index: KeyIndex,
}

impl ChannelManager {
    /// The channels of the store, in the order in which they were opened.
    pub closed spec fn view(&self) -> Seq<PaymentChannel> {
        self.channels@
    }

    /// The amount reserved on each channel, in the order of the channels.
    pub closed spec fn reservations(&self) -> Seq<u64> {
        self.reserved@
    }

    /// The smallest capacity that a new channel may have.
    pub closed spec fn min_capacity(&self) -> u64 {
        self.min_capacity
    }

    /// The largest capacity that a new channel may have.
    pub closed spec fn max_capacity(&self) -> u64 {
        self.max_capacity
    }

    /// The index holds exactly the identifiers of the channels, each with
    /// the position of its channel.
    pub closed spec fn indexed(&self) -> bool {
        &&& self.index.wf()
        &&& forall|i: int|
            0 <= i < self.channels@.len() ==> self.index.holds(
                (#[trigger] self.channels@[i]).channel_id@,
            ) && self.index.position(self.channels@[i].channel_id@) == i
        &&& forall|key: Seq<u8>| #[trigger]
            self.index.holds(key) ==> self.index.position(key) < self.channels@.len()
                && self.channels@[self.index.position(key) as int].channel_id@ == key
    }

    /// The store's invariant.
    ///
    /// Every channel's balances add up to its capacity, every reservation
    /// lies within the local balance, no identifier occurs twice, all
    /// capacities together stay within the supply of satoshis, and the index
    /// is up to date.
    pub open spec fn wf(&self) -> bool {
        &&& self.indexed()
        &&& self.reservations().len() == self@.len()
        &&& forall|i: int| 0 <= i < self@.len() ==> (#[trigger] self@[i]).balanced()
        &&& forall|i: int|
            0 <= i < self@.len() ==> (#[trigger] self.reservations()[i]) <= self@[i].local_balance
        &&& distinct_ids(self@)
        &&& total_capacity(self@, self@.len() as int) <= MAX_SATOSHIS
    }

    /// Whether two stores hold the same channels, reservations and limits.
    pub open spec fn same_as(&self, other: &ChannelManager) -> bool {
        &&& self@ == other@
        &&& self.reservations() == other.reservations()
        &&& self.min_capacity() == other.min_capacity()
        &&& self.max_capacity() == other.max_capacity()
    }

    /// Create a new channel manager with the default capacity limits.
    #[must_use]
    pub fn new() -> (store: Self)
        ensures
            store.wf(),
            store@.len() == 0,
            store.min_capacity() == 20_000,
            store.max_capacity() == 10_000_000,
    {
        Self {
            channels: Vec::new(),
            reserved: Vec::new(),
            min_capacity: 20_000,
            max_capacity: 10_000_000,
            index: KeyIndex::new(),
        }
    }

    /// Create a channel manager that accepts capacities from `min_capacity`
    /// to `max_capacity`.
    pub fn with_limits(min_capacity: u64, max_capacity: u64) -> (store: Self)
        ensures
            store.wf(),
            store@.len() == 0,
            store.min_capacity() == min_capacity,
            store.max_capacity() == max_capacity,
    {
        Self {
            channels: Vec::new(),
            reserved: Vec::new(),
            min_capacity,
            max_capacity,
            index: KeyIndex::new(),
        }
    }

    /// At every observable point, each channel's balances add up to its
    /// capacity and its reservation lies within its local balance.
    pub proof fn lemma_balances_hold(&self, i: int)
        requires
            self.wf(),
            0 <= i < self@.len(),
        ensures
            self@[i].local_balance + self@[i].remote_balance == self@[i].capacity,
            self.reservations()[i] <= self@[i].local_balance,
    {
    }

    /// The position of the channel with the given identifier, in expected
    /// constant time.
    pub fn find(&self, channel_id: &[u8; 32]) -> (found: Option<usize>)
        requires
            self.wf(),
        ensures
            found is Some <==> has_channel(self@, channel_id@),
            found matches Some(i) ==> i < self@.len() && i == index_of(self@, channel_id@)
                && self@[i as int].channel_id@ == channel_id@,
    {
        let found = self.index.get(channel_id);
        found
    }

    /// The channel with the given identifier.
    pub fn get(&self, channel_id: &[u8; 32]) -> (channel: Option<PaymentChannel>)
        requires
            self.wf(),
        ensures
            channel is Some <==> has_channel(self@, channel_id@),
            channel matches Some(c) ==> c == self@[index_of(self@, channel_id@)],
    {
        match self.find(channel_id) {
            Some(i) => Some(self.channels[i]),
            None => None,
        }
    }

    /// The amount reserved on the channel with the given identifier.
    pub fn reserved_on(&self, channel_id: &[u8; 32]) -> (amount: Option<u64>)
        requires
            self.wf(),
        ensures
            amount is Some <==> has_channel(self@, channel_id@),
            amount matches Some(a) ==> a == self.reservations()[index_of(self@, channel_id@)],
    {
        match self.find(channel_id) {
            Some(i) => Some(self.reserved[i]),
            None => None,
        }
    }

    /// The first active channel with `peer` whose local balance, less what
    /// is reserved, covers `amount`.
    pub fn find_spendable(&self, peer: &[u8; 33], amount: u64) -> (found: Option<usize>)
        requires
            self.wf(),
        ensures
            found is Some <==> first_spendable(
                self@,
                self.reservations(),
                peer@,
                amount,
                self@.len() as int,
            ) is Some,
            found matches Some(c) ==> c < self@.len() && first_spendable(
                self@,
                self.reservations(),
                peer@,
                amount,
                self@.len() as int,
            ) == Some(c as int),
    {
        let mut i: usize = 0;
        while i < self.channels.len()
            invariant
                i <= self.channels.len(),
                self.wf(),
                first_spendable(self@, self.reservations(), peer@, amount, i as int) is None,
            decreases self.channels.len() - i,
        {
            let channel = &self.channels[i];
            if channel.is_active() && bytes_equal(&channel.peer_pubkey, peer)
                && channel.local_balance - self.reserved[i] >= amount {
                proof {
                    lemma_first_spendable_stable(
                        self@,
                        self.reservations(),
                        peer@,
                        amount,
                        i + 1,
                        self@.len() as int,
                    );
                }
                return Some(i);
            }
            i += 1;
        }
        None
    }

    /// The channel at position `i`.
    pub fn channel_at(&self, i: usize) -> (channel: Option<PaymentChannel>)
        ensures
            channel == (if i < self@.len() {
                Some(self@[i as int])
            } else {
                None
            }),
    {
        if i < self.channels.len() {
            Some(self.channels[i])
        } else {
            None
        }
    }

    /// Get all channels.
    pub fn list(&self) -> (all: &[PaymentChannel])
        ensures
            all@ == self@,
    {
        self.channels.as_slice()
    }

    /// Get active channels only.
    pub fn active(&self) -> (active: Vec<&PaymentChannel>)
        ensures
            active@.len() == active_of(self@, self@.len() as int).len(),
            forall|k: int|
                0 <= k < active@.len() ==> *(#[trigger] active@[k]) == active_of(
                    self@,
                    self@.len() as int,
                )[k],
    {
        let mut active: Vec<&PaymentChannel> = Vec::new();
        let mut i: usize = 0;
        while i < self.channels.len()
            invariant
                i <= self.channels.len(),
                active@.len() == active_of(self@, i as int).len(),
                forall|k: int|
                    0 <= k < active@.len() ==> *(#[trigger] active@[k]) == active_of(
                        self@,
                        i as int,
                    )[k],
            decreases self.channels.len() - i,
        {
            if self.channels[i].is_active() {
                active.push(&self.channels[i]);
            }
            i += 1;
        }
        active
    }

    /// Get total local balance across all active channels.
    pub fn total_local_balance(&self) -> (total: u64)
        requires
            self.wf(),
        ensures
            total == total_local(self@, self@.len() as int),
            total <= MAX_SATOSHIS,
    {
        let mut total: u64 = 0;
        let mut i: usize = 0;
        while i < self.channels.len()
            invariant
                i <= self.channels.len(),
                self.wf(),
                total == total_local(self@, i as int),
                total <= total_capacity(self@, i as int),
            decreases self.channels.len() - i,
        {
            proof {
                lemma_total_capacity_monotone(self@, i + 1, self@.len() as int);
            }
            if self.channels[i].is_active() {
                total = total + self.channels[i].local_balance;
            }
            i += 1;
        }
        total
    }

    /// Registers a channel under an identifier chosen by the caller.
    ///
    /// The channel starts with `push_sats` on the remote side and the rest of
    /// the capacity on the local side. It is `Active` when `funded`, else
    /// `Opening`. Nothing changes when the channel is refused.
    pub fn register_channel(
        &mut self,
        peer_pubkey: [u8; 33],
        capacity: u64,
        push_sats: u64,
        channel_id: [u8; 32],
        funded: bool,
    ) -> (r: PaymentResult<[u8; 32]>)
        requires
            old(self).wf(),
        ensures
            final(self).wf(),
            evolves(old(self)@, final(self)@),
            final(self).min_capacity() == old(self).min_capacity(),
            final(self).max_capacity() == old(self).max_capacity(),
            match open_refusal(
                old(self)@,
                old(self).min_capacity(),
                old(self).max_capacity(),
                peer_pubkey@,
                capacity,
                push_sats,
                channel_id@,
            ) {
                Some(e) => r == Err::<[u8; 32], PaymentError>(PaymentError::Channel(e))
                    && final(self).same_as(old(self)),
                None => r == Ok::<[u8; 32], PaymentError>(channel_id) && final(self)@
                    == old(self)@.push(
                    PaymentChannel {
                        channel_id,
                        peer_pubkey,
                        capacity,
                        local_balance: (capacity - push_sats) as u64,
                        remote_balance: push_sats,
                        state: if funded {
                            ChannelState::Active
                        } else {
                            ChannelState::Opening
                        },
                    },
                ) && final(self).reservations() == old(self).reservations().push(0),
            },
    {
        if peer_pubkey[0] != 2 && peer_pubkey[0] != 3 {
            return Err(PaymentError::Channel(ChannelError::InvalidPeerKey));
        }
        if capacity < self.min_capacity || capacity > self.max_capacity {
            return Err(PaymentError::Channel(ChannelError::CapacityOutOfBounds));
        }
        let total = self.total_capacity();
        if capacity > MAX_SATOSHIS - total {
            return Err(PaymentError::Channel(ChannelError::CapacityOutOfBounds));
        }
        if push_sats > capacity {
            return Err(PaymentError::Channel(ChannelError::PushExceedsCapacity));
        }
        if self.find(&channel_id).is_some() {
            return Err(PaymentError::Channel(ChannelError::DuplicateChannel));
        }
        let channel = PaymentChannel {
            channel_id,
            peer_pubkey,
            capacity,
            local_balance: capacity - push_sats,
            remote_balance: push_sats,
            state: if funded {
                ChannelState::Active
            } else {
                ChannelState::Opening
            },
        };
        let ghost before = self@;
        let at = self.channels.len();
        self.index.insert(channel_id, at);
        self.channels.push(channel);
        self.reserved.push(0);
        proof {
            lemma_totals_ignore_tail(before, self@, before.len() as int);
            assert forall|i: int, j: int|
                0 <= i < self@.len() && 0 <= j < self@.len() && i != j implies (
            #[trigger] self@[i]).channel_id@ != (#[trigger] self@[j]).channel_id@ by {
            }
            assert forall|i: int| 0 <= i < before.len() implies {
                &&& (#[trigger] self@[i]).channel_id == before[i].channel_id
                &&& self@[i].peer_pubkey == before[i].peer_pubkey
                &&& self@[i].capacity == before[i].capacity
                &&& before[i].state.leads_to(self@[i].state)
            } by {
            }
        }
        Ok(channel_id)
    }

    /// Every store evolves from itself.
    pub proof fn lemma_evolves_reflexive(channels: Seq<PaymentChannel>)
        ensures
            evolves(channels, channels),
    {
    }

    /// Whatever a store goes through, one operation after another, every
    /// channel keeps its identity and capacity and only ever moves along the
    /// lifecycle: a closed or force-closed channel stays as it is.
    pub proof fn lemma_evolves_transitive(
        first: Seq<PaymentChannel>,
        second: Seq<PaymentChannel>,
        third: Seq<PaymentChannel>,
    )
        requires
            evolves(first, second),
            evolves(second, third),
        ensures
            evolves(first, third),
            forall|i: int|
                0 <= i < first.len() && (#[trigger] first[i]).state.terminal() ==> third[i].state
                    == first[i].state,
    {
        assert forall|i: int| 0 <= i < first.len() implies {
            &&& (#[trigger] third[i]).channel_id == first[i].channel_id
            &&& third[i].peer_pubkey == first[i].peer_pubkey
            &&& third[i].capacity == first[i].capacity
            &&& first[i].state.leads_to(third[i].state)
        } by {
        }
    }

    /// Why a channel with these terms cannot be registered under any
    /// identifier, if it cannot.
    pub fn check_terms(&self, peer_pubkey: &[u8; 33], capacity: u64, push_sats: u64) -> (refusal:
        Option<ChannelError>)
        requires
            self.wf(),
        ensures
            refusal == terms_refusal(
                self@,
                self.min_capacity(),
                self.max_capacity(),
                peer_pubkey@,
                capacity,
                push_sats,
            ),
    {
        if peer_pubkey[0] != 2 && peer_pubkey[0] != 3 {
            return Some(ChannelError::InvalidPeerKey);
        }
        if capacity < self.min_capacity || capacity > self.max_capacity {
            return Some(ChannelError::CapacityOutOfBounds);
        }
        let total = self.total_capacity();
        if capacity > MAX_SATOSHIS - total {
            return Some(ChannelError::CapacityOutOfBounds);
        }
        if push_sats > capacity {
            return Some(ChannelError::PushExceedsCapacity);
        }
        None
    }

    /// All capacities of the store, added up.
    pub fn total_capacity(&self) -> (total: u64)
        requires
            self.wf(),
        ensures
            total == total_capacity(self@, self@.len() as int),
    {
        let mut total: u64 = 0;
        let mut i: usize = 0;
        while i < self.channels.len()
            invariant
                i <= self.channels.len(),
                self.wf(),
                total == total_capacity(self@, i as int),
            decreases self.channels.len() - i,
        {
            proof {
                lemma_total_capacity_monotone(self@, i + 1, self@.len() as int);
            }
            total = total + self.channels[i].capacity;
            i += 1;
        }
        total
    }

    /// Open a new channel with a peer.
    ///
    /// Terms that no identifier can mend are refused first: a malformed peer
    /// key, a capacity outside the limits or beyond the supply. Then the
    /// identifier is drawn from the operating system's random source. If the
    /// source fails, or gives an identifier that is taken, the channel is
    /// refused; else it starts in `Opening` with the whole capacity on the
    /// local side. Nothing changes when the channel is refused.
    pub fn open_channel(&mut self, peer_pubkey: [u8; 33], capacity: u64) -> (r: PaymentResult<
        [u8; 32],
    >)
        requires
            old(self).wf(),
        ensures
            final(self).wf(),
            evolves(old(self)@, final(self)@),
            final(self).min_capacity() == old(self).min_capacity(),
            final(self).max_capacity() == old(self).max_capacity(),
            r is Err ==> final(self).same_as(old(self)),
            match terms_refusal(
                old(self)@,
                old(self).min_capacity(),
                old(self).max_capacity(),
                peer_pubkey@,
                capacity,
                0,
            ) {
                Some(e) => r == Err::<[u8; 32], PaymentError>(PaymentError::Channel(e)),
                None => match r {
                    Ok(id) => {
                        &&& !has_channel(old(self)@, id@)
                        &&& final(self)@ == old(self)@.push(
                            PaymentChannel {
                                channel_id: id,
                                peer_pubkey,
                                capacity,
                                local_balance: capacity,
                                remote_balance: 0,
                                state: ChannelState::Opening,
                            },
                        )
                        &&& final(self).reservations() == old(self).reservations().push(0)
                    },
                    Err(e) => {
                        ||| e == PaymentError::Channel(ChannelError::EntropyUnavailable)
                        ||| e == PaymentError::Channel(ChannelError::DuplicateChannel)
                            && old(self)@.len() > 0
                    },
                },
            },
    {
        proof {
            Self::lemma_evolves_reflexive(self@);
        }
        if let Some(e) = self.check_terms(&peer_pubkey, capacity, 0) {
            return Err(PaymentError::Channel(e));
        }
        match random_bytes_32() {
            Some(channel_id) => self.register_channel(peer_pubkey, capacity, 0, channel_id, false),
            None => Err(PaymentError::Channel(ChannelError::EntropyUnavailable)),
        }
    }

    /// Moves the channel with the given identifier to the state `next`, if
    /// the lifecycle has that edge. Nothing changes when it is refused.
    pub fn transition(&mut self, channel_id: &[u8; 32], next: ChannelState) -> (r: PaymentResult<
        (),
    >)
        requires
            old(self).wf(),
        ensures
            final(self).wf(),
            evolves(old(self)@, final(self)@),
            final(self).reservations() == old(self).reservations(),
            final(self).min_capacity() == old(self).min_capacity(),
            final(self).max_capacity() == old(self).max_capacity(),
            match transition_refusal(old(self)@, channel_id@, next) {
                Some(e) => r == Err::<(), PaymentError>(PaymentError::Channel(e))
                    && final(self).same_as(old(self)),
                None => r == Ok::<(), PaymentError>(()) && final(self)@ == old(self)@.update(
                    index_of(old(self)@, channel_id@),
                    PaymentChannel { state: next, ..old(self)@[index_of(old(self)@, channel_id@)] },
                ),
            },
    {
        let i = match self.find(channel_id) {
            Some(i) => i,
            None => {
                return Err(PaymentError::Channel(ChannelError::UnknownChannel));
            },
        };
        let mut channel = self.channels[i];
        if channel.state.is_terminal() {
            return Err(PaymentError::Channel(ChannelError::TerminalChannel));
        }
        if !channel.state.can_transition_to(next) {
            return Err(PaymentError::Channel(ChannelError::InvalidState));
        }
        channel.state = next;
        self.store(i, channel);
        Ok(())
    }

    /// Replaces the channel at position `i` by one with the same identity
    /// and capacity, further along the lifecycle.
    fn store(&mut self, i: usize, channel: PaymentChannel)
        requires
            old(self).wf(),
            i < old(self)@.len(),
            channel.channel_id == old(self)@[i as int].channel_id,
            channel.peer_pubkey == old(self)@[i as int].peer_pubkey,
            channel.capacity == old(self)@[i as int].capacity,
            old(self)@[i as int].state.leads_to(channel.state),
            channel.balanced(),
            old(self).reservations()[i as int] <= channel.local_balance,
        ensures
            final(self).wf(),
            evolves(old(self)@, final(self)@),
            final(self)@ == old(self)@.update(i as int, channel),
            final(self).reservations() == old(self).reservations(),
            final(self).min_capacity() == old(self).min_capacity(),
            final(self).max_capacity() == old(self).max_capacity(),
    {
        let ghost before = self@;
        self.channels[i] = channel;
        proof {
            lemma_totals_after_update(before, i as int, channel, before.len() as int);
            assert forall|a: int, b: int|
                0 <= a < self@.len() && 0 <= b < self@.len() && a != b implies (
            #[trigger] self@[a]).channel_id@ != (#[trigger] self@[b]).channel_id@ by {
            }
        }
    }

    /// Marks the funding of an opening channel as confirmed: `Opening`
    /// becomes `Active`.
    pub fn confirm_funding(&mut self, channel_id: &[u8; 32]) -> (r: PaymentResult<()>)
        requires
            old(self).wf(),
        ensures
            final(self).wf(),
            evolves(old(self)@, final(self)@),
            final(self).reservations() == old(self).reservations(),
            final(self).min_capacity() == old(self).min_capacity(),
            final(self).max_capacity() == old(self).max_capacity(),
            match transition_refusal(old(self)@, channel_id@, ChannelState::Active) {
                Some(e) => r == Err::<(), PaymentError>(PaymentError::Channel(e))
                    && final(self).same_as(old(self)),
                None => r == Ok::<(), PaymentError>(()) && final(self)@ == old(self)@.update(
                    index_of(old(self)@, channel_id@),
                    PaymentChannel {
                        state: ChannelState::Active,
                        ..old(self)@[index_of(old(self)@, channel_id@)]
                    },
                ),
            },
    {
        self.transition(channel_id, ChannelState::Active)
    }

    /// Closes a channel without the peer's cooperation: any state that is not
    /// terminal becomes `ForceClosed`.
    pub fn force_close(&mut self, channel_id: &[u8; 32]) -> (r: PaymentResult<()>)
        requires
            old(self).wf(),
        ensures
            final(self).wf(),
            evolves(old(self)@, final(self)@),
            final(self).reservations() == old(self).reservations(),
            final(self).min_capacity() == old(self).min_capacity(),
            final(self).max_capacity() == old(self).max_capacity(),
            match transition_refusal(old(self)@, channel_id@, ChannelState::ForceClosed) {
                Some(e) => r == Err::<(), PaymentError>(PaymentError::Channel(e))
                    && final(self).same_as(old(self)),
                None => r == Ok::<(), PaymentError>(()) && final(self)@ == old(self)@.update(
                    index_of(old(self)@, channel_id@),
                    PaymentChannel {
                        state: ChannelState::ForceClosed,
                        ..old(self)@[index_of(old(self)@, channel_id@)]
                    },
                ),
            },
    {
        self.transition(channel_id, ChannelState::ForceClosed)
    }

    /// Close a channel cooperatively.
    ///
    /// An active channel passes through `Closing` to `Closed`; a closing one
    /// becomes `Closed`. An unknown, terminal or still opening channel is
    /// refused, with nothing changed.
    pub fn close_channel(&mut self, channel_id: &[u8; 32]) -> (r: PaymentResult<()>)
        requires
            old(self).wf(),
        ensures
            final(self).wf(),
            evolves(old(self)@, final(self)@),
            final(self).reservations() == old(self).reservations(),
            final(self).min_capacity() == old(self).min_capacity(),
            final(self).max_capacity() == old(self).max_capacity(),
            match close_refusal(old(self)@, channel_id@) {
                Some(e) => r == Err::<(), PaymentError>(PaymentError::Channel(e))
                    && final(self).same_as(old(self)),
                None => r == Ok::<(), PaymentError>(()) && final(self)@ == old(self)@.update(
                    index_of(old(self)@, channel_id@),
                    PaymentChannel {
                        state: ChannelState::Closed,
                        ..old(self)@[index_of(old(self)@, channel_id@)]
                    },
                ),
            },
    {
        let i = match self.find(channel_id) {
            Some(i) => i,
            None => {
                return Err(PaymentError::Channel(ChannelError::UnknownChannel));
            },
        };
        let mut channel = self.channels[i];
        let ghost start = channel.state;
        if channel.state.is_terminal() {
            return Err(PaymentError::Channel(ChannelError::TerminalChannel));
        }
        if channel.state == ChannelState::Opening {
            return Err(PaymentError::Channel(ChannelError::InvalidState));
        }
        if channel.state == ChannelState::Active {
            channel.state = ChannelState::Closing;
        }
        channel.state = ChannelState::Closed;
        proof {
            ChannelState::lemma_leads_to_is_progress(start, ChannelState::Closed);
        }
        self.store(i, channel);
        Ok(())
    }

    /// Moves `delta_local` onto the local balance and `delta_remote` onto the
    /// remote balance of an active channel.
    ///
    /// This is the one operation that changes balances freely. It is refused,
    /// with nothing changed, unless the balances still add up to the capacity
    /// afterwards and the local balance still covers the reservations.
    pub fn settle(&mut self, channel_id: &[u8; 32], delta_local: i64, delta_remote: i64) -> (r:
        PaymentResult<()>)
        requires
            old(self).wf(),
        ensures
            final(self).wf(),
            evolves(old(self)@, final(self)@),
            final(self).reservations() == old(self).reservations(),
            final(self).min_capacity() == old(self).min_capacity(),
            final(self).max_capacity() == old(self).max_capacity(),
            match settle_refusal(
                old(self)@,
                old(self).reservations(),
                channel_id@,
                delta_local,
                delta_remote,
            ) {
                Some(e) => r == Err::<(), PaymentError>(e) && final(self).same_as(old(self)),
                None => r == Ok::<(), PaymentError>(()) && final(self)@ == old(self)@.update(
                    index_of(old(self)@, channel_id@),
                    PaymentChannel {
                        local_balance: (old(self)@[index_of(
                            old(self)@,
                            channel_id@,
                        )].local_balance + delta_local) as u64,
                        remote_balance: (old(self)@[index_of(
                            old(self)@,
                            channel_id@,
                        )].remote_balance + delta_remote) as u64,
                        ..old(self)@[index_of(old(self)@, channel_id@)]
                    },
                ),
            },
    {
        let i = match self.usable(channel_id) {
            Ok(i) => i,
            Err(e) => {
                return Err(PaymentError::Channel(e));
            },
        };
        let mut channel = self.channels[i];
        let local = channel.local_balance as i128 + delta_local as i128;
        let remote = channel.remote_balance as i128 + delta_remote as i128;
        if delta_local as i128 + delta_remote as i128 != 0 || local < 0 || remote < 0 {
            return Err(PaymentError::Channel(ChannelError::BalanceMismatch));
        }
        if local < self.reserved[i] as i128 {
            return Err(
                PaymentError::InsufficientFunds {
                    needed: (-(delta_local as i128)) as u64,
                    available: channel.local_balance - self.reserved[i],
                },
            );
        }
        channel.local_balance = local as u64;
        channel.remote_balance = remote as u64;
        self.store(i, channel);
        Ok(())
    }

    /// The position of the channel with the given identifier, if it is known
    /// and active.
    fn usable(&self, channel_id: &[u8; 32]) -> (r: Result<usize, ChannelError>)
        requires
            self.wf(),
        ensures
            match usage_refusal(self@, channel_id@) {
                Some(e) => r == Err::<usize, ChannelError>(e),
                None => r is Ok && r->Ok_0 as int == index_of(self@, channel_id@) && 0 <= index_of(
                    self@,
                    channel_id@,
                ) < self@.len() && has_channel(self@, channel_id@),
            },
    {
        let i = match self.find(channel_id) {
            Some(i) => i,
            None => {
                return Err(ChannelError::UnknownChannel);
            },
        };
        let channel = self.channels[i];
        if channel.state.is_terminal() {
            return Err(ChannelError::TerminalChannel);
        }
        if channel.state != ChannelState::Active {
            return Err(ChannelError::InvalidState);
        }
        Ok(i)
    }

    /// Sets `amount` of an active channel's local balance aside for a payment.
    ///
    /// Refused with `InsufficientFunds`, and nothing changed, when the local
    /// balance less what is already reserved is smaller than `amount`.
    pub fn reserve(&mut self, channel_id: &[u8; 32], amount: u64) -> (r: PaymentResult<()>)
        requires
            old(self).wf(),
        ensures
            final(self).wf(),
            final(self)@ == old(self)@,
            final(self).min_capacity() == old(self).min_capacity(),
            final(self).max_capacity() == old(self).max_capacity(),
            match reserve_refusal(old(self)@, old(self).reservations(), channel_id@, amount) {
                Some(e) => r == Err::<(), PaymentError>(e) && final(self).same_as(old(self)),
                None => r == Ok::<(), PaymentError>(()) && final(self).reservations()
                    == old(self).reservations().update(
                    index_of(old(self)@, channel_id@),
                    (old(self).reservations()[index_of(old(self)@, channel_id@)] + amount) as u64,
                ),
            },
    {
        let i = match self.usable(channel_id) {
            Ok(i) => i,
            Err(e) => {
                return Err(PaymentError::Channel(e));
            },
        };
        let available = self.channels[i].local_balance - self.reserved[i];
        if amount > available {
            return Err(PaymentError::InsufficientFunds { needed: amount, available });
        }
        self.reserved[i] = self.reserved[i] + amount;
        assert forall|k: int| 0 <= k < self@.len() implies (#[trigger] self.reservations()[k])
            <= self@[k].local_balance by {
        }
        Ok(())
    }

    /// Gives back `amount` of what is reserved on a channel, in whatever
    /// state the channel is.
    pub fn release(&mut self, channel_id: &[u8; 32], amount: u64) -> (r: PaymentResult<()>)
        requires
            old(self).wf(),
        ensures
            final(self).wf(),
            final(self)@ == old(self)@,
            final(self).min_capacity() == old(self).min_capacity(),
            final(self).max_capacity() == old(self).max_capacity(),
            match release_refusal(old(self)@, old(self).reservations(), channel_id@, amount) {
                Some(e) => r == Err::<(), PaymentError>(PaymentError::Channel(e))
                    && final(self).same_as(old(self)),
                None => r == Ok::<(), PaymentError>(()) && final(self).reservations()
                    == old(self).reservations().update(
                    index_of(old(self)@, channel_id@),
                    (old(self).reservations()[index_of(old(self)@, channel_id@)] - amount) as u64,
                ),
            },
    {
        let i = match self.find(channel_id) {
            Some(i) => i,
            None => {
                return Err(PaymentError::Channel(ChannelError::UnknownChannel));
            },
        };
        if amount > self.reserved[i] {
            return Err(PaymentError::Channel(ChannelError::ReservationMismatch));
        }
        self.reserved[i] = self.reserved[i] - amount;
        assert forall|k: int| 0 <= k < self@.len() implies (#[trigger] self.reservations()[k])
            <= self@[k].local_balance by {
        }
        Ok(())
    }

    /// Why `amount` cannot be paid out of what is reserved on a channel, if
    /// it cannot.
    pub fn check_commit(&self, channel_id: &[u8; 32], amount: u64) -> (refusal: Option<
        ChannelError,
    >)
        requires
            self.wf(),
        ensures
            refusal == commit_refusal(self@, self.reservations(), channel_id@, amount),
    {
        let i = match self.usable(channel_id) {
            Ok(i) => i,
            Err(e) => {
                return Some(e);
            },
        };
        if amount > self.reserved[i] {
            return Some(ChannelError::ReservationMismatch);
        }
        None
    }

    /// Pays `amount` out of what is reserved on an active channel: the
    /// reservation and the local balance shrink by `amount`, and the remote
    /// balance grows by it.
    pub fn commit(&mut self, channel_id: &[u8; 32], amount: u64) -> (r: PaymentResult<()>)
        requires
            old(self).wf(),
        ensures
            final(self).wf(),
            evolves(old(self)@, final(self)@),
            final(self).min_capacity() == old(self).min_capacity(),
            final(self).max_capacity() == old(self).max_capacity(),
            match commit_refusal(old(self)@, old(self).reservations(), channel_id@, amount) {
                Some(e) => r == Err::<(), PaymentError>(PaymentError::Channel(e))
                    && final(self).same_as(old(self)),
                None => r == Ok::<(), PaymentError>(()) && final(self)@ == old(self)@.update(
                    index_of(old(self)@, channel_id@),
                    PaymentChannel {
                        local_balance: (old(self)@[index_of(
                            old(self)@,
                            channel_id@,
                        )].local_balance - amount) as u64,
                        remote_balance: (old(self)@[index_of(
                            old(self)@,
                            channel_id@,
                        )].remote_balance + amount) as u64,
                        ..old(self)@[index_of(old(self)@, channel_id@)]
                    },
                ) && final(self).reservations() == old(self).reservations().update(
                    index_of(old(self)@, channel_id@),
                    (old(self).reservations()[index_of(old(self)@, channel_id@)] - amount) as u64,
                ),
            },
    {
        let i = match self.usable(channel_id) {
            Ok(i) => i,
            Err(e) => {
                return Err(PaymentError::Channel(e));
            },
        };
        if amount > self.reserved[i] {
            return Err(PaymentError::Channel(ChannelError::ReservationMismatch));
        }
        let mut channel = self.channels[i];
        self.reserved[i] = self.reserved[i] - amount;
        assert forall|k: int| 0 <= k < self@.len() implies (#[trigger] self.reservations()[k])
            <= self@[k].local_balance by {
        }
        channel.local_balance = channel.local_balance - amount;
        channel.remote_balance = channel.remote_balance + amount;
        self.store(i, channel);
        Ok(())
    }
}

impl Default for ChannelManager {
    fn default() -> (store: Self)
        ensures
            store.wf(),
            store@.len() == 0,
    {
        Self::new()
    }
}

} // verus!

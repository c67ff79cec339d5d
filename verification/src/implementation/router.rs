//! Payment routing.
//!
//! The router holds a graph of nodes and channels and finds the cheapest
//! route from the local node to a destination.
//!
//! Conventions. `amount_msat` is the amount that the destination receives. A
//! route lists its hops from the local node to the destination; a hop names
//! the channel it crosses and the node it reaches. Every node but the local
//! one charges the fee of the channel over which it forwards, computed on the
//! amount it forwards, so fees accumulate from the destination backward and
//! the first hop is free. A hop can be taken only if the sending side of its
//! channel holds at least the amount that crosses it.
//!
//! The cost of a route is its fees plus the router's risk factor for every
//! block of its time-lock delta. The cheapest route wins; among routes of
//! equal cost the lower time-lock delta wins, then the lower number of hops,
//! then the smaller key of the first hop, then the route over the channels
//! that the graph has held longest. A route may have any number of hops;
//! the best one never has more than the graph has nodes.

use vstd::prelude::*;

use crate::errors::{PaymentError, PaymentResult, RoutingError};
use crate::implementation::search::{
    best_labels, best_route, blocked_ok, graph_ok, lemma_cltv_bounded, lemma_fees_grow,
    lemma_route_order, route_label_no_worse, route_sound, Label,
};
use crate::implementation::shortcut::lemma_shorten;
use crate::text::{bytes_equal, lemma_lex_asymmetric, lex_less};
use crate::types::{sum_cltv, sum_fees, PaymentRoute, RouteHop};

verus! {

/// What a block of time-lock delta weighs against fees in a new router, in
/// millisatoshis.
pub const DEFAULT_RISK_FACTOR: u64 = 1;

/// What a channel charges for forwarding.
#[derive(Debug, Clone, Copy)]
pub struct FeePolicy {
    /// Fee charged for every forwarded payment, in millisatoshis.
    pub base_fee_msat: u64,
    /// Fee charged per million millisatoshis forwarded.
    pub proportional_millionths: u32,
    /// Blocks that the forwarding node adds to the time lock.
    pub cltv_expiry_delta: u16,
}

/// A channel of the routing graph.
#[derive(Debug, Clone, Copy)]
pub struct GraphChannel {
    /// Short channel ID.
    pub short_channel_id: u64,
    /// One end of the channel.
    pub node_a: [u8; 33],
    /// The other end of the channel.
    pub node_b: [u8; 33],
    /// What the channel charges, in either direction.
    pub policy: FeePolicy,
    /// What `node_a` can send to `node_b`, in millisatoshis.
    pub balance_a_msat: u64,
    /// What `node_b` can send to `node_a`, in millisatoshis.
    pub balance_b_msat: u64,
}

/// One crossing of a channel: the channel's position in the graph, and
/// whether it is crossed from `node_a` to `node_b`.
pub type Step = (usize, bool);

/// The fee for forwarding `amount` under `policy`: the base fee plus the
/// proportional part, rounded down.
pub open spec fn hop_fee(policy: FeePolicy, amount: int) -> int {
    policy.base_fee_msat + (amount * policy.proportional_millionths) / 1_000_000
}

/// The node at which a step starts.
pub open spec fn step_from(graph: Seq<GraphChannel>, step: Step) -> Seq<u8> {
    if step.1 {
        graph[step.0 as int].node_a@
    } else {
        graph[step.0 as int].node_b@
    }
}

/// The node that a step reaches.
pub open spec fn step_to(graph: Seq<GraphChannel>, step: Step) -> Seq<u8> {
    if step.1 {
        graph[step.0 as int].node_b@
    } else {
        graph[step.0 as int].node_a@
    }
}

/// What the sending side of a step holds.
pub open spec fn step_balance(graph: Seq<GraphChannel>, step: Step) -> u64 {
    if step.1 {
        graph[step.0 as int].balance_a_msat
    } else {
        graph[step.0 as int].balance_b_msat
    }
}

/// What a search is after.
pub ghost struct Quest {
    /// The channels of the graph.
    pub graph: Seq<GraphChannel>,
    /// Short channel IDs that may not be used.
    pub blocked: Set<u64>,
    /// Whether fees and balances count. When they do not, every channel that
    /// is not blocked can be crossed for free.
    pub strict: bool,
    /// What the destination is to receive, in millisatoshis.
    pub amount: u64,
    /// The destination.
    pub target: Seq<u8>,
    /// What a block of time-lock delta weighs, in millisatoshis.
    pub risk: u64,
}

impl Quest {
    /// The fees charged along `path` when every one of its steps is charged
    /// for: each step's fee is computed on the amount and the fees behind it.
    pub open spec fn fees(self, path: Seq<Step>) -> int
        decreases path.len(),
    {
        if path.len() == 0 || !self.strict {
            0
        } else {
            self.fees(path.drop_first()) + hop_fee(
                self.graph[path[0].0 as int].policy,
                self.amount + self.fees(path.drop_first()),
            )
        }
    }

    /// The time-lock deltas along `path`, added up.
    pub open spec fn cltv(self, path: Seq<Step>) -> int
        decreases path.len(),
    {
        if path.len() == 0 {
            0
        } else {
            self.cltv(path.drop_first()) + self.graph[path[0].0 as int].policy.cltv_expiry_delta
        }
    }

    /// Whether a single step can carry what lies behind it: its channel
    /// exists and is not blocked, and the sending side holds the amount plus
    /// the fees of `rest`.
    pub open spec fn step_open(self, step: Step, rest: Seq<Step>) -> bool {
        &&& step.0 < self.graph.len()
        &&& !self.blocked.contains(self.graph[step.0 as int].short_channel_id)
        &&& self.strict ==> step_balance(self.graph, step) >= self.amount + self.fees(rest)
    }

    /// Whether every step of `path` can carry what lies behind it.
    pub open spec fn open(self, path: Seq<Step>) -> bool
        decreases path.len(),
    {
        if path.len() == 0 {
            true
        } else {
            self.step_open(path[0], path.drop_first()) && self.open(path.drop_first())
        }
    }

    /// Whether `path` leads from the node `from` to the destination, each
    /// step starting where the one before it ended.
    pub open spec fn joins(self, path: Seq<Step>, from: Seq<u8>) -> bool
        decreases path.len(),
    {
        if path.len() == 0 {
            from == self.target
        } else {
            &&& path[0].0 < self.graph.len()
            &&& step_from(self.graph, path[0]) == from
            &&& self.joins(path.drop_first(), step_to(self.graph, path[0]))
        }
    }

    /// Whether a node other than the local one can forward along `path` from
    /// `from` to the destination: what it would have to receive still fits
    /// in 64 bits, and the time-lock delta in 32.
    pub open spec fn relays(self, path: Seq<Step>, from: Seq<u8>) -> bool {
        &&& self.joins(path, from)
        &&& self.open(path)
        &&& self.amount + self.fees(path) <= u64::MAX
        &&& self.cltv(path) <= u32::MAX
    }

    /// Whether `path` is a route from the node `local` to the destination:
    /// at least one step, each able to carry what lies behind it, with a
    /// time-lock delta that fits in 32 bits.
    pub open spec fn admits(self, path: Seq<Step>, local: Seq<u8>) -> bool {
        &&& 1 <= path.len()
        &&& self.joins(path, local)
        &&& self.open(path)
        &&& self.route_cltv(path) <= u32::MAX
    }

    /// The fees that a route costs its sender: those of every step but the
    /// first.
    pub open spec fn route_fees(self, path: Seq<Step>) -> int {
        self.fees(path.drop_first())
    }

    /// The time-lock delta of a route: that of every step but the first.
    pub open spec fn route_cltv(self, path: Seq<Step>) -> int {
        self.cltv(path.drop_first())
    }

    /// What crosses the channel of step `i` of `path`: the amount and the
    /// fees of the steps behind it.
    pub open spec fn forwarded(self, path: Seq<Step>, i: int) -> int {
        self.amount + self.fees(path.skip(i + 1))
    }

    /// Hop `i` of the route along `path`.
    pub open spec fn hop(self, path: Seq<Step>, i: int) -> RouteHop {
        let channel = self.graph[path[i].0 as int];
        RouteHop {
            pubkey: if path[i].1 {
                channel.node_b
            } else {
                channel.node_a
            },
            short_channel_id: channel.short_channel_id,
            fee_msat: if i == 0 {
                0
            } else {
                hop_fee(channel.policy, self.forwarded(path, i)) as u64
            },
            cltv_expiry_delta: if i == 0 {
                0
            } else {
                channel.policy.cltv_expiry_delta
            },
        }
    }

    /// Whether `route` is the route along `path`.
    pub open spec fn describes(self, path: Seq<Step>, route: PaymentRoute) -> bool {
        &&& route.hops@.len() == path.len()
        &&& forall|i: int| 0 <= i < path.len() ==> #[trigger] route.hops@[i] == self.hop(path, i)
        &&& route.total_fees_msat == self.route_fees(path)
        &&& route.total_cltv_delta == self.route_cltv(path)
    }
}

/// Whether the step `a` sorts strictly before `b`: it crosses a channel that
/// the graph has held longer, or the same channel from `node_a`.
pub open spec fn step_less(a: Step, b: Step) -> bool {
    a.0 < b.0 || (a.0 == b.0 && a.1 && !b.1)
}

/// Whether the path `a` sorts strictly before `b`: the shorter path where
/// one begins with the other, else the one with the smaller step where they
/// first differ.
pub open spec fn path_less(a: Seq<Step>, b: Seq<Step>) -> bool
    decreases a.len(),
{
    if b.len() == 0 {
        false
    } else if a.len() == 0 {
        true
    } else if a[0] != b[0] {
        step_less(a[0], b[0])
    } else {
        path_less(a.drop_first(), b.drop_first())
    }
}

/// Whether the first of two routes is at least as good as the second. The
/// lower cost wins, the cost being the fees and `risk` for every block of
/// time-lock delta; then the lower time-lock delta, then fewer hops, then the
/// smaller key of the first hop, then the path that sorts first. No two
/// routes are equally good.
pub open spec fn route_no_worse(
    risk: int,
    fees: int,
    cltv: int,
    path: Seq<Step>,
    first_hop: Seq<u8>,
    other_fees: int,
    other_cltv: int,
    other_path: Seq<Step>,
    other_first_hop: Seq<u8>,
) -> bool {
    if fees + risk * cltv != other_fees + risk * other_cltv {
        fees + risk * cltv < other_fees + risk * other_cltv
    } else if cltv != other_cltv {
        cltv < other_cltv
    } else if path.len() != other_path.len() {
        path.len() < other_path.len()
    } else if lex_less(first_hop, other_first_hop) || lex_less(other_first_hop, first_hop) {
        lex_less(first_hop, other_first_hop)
    } else {
        !path_less(other_path, path)
    }
}

/// No path sorts before itself, of two different paths exactly one sorts
/// before the other, and the order is transitive.
pub proof fn lemma_path_order(a: Seq<Step>, b: Seq<Step>, c: Seq<Step>)
    ensures
        !path_less(a, a),
        path_less(a, b) ==> !path_less(b, a),
        !path_less(a, b) && !path_less(b, a) ==> a == b,
        path_less(a, b) && path_less(b, c) ==> path_less(a, c),
        path_less(c, a) ==> path_less(b, a) || path_less(c, b),
    decreases a.len(),
{
    if a.len() > 0 {
        lemma_path_order(a.drop_first(), a.drop_first(), a.drop_first());
    }
    if a.len() > 0 && b.len() > 0 {
        lemma_path_order(a.drop_first(), b.drop_first(), c.drop_first());
        if !path_less(a, b) && !path_less(b, a) {
            assert(a =~= seq![a[0]] + a.drop_first());
            assert(b =~= seq![b[0]] + b.drop_first());
        }
    }
    if a.len() == 0 && !path_less(a, b) && !path_less(b, a) {
        assert(a =~= b);
    }
    if b.len() == 0 && !path_less(a, b) && !path_less(b, a) {
        assert(a =~= b);
    }
}

/// Putting the same step in front of two paths keeps their order.
pub proof fn lemma_path_order_behind_step(step: Step, a: Seq<Step>, b: Seq<Step>)
    ensures
        path_less(seq![step] + a, seq![step] + b) == path_less(a, b),
{
    assert((seq![step] + a).drop_first() =~= a);
    assert((seq![step] + b).drop_first() =~= b);
}

/// Whether some node of `nodes` has the key `key`.
pub open spec fn has_node(nodes: Seq<[u8; 33]>, key: Seq<u8>) -> bool {
    exists|i: int| 0 <= i < nodes.len() && (#[trigger] nodes[i])@ == key
}

/// Whether some channel of `graph` has the short channel ID `id`.
pub open spec fn has_edge(graph: Seq<GraphChannel>, id: u64) -> bool {
    exists|i: int| 0 <= i < graph.len() && (#[trigger] graph[i]).short_channel_id == id
}

/// Payment router for finding routes through the Lightning Network.
#[derive(Debug)]
pub struct PaymentRouter {
    /// Known nodes in the network graph.
    nodes: Vec<[u8; 33]>,
    /// Known channels in the network graph.
    channels: Vec<GraphChannel>,
    /// For every channel, the positions of its two ends among the nodes.
    ends: Vec<(usize, usize)>,
    /// The position of the local node among the nodes.
    local: Option<usize>,
    /// What a block of time-lock delta weighs against fees, in
    /// millisatoshis.
    risk_factor: u64,
}

impl PaymentRouter {
    /// The nodes of the graph, in the order in which they were added.
    pub closed spec fn nodes(&self) -> Seq<[u8; 33]> {
        self.nodes@
    }

    /// The channels of the graph, in the order in which they were added.
    pub closed spec fn graph(&self) -> Seq<GraphChannel> {
        self.channels@
    }

    /// The local node, once it has been set.
    pub closed spec fn local(&self) -> Option<[u8; 33]> {
        match self.local {
            Some(i) => Some(self.nodes@[i as int]),
            None => None,
        }
    }

    /// The positions of the ends of each channel among the nodes.
    pub closed spec fn ends(&self) -> Seq<(usize, usize)> {
        self.ends@
    }

    /// The position of the local node among the nodes.
    pub closed spec fn local_index(&self) -> Option<usize> {
        self.local
    }

    /// What a block of time-lock delta weighs against fees when routes are
    /// compared, in millisatoshis.
    pub closed spec fn risk(&self) -> u64 {
        self.risk_factor
    }

    /// The router's invariant: no node and no short channel ID occurs twice,
    /// and the ends of every channel are nodes of the graph.
    pub open spec fn wf(&self) -> bool {
        &&& forall|i: int, j: int|
            0 <= i < self.nodes().len() && 0 <= j < self.nodes().len() && i != j ==> (
            #[trigger] self.nodes()[i])@ != (#[trigger] self.nodes()[j])@
        &&& forall|i: int, j: int|
            0 <= i < self.graph().len() && 0 <= j < self.graph().len() && i != j ==> (
            #[trigger] self.graph()[i]).short_channel_id != (
            #[trigger] self.graph()[j]).short_channel_id
        &&& self.ends().len() == self.graph().len()
        &&& forall|c: int|
            0 <= c < self.graph().len() ==> {
                &&& (#[trigger] self.ends()[c]).0 < self.nodes().len()
                &&& self.ends()[c].1 < self.nodes().len()
                &&& self.nodes()[self.ends()[c].0 as int]@ == self.graph()[c].node_a@
                &&& self.nodes()[self.ends()[c].1 as int]@ == self.graph()[c].node_b@
            }
        &&& self.local_index() matches Some(i) ==> i < self.nodes().len()
    }

    /// Create a new payment router.
    #[must_use]
    pub fn new() -> (router: Self)
        ensures
            router.wf(),
            router.nodes().len() == 0,
            router.graph().len() == 0,
            router.local() is None,
            router.risk() == DEFAULT_RISK_FACTOR,
    {
        Self {
            nodes: Vec::new(),
            channels: Vec::new(),
            ends: Vec::new(),
            local: None,
            risk_factor: DEFAULT_RISK_FACTOR,
        }
    }

    /// What a block of time-lock delta weighs against fees, in
    /// millisatoshis.
    pub fn risk_factor(&self) -> (risk: u64)
        ensures
            risk == self.risk(),
    {
        self.risk_factor
    }

    /// Sets what a block of time-lock delta weighs against fees, in
    /// millisatoshis. With zero, the time lock only decides between routes
    /// of equal fees.
    pub fn set_risk_factor(&mut self, risk: u64)
        requires
            old(self).wf(),
        ensures
            final(self).wf(),
            final(self).risk() == risk,
            final(self).nodes() == old(self).nodes(),
            final(self).graph() == old(self).graph(),
            final(self).local() == old(self).local(),
    {
        self.risk_factor = risk;
        proof {
            assert forall|c: int| 0 <= c < self.graph().len() implies {
                &&& (#[trigger] self.ends()[c]).0 < self.nodes().len()
                &&& self.ends()[c].1 < self.nodes().len()
                &&& self.nodes()[self.ends()[c].0 as int]@ == self.graph()[c].node_a@
                &&& self.nodes()[self.ends()[c].1 as int]@ == self.graph()[c].node_b@
            } by {
            }
            assert(self.nodes() == old(self).nodes());
        }
    }

    /// The number of nodes in the graph.
    pub fn node_count(&self) -> (count: usize)
        ensures
            count == self.nodes().len(),
    {
        self.nodes.len()
    }

    /// The number of channels in the graph.
    pub fn channel_count(&self) -> (count: usize)
        ensures
            count == self.graph().len(),
    {
        self.channels.len()
    }

    /// The position of the node with the given key.
    fn node_index(&self, pubkey: &[u8; 33]) -> (found: Option<usize>)
        requires
            self.wf(),
        ensures
            found is Some <==> has_node(self.nodes(), pubkey@),
            found matches Some(i) ==> i < self.nodes().len() && self.nodes()[i as int]@ == pubkey@,
    {
        let mut i: usize = 0;
        while i < self.nodes.len()
            invariant
                i <= self.nodes.len(),
                forall|j: int| 0 <= j < i ==> (#[trigger] self.nodes()[j])@ != pubkey@,
            decreases self.nodes.len() - i,
        {
            if bytes_equal(&self.nodes[i], pubkey) {
                return Some(i);
            }
            i += 1;
        }
        None
    }

    /// The position of the channel with the given short channel ID.
    fn edge_index(&self, short_channel_id: u64) -> (found: Option<usize>)
        requires
            self.wf(),
        ensures
            found is Some <==> has_edge(self.graph(), short_channel_id),
            found matches Some(i) ==> i < self.graph().len()
                && self.graph()[i as int].short_channel_id
                == short_channel_id,
    {
        let mut i: usize = 0;
        while i < self.channels.len()
            invariant
                i <= self.channels.len(),
                forall|j: int|
                    0 <= j < i ==> (#[trigger] self.graph()[j]).short_channel_id
                        != short_channel_id,
            decreases self.channels.len() - i,
        {
            if self.channels[i].short_channel_id == short_channel_id {
                return Some(i);
            }
            i += 1;
        }
        None
    }

    /// Adds the node if it is new, and returns its position.
    fn intern(&mut self, pubkey: [u8; 33]) -> (at: usize)
        requires
            old(self).wf(),
        ensures
            final(self).wf(),
            final(self).graph() == old(self).graph(),
            final(self).ends() == old(self).ends(),
            final(self).local_index() == old(self).local_index(),
            final(self).local() == old(self).local(),
            final(self).risk() == old(self).risk(),
            at < final(self).nodes().len(),
            final(self).nodes()[at as int]@ == pubkey@,
            has_node(old(self).nodes(), pubkey@) ==> final(self).nodes() == old(self).nodes(),
            !has_node(old(self).nodes(), pubkey@) ==> final(self).nodes()
                == old(self).nodes().push(pubkey),
    {
        match self.node_index(&pubkey) {
            Some(i) => i,
            None => {
                self.nodes.push(pubkey);
                proof {
                    assert forall|i: int, j: int|
                        0 <= i < self.nodes().len() && 0 <= j < self.nodes().len() && i
                            != j implies (#[trigger] self.nodes()[i])@ != (
                    #[trigger] self.nodes()[j])@ by {
                    }
                    assert forall|c: int| 0 <= c < self.graph().len() implies {
                        &&& (#[trigger] self.ends()[c]).0 < self.nodes().len()
                        &&& self.ends()[c].1 < self.nodes().len()
                        &&& self.nodes()[self.ends()[c].0 as int]@ == self.graph()[c].node_a@
                        &&& self.nodes()[self.ends()[c].1 as int]@ == self.graph()[c].node_b@
                    } by {
                    }
                }
                self.nodes.len() - 1
            },
        }
    }

    /// Add a node to the routing graph. Adding a node again changes nothing.
    pub fn add_node(&mut self, pubkey: [u8; 33])
        requires
            old(self).wf(),
        ensures
            final(self).wf(),
            final(self).graph() == old(self).graph(),
            final(self).local() == old(self).local(),
            final(self).risk() == old(self).risk(),
            has_node(final(self).nodes(), pubkey@),
            has_node(old(self).nodes(), pubkey@) ==> final(self).nodes() == old(self).nodes(),
            !has_node(old(self).nodes(), pubkey@) ==> final(self).nodes()
                == old(self).nodes().push(pubkey),
    {
        let at = self.intern(pubkey);
    }

    /// Makes `pubkey` the local node, adding it to the graph if it is new.
    pub fn set_local_node(&mut self, pubkey: [u8; 33])
        requires
            old(self).wf(),
        ensures
            final(self).wf(),
            final(self).graph() == old(self).graph(),
            final(self).local() matches Some(key) && key@ == pubkey@,
            final(self).risk() == old(self).risk(),
            has_node(old(self).nodes(), pubkey@) ==> final(self).nodes() == old(self).nodes(),
            !has_node(old(self).nodes(), pubkey@) ==> final(self).nodes()
                == old(self).nodes().push(pubkey),
    {
        let at = self.intern(pubkey);
        self.local = Some(at);
    }

    /// Add a channel to the routing graph, and its two ends if they are new.
    ///
    /// Adding a channel whose short channel ID is already known changes
    /// nothing.
    pub fn add_channel(
        &mut self,
        node_a: [u8; 33],
        node_b: [u8; 33],
        short_channel_id: u64,
        policy: FeePolicy,
        balance_a_msat: u64,
        balance_b_msat: u64,
    )
        requires
            old(self).wf(),
        ensures
            final(self).wf(),
            final(self).local() == old(self).local(),
            final(self).risk() == old(self).risk(),
            has_edge(final(self).graph(), short_channel_id),
            has_edge(old(self).graph(), short_channel_id) ==> final(self).graph()
                == old(self).graph() && final(self).nodes() == old(self).nodes(),
            !has_edge(old(self).graph(), short_channel_id) ==> final(self).graph()
                == old(self).graph().push(
                GraphChannel {
                    short_channel_id,
                    node_a,
                    node_b,
                    policy,
                    balance_a_msat,
                    balance_b_msat,
                },
            ) && has_node(final(self).nodes(), node_a@) && has_node(final(self).nodes(), node_b@),
    {
        if self.edge_index(short_channel_id).is_some() {
            return ;
        }
        let a = self.intern(node_a);
        let b = self.intern(node_b);
        assert(self.nodes()[a as int]@ == node_a@);
        let channel = GraphChannel {
            short_channel_id,
            node_a,
            node_b,
            policy,
            balance_a_msat,
            balance_b_msat,
        };
        let ghost before = self.graph();
        self.channels.push(channel);
        self.ends.push((a, b));
        proof {
            assert(self.graph()[before.len() as int].short_channel_id == short_channel_id);
            assert forall|i: int, j: int|
                0 <= i < self.graph().len() && 0 <= j < self.graph().len() && i != j implies (
            #[trigger] self.graph()[i]).short_channel_id != (
            #[trigger] self.graph()[j]).short_channel_id by {
            }
            assert forall|c: int| 0 <= c < self.graph().len() implies {
                &&& (#[trigger] self.ends()[c]).0 < self.nodes().len()
                &&& self.ends()[c].1 < self.nodes().len()
                &&& self.nodes()[self.ends()[c].0 as int]@ == self.graph()[c].node_a@
                &&& self.nodes()[self.ends()[c].1 as int]@ == self.graph()[c].node_b@
            } by {
            }
        }
    }
}

impl Default for PaymentRouter {
    fn default() -> (router: Self)
        ensures
            router.wf(),
            router.nodes().len() == 0,
            router.graph().len() == 0,
            router.local() is None,
    {
        Self::new()
    }
}

/// Every step of a path that is open can carry what lies behind it, along a
/// channel of the graph that is not blocked.
pub proof fn lemma_open_at(q: Quest, path: Seq<Step>, i: int)
    requires
        q.open(path),
        0 <= i < path.len(),
    ensures
        q.step_open(path[i], path.skip(i + 1)),
        q.open(path.skip(i + 1)),
    decreases i,
{
    if !(i == 0) {
        lemma_open_at(q, path.drop_first(), i - 1);
        assert(path.drop_first().skip(i) =~= path.skip(i + 1));
    }
}

/// No hop of a route crosses a channel whose sending side holds less than
/// the amount and the fees of the hops behind it.
pub proof fn lemma_route_within_balances(q: Quest, path: Seq<Step>, local: Seq<u8>, i: int)
    requires
        q.strict,
        q.admits(path, local),
        0 <= i < path.len(),
    ensures
        path[i].0 < q.graph.len(),
        !q.blocked.contains(q.graph[path[i].0 as int].short_channel_id),
        step_balance(q.graph, path[i]) >= q.forwarded(path, i),
        q.forwarded(path, i) >= q.amount,
{
    lemma_open_at(q, path, i);
    lemma_fees_grow(q, path.skip(i + 1));
}

/// A route that can be taken when fees and balances count can be taken when
/// they do not.
pub proof fn lemma_strict_route_is_route(q: Quest, path: Seq<Step>, local: Seq<u8>)
    requires
        q.strict,
        q.admits(path, local),
    ensures
        (Quest { strict: false, ..q }).admits(path, local),
{
    lemma_loosen(q, path, local);
    lemma_time_lock_ignores_fees(q, path.drop_first());
}

proof fn lemma_loosen(q: Quest, path: Seq<Step>, from: Seq<u8>)
    requires
        q.joins(path, from),
        q.open(path),
    ensures
        (Quest { strict: false, ..q }).joins(path, from),
        (Quest { strict: false, ..q }).open(path),
    decreases path.len(),
{
    if path.len() > 0 {
        lemma_loosen(q, path.drop_first(), step_to(q.graph, path[0]));
    }
}

proof fn lemma_time_lock_ignores_fees(q: Quest, path: Seq<Step>)
    ensures
        (Quest { strict: false, ..q }).cltv(path) == q.cltv(path),
    decreases path.len(),
{
    if path.len() > 0 {
        lemma_time_lock_ignores_fees(q, path.drop_first());
    }
}

/// A path of at least one step ends at a node of the graph.
proof fn lemma_target_is_node(
    q: Quest,
    nodes: Seq<[u8; 33]>,
    ends: Seq<(usize, usize)>,
    path: Seq<Step>,
    from: Seq<u8>,
)
    requires
        graph_ok(nodes, q.graph, ends),
        q.joins(path, from),
        path.len() > 0,
    ensures
        has_node(nodes, q.target),
    decreases path.len(),
{
    let rest = path.drop_first();
    if rest.len() == 0 {
        let c = path[0].0 as int;
        assert(q.joins(rest, step_to(q.graph, path[0])));
        assert(nodes[ends[c].0 as int]@ == q.graph[c].node_a@);
    } else {
        lemma_target_is_node(q, nodes, ends, rest, step_to(q.graph, path[0]));
    }
}

impl PaymentRouter {
    /// What a search of this graph for a route to `destination` is after.
    pub open spec fn quest(
        &self,
        destination: Seq<u8>,
        amount: u64,
        excluded: Set<u64>,
        strict: bool,
    ) -> Quest {
        Quest {
            graph: self.graph(),
            blocked: excluded,
            strict,
            amount,
            target: destination,
            risk: self.risk(),
        }
    }

    /// Whether the graph holds a route from the local node to `destination`
    /// that avoids the excluded channels. With `strict`, every hop must be
    /// able to carry the amount and the fees behind it.
    pub open spec fn routable(
        &self,
        destination: Seq<u8>,
        amount: u64,
        excluded: Set<u64>,
        strict: bool,
    ) -> bool {
        self.local() matches Some(local) && exists|path: Seq<Step>| #[trigger]
            self.quest(destination, amount, excluded, strict).admits(path, local@)
    }

    /// Whether `route` is the cheapest route from the local node to
    /// `destination` for `amount`: it runs along a path that the graph
    /// admits, and no path that the graph admits is better.
    pub open spec fn cheapest(
        &self,
        route: PaymentRoute,
        destination: Seq<u8>,
        amount: u64,
        excluded: Set<u64>,
    ) -> bool {
        let q = self.quest(destination, amount, excluded, true);
        self.local() matches Some(local) && exists|path: Seq<Step>|
            {
                &&& #[trigger] q.admits(path, local@)
                &&& q.describes(path, route)
                &&& forall|other: Seq<Step>| #[trigger]
                    q.admits(other, local@) ==> route_no_worse(
                        q.risk as int,
                        q.route_fees(path),
                        q.route_cltv(path),
                        path,
                        step_to(q.graph, path[0]),
                        q.route_fees(other),
                        q.route_cltv(other),
                        other,
                        step_to(q.graph, other[0]),
                    )
            }
    }

    /// For every channel, whether its short channel ID is excluded.
    fn blocked_flags(&self, excluded: &Vec<u64>) -> (flags: Vec<bool>)
        ensures
            flags@.len() == self.graph().len(),
            forall|c: int|
                0 <= c < self.graph().len() ==> #[trigger] flags@[c] == excluded@.to_set().contains(
                    self.graph()[c].short_channel_id,
                ),
    {
        let mut flags: Vec<bool> = Vec::new();
        let mut c: usize = 0;
        while c < self.channels.len()
            invariant
                c <= self.channels.len(),
                flags@.len() == c,
                forall|d: int|
                    0 <= d < c ==> #[trigger] flags@[d] == excluded@.to_set().contains(
                        self.graph()[d].short_channel_id,
                    ),
            decreases self.channels.len() - c,
        {
            let id = self.channels[c].short_channel_id;
            let mut found = false;
            let mut i: usize = 0;
            while i < excluded.len()
                invariant
                    i <= excluded.len(),
                    found == exists|j: int| 0 <= j < i && excluded@[j] == id,
                decreases excluded.len() - i,
            {
                if excluded[i] == id {
                    found = true;
                }
                i += 1;
            }
            flags.push(found);
            c += 1;
        }
        flags
    }

    /// The best route to the node at position `target`, as a label.
    fn search(&self, target: usize, amount: u64, blocked: &Vec<bool>, strict: bool, Ghost(q): Ghost<
        Quest,
    >) -> (best: Option<Label>)
        requires
            self.wf(),
            self.local_index() is Some,
            target < self.nodes().len(),
            blocked_ok(q, blocked@),
            q.graph == self.graph(),
            q.amount == amount,
            q.strict == strict,
            q.risk == self.risk(),
            q.target == self.nodes()[target as int]@,
        ensures
            route_sound(q, best, self.local()->0@),
            forall|other: Seq<Step>| #[trigger]
                q.admits(other, self.local()->0@) ==> route_label_no_worse(
                    q,
                    best,
                    q.route_fees(other),
                    q.route_cltv(other),
                    other,
                    step_to(q.graph, other[0]),
                ),
    {
        let local = match self.local {
            Some(local) => local,
            None => {
                return None;
            },
        };
        let labels = best_labels(
            &self.nodes,
            &self.channels,
            &self.ends,
            blocked,
            amount,
            strict,
            target,
            Ghost(q),
        );
        let best = best_route(
            &self.nodes,
            &self.channels,
            &self.ends,
            blocked,
            amount,
            strict,
            self.risk_factor,
            &labels,
            local,
            Ghost(q),
        );
        proof {
            let start = self.local()->0@;
            assert forall|other: Seq<Step>| #[trigger] q.admits(other, start) implies
                route_label_no_worse(
                q,
                best,
                q.route_fees(other),
                q.route_cltv(other),
                other,
                step_to(q.graph, other[0]),
            ) by {
                let short = lemma_shorten(q, self.nodes(), self.ends(), other, start);
                let held = best->0;
                lemma_route_order(
                    q.risk as int,
                    held.fees as int,
                    held.cltv as int,
                    held.steps@,
                    step_to(q.graph, held.steps@[0]),
                    q.route_fees(short),
                    q.route_cltv(short),
                    short,
                    step_to(q.graph, short[0]),
                    q.route_fees(other),
                    q.route_cltv(other),
                    other,
                    step_to(q.graph, other[0]),
                );
            }
        }
        best
    }

    /// Writes out the route along the steps of a label.
    fn build_route(&self, label: &Label, amount: u64, Ghost(q): Ghost<Quest>, Ghost(local): Ghost<
        Seq<u8>,
    >) -> (route: PaymentRoute)
        requires
            self.wf(),
            q.graph == self.graph(),
            q.amount == amount,
            q.strict,
            q.admits(label.steps@, local),
            label.fees == q.route_fees(label.steps@),
            label.cltv == q.route_cltv(label.steps@),
        ensures
            q.describes(label.steps@, route),
            route.totals_consistent(),
    {
        let ghost path = label.steps@;
        let n = label.steps.len();
        // behind[i] holds the fees of the steps after step i
        let mut behind: Vec<u64> = Vec::new();
        let mut i: usize = 0;
        while i < n
            invariant
                i <= n,
                behind@.len() == i,
            decreases n - i,
        {
            behind.push(0);
            i += 1;
        }
        let mut acc: u64 = 0;
        let mut j: usize = n;
        while j > 0
            invariant
                j <= n,
                n == path.len(),
                path == label.steps@,
                behind@.len() == n,
                self.wf(),
                q.graph == self.graph(),
                q.amount == amount,
                q.strict,
                q.admits(path, local),
                j >= 1 ==> acc == q.fees(path.skip(j as int)),
                forall|i: int| j <= i < n ==> #[trigger] behind@[i] == q.fees(path.skip(i + 1)),
            decreases j,
        {
            j -= 1;
            behind[j] = acc;
            proof {
                assert(path.skip(j as int).drop_first() =~= path.skip(j + 1));
            }
            if j > 0 {
                proof {
                    lemma_open_at(q, path, j - 1);
                }
                let channel = &self.channels[label.steps[j].0];
                let flow = amount + acc;
                let rate = channel.policy.proportional_millionths as u128;
                assert(flow as u128 * rate <= 0xffff_ffff_ffff_ffff * 0xffff_ffff)
                    by (nonlinear_arith)
                    requires
                        0 <= flow as u128 <= 0xffff_ffff_ffff_ffff,
                        0 <= rate <= 0xffff_ffff,
                ;
                let fee = channel.policy.base_fee_msat as u128 + (flow as u128 * rate) / 1_000_000;
                acc = (acc as u128 + fee) as u64;
            }
        }
        let mut hops: Vec<RouteHop> = Vec::new();
        let mut total_fees: u64 = 0;
        let mut total_cltv: u32 = 0;
        let mut i: usize = 0;
        while i < n
            invariant
                i <= n,
                n == path.len(),
                path == label.steps@,
                behind@.len() == n,
                self.wf(),
                q.graph == self.graph(),
                q.amount == amount,
                q.strict,
                q.admits(path, local),
                forall|k: int| 0 <= k < n ==> #[trigger] behind@[k] == q.fees(path.skip(k + 1)),
                hops@.len() == i,
                forall|k: int| 0 <= k < i ==> #[trigger] hops@[k] == q.hop(path, k),
                total_fees == sum_fees(hops@, i as int),
                total_cltv == sum_cltv(hops@, i as int),
                i >= 1 ==> total_fees + q.fees(path.skip(i as int)) == q.fees(path.skip(1)),
                i >= 1 ==> total_cltv + q.cltv(path.skip(i as int)) == q.cltv(path.skip(1)),
            decreases n - i,
        {
            let (c, forward) = label.steps[i];
            proof {
                assert(path.skip(i as int).drop_first() =~= path.skip(i + 1));
                lemma_cltv_bounded(q, path.skip(1));
                lemma_cltv_bounded(q, path.skip(i + 1));
                if i >= 1 {
                    lemma_open_at(q, path, i - 1);
                }
            }
            let channel = &self.channels[c];
            let fee: u64 = if i == 0 {
                0
            } else {
                let flow = amount + behind[i];
                let rate = channel.policy.proportional_millionths as u128;
                assert(flow as u128 * rate <= 0xffff_ffff_ffff_ffff * 0xffff_ffff)
                    by (nonlinear_arith)
                    requires
                        0 <= flow as u128 <= 0xffff_ffff_ffff_ffff,
                        0 <= rate <= 0xffff_ffff,
                ;
                (channel.policy.base_fee_msat as u128 + (flow as u128 * rate) / 1_000_000) as u64
            };
            let hop = RouteHop {
                pubkey: if forward {
                    channel.node_b
                } else {
                    channel.node_a
                },
                short_channel_id: channel.short_channel_id,
                fee_msat: fee,
                cltv_expiry_delta: if i == 0 {
                    0
                } else {
                    channel.policy.cltv_expiry_delta
                },
            };
            let ghost before = hops@;
            hops.push(hop);
            proof {
                lemma_sums_ignore_tail(before, hops@, i as int);
            }
            total_fees = total_fees + fee;
            total_cltv = total_cltv + hop.cltv_expiry_delta as u32;
            i += 1;
        }
        PaymentRoute { hops, total_fees_msat: total_fees, total_cltv_delta: total_cltv }
    }

    /// Find the cheapest route to the destination that avoids the channels
    /// whose short channel IDs are listed in `excluded`.
    ///
    /// A route is returned exactly when the graph admits one. Otherwise the
    /// error is `InsufficientCapacity` when a route exists that only lacks
    /// balance, and `NoPath` when none exists at all, as when the graph is
    /// empty or has no local node.
    pub fn find_route_excluding(
        &self,
        destination: &[u8; 33],
        amount_msat: u64,
        excluded: &Vec<u64>,
    ) -> (r: PaymentResult<PaymentRoute>)
        requires
            self.wf(),
        ensures
            r is Ok <==> self.routable(destination@, amount_msat, excluded@.to_set(), true),
            r matches Ok(route) ==> self.cheapest(
                route,
                destination@,
                amount_msat,
                excluded@.to_set(),
            ) && route.totals_consistent(),
            r matches Err(e) ==> e == PaymentError::Routing(
                if self.routable(destination@, amount_msat, excluded@.to_set(), false) {
                    RoutingError::InsufficientCapacity
                } else {
                    RoutingError::NoPath
                },
            ),
    {
        let ghost q = self.quest(destination@, amount_msat, excluded@.to_set(), true);
        let ghost loose = self.quest(destination@, amount_msat, excluded@.to_set(), false);
        let no_path = Err(PaymentError::Routing(RoutingError::NoPath));
        if self.local.is_none() {
            return no_path;
        }
        let ghost local = self.local()->0@;
        let target = match self.node_index(destination) {
            Some(target) => target,
            None => {
                proof {
                    assert forall|path: Seq<Step>| !#[trigger] loose.admits(path, local) by {
                        if loose.admits(path, local) {
                            lemma_target_is_node(loose, self.nodes(), self.ends(), path, local);
                        }
                    }
                    assert forall|path: Seq<Step>| !#[trigger] q.admits(path, local) by {
                        if q.admits(path, local) {
                            lemma_target_is_node(q, self.nodes(), self.ends(), path, local);
                        }
                    }
                }
                return no_path;
            },
        };
        let blocked = self.blocked_flags(excluded);
        match self.search(target, amount_msat, &blocked, true, Ghost(q)) {
            Some(label) => {
                let route = self.build_route(&label, amount_msat, Ghost(q), Ghost(local));
                proof {
                    let path = label.steps@;
                }
                Ok(route)
            },
            None => {
                match self.search(target, amount_msat, &blocked, false, Ghost(loose)) {
                    Some(label) => {
                        Err(PaymentError::Routing(RoutingError::InsufficientCapacity))
                    },
                    None => {
                        no_path
                    },
                }
            },
        }
    }

    /// Find a route to the destination.
    ///
    /// The route returned is the cheapest: lowest cost, the fees and the risk
    /// weight for every block of time-lock delta, then lowest time-lock
    /// delta, then fewest hops, then smallest key of the first hop, then the
    /// channels that the graph has held longest. That leaves one route.
    pub fn find_route(&self, destination: &[u8; 33], amount_msat: u64) -> (r: PaymentResult<
        PaymentRoute,
    >)
        requires
            self.wf(),
        ensures
            r is Ok <==> self.routable(destination@, amount_msat, Set::empty(), true),
            r matches Ok(route) ==> self.cheapest(route, destination@, amount_msat, Set::empty())
                && route.totals_consistent(),
            r matches Err(e) ==> e == PaymentError::Routing(
                if self.routable(destination@, amount_msat, Set::empty(), false) {
                    RoutingError::InsufficientCapacity
                } else {
                    RoutingError::NoPath
                },
            ),
    {
        let none: Vec<u64> = Vec::new();
        assert(none@.to_set() =~= Set::<u64>::empty());
        self.find_route_excluding(destination, amount_msat, &none)
    }
}

/// The sums over the first hops do not depend on the hops behind them.
proof fn lemma_sums_ignore_tail(before: Seq<RouteHop>, after: Seq<RouteHop>, count: int)
    requires
        count <= before.len(),
        count <= after.len(),
        forall|i: int| 0 <= i < count ==> before[i] == after[i],
    ensures
        sum_fees(before, count) == sum_fees(after, count),
        sum_cltv(before, count) == sum_cltv(after, count),
    decreases count,
{
    if count > 0 {
        lemma_sums_ignore_tail(before, after, count - 1);
    }
}

/// The channel that a hop crosses and the direction in which it crosses it:
/// the channel with the hop's short channel ID, toward the hop's node.
pub open spec fn hop_step(graph: Seq<GraphChannel>, hop: RouteHop) -> Option<Step> {
    if has_edge(graph, hop.short_channel_id) {
        let c = choose|c: int|
            0 <= c < graph.len() && (#[trigger] graph[c]).short_channel_id
                == hop.short_channel_id;
        if graph[c].node_b@ == hop.pubkey@ {
            Some((c as usize, true))
        } else if graph[c].node_a@ == hop.pubkey@ {
            Some((c as usize, false))
        } else {
            None
        }
    } else {
        None
    }
}

/// The graph after `flow` has crossed the channel of `hop`, or `None` when
/// the hop fails: when the graph has no such channel toward the hop's node,
/// when the sending side holds less than `flow`, or when the receiving side
/// cannot hold that much more.
pub open spec fn carry(graph: Seq<GraphChannel>, hop: RouteHop, flow: int) -> Option<
    Seq<GraphChannel>,
> {
    match hop_step(graph, hop) {
        None => None,
        Some(step) => {
            let channel = graph[step.0 as int];
            if step.1 {
                if channel.balance_a_msat < flow || channel.balance_b_msat + flow > u64::MAX {
                    None
                } else {
                    Some(
                        graph.update(
                            step.0 as int,
                            GraphChannel {
                                balance_a_msat: (channel.balance_a_msat - flow) as u64,
                                balance_b_msat: (channel.balance_b_msat + flow) as u64,
                                ..channel
                            },
                        ),
                    )
                }
            } else {
                if channel.balance_b_msat < flow || channel.balance_a_msat + flow > u64::MAX {
                    None
                } else {
                    Some(
                        graph.update(
                            step.0 as int,
                            GraphChannel {
                                balance_a_msat: (channel.balance_a_msat + flow) as u64,
                                balance_b_msat: (channel.balance_b_msat - flow) as u64,
                                ..channel
                            },
                        ),
                    )
                }
            }
        },
    }
}

/// What crosses the channel of hop `i` of a route that delivers `amount`:
/// the amount and the fees of the hops behind hop `i`.
pub open spec fn hop_flow(hops: Seq<RouteHop>, amount: int, i: int) -> int {
    amount + sum_fees(hops, hops.len() as int) - sum_fees(hops, i + 1)
}

/// The graph after the hops from `i` on have been carried out in order, or
/// `None` when one of them fails.
pub open spec fn settled(
    graph: Seq<GraphChannel>,
    hops: Seq<RouteHop>,
    amount: int,
    i: int,
) -> Option<Seq<GraphChannel>>
    decreases hops.len() - i,
{
    if i >= hops.len() {
        Some(graph)
    } else {
        match carry(graph, hops[i], hop_flow(hops, amount, i)) {
            None => None,
            Some(after) => settled(after, hops, amount, i + 1),
        }
    }
}

/// The short channel ID of the first hop from `i` on that fails when the
/// hops are carried out in order, if one fails.
pub open spec fn failing_hop(
    graph: Seq<GraphChannel>,
    hops: Seq<RouteHop>,
    amount: int,
    i: int,
) -> Option<u64>
    decreases hops.len() - i,
{
    if i >= hops.len() {
        None
    } else {
        match carry(graph, hops[i], hop_flow(hops, amount, i)) {
            None => Some(hops[i].short_channel_id),
            Some(after) => failing_hop(after, hops, amount, i + 1),
        }
    }
}

/// Whether two graphs hold the same channels between the same nodes, apart
/// from the balances.
pub open spec fn same_shape(a: Seq<GraphChannel>, b: Seq<GraphChannel>) -> bool {
    &&& a.len() == b.len()
    &&& forall|c: int|
        0 <= c < a.len() ==> {
            &&& (#[trigger] a[c]).short_channel_id == b[c].short_channel_id
            &&& a[c].node_a == b[c].node_a
            &&& a[c].node_b == b[c].node_b
            &&& a[c].policy == b[c].policy
        }
}

proof fn lemma_sum_fees_bounded(hops: Seq<RouteHop>, a: int, b: int)
    requires
        0 <= a <= b <= hops.len(),
    ensures
        0 <= sum_fees(hops, a) <= sum_fees(hops, b) <= b * 0xffff_ffff_ffff_ffff,
    decreases b,
{
    if a < b {
        lemma_sum_fees_bounded(hops, a, b - 1);
    } else if b > 0 {
        lemma_sum_fees_bounded(hops, a - 1, b - 1);
    }
}

impl PaymentRouter {
    /// Carries a payment of `amount_msat` along a route: on every hop, what
    /// crosses the channel moves from the sending side to the receiving side.
    ///
    /// When a hop fails, nothing is changed and the short channel ID of the
    /// first hop that fails is returned.
    pub fn apply_route(&mut self, route: &PaymentRoute, amount_msat: u64) -> (r: Result<(), u64>)
        requires
            old(self).wf(),
        ensures
            final(self).wf(),
            final(self).nodes() == old(self).nodes(),
            final(self).local() == old(self).local(),
            final(self).risk() == old(self).risk(),
            same_shape(old(self).graph(), final(self).graph()),
            match settled(old(self).graph(), route.hops@, amount_msat as int, 0) {
                Some(graph) => r is Ok && final(self).graph() == graph,
                None => r is Err && final(self).graph() == old(self).graph(),
            },
            r is Err ==> *final(self) == *old(self),
            r matches Err(id) ==> failing_hop(
                old(self).graph(),
                route.hops@,
                amount_msat as int,
                0,
            ) == Some(id),
    {
        let n = route.hops.len();
        let mut total: u128 = 0;
        let mut i: usize = 0;
        while i < n
            invariant
                i <= n,
                n == route.hops@.len(),
                total == sum_fees(route.hops@, i as int),
                total <= i * 0xffff_ffff_ffff_ffff,
            decreases n - i,
        {
            assert((i + 1) * 0xffff_ffff_ffff_ffff
                <= 0xffff_ffff_ffff_ffff * 0x1_0000_0000_0000_0000)
                by (nonlinear_arith)
                requires
                    i + 1 <= 0xffff_ffff_ffff_ffff,
            ;
            total = total + route.hops[i].fee_msat as u128;
            i += 1;
        }
        let mut work: Vec<GraphChannel> = Vec::new();
        let mut c: usize = 0;
        while c < self.channels.len()
            invariant
                c <= self.channels.len(),
                work@ == self.graph().take(c as int),
            decreases self.channels.len() - c,
        {
            work.push(self.channels[c]);
            c += 1;
        }
        assert(self.graph().take(self.channels.len() as int) =~= self.graph());
        let mut passed: u128 = 0;
        let mut i: usize = 0;
        while i < n
            invariant
                i <= n,
                n == route.hops@.len(),
                self.wf(),
                *self == *old(self),
                total == sum_fees(route.hops@, n as int),
                passed == sum_fees(route.hops@, i as int),
                same_shape(self.graph(), work@),
                settled(self.graph(), route.hops@, amount_msat as int, 0) == settled(
                    work@,
                    route.hops@,
                    amount_msat as int,
                    i as int,
                ),
                failing_hop(self.graph(), route.hops@, amount_msat as int, 0) == failing_hop(
                    work@,
                    route.hops@,
                    amount_msat as int,
                    i as int,
                ),
            decreases n - i,
        {
            let hop = route.hops[i];
            proof {
                lemma_sum_fees_bounded(route.hops@, i + 1, n as int);
            }
            passed = passed + hop.fee_msat as u128;
            let flow: u128 = amount_msat as u128 + (total - passed);
            let at = match self.edge_index(hop.short_channel_id) {
                Some(at) => at,
                None => {
                    proof {
                        if has_edge(work@, hop.short_channel_id) {
                            let d = choose|d: int|
                                0 <= d < work@.len() && (#[trigger] work@[d]).short_channel_id
                                    == hop.short_channel_id;
                            assert(self.graph()[d].short_channel_id == hop.short_channel_id);
                        }
                    }
                    return Err(hop.short_channel_id);
                },
            };
            proof {
                let d = choose|d: int|
                    0 <= d < work@.len() && (#[trigger] work@[d]).short_channel_id
                        == hop.short_channel_id;
                assert(self.graph()[d].short_channel_id
                    == self.graph()[at as int].short_channel_id);
            }
            let mut channel = work[at];
            let forward = if bytes_equal(&channel.node_b, &hop.pubkey) {
                true
            } else if bytes_equal(&channel.node_a, &hop.pubkey) {
                false
            } else {
                return Err(hop.short_channel_id);
            };
            let (sender, receiver) = if forward {
                (channel.balance_a_msat, channel.balance_b_msat)
            } else {
                (channel.balance_b_msat, channel.balance_a_msat)
            };
            if (sender as u128) < flow || receiver as u128 + flow > u64::MAX as u128 {
                return Err(hop.short_channel_id);
            }
            if forward {
                channel.balance_a_msat = sender - flow as u64;
                channel.balance_b_msat = receiver + flow as u64;
            } else {
                channel.balance_b_msat = sender - flow as u64;
                channel.balance_a_msat = receiver + flow as u64;
            }
            work[at] = channel;
            i += 1;
        }
        let ghost before = self.graph();
        self.channels = work;
        proof {
            assert forall|a: int, b: int|
                0 <= a < self.graph().len() && 0 <= b < self.graph().len() && a != b implies (
            #[trigger] self.graph()[a]).short_channel_id != (
            #[trigger] self.graph()[b]).short_channel_id by {
                assert(before[a].short_channel_id == self.graph()[a].short_channel_id);
                assert(before[b].short_channel_id == self.graph()[b].short_channel_id);
            }
            assert forall|c: int| 0 <= c < self.graph().len() implies {
                &&& (#[trigger] self.ends()[c]).0 < self.nodes().len()
                &&& self.ends()[c].1 < self.nodes().len()
                &&& self.nodes()[self.ends()[c].0 as int]@ == self.graph()[c].node_a@
                &&& self.nodes()[self.ends()[c].1 as int]@ == self.graph()[c].node_b@
            } by {
            }
            assert(self.nodes() == old(self).nodes());
        }
        Ok(())
    }
}

/// Whether hop `i` of a route from `local` can be taken in `graph`: its
/// channel exists, is not excluded, leads from the node before the hop to
/// the hop's node, and holds on the sending side at least what crosses it.
pub open spec fn hop_fits(
    graph: Seq<GraphChannel>,
    excluded: Set<u64>,
    local: Seq<u8>,
    hops: Seq<RouteHop>,
    amount: u64,
    i: int,
) -> bool {
    let from = if i == 0 {
        local
    } else {
        hops[i - 1].pubkey@
    };
    let flow = hop_flow(hops, amount as int, i);
    exists|c: int|
        {
            &&& 0 <= c < graph.len()
            &&& (#[trigger] graph[c]).short_channel_id == hops[i].short_channel_id
            &&& !excluded.contains(graph[c].short_channel_id)
            &&& {
                ||| graph[c].node_a@ == from && graph[c].node_b@ == hops[i].pubkey@
                    && graph[c].balance_a_msat >= flow
                ||| graph[c].node_b@ == from && graph[c].node_a@ == hops[i].pubkey@
                    && graph[c].balance_b_msat >= flow
            }
        }
}

/// Each step of a path that joins starts where the step before it ended,
/// and the last step ends at the destination.
pub proof fn lemma_joins_at(q: Quest, path: Seq<Step>, from: Seq<u8>, i: int)
    requires
        q.joins(path, from),
        0 <= i < path.len(),
    ensures
        path[i].0 < q.graph.len(),
        step_from(q.graph, path[i]) == if i == 0 {
            from
        } else {
            step_to(q.graph, path[i - 1])
        },
        i == path.len() - 1 ==> step_to(q.graph, path[i]) == q.target,
    decreases i,
{
    let rest = path.drop_first();
    if i == 0 {
        if path.len() == 1 {
            assert(q.joins(rest, step_to(q.graph, path[0])));
        }
    } else {
        lemma_joins_at(q, rest, step_to(q.graph, path[0]), i - 1);
    }
}

/// The fees of the first `k` hops of a route are the fees of its path less
/// those of the steps from `k` on.
proof fn lemma_hop_fees_telescope(
    q: Quest,
    path: Seq<Step>,
    route: PaymentRoute,
    local: Seq<u8>,
    k: int,
)
    requires
        q.strict,
        q.admits(path, local),
        q.describes(path, route),
        1 <= k <= path.len(),
    ensures
        sum_fees(route.hops@, k) == q.fees(path.skip(1)) - q.fees(path.skip(k)),
    decreases k,
{
    if k == 1 {
        assert(sum_fees(route.hops@, 0) == 0);
    } else {
        lemma_hop_fees_telescope(q, path, route, local, k - 1);
        lemma_open_at(q, path, k - 2);
        assert(path.skip(k - 1).drop_first() =~= path.skip(k));
        lemma_fees_grow(q, path.skip(k));
    }
}

/// The same graph and the same request always give the same route: two
/// cheapest routes for one payment have the same hops and the same totals.
pub proof fn lemma_cheapest_is_unique(
    router: &PaymentRouter,
    first: PaymentRoute,
    second: PaymentRoute,
    destination: Seq<u8>,
    amount: u64,
    excluded: Set<u64>,
)
    requires
        router.cheapest(first, destination, amount, excluded),
        router.cheapest(second, destination, amount, excluded),
    ensures
        first.hops@ == second.hops@,
        first.total_fees_msat == second.total_fees_msat,
        first.total_cltv_delta == second.total_cltv_delta,
{
    let q = router.quest(destination, amount, excluded, true);
    let local = router.local()->0@;
    let a = choose|path: Seq<Step>|
        {
            &&& #[trigger] q.admits(path, local)
            &&& q.describes(path, first)
            &&& forall|other: Seq<Step>| #[trigger]
                q.admits(other, local) ==> route_no_worse(
                    q.risk as int,
                    q.route_fees(path),
                    q.route_cltv(path),
                    path,
                    step_to(q.graph, path[0]),
                    q.route_fees(other),
                    q.route_cltv(other),
                    other,
                    step_to(q.graph, other[0]),
                )
        };
    let b = choose|path: Seq<Step>|
        {
            &&& #[trigger] q.admits(path, local)
            &&& q.describes(path, second)
            &&& forall|other: Seq<Step>| #[trigger]
                q.admits(other, local) ==> route_no_worse(
                    q.risk as int,
                    q.route_fees(path),
                    q.route_cltv(path),
                    path,
                    step_to(q.graph, path[0]),
                    q.route_fees(other),
                    q.route_cltv(other),
                    other,
                    step_to(q.graph, other[0]),
                )
        };
    lemma_lex_asymmetric(step_to(q.graph, a[0]), step_to(q.graph, b[0]));
    lemma_path_order(a, b, a);
    assert(a == b);
    assert(first.hops@ =~= second.hops@);
}

/// The cheapest route has no more hops than the graph has nodes.
pub proof fn lemma_cheapest_route_is_short(
    router: &PaymentRouter,
    route: PaymentRoute,
    destination: Seq<u8>,
    amount: u64,
    excluded: Set<u64>,
)
    requires
        router.wf(),
        router.cheapest(route, destination, amount, excluded),
    ensures
        route.hops@.len() <= router.nodes().len(),
{
    let q = router.quest(destination, amount, excluded, true);
    let local = router.local()->0@;
    let path = choose|path: Seq<Step>|
        {
            &&& #[trigger] q.admits(path, local)
            &&& q.describes(path, route)
            &&& forall|other: Seq<Step>| #[trigger]
                q.admits(other, local) ==> route_no_worse(
                    q.risk as int,
                    q.route_fees(path),
                    q.route_cltv(path),
                    path,
                    step_to(q.graph, path[0]),
                    q.route_fees(other),
                    q.route_cltv(other),
                    other,
                    step_to(q.graph, other[0]),
                )
        };
    let short = lemma_shorten(q, router.nodes(), router.ends(), path, local);
    lemma_lex_asymmetric(step_to(q.graph, path[0]), step_to(q.graph, short[0]));
    lemma_path_order(path, short, path);
    assert(path == short);
}

/// No hop of a cheapest route crosses a channel whose sending side holds
/// less than what crosses it: the amount and the fees of the hops behind
/// the hop. The hops lead from the local node to the destination, over
/// channels of the graph that are not excluded.
pub proof fn lemma_cheapest_route_fits(
    router: &PaymentRouter,
    route: PaymentRoute,
    destination: Seq<u8>,
    amount: u64,
    excluded: Set<u64>,
)
    requires
        router.cheapest(route, destination, amount, excluded),
    ensures
        1 <= route.hops@.len(),
        route.hops@.last().pubkey@ == destination,
        forall|i: int|
            0 <= i < route.hops@.len() ==> #[trigger] hop_fits(
                router.graph(),
                excluded,
                router.local()->0@,
                route.hops@,
                amount,
                i,
            ),
{
    let q = router.quest(destination, amount, excluded, true);
    let local = router.local()->0@;
    let path = choose|path: Seq<Step>|
        {
            &&& #[trigger] q.admits(path, local)
            &&& q.describes(path, route)
        };
    let hops = route.hops@;
    let n = path.len() as int;
    lemma_joins_at(q, path, local, n - 1);
    assert forall|i: int| 0 <= i < n implies #[trigger] hop_fits(
        router.graph(),
        excluded,
        local,
        hops,
        amount,
        i,
    ) by {
        lemma_joins_at(q, path, local, i);
        lemma_route_within_balances(q, path, local, i);
        lemma_hop_fees_telescope(q, path, route, local, n);
        lemma_hop_fees_telescope(q, path, route, local, i + 1);
    }
}

} // verus!

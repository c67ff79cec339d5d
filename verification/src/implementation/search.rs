//! The search behind the router.
//!
//! A path is weighed by three things at once: its fees, its time-lock delta
//! and its length. One path covers another when it is no worse in any of
//! the three and, where the two weigh the same, does not sort after it. The
//! search keeps, for every node, a front of paths to the
//! destination such that every path of the node is covered by one of the
//! front. Fronts are computed from the destination backward, one round per
//! hop: putting the same step in front of two paths keeps the one covering
//! the other, which is what makes the fronts of one round sufficient for the
//! next. The route is then chosen among the first hops out of the local
//! node and the fronts of the nodes that they reach.

use vstd::prelude::*;

use crate::implementation::router::{
    hop_fee, lemma_path_order, lemma_path_order_behind_step, path_less, route_no_worse,
    step_balance, step_from, step_to, FeePolicy, GraphChannel, Quest, Step,
};
use crate::text::{bytes_less, lemma_lex_asymmetric, lemma_lex_transitive};

verus! {

/// A path to the destination with what it costs.
pub struct Label {
    /// The fees along the path, in millisatoshis.
    pub fees: u64,
    /// The time-lock delta along the path.
    pub cltv: u32,
    /// The steps of the path, the first step first.
    pub steps: Vec<Step>,
}

/// Whether the label is no worse than `path` with the given fees and
/// time-lock delta: no worse in fees, time-lock delta and length, and where
/// the two are equal in all three, the label's path does not sort after
/// `path`.
pub open spec fn dominates(label: Label, fees: int, cltv: int, path: Seq<Step>) -> bool {
    &&& label.fees <= fees
    &&& label.cltv <= cltv
    &&& label.steps@.len() <= path.len()
    &&& label.fees == fees && label.cltv == cltv && label.steps@.len() == path.len()
        ==> !path_less(path, label.steps@)
}

/// Whether some label of the front is no worse than `path` with the given
/// fees and time-lock delta.
pub open spec fn covered(front: Seq<Label>, fees: int, cltv: int, path: Seq<Step>) -> bool {
    exists|j: int| 0 <= j < front.len() && dominates(#[trigger] front[j], fees, cltv, path)
}

/// Whether two labels hold the same path and cost.
pub open spec fn same_label(a: Label, b: Label) -> bool {
    a.fees == b.fees && a.cltv == b.cltv && a.steps@ == b.steps@
}

/// Whether the second front is the first with labels added at its end.
pub open spec fn grows(before: Seq<Label>, after: Seq<Label>) -> bool {
    &&& before.len() <= after.len()
    &&& forall|j: int| 0 <= j < before.len() ==> same_label(#[trigger] after[j], before[j])
}

/// What the search assumes of the graph: no node occurs twice, and `ends`
/// gives, for every channel, the positions of its two ends among the nodes.
pub open spec fn graph_ok(
    nodes: Seq<[u8; 33]>,
    graph: Seq<GraphChannel>,
    ends: Seq<(usize, usize)>,
) -> bool {
    &&& forall|i: int, j: int|
        0 <= i < nodes.len() && 0 <= j < nodes.len() && i != j ==> (#[trigger] nodes[i])@ != (
        #[trigger] nodes[j])@
    &&& ends.len() == graph.len()
    &&& forall|c: int|
        0 <= c < graph.len() ==> {
            &&& (#[trigger] ends[c]).0 < nodes.len()
            &&& ends[c].1 < nodes.len()
            &&& nodes[ends[c].0 as int]@ == graph[c].node_a@
            &&& nodes[ends[c].1 as int]@ == graph[c].node_b@
        }
}

/// Whether `blocked` marks exactly the channels that the quest may not use.
pub open spec fn blocked_ok(q: Quest, blocked: Seq<bool>) -> bool {
    &&& blocked.len() == q.graph.len()
    &&& forall|c: int|
        0 <= c < q.graph.len() ==> #[trigger] blocked[c] == q.blocked.contains(
            q.graph[c].short_channel_id,
        )
}

/// The label describes a path of at most `k` steps along which `from` can
/// forward to the destination.
pub open spec fn sound_label(q: Quest, label: Label, from: Seq<u8>, k: int) -> bool {
    &&& q.relays(label.steps@, from)
    &&& label.steps@.len() <= k
    &&& label.fees == q.fees(label.steps@)
    &&& label.cltv == q.cltv(label.steps@)
}

/// Every label of the front describes a path of at most `k` steps along
/// which `from` can forward to the destination.
pub open spec fn sound_at(q: Quest, front: Seq<Label>, from: Seq<u8>, k: int) -> bool {
    forall|j: int| 0 <= j < front.len() ==> sound_label(q, #[trigger] front[j], from, k)
}

/// Every path of at most `k` steps along which `from` can forward to the
/// destination is covered by the front.
pub open spec fn covered_at(q: Quest, front: Seq<Label>, from: Seq<u8>, k: int) -> bool {
    forall|p: Seq<Step>|
        #[trigger] q.relays(p, from) && p.len() <= k ==> covered(front, q.fees(p), q.cltv(p), p)
}

/// Every node's front holds paths of at most `k` steps from that node and
/// covers all of them.
pub open spec fn labels_ok(
    q: Quest,
    nodes: Seq<[u8; 33]>,
    labels: Seq<Vec<Label>>,
    k: int,
) -> bool {
    &&& labels.len() == nodes.len()
    &&& forall|v: int|
        0 <= v < nodes.len() ==> sound_at(q, (#[trigger] labels[v])@, nodes[v]@, k) && covered_at(
            q,
            labels[v]@,
            nodes[v]@,
            k,
        )
}

/// The two ends of a step among the nodes: where it starts and where it ends.
pub open spec fn step_ends(ends: Seq<(usize, usize)>, step: Step) -> (usize, usize) {
    if step.1 {
        (ends[step.0 as int].0, ends[step.0 as int].1)
    } else {
        (ends[step.0 as int].1, ends[step.0 as int].0)
    }
}

/// The fees of the path that starts with `step` and goes on with a path
/// whose fees are `fees`.
pub open spec fn extended_fees(q: Quest, step: Step, fees: int) -> int {
    if q.strict {
        fees + hop_fee(q.graph[step.0 as int].policy, q.amount + fees)
    } else {
        0
    }
}

/// Whether `step` may be put in front of a path with the given fees and
/// time-lock delta by a node that forwards.
pub open spec fn extendable(q: Quest, step: Step, fees: int, cltv: int) -> bool {
    &&& !q.blocked.contains(q.graph[step.0 as int].short_channel_id)
    &&& q.strict ==> step_balance(q.graph, step) >= q.amount + fees
    &&& q.amount + extended_fees(q, step, fees) <= u64::MAX
    &&& cltv + q.graph[step.0 as int].policy.cltv_expiry_delta <= u32::MAX
}

/// The step has been put in front of the label: if that can be done, the
/// front covers the result.
pub open spec fn label_done(q: Quest, front: Seq<Label>, step: Step, label: Label) -> bool {
    extendable(q, step, label.fees as int, label.cltv as int) ==> covered(
        front,
        extended_fees(q, step, label.fees as int),
        label.cltv + q.graph[step.0 as int].policy.cltv_expiry_delta,
        seq![step] + label.steps@,
    )
}

/// The step has been looked at: the front of the node where it starts
/// covers the step put in front of every label of the node that it reaches.
pub open spec fn edge_done(
    q: Quest,
    ends: Seq<(usize, usize)>,
    cur: Seq<Vec<Label>>,
    next: Seq<Vec<Label>>,
    step: Step,
) -> bool {
    let (u, w) = step_ends(ends, step);
    forall|j: int|
        0 <= j < cur[w as int]@.len() ==> label_done(
            q,
            next[u as int]@,
            step,
            #[trigger] cur[w as int]@[j],
        )
}

/// A larger amount never costs less to forward.
pub proof fn lemma_fee_monotone(policy: FeePolicy, a: int, b: int)
    requires
        0 <= a <= b,
    ensures
        0 <= hop_fee(policy, a) <= hop_fee(policy, b),
{
    let rate = policy.proportional_millionths as int;
    assert(0 <= a * rate <= b * rate) by (nonlinear_arith)
        requires
            0 <= a <= b,
            0 <= rate,
    ;
}

/// Fees are never negative, and a path costs at least what its tail costs.
pub proof fn lemma_fees_grow(q: Quest, path: Seq<Step>)
    ensures
        0 <= q.fees(path),
        path.len() > 0 ==> q.fees(path.drop_first()) <= q.fees(path),
    decreases path.len(),
{
    if path.len() > 0 {
        lemma_fees_grow(q, path.drop_first());
    }
}

/// The time-lock delta of a path is at most 65535 per step.
pub proof fn lemma_cltv_bounded(q: Quest, path: Seq<Step>)
    ensures
        0 <= q.cltv(path) <= 65535 * path.len(),
    decreases path.len(),
{
    if path.len() > 0 {
        lemma_cltv_bounded(q, path.drop_first());
    }
}

/// What putting `step` in front of `rest` gives.
pub proof fn lemma_prepend(q: Quest, step: Step, rest: Seq<Step>)
    ensures
        (seq![step] + rest).drop_first() == rest,
        (seq![step] + rest)[0] == step,
        (seq![step] + rest).len() == rest.len() + 1,
        q.fees(seq![step] + rest) == extended_fees(q, step, q.fees(rest)),
        q.cltv(seq![step] + rest) == q.cltv(rest) + q.graph[step.0 as int].policy.cltv_expiry_delta,
        q.open(seq![step] + rest) == (q.step_open(step, rest) && q.open(rest)),
{
}

/// Putting a step in front of a path with lower fees gives lower fees.
pub proof fn lemma_extension_keeps_order(q: Quest, step: Step, fees: int, other_fees: int)
    requires
        0 <= fees <= other_fees,
    ensures
        extended_fees(q, step, fees) <= extended_fees(q, step, other_fees),
{
    if q.strict {
        lemma_fee_monotone(q.graph[step.0 as int].policy, q.amount + fees, q.amount + other_fees);
    }
}

/// Putting a step in front of two paths gives the same fees only where the
/// paths have the same fees.
pub proof fn lemma_extension_tells_apart(q: Quest, step: Step, fees: int, other_fees: int)
    requires
        q.strict,
        0 <= fees <= other_fees,
        extended_fees(q, step, fees) == extended_fees(q, step, other_fees),
    ensures
        fees == other_fees,
{
    lemma_fee_monotone(q.graph[step.0 as int].policy, q.amount + fees, q.amount + other_fees);
}

/// A front that has grown covers what it covered before.
pub proof fn lemma_grown_covers(
    before: Seq<Label>,
    after: Seq<Label>,
    fees: int,
    cltv: int,
    path: Seq<Step>,
)
    requires
        grows(before, after),
        covered(before, fees, cltv, path),
    ensures
        covered(after, fees, cltv, path),
{
    let j = choose|j: int|
        0 <= j < before.len() && dominates(#[trigger] before[j], fees, cltv, path);
    assert(same_label(after[j], before[j]));
}

/// A copy of a label.
fn copy_label(label: &Label) -> (copy: Label)
    ensures
        same_label(copy, *label),
{
    let mut steps: Vec<Step> = Vec::new();
    let mut i: usize = 0;
    while i < label.steps.len()
        invariant
            i <= label.steps.len(),
            steps@ == label.steps@.take(i as int),
        decreases label.steps.len() - i,
    {
        steps.push(label.steps[i]);
        i += 1;
    }
    assert(label.steps@.take(label.steps.len() as int) =~= label.steps@);
    Label { fees: label.fees, cltv: label.cltv, steps }
}

/// A copy of a front.
fn copy_front(front: &Vec<Label>) -> (copy: Vec<Label>)
    ensures
        copy@.len() == front@.len(),
        forall|j: int| 0 <= j < front@.len() ==> same_label(#[trigger] copy@[j], front@[j]),
{
    let mut copy: Vec<Label> = Vec::new();
    let mut j: usize = 0;
    while j < front.len()
        invariant
            j <= front.len(),
            copy@.len() == j,
            forall|k: int| 0 <= k < j ==> same_label(#[trigger] copy@[k], front@[k]),
        decreases front.len() - j,
    {
        copy.push(copy_label(&front[j]));
        j += 1;
    }
    copy
}

/// A copy of the fronts of a round.
fn copy_labels(labels: &Vec<Vec<Label>>) -> (copy: Vec<Vec<Label>>)
    ensures
        copy@.len() == labels@.len(),
        forall|v: int|
            0 <= v < labels@.len() ==> (#[trigger] copy@[v])@.len() == labels@[v]@.len() && grows(
                labels@[v]@,
                copy@[v]@,
            ),
{
    let mut copy: Vec<Vec<Label>> = Vec::new();
    let mut v: usize = 0;
    while v < labels.len()
        invariant
            v <= labels.len(),
            copy@.len() == v,
            forall|i: int|
                0 <= i < v ==> (#[trigger] copy@[i])@.len() == labels@[i]@.len() && grows(
                    labels@[i]@,
                    copy@[i]@,
                ),
        decreases labels.len() - v,
    {
        copy.push(copy_front(&labels[v]));
        v += 1;
    }
    copy
}

/// Two paths that agree in their first `k` steps sort as what follows
/// those steps does.
proof fn lemma_path_less_common_prefix(a: Seq<Step>, b: Seq<Step>, k: int)
    requires
        a.len() == b.len(),
        0 <= k <= a.len(),
        forall|j: int| 0 <= j < k ==> a[j] == b[j],
    ensures
        path_less(a, b) == path_less(a.skip(k), b.skip(k)),
    decreases k,
{
    if k == 0 {
        assert(a.skip(0) =~= a);
        assert(b.skip(0) =~= b);
    } else {
        let a1 = a.drop_first();
        let b1 = b.drop_first();
        lemma_path_less_common_prefix(a1, b1, k - 1);
        assert(a1.skip(k - 1) =~= a.skip(k));
        assert(b1.skip(k - 1) =~= b.skip(k));
    }
}

/// Decides the order of two paths of the same length.
fn steps_less(a: &Vec<Step>, b: &Vec<Step>) -> (less: bool)
    requires
        a@.len() == b@.len(),
    ensures
        less == path_less(a@, b@),
{
    let mut i: usize = 0;
    while i < a.len()
        invariant
            i <= a.len(),
            a@.len() == b@.len(),
            forall|j: int| 0 <= j < i ==> a@[j] == b@[j],
        decreases a.len() - i,
    {
        let (c, forward) = a[i];
        let (d, other_forward) = b[i];
        if c != d || forward != other_forward {
            proof {
                lemma_path_less_common_prefix(a@, b@, i as int);
            }
            return c < d || (c == d && forward && !other_forward);
        }
        i += 1;
    }
    proof {
        lemma_path_less_common_prefix(a@, b@, a@.len() as int);
    }
    false
}

/// Whether some label of the front is no worse than the path of `found`
/// with its fees and time-lock delta.
fn is_covered(front: &Vec<Label>, found: &Label) -> (is: bool)
    ensures
        is == covered(front@, found.fees as int, found.cltv as int, found.steps@),
{
    let mut j: usize = 0;
    while j < front.len()
        invariant
            j <= front.len(),
            forall|k: int|
                0 <= k < j ==> !dominates(
                    #[trigger] front@[k],
                    found.fees as int,
                    found.cltv as int,
                    found.steps@,
                ),
        decreases front.len() - j,
    {
        let held = &front[j];
        if held.fees <= found.fees && held.cltv <= found.cltv && held.steps.len()
            <= found.steps.len() {
            let ties = held.fees == found.fees && held.cltv == found.cltv && held.steps.len()
                == found.steps.len();
            if !ties || !steps_less(&found.steps, &held.steps) {
                return true;
            }
        }
        j += 1;
    }
    false
}

/// The fee for forwarding `amount` over the channel, or zero when fees do
/// not count.
fn charge(channel: &GraphChannel, amount: u64, strict: bool) -> (fee: u128)
    ensures
        fee == (if strict {
            hop_fee(channel.policy, amount as int)
        } else {
            0
        }),
        fee <= 0x1_0000_0000_0000_0000_0000_0000,
{
    if !strict {
        return 0;
    }
    let rate = channel.policy.proportional_millionths as u128;
    let flow = amount as u128;
    assert(flow * rate <= 0xffff_ffff_ffff_ffff * 0xffff_ffff) by (nonlinear_arith)
        requires
            0 <= flow <= 0xffff_ffff_ffff_ffff,
            0 <= rate <= 0xffff_ffff,
    ;
    channel.policy.base_fee_msat as u128 + (flow * rate) / 1_000_000
}

/// Puts one step in front of one label and adds the result to the front of
/// the node where the step starts, unless the front covers it already.
fn relax_label(
    graph: &Vec<GraphChannel>,
    amount: u64,
    strict: bool,
    base: &Label,
    next: &mut Vec<Vec<Label>>,
    step: Step,
    u: usize,
    Ghost(q): Ghost<Quest>,
    Ghost(from): Ghost<Seq<u8>>,
    Ghost(to): Ghost<Seq<u8>>,
    Ghost(k): Ghost<int>,
)
    requires
        q.graph == graph@,
        q.amount == amount,
        q.strict == strict,
        step.0 < graph@.len(),
        !q.blocked.contains(q.graph[step.0 as int].short_channel_id),
        step_from(q.graph, step) == from,
        step_to(q.graph, step) == to,
        0 <= k < usize::MAX,
        sound_label(q, *base, to, k),
        u < old(next)@.len(),
        sound_at(q, old(next)@[u as int]@, from, k + 1),
    ensures
        final(next)@.len() == old(next)@.len(),
        forall|v: int| 0 <= v < old(next)@.len() && v != u ==> final(next)@[v] == old(next)@[v],
        sound_at(q, final(next)@[u as int]@, from, k + 1),
        grows(old(next)@[u as int]@, final(next)@[u as int]@),
        label_done(q, final(next)@[u as int]@, step, *base),
{
    let (c, forward) = step;
    let channel = &graph[c];
    let balance = if forward {
        channel.balance_a_msat
    } else {
        channel.balance_b_msat
    };
    let flow = amount + base.fees;
    if strict && balance < flow {
        return ;
    }
    let fee = charge(channel, flow, strict);
    let fees: u128 = if strict {
        base.fees as u128 + fee
    } else {
        0
    };
    if amount as u128 + fees > u64::MAX as u128 {
        return ;
    }
    let locked: u64 = base.cltv as u64 + channel.policy.cltv_expiry_delta as u64;
    if locked > u32::MAX as u64 {
        return ;
    }
    let mut found = copy_label(base);
    found.steps.insert(0, step);
    found.fees = fees as u64;
    found.cltv = locked as u32;
    proof {
        lemma_prepend(q, step, base.steps@);
        assert(found.steps@ =~= seq![step] + base.steps@);
    }
    if is_covered(&next[u], &found) {
        return ;
    }
    let ghost held = next@[u as int]@;
    let ghost added = found;
    let mut front = copy_front(&next[u]);
    front.push(found);
    proof {
        lemma_path_order(added.steps@, added.steps@, added.steps@);
        assert(dominates(
            front@[held.len() as int],
            added.fees as int,
            added.cltv as int,
            added.steps@,
        ));
    }
    next[u] = front;
}

/// Looks at one step: puts it in front of every label of the node that it
/// reaches.
fn relax_step(
    graph: &Vec<GraphChannel>,
    ends: &Vec<(usize, usize)>,
    blocked: &Vec<bool>,
    amount: u64,
    strict: bool,
    cur: &Vec<Vec<Label>>,
    next: &mut Vec<Vec<Label>>,
    step: Step,
    Ghost(q): Ghost<Quest>,
    Ghost(nodes): Ghost<Seq<[u8; 33]>>,
    Ghost(k): Ghost<int>,
)
    requires
        graph_ok(nodes, graph@, ends@),
        blocked_ok(q, blocked@),
        q.graph == graph@,
        q.amount == amount,
        q.strict == strict,
        step.0 < graph@.len(),
        0 <= k < usize::MAX,
        cur@.len() == nodes.len(),
        old(next)@.len() == nodes.len(),
        forall|v: int| 0 <= v < nodes.len() ==> sound_at(q, (#[trigger] cur@[v])@, nodes[v]@, k),
        forall|v: int|
            0 <= v < nodes.len() ==> sound_at(q, (#[trigger] old(next)@[v])@, nodes[v]@, k + 1),
    ensures
        final(next)@.len() == nodes.len(),
        forall|v: int|
            0 <= v < nodes.len() ==> sound_at(q, (#[trigger] final(next)@[v])@, nodes[v]@, k + 1),
        forall|v: int|
            0 <= v < nodes.len() ==> grows(old(next)@[v]@, (#[trigger] final(next)@[v])@),
        edge_done(q, ends@, cur@, final(next)@, step),
{
    let (c, forward) = step;
    let (u, w) = if forward {
        (ends[c].0, ends[c].1)
    } else {
        (ends[c].1, ends[c].0)
    };
    if blocked[c] {
        return ;
    }
    let ghost from = nodes[u as int]@;
    let ghost to = nodes[w as int]@;
    let mut j: usize = 0;
    while j < cur[w].len()
        invariant
            j <= cur@[w as int]@.len(),
            graph_ok(nodes, graph@, ends@),
            q.graph == graph@,
            q.amount == amount,
            q.strict == strict,
            step.0 < graph@.len(),
            step == (c, forward),
            (u, w) == step_ends(ends@, step),
            !q.blocked.contains(q.graph[step.0 as int].short_channel_id),
            from == nodes[u as int]@,
            to == nodes[w as int]@,
            step_from(q.graph, step) == from,
            step_to(q.graph, step) == to,
            0 <= k < usize::MAX,
            cur@.len() == nodes.len(),
            next@.len() == nodes.len(),
            u < nodes.len(),
            w < nodes.len(),
            sound_at(q, cur@[w as int]@, to, k),
            forall|v: int|
                0 <= v < nodes.len() ==> sound_at(q, (#[trigger] next@[v])@, nodes[v]@, k + 1),
            forall|v: int| 0 <= v < nodes.len() ==> grows(old(next)@[v]@, (#[trigger] next@[v])@),
            forall|i: int|
                0 <= i < j ==> label_done(q, next@[u as int]@, step, #[trigger] cur@[w as int]@[i]),
        decreases cur@[w as int]@.len() - j,
    {
        let ghost before = next@;
        relax_label(
            graph,
            amount,
            strict,
            &cur[w][j],
            next,
            step,
            u,
            Ghost(q),
            Ghost(from),
            Ghost(to),
            Ghost(k),
        );
        proof {
            assert forall|i: int| 0 <= i < j + 1 implies label_done(
                q,
                next@[u as int]@,
                step,
                #[trigger] cur@[w as int]@[i],
            ) by {
                if i < j {
                    let label = cur@[w as int]@[i];
                    if extendable(q, step, label.fees as int, label.cltv as int) {
                        lemma_grown_covers(
                            before[u as int]@,
                            next@[u as int]@,
                            extended_fees(q, step, label.fees as int),
                            label.cltv + q.graph[step.0 as int].policy.cltv_expiry_delta,
                            seq![step] + label.steps@,
                        );
                    }
                }
            }
        }
        j += 1;
    }
}


/// A step that has been looked at stays looked at when the fronts grow.
proof fn lemma_edge_stays_done(
    q: Quest,
    ends: Seq<(usize, usize)>,
    cur: Seq<Vec<Label>>,
    before: Seq<Vec<Label>>,
    after: Seq<Vec<Label>>,
    step: Step,
)
    requires
        edge_done(q, ends, cur, before, step),
        grows(before[step_ends(ends, step).0 as int]@, after[step_ends(ends, step).0 as int]@),
    ensures
        edge_done(q, ends, cur, after, step),
{
    let (u, w) = step_ends(ends, step);
    assert forall|j: int| 0 <= j < cur[w as int]@.len() implies label_done(
        q,
        after[u as int]@,
        step,
        #[trigger] cur[w as int]@[j],
    ) by {
        let label = cur[w as int]@[j];
        if extendable(q, step, label.fees as int, label.cltv as int) {
            lemma_grown_covers(
                before[u as int]@,
                after[u as int]@,
                extended_fees(q, step, label.fees as int),
                label.cltv + q.graph[step.0 as int].policy.cltv_expiry_delta,
                seq![step] + label.steps@,
            );
        }
    }
}

/// One round of the search: from fronts that cover the paths of at most `k`
/// steps to fronts that cover the paths of at most `k + 1` steps.
fn relax_round(
    nodes: &Vec<[u8; 33]>,
    graph: &Vec<GraphChannel>,
    ends: &Vec<(usize, usize)>,
    blocked: &Vec<bool>,
    amount: u64,
    strict: bool,
    cur: &Vec<Vec<Label>>,
    Ghost(q): Ghost<Quest>,
    Ghost(k): Ghost<int>,
) -> (next: Vec<Vec<Label>>)
    requires
        graph_ok(nodes@, graph@, ends@),
        blocked_ok(q, blocked@),
        q.graph == graph@,
        q.amount == amount,
        q.strict == strict,
        0 <= k < usize::MAX,
        labels_ok(q, nodes@, cur@, k),
    ensures
        labels_ok(q, nodes@, next@, k + 1),
{
    let mut next = copy_labels(cur);
    assert forall|v: int| 0 <= v < nodes@.len() implies sound_at(
        q,
        (#[trigger] next@[v])@,
        nodes@[v]@,
        k + 1,
    ) by {
        assert forall|j: int| 0 <= j < next@[v]@.len() implies sound_label(
            q,
            #[trigger] next@[v]@[j],
            nodes@[v]@,
            k + 1,
        ) by {
        }
    }
    let mut c: usize = 0;
    while c < graph.len()
        invariant
            c <= graph.len(),
            graph_ok(nodes@, graph@, ends@),
            blocked_ok(q, blocked@),
            q.graph == graph@,
            q.amount == amount,
            q.strict == strict,
            0 <= k < usize::MAX,
            labels_ok(q, nodes@, cur@, k),
            next@.len() == nodes@.len(),
            forall|v: int|
                0 <= v < nodes@.len() ==> sound_at(q, (#[trigger] next@[v])@, nodes@[v]@, k + 1),
            forall|v: int| 0 <= v < nodes@.len() ==> grows(cur@[v]@, (#[trigger] next@[v])@),
            forall|d: usize, forward: bool|
                d < c ==> #[trigger] edge_done(q, ends@, cur@, next@, (d, forward)),
        decreases graph.len() - c,
    {
        let ghost before = next@;
        relax_step(
            graph,
            ends,
            blocked,
            amount,
            strict,
            cur,
            &mut next,
            (c, true),
            Ghost(q),
            Ghost(nodes@),
            Ghost(k),
        );
        let ghost middle = next@;
        relax_step(
            graph,
            ends,
            blocked,
            amount,
            strict,
            cur,
            &mut next,
            (c, false),
            Ghost(q),
            Ghost(nodes@),
            Ghost(k),
        );
        proof {
            assert forall|d: usize, forward: bool| d < c + 1 implies #[trigger] edge_done(
                q,
                ends@,
                cur@,
                next@,
                (d, forward),
            ) by {
                let step = (d, forward);
                let u = step_ends(ends@, step).0 as int;
                if d < c {
                    lemma_edge_stays_done(q, ends@, cur@, before, next@, step);
                } else if forward {
                    lemma_edge_stays_done(q, ends@, cur@, middle, next@, step);
                }
            }
        }
        c += 1;
    }
    proof {
        assert forall|v: int| 0 <= v < nodes@.len() implies covered_at(
            q,
            (#[trigger] next@[v])@,
            nodes@[v]@,
            k + 1,
        ) by {
            assert forall|p: Seq<Step>| #[trigger]
                q.relays(p, nodes@[v]@) && p.len() <= k + 1 implies covered(
                next@[v]@,
                q.fees(p),
                q.cltv(p),
                p,
            ) by {
                if p.len() <= k {
                    lemma_grown_covers(cur@[v]@, next@[v]@, q.fees(p), q.cltv(p), p);
                } else {
                    lemma_step_is_covered(q, nodes@, ends@, cur@, next@, k, v, p);
                }
            }
        }
    }
    next
}

/// A path of `k + 1` steps is covered by the front of its first node, once
/// its first step has been looked at.
proof fn lemma_step_is_covered(
    q: Quest,
    nodes: Seq<[u8; 33]>,
    ends: Seq<(usize, usize)>,
    cur: Seq<Vec<Label>>,
    next: Seq<Vec<Label>>,
    k: int,
    v: int,
    p: Seq<Step>,
)
    requires
        graph_ok(nodes, q.graph, ends),
        labels_ok(q, nodes, cur, k),
        next.len() == nodes.len(),
        0 <= v < nodes.len(),
        q.relays(p, nodes[v]@),
        p.len() == k + 1,
        0 <= k,
        edge_done(q, ends, cur, next, p[0]),
    ensures
        covered(next[v]@, q.fees(p), q.cltv(p), p),
{
    let step = p[0];
    let rest = p.drop_first();
    let (u, w) = step_ends(ends, step);
    lemma_fees_grow(q, p);
    lemma_fees_grow(q, rest);
    assert(q.relays(rest, nodes[w as int]@));
    let front = cur[w as int]@;
    let j = choose|j: int|
        0 <= j < front.len() && dominates(#[trigger] front[j], q.fees(rest), q.cltv(rest), rest);
    let label = front[j];
    let longer = seq![step] + label.steps@;
    lemma_fees_grow(q, label.steps@);
    lemma_extension_keeps_order(q, step, label.fees as int, q.fees(rest));
    lemma_prepend(q, step, rest);
    assert(p =~= seq![step] + rest);
    let m = choose|m: int|
        0 <= m < next[u as int]@.len() && dominates(
            #[trigger] next[u as int]@[m],
            extended_fees(q, step, label.fees as int),
            label.cltv + q.graph[step.0 as int].policy.cltv_expiry_delta,
            longer,
        );
    let held = next[u as int]@[m];
    if held.fees == q.fees(p) && held.cltv == q.cltv(p) && held.steps@.len() == p.len() {
        if q.strict {
            lemma_extension_tells_apart(q, step, label.fees as int, q.fees(rest));
        }
        lemma_path_order_behind_step(step, rest, label.steps@);
        lemma_path_order(held.steps@, longer, p);
    }
    assert(dominates(held, q.fees(p), q.cltv(p), p));
}

/// For every node, a front that covers the paths from that node to the node
/// at position `target` that have fewer steps than the graph has nodes.
pub fn best_labels(
    nodes: &Vec<[u8; 33]>,
    graph: &Vec<GraphChannel>,
    ends: &Vec<(usize, usize)>,
    blocked: &Vec<bool>,
    amount: u64,
    strict: bool,
    target: usize,
    Ghost(q): Ghost<Quest>,
) -> (labels: Vec<Vec<Label>>)
    requires
        graph_ok(nodes@, graph@, ends@),
        blocked_ok(q, blocked@),
        q.graph == graph@,
        q.amount == amount,
        q.strict == strict,
        target < nodes@.len(),
        q.target == nodes@[target as int]@,
    ensures
        labels_ok(q, nodes@, labels@, nodes@.len() - 1),
{
    let mut labels: Vec<Vec<Label>> = Vec::new();
    let mut v: usize = 0;
    while v < nodes.len()
        invariant
            v <= nodes.len(),
            target < nodes@.len(),
            labels@.len() == v,
            forall|i: int|
                0 <= i < v ==> (#[trigger] labels@[i])@.len() == (if i == target {
                    1int
                } else {
                    0int
                }) && (i == target ==> labels@[i]@[0].fees == 0 && labels@[i]@[0].cltv == 0
                    && labels@[i]@[0].steps@.len() == 0),
        decreases nodes.len() - v,
    {
        let mut front: Vec<Label> = Vec::new();
        if v == target {
            front.push(Label { fees: 0, cltv: 0, steps: Vec::new() });
        }
        labels.push(front);
        v += 1;
    }
    let mut round: usize = 0;
    while round < nodes.len() - 1
        invariant
            round <= nodes@.len() - 1,
            graph_ok(nodes@, graph@, ends@),
            blocked_ok(q, blocked@),
            q.graph == graph@,
            q.amount == amount,
            q.strict == strict,
            labels_ok(q, nodes@, labels@, round as int),
        decreases nodes@.len() - 1 - round,
    {
        labels = relax_round(
            nodes,
            graph,
            ends,
            blocked,
            amount,
            strict,
            &labels,
            Ghost(q),
            Ghost(round as int),
        );
        round += 1;
    }
    labels
}

/// Whether the local node can send over `step` into a path with the given
/// fees: the channel is not blocked and holds the amount and those fees.
pub open spec fn startable(q: Quest, step: Step, fees: int) -> bool {
    &&& !q.blocked.contains(q.graph[step.0 as int].short_channel_id)
    &&& q.strict ==> step_balance(q.graph, step) >= q.amount + fees
}

/// The label describes a route from the node `local`.
pub open spec fn route_sound(q: Quest, best: Option<Label>, local: Seq<u8>) -> bool {
    best matches Some(l) ==> {
        &&& q.admits(l.steps@, local)
        &&& l.fees == q.route_fees(l.steps@)
        &&& l.cltv == q.route_cltv(l.steps@)
    }
}

/// Whether the first route is present and at least as good as a route with
/// the given cost and first hop.
pub open spec fn route_label_no_worse(
    q: Quest,
    best: Option<Label>,
    fees: int,
    cltv: int,
    path: Seq<Step>,
    first_hop: Seq<u8>,
) -> bool {
    best is Some && route_no_worse(
        q.risk as int,
        best->0.fees as int,
        best->0.cltv as int,
        best->0.steps@,
        step_to(q.graph, best->0.steps@[0]),
        fees,
        cltv,
        path,
        first_hop,
    )
}

/// The step has been tried as a first hop into the label: if it starts at
/// the local node and can lead into the label, the best route so far is at
/// least as good as the result.
pub open spec fn first_label_done(
    q: Quest,
    best: Option<Label>,
    step: Step,
    label: Label,
) -> bool {
    startable(q, step, label.fees as int) ==> route_label_no_worse(
        q,
        best,
        label.fees as int,
        label.cltv as int,
        seq![step] + label.steps@,
        step_to(q.graph, step),
    )
}

/// The step has been looked at as a first hop: if it starts at the local
/// node, it has been tried into every label of the node that it reaches.
pub open spec fn first_done(
    q: Quest,
    ends: Seq<(usize, usize)>,
    labels: Seq<Vec<Label>>,
    best: Option<Label>,
    local: usize,
    step: Step,
) -> bool {
    let (u, w) = step_ends(ends, step);
    u == local ==> forall|j: int|
        0 <= j < labels[w as int]@.len() ==> first_label_done(
            q,
            best,
            step,
            #[trigger] labels[w as int]@[j],
        )
}

/// The order of routes is reflexive, total and transitive.
pub proof fn lemma_route_order(
    risk: int,
    f1: int,
    c1: int,
    s1: Seq<Step>,
    k1: Seq<u8>,
    f2: int,
    c2: int,
    s2: Seq<Step>,
    k2: Seq<u8>,
    f3: int,
    c3: int,
    s3: Seq<Step>,
    k3: Seq<u8>,
)
    ensures
        route_no_worse(risk, f1, c1, s1, k1, f1, c1, s1, k1),
        route_no_worse(risk, f1, c1, s1, k1, f2, c2, s2, k2) || route_no_worse(
            risk,
            f2,
            c2,
            s2,
            k2,
            f1,
            c1,
            s1,
            k1,
        ),
        route_no_worse(risk, f1, c1, s1, k1, f2, c2, s2, k2) && route_no_worse(
            risk,
            f2,
            c2,
            s2,
            k2,
            f3,
            c3,
            s3,
            k3,
        ) ==> route_no_worse(risk, f1, c1, s1, k1, f3, c3, s3, k3),
{
    lemma_lex_transitive(k1, k2, k3);
    lemma_lex_transitive(k2, k3, k1);
    lemma_lex_transitive(k3, k1, k2);
    lemma_path_order(s1, s2, s3);
}

/// A route that is no worse than another in fees, time-lock delta and
/// length, does not sort after it where the two are equal in all three, and
/// has the same first hop, is at least as good.
pub proof fn lemma_covering_route_is_no_worse(
    risk: int,
    f1: int,
    c1: int,
    s1: Seq<Step>,
    f2: int,
    c2: int,
    s2: Seq<Step>,
    first_hop: Seq<u8>,
)
    requires
        0 <= risk,
        f1 <= f2,
        c1 <= c2,
        s1.len() <= s2.len(),
        f1 == f2 && c1 == c2 && s1.len() == s2.len() ==> !path_less(s2, s1),
    ensures
        route_no_worse(risk, f1, c1, s1, first_hop, f2, c2, s2, first_hop),
{
    assert(risk * c1 <= risk * c2) by (nonlinear_arith)
        requires
            0 <= risk,
            c1 <= c2,
    ;
    lemma_lex_asymmetric(first_hop, first_hop);
}

/// The two ends of a step among the nodes: where it starts and where it ends.
fn ends_of(ends: &Vec<(usize, usize)>, step: Step) -> (r: (usize, usize))
    requires
        step.0 < ends@.len(),
    ensures
        r == step_ends(ends@, step),
{
    if step.1 {
        (ends[step.0].0, ends[step.0].1)
    } else {
        (ends[step.0].1, ends[step.0].0)
    }
}

/// What a route costs when the time lock is weighed in: its fees, and the
/// risk factor for every block of its time-lock delta.
fn weighed(fees: u64, cltv: u32, risk: u64) -> (cost: u128)
    ensures
        cost == fees + risk * cltv,
{
    assert(risk as u128 * cltv as u128 <= 0xffff_ffff_ffff_ffff * 0xffff_ffff) by (nonlinear_arith)
        requires
            0 <= risk as u128 <= 0xffff_ffff_ffff_ffff,
            0 <= cltv as u128 <= 0xffff_ffff,
    ;
    fees as u128 + risk as u128 * cltv as u128
}

/// Tries one step as the first hop of a route into one label, and keeps the
/// route if it is better than the best so far.
fn try_first(
    nodes: &Vec<[u8; 33]>,
    graph: &Vec<GraphChannel>,
    ends: &Vec<(usize, usize)>,
    amount: u64,
    strict: bool,
    risk: u64,
    base: &Label,
    best: &mut Option<Label>,
    step: Step,
    local: usize,
    w: usize,
    Ghost(q): Ghost<Quest>,
)
    requires
        graph_ok(nodes@, graph@, ends@),
        q.graph == graph@,
        q.amount == amount,
        q.strict == strict,
        q.risk == risk,
        step.0 < graph@.len(),
        step_ends(ends@, step) == (local, w),
        local < nodes@.len(),
        w < nodes@.len(),
        !q.blocked.contains(q.graph[step.0 as int].short_channel_id),
        sound_label(q, *base, nodes@[w as int]@, nodes@.len() - 1),
        route_sound(q, *old(best), nodes@[local as int]@),
    ensures
        route_sound(q, *final(best), nodes@[local as int]@),
        first_label_done(q, *final(best), step, *base),
        *old(best) matches Some(o) ==> route_label_no_worse(
            q,
            *final(best),
            o.fees as int,
            o.cltv as int,
            o.steps@,
            step_to(q.graph, o.steps@[0]),
        ),
{
    let (c, forward) = step;
    let ghost held0 = *best;
    proof {
        if held0 is Some {
            let o = held0->0;
            lemma_route_order(
                risk as int,
                o.fees as int,
                o.cltv as int,
                o.steps@,
                step_to(q.graph, o.steps@[0]),
                0,
                0,
                Seq::empty(),
                Seq::empty(),
                0,
                0,
                Seq::empty(),
                Seq::empty(),
            );
        }
    }
    let channel = &graph[c];
    let balance = if forward {
        channel.balance_a_msat
    } else {
        channel.balance_b_msat
    };
    if strict && balance < amount + base.fees {
        return ;
    }
    let cost = weighed(base.fees, base.cltv, risk);
    let mut found = copy_label(base);
    found.steps.insert(0, step);
    proof {
        lemma_prepend(q, step, base.steps@);
        assert(found.steps@ =~= seq![step] + base.steps@);
    }
    let improves = match &*best {
        None => true,
        Some(held) => {
            let held_cost = weighed(held.fees, held.cltv, risk);
            if cost != held_cost {
                cost < held_cost
            } else if base.cltv != held.cltv {
                base.cltv < held.cltv
            } else if found.steps.len() != held.steps.len() {
                found.steps.len() < held.steps.len()
            } else {
                let first = &nodes[w];
                let held_first = &nodes[ends_of(ends, held.steps[0]).1];
                if bytes_less(first, held_first) {
                    true
                } else if bytes_less(held_first, first) {
                    false
                } else {
                    steps_less(&found.steps, &held.steps)
                }
            }
        },
    };
    if !improves {
        return ;
    }
    proof {
        if held0 is Some {
            let o = held0->0;
            lemma_route_order(
                risk as int,
                found.fees as int,
                found.cltv as int,
                found.steps@,
                step_to(q.graph, step),
                o.fees as int,
                o.cltv as int,
                o.steps@,
                step_to(q.graph, o.steps@[0]),
                0,
                0,
                Seq::empty(),
                Seq::empty(),
            );
        }
        lemma_route_order(
            risk as int,
            found.fees as int,
            found.cltv as int,
            found.steps@,
            step_to(q.graph, step),
            0,
            0,
            Seq::empty(),
            Seq::empty(),
            0,
            0,
            Seq::empty(),
            Seq::empty(),
        );
    }
    *best = Some(found);
}

/// The best so far stays at least as good as what it was at least as good
/// as, when it is replaced by something at least as good as itself.
proof fn lemma_best_improves(
    q: Quest,
    before: Option<Label>,
    after: Option<Label>,
    fees: int,
    cltv: int,
    path: Seq<Step>,
    first_hop: Seq<u8>,
)
    requires
        route_label_no_worse(q, before, fees, cltv, path, first_hop),
        before matches Some(o) ==> route_label_no_worse(
            q,
            after,
            o.fees as int,
            o.cltv as int,
            o.steps@,
            step_to(q.graph, o.steps@[0]),
        ),
    ensures
        route_label_no_worse(q, after, fees, cltv, path, first_hop),
{
    let o = before->0;
    let a = after->0;
    lemma_route_order(
        q.risk as int,
        a.fees as int,
        a.cltv as int,
        a.steps@,
        step_to(q.graph, a.steps@[0]),
        o.fees as int,
        o.cltv as int,
        o.steps@,
        step_to(q.graph, o.steps@[0]),
        fees,
        cltv,
        path,
        first_hop,
    );
}

/// Looks at one step as a first hop: tries it into every label of the node
/// that it reaches.
fn consider_first(
    nodes: &Vec<[u8; 33]>,
    graph: &Vec<GraphChannel>,
    ends: &Vec<(usize, usize)>,
    blocked: &Vec<bool>,
    amount: u64,
    strict: bool,
    risk: u64,
    labels: &Vec<Vec<Label>>,
    local: usize,
    best: &mut Option<Label>,
    step: Step,
    Ghost(q): Ghost<Quest>,
)
    requires
        graph_ok(nodes@, graph@, ends@),
        blocked_ok(q, blocked@),
        q.graph == graph@,
        q.amount == amount,
        q.strict == strict,
        q.risk == risk,
        step.0 < graph@.len(),
        local < nodes@.len(),
        labels_ok(q, nodes@, labels@, nodes@.len() - 1),
        route_sound(q, *old(best), nodes@[local as int]@),
    ensures
        route_sound(q, *final(best), nodes@[local as int]@),
        first_done(q, ends@, labels@, *final(best), local, step),
        *old(best) matches Some(o) ==> route_label_no_worse(
            q,
            *final(best),
            o.fees as int,
            o.cltv as int,
            o.steps@,
            step_to(q.graph, o.steps@[0]),
        ),
{
    let (u, w) = ends_of(ends, step);
    let ghost start = *best;
    proof {
        if start is Some {
            let o = start->0;
            lemma_route_order(
                risk as int,
                o.fees as int,
                o.cltv as int,
                o.steps@,
                step_to(q.graph, o.steps@[0]),
                0,
                0,
                Seq::empty(),
                Seq::empty(),
                0,
                0,
                Seq::empty(),
                Seq::empty(),
            );
        }
    }
    if u != local {
        return ;
    }
    if blocked[step.0] {
        return ;
    }
    let mut j: usize = 0;
    while j < labels[w].len()
        invariant
            j <= labels@[w as int]@.len(),
            graph_ok(nodes@, graph@, ends@),
            q.graph == graph@,
            q.amount == amount,
            q.strict == strict,
            q.risk == risk,
                step.0 < graph@.len(),
            step_ends(ends@, step) == (local, w),
            local < nodes@.len(),
            w < nodes@.len(),
            !q.blocked.contains(q.graph[step.0 as int].short_channel_id),
            labels_ok(q, nodes@, labels@, nodes@.len() - 1),
            route_sound(q, *best, nodes@[local as int]@),
            start matches Some(o) ==> route_label_no_worse(
                q,
                *best,
                o.fees as int,
                o.cltv as int,
                o.steps@,
                step_to(q.graph, o.steps@[0]),
            ),
            forall|i: int|
                0 <= i < j ==> first_label_done(q, *best, step, #[trigger] labels@[w as int]@[i]),
        decreases labels@[w as int]@.len() - j,
    {
        let ghost before = *best;
        try_first(
            nodes,
            graph,
            ends,
            amount,
            strict,
            risk,
            &labels[w][j],
            best,
            step,
            local,
            w,
            Ghost(q),
        );
        proof {
            if start is Some {
                let o = start->0;
                lemma_best_improves(
                    q,
                    before,
                    *best,
                    o.fees as int,
                    o.cltv as int,
                    o.steps@,
                    step_to(q.graph, o.steps@[0]),
                );
            }
            assert forall|i: int| 0 <= i < j + 1 implies first_label_done(
                q,
                *best,
                step,
                #[trigger] labels@[w as int]@[i],
            ) by {
                if i < j {
                    let label = labels@[w as int]@[i];
                    if startable(q, step, label.fees as int) {
                        lemma_best_improves(
                            q,
                            before,
                            *best,
                            label.fees as int,
                            label.cltv as int,
                            seq![step] + label.steps@,
                            step_to(q.graph, step),
                        );
                    }
                }
            }
        }
        j += 1;
    }
}

/// A step that has been looked at as a first hop stays looked at when the
/// best route so far is replaced by one at least as good.
proof fn lemma_first_stays_done(
    q: Quest,
    ends: Seq<(usize, usize)>,
    labels: Seq<Vec<Label>>,
    before: Option<Label>,
    after: Option<Label>,
    local: usize,
    step: Step,
)
    requires
        first_done(q, ends, labels, before, local, step),
        before matches Some(o) ==> route_label_no_worse(
            q,
            after,
            o.fees as int,
            o.cltv as int,
            o.steps@,
            step_to(q.graph, o.steps@[0]),
        ),
    ensures
        first_done(q, ends, labels, after, local, step),
{
    let (u, w) = step_ends(ends, step);
    if u == local {
        assert forall|j: int| 0 <= j < labels[w as int]@.len() implies first_label_done(
            q,
            after,
            step,
            #[trigger] labels[w as int]@[j],
        ) by {
            let label = labels[w as int]@[j];
            if startable(q, step, label.fees as int) {
                lemma_best_improves(
                    q,
                    before,
                    after,
                    label.fees as int,
                    label.cltv as int,
                    seq![step] + label.steps@,
                    step_to(q.graph, step),
                );
            }
        }
    }
}

/// The best route from the node at position `local`, given fronts that
/// cover the paths from every node that have fewer steps than the graph has
/// nodes: a first hop out of the local node, then a path of the node that it
/// reaches.
pub fn best_route(
    nodes: &Vec<[u8; 33]>,
    graph: &Vec<GraphChannel>,
    ends: &Vec<(usize, usize)>,
    blocked: &Vec<bool>,
    amount: u64,
    strict: bool,
    risk: u64,
    labels: &Vec<Vec<Label>>,
    local: usize,
    Ghost(q): Ghost<Quest>,
) -> (best: Option<Label>)
    requires
        graph_ok(nodes@, graph@, ends@),
        blocked_ok(q, blocked@),
        q.graph == graph@,
        q.amount == amount,
        q.strict == strict,
        q.risk == risk,
        local < nodes@.len(),
        labels_ok(q, nodes@, labels@, nodes@.len() - 1),
    ensures
        route_sound(q, best, nodes@[local as int]@),
        forall|other: Seq<Step>| #[trigger]
            q.admits(other, nodes@[local as int]@) && other.len() <= nodes@.len()
                ==> route_label_no_worse(
                q,
                best,
                q.route_fees(other),
                q.route_cltv(other),
                other,
                step_to(q.graph, other[0]),
            ),
{
    let mut best: Option<Label> = None;
    let mut c: usize = 0;
    while c < graph.len()
        invariant
            c <= graph.len(),
            graph_ok(nodes@, graph@, ends@),
            blocked_ok(q, blocked@),
            q.graph == graph@,
            q.amount == amount,
            q.strict == strict,
            q.risk == risk,
                local < nodes@.len(),
            labels_ok(q, nodes@, labels@, nodes@.len() - 1),
            route_sound(q, best, nodes@[local as int]@),
            forall|d: usize, forward: bool|
                d < c ==> #[trigger] first_done(q, ends@, labels@, best, local, (d, forward)),
        decreases graph.len() - c,
    {
        let ghost before = best;
        consider_first(
            nodes,
            graph,
            ends,
            blocked,
            amount,
            strict,
            risk,
            labels,
            local,
            &mut best,
            (c, true),
            Ghost(q),
        );
        let ghost middle = best;
        consider_first(
            nodes,
            graph,
            ends,
            blocked,
            amount,
            strict,
            risk,
            labels,
            local,
            &mut best,
            (c, false),
            Ghost(q),
        );
        proof {
            assert forall|d: usize, forward: bool| d < c + 1 implies #[trigger] first_done(
                q,
                ends@,
                labels@,
                best,
                local,
                (d, forward),
            ) by {
                let step = (d, forward);
                if d < c {
                    lemma_first_stays_done(q, ends@, labels@, before, middle, local, step);
                    lemma_first_stays_done(q, ends@, labels@, middle, best, local, step);
                } else if forward {
                    lemma_first_stays_done(q, ends@, labels@, middle, best, local, step);
                }
            }
        }
        c += 1;
    }
    proof {
        assert forall|other: Seq<Step>| #[trigger]
            q.admits(other, nodes@[local as int]@) && other.len()
                <= nodes@.len() implies route_label_no_worse(
            q,
            best,
            q.route_fees(other),
            q.route_cltv(other),
            other,
            step_to(q.graph, other[0]),
        ) by {
            let step = other[0];
            let rest = other.drop_first();
            let (u, w) = step_ends(ends@, step);
            assert(q.relays(rest, nodes@[w as int]@));
            let front = labels@[w as int]@;
            let j = choose|j: int|
                0 <= j < front.len() && dominates(
                    #[trigger] front[j],
                    q.fees(rest),
                    q.cltv(rest),
                    rest,
                );
            let label = front[j];
            let longer = seq![step] + label.steps@;
            assert(first_done(q, ends@, labels@, best, local, step));
            assert(other =~= seq![step] + rest);
            lemma_path_order_behind_step(step, rest, label.steps@);
            lemma_covering_route_is_no_worse(
                q.risk as int,
                label.fees as int,
                label.cltv as int,
                longer,
                q.fees(rest),
                q.cltv(rest),
                other,
                step_to(q.graph, step),
            );
            let b = best->0;
            lemma_route_order(
                q.risk as int,
                b.fees as int,
                b.cltv as int,
                b.steps@,
                step_to(q.graph, b.steps@[0]),
                label.fees as int,
                label.cltv as int,
                longer,
                step_to(q.graph, step),
                q.fees(rest),
                q.cltv(rest),
                other,
                step_to(q.graph, step),
            );
        }
    }
    best
}

} // verus!

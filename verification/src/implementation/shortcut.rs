//! Why the search may stop at routes of as many hops as the graph has nodes.
//!
//! A path of more steps than that stands at some node twice. Leaving out
//! the round trip between the two visits gives a path that still leads to
//! the destination, still finds the balances it needs, and costs no more in
//! fees or time lock. So every route has a route of bounded length that is
//! at least as good.

use vstd::prelude::*;
use vstd::set_lib::{lemma_int_range, lemma_len_subset, set_int_range};

use crate::implementation::router::{lemma_joins_at, route_no_worse, step_to, Quest, Step};
use crate::implementation::search::{
    graph_ok, lemma_extension_keeps_order, lemma_fees_grow, lemma_prepend, lemma_route_order,
};

verus! {

/// The node at which `path`, started at `from`, stands after `k` steps.
pub open spec fn visit(q: Quest, path: Seq<Step>, from: Seq<u8>, k: int) -> Seq<u8> {
    if k == 0 {
        from
    } else {
        step_to(q.graph, path[k - 1])
    }
}

/// The position of the node `key` among the nodes.
pub open spec fn position_of(nodes: Seq<[u8; 33]>, key: Seq<u8>) -> int {
    choose|p: int| 0 <= p < nodes.len() && (#[trigger] nodes[p])@ == key
}

/// More than `n` values, each from zero up to `n`, hold one value twice.
proof fn lemma_some_value_twice(values: Seq<int>, n: int) -> (at: (int, int))
    requires
        0 <= n < values.len(),
        forall|k: int| 0 <= k < values.len() ==> 0 <= #[trigger] values[k] < n,
    ensures
        0 <= at.0 < at.1 < values.len(),
        values[at.0] == values[at.1],
{
    if values.no_duplicates() {
        // then there are as many different values as there are values,
        // which is more than the range holds
        values.unique_seq_to_set();
        lemma_int_range(0, n);
        assert(values.to_set().subset_of(set_int_range(0, n))) by {
            assert forall|v: int| values.to_set().contains(v) implies set_int_range(
                0,
                n,
            ).contains(v) by {
                let k = choose|k: int| 0 <= k < values.len() && values[k] == v;
                assert(0 <= values[k] < n);
            }
        }
        lemma_len_subset(values.to_set(), set_int_range(0, n));
    }
    let pair = choose|i: int, j: int|
        0 <= i < values.len() && 0 <= j < values.len() && i != j && values[i] == values[j];
    if pair.0 < pair.1 {
        pair
    } else {
        (pair.1, pair.0)
    }
}

/// What is left of a path after its first `k` steps leads on from where
/// those steps ended, and costs no more than the whole.
proof fn lemma_rest_of_path(q: Quest, path: Seq<Step>, from: Seq<u8>, k: int)
    requires
        q.joins(path, from),
        q.open(path),
        0 <= k <= path.len(),
    ensures
        q.joins(path.skip(k), visit(q, path, from, k)),
        q.open(path.skip(k)),
        0 <= q.fees(path.skip(k)) <= q.fees(path),
        0 <= q.cltv(path.skip(k)) <= q.cltv(path),
    decreases k,
{
    lemma_fees_grow(q, path);
    if k == 0 {
        assert(path.skip(0) =~= path);
        lemma_time_lock_grows(q, path);
    } else {
        let rest = path.drop_first();
        lemma_rest_of_path(q, rest, step_to(q.graph, path[0]), k - 1);
        assert(rest.skip(k - 1) =~= path.skip(k));
        lemma_time_lock_grows(q, path);
    }
}

/// The time-lock delta of a path is never negative, and at least that of
/// its tail.
proof fn lemma_time_lock_grows(q: Quest, path: Seq<Step>)
    ensures
        0 <= q.cltv(path),
        path.len() > 0 ==> q.cltv(path.drop_first()) <= q.cltv(path),
    decreases path.len(),
{
    if path.len() > 0 {
        lemma_time_lock_grows(q, path.drop_first());
    }
}

/// A path that stands at the same node after `i` and after `j` steps can do
/// without the steps in between: what is left leads to the destination,
/// finds the balances it needs, and costs no more.
proof fn lemma_cut(q: Quest, path: Seq<Step>, from: Seq<u8>, i: int, j: int) -> (short: Seq<
    Step,
>)
    requires
        q.joins(path, from),
        q.open(path),
        0 <= i < j <= path.len(),
        visit(q, path, from, i) == visit(q, path, from, j),
    ensures
        q.joins(short, from),
        q.open(short),
        short.len() == path.len() - (j - i),
        0 <= q.fees(short) <= q.fees(path),
        0 <= q.cltv(short) <= q.cltv(path),
    decreases i,
{
    if i == 0 {
        lemma_rest_of_path(q, path, from, j);
        path.skip(j)
    } else {
        let step = path[0];
        let rest = path.drop_first();
        let inner = lemma_cut(q, rest, step_to(q.graph, step), i - 1, j - 1);
        let short = seq![step] + inner;
        lemma_prepend(q, step, inner);
        lemma_prepend(q, step, rest);
        assert(path =~= seq![step] + rest);
        lemma_extension_keeps_order(q, step, q.fees(inner), q.fees(rest));
        lemma_fees_grow(q, short);
        lemma_time_lock_grows(q, short);
        short
    }
}

/// For every route there is a route of no more hops than the graph has
/// nodes that is at least as good.
pub proof fn lemma_shorten(
    q: Quest,
    nodes: Seq<[u8; 33]>,
    ends: Seq<(usize, usize)>,
    path: Seq<Step>,
    local: Seq<u8>,
) -> (short: Seq<Step>)
    requires
        graph_ok(nodes, q.graph, ends),
        q.admits(path, local),
    ensures
        q.admits(short, local),
        short.len() <= nodes.len(),
        route_no_worse(
            q.risk as int,
            q.route_fees(short),
            q.route_cltv(short),
            short,
            step_to(q.graph, short[0]),
            q.route_fees(path),
            q.route_cltv(path),
            path,
            step_to(q.graph, path[0]),
        ),
    decreases path.len(),
{
    if path.len() <= nodes.len() {
        lemma_route_order(
            q.risk as int,
            q.route_fees(path),
            q.route_cltv(path),
            path,
            step_to(q.graph, path[0]),
            0,
            0,
            Seq::empty(),
            Seq::empty(),
            0,
            0,
            Seq::empty(),
            Seq::empty(),
        );
        path
    } else {
        let first = path[0];
        let tail = path.drop_first();
        let from = step_to(q.graph, first);
        let n = nodes.len() as int;
        let values = Seq::new(
            (tail.len() + 1) as nat,
            |k: int| position_of(nodes, visit(q, tail, from, k)),
        );
        assert forall|k: int| 0 <= k < values.len() implies 0 <= #[trigger] values[k] < n && nodes[
            values[k]
        ]@ == visit(q, tail, from, k) by {
            let c = if k == 0 {
                first.0 as int
            } else {
                lemma_joins_at(q, tail, from, k - 1);
                tail[k - 1].0 as int
            };
            assert(nodes[ends[c].0 as int]@ == q.graph[c].node_a@);
            assert(nodes[ends[c].1 as int]@ == q.graph[c].node_b@);
        }
        let at = lemma_some_value_twice(values, n);
        assert(nodes[values[at.0]]@ == visit(q, tail, from, at.0));
        assert(nodes[values[at.1]]@ == visit(q, tail, from, at.1));
        let cut = lemma_cut(q, tail, from, at.0, at.1);
        let next = seq![first] + cut;
        lemma_prepend(q, first, cut);
        assert(next.drop_first() =~= cut);
        let risk = q.risk as int;
        assert(risk * q.cltv(cut) <= risk * q.cltv(tail)) by (nonlinear_arith)
            requires
                0 <= risk,
                q.cltv(cut) <= q.cltv(tail),
        ;
        let short = lemma_shorten(q, nodes, ends, next, local);
        lemma_route_order(
            risk,
            q.route_fees(short),
            q.route_cltv(short),
            short,
            step_to(q.graph, short[0]),
            q.route_fees(next),
            q.route_cltv(next),
            next,
            step_to(q.graph, next[0]),
            q.route_fees(path),
            q.route_cltv(path),
            path,
            step_to(q.graph, path[0]),
        );
        short
    }
}

} // verus!

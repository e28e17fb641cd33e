//! Flow networks: arcs with capacities, flows that respect them, and the cut bound on flow value.
use vstd::prelude::*;

verus! {

/// The node that supplies every unit of flow.
pub const SOURCE: usize = 0;

/// The node that absorbs every unit of flow.
pub const SINK: usize = 1;

/// A directed arc of a flow network.
#[derive(Clone, Copy, Debug, PartialEq, Eq, Structural)]
pub struct FlowArc {
    pub tail: usize,
    pub head: usize,
    pub capacity: u64,
}

/// Net amount that `amount` units on `arc` bring into node `v`.
pub open spec fn arc_inflow(arc: FlowArc, amount: int, v: int) -> int {
    (if arc.head == v {
        amount
    } else {
        0
    }) - (if arc.tail == v {
        amount
    } else {
        0
    })
}

/// Net inflow into `v` over the first `m` arcs.
pub open spec fn excess_upto(arcs: Seq<FlowArc>, flow: Seq<int>, v: int, m: int) -> int
    decreases m,
{
    if m <= 0 {
        0
    } else {
        excess_upto(arcs, flow, v, m - 1) + arc_inflow(arcs[m - 1], flow[m - 1], v)
    }
}

/// Net inflow into `v` over all arcs.
pub open spec fn excess(arcs: Seq<FlowArc>, flow: Seq<int>, v: int) -> int {
    excess_upto(arcs, flow, v, arcs.len() as int)
}

/// The amount of flow that leaves the source.
pub open spec fn flow_value(arcs: Seq<FlowArc>, flow: Seq<int>) -> int {
    -excess(arcs, flow, SOURCE as int)
}

/// `flow` assigns each arc an amount within its capacity and conserves flow at every node
/// other than the source and the sink.
pub open spec fn is_feasible_flow(arcs: Seq<FlowArc>, flow: Seq<int>) -> bool {
    &&& flow.len() == arcs.len()
    &&& forall|k: int| 0 <= k < arcs.len() ==> 0 <= #[trigger] flow[k] <= arcs[k].capacity
    &&& forall|v: int| v != SOURCE && v != SINK ==> #[trigger] excess(arcs, flow, v) == 0
}

/// The flow that is zero on every arc.
pub open spec fn zero_flow(count: int) -> Seq<int> {
    Seq::new(count as nat, |k: int| 0int)
}

/// Whether node `v` belongs to the node set given by membership flags.
pub open spec fn in_set(set: Seq<bool>, v: int) -> bool {
    0 <= v < set.len() && set[v]
}

/// Total capacity of the arcs that leave `set`, over the first `m` arcs.
pub open spec fn cut_capacity(arcs: Seq<FlowArc>, set: Seq<bool>, m: int) -> int
    decreases m,
{
    if m <= 0 {
        0
    } else {
        cut_capacity(arcs, set, m - 1) + if in_set(set, arcs[m - 1].tail as int) && !in_set(
            set,
            arcs[m - 1].head as int,
        ) {
            arcs[m - 1].capacity as int
        } else {
            0
        }
    }
}

/// Net flow that the first `m` arcs bring into `set`.
pub open spec fn cut_inflow(arcs: Seq<FlowArc>, flow: Seq<int>, set: Seq<bool>, m: int) -> int
    decreases m,
{
    if m <= 0 {
        0
    } else {
        cut_inflow(arcs, flow, set, m - 1) + (if in_set(set, arcs[m - 1].head as int) {
            flow[m - 1]
        } else {
            0
        }) - (if in_set(set, arcs[m - 1].tail as int) {
            flow[m - 1]
        } else {
            0
        })
    }
}

/// Sum of the excesses of the nodes below `j` that belong to `set`, over the first `m` arcs.
pub open spec fn set_excess(arcs: Seq<FlowArc>, flow: Seq<int>, set: Seq<bool>, m: int, j: int) -> int
    decreases j,
{
    if j <= 0 {
        0
    } else {
        set_excess(arcs, flow, set, m, j - 1) + if in_set(set, j - 1) {
            excess_upto(arcs, flow, j - 1, m)
        } else {
            0
        }
    }
}

/// Sum over the nodes below `j` in `set` of what one arc brings into each.
pub open spec fn set_arc_inflow(arc: FlowArc, amount: int, set: Seq<bool>, j: int) -> int
    decreases j,
{
    if j <= 0 {
        0
    } else {
        set_arc_inflow(arc, amount, set, j - 1) + if in_set(set, j - 1) {
            arc_inflow(arc, amount, j - 1)
        } else {
            0
        }
    }
}

proof fn lemma_set_arc_inflow(arc: FlowArc, amount: int, set: Seq<bool>, j: int)
    requires
        0 <= j,
    ensures
        set_arc_inflow(arc, amount, set, j) == (if arc.head < j && in_set(set, arc.head as int) {
            amount
        } else {
            0
        }) - (if arc.tail < j && in_set(set, arc.tail as int) {
            amount
        } else {
            0
        }),
    decreases j,
{
    if j > 0 {
        lemma_set_arc_inflow(arc, amount, set, j - 1);
    }
}

proof fn lemma_set_excess_step(arcs: Seq<FlowArc>, flow: Seq<int>, set: Seq<bool>, m: int, j: int)
    requires
        0 <= j,
        1 <= m,
    ensures
        set_excess(arcs, flow, set, m, j) == set_excess(arcs, flow, set, m - 1, j) + set_arc_inflow(
            arcs[m - 1],
            flow[m - 1],
            set,
            j,
        ),
    decreases j,
{
    if j > 0 {
        lemma_set_excess_step(arcs, flow, set, m, j - 1);
    }
}

/// Summing the excess of the nodes of a set is summing the net flow its boundary carries in.
proof fn lemma_set_excess_is_cut_inflow(arcs: Seq<FlowArc>, flow: Seq<int>, set: Seq<bool>, m: int)
    requires
        0 <= m <= arcs.len(),
        forall|k: int| 0 <= k < m ==> #[trigger] arcs[k].tail < set.len() && arcs[k].head < set.len(),
    ensures
        set_excess(arcs, flow, set, m, set.len() as int) == cut_inflow(arcs, flow, set, m),
    decreases m,
{
    if m > 0 {
        lemma_set_excess_is_cut_inflow(arcs, flow, set, m - 1);
        lemma_set_excess_step(arcs, flow, set, m, set.len() as int);
        lemma_set_arc_inflow(arcs[m - 1], flow[m - 1], set, set.len() as int);
        assert(arcs[m - 1].tail < set.len() && arcs[m - 1].head < set.len());
    } else {
        lemma_set_excess_zero_arcs(arcs, flow, set, set.len() as int);
    }
}

proof fn lemma_set_excess_zero_arcs(arcs: Seq<FlowArc>, flow: Seq<int>, set: Seq<bool>, j: int)
    requires
        0 <= j,
    ensures
        set_excess(arcs, flow, set, 0, j) == 0,
    decreases j,
{
    if j > 0 {
        lemma_set_excess_zero_arcs(arcs, flow, set, j - 1);
    }
}

/// When only the source may carry an excess in the set, the set's excess is the source's.
proof fn lemma_set_excess_of_conserving_flow(arcs: Seq<FlowArc>, flow: Seq<int>, set: Seq<bool>, j: int)
    requires
        0 <= j <= set.len(),
        in_set(set, SOURCE as int),
        !in_set(set, SINK as int),
        forall|v: int| v != SOURCE && v != SINK ==> #[trigger] excess(arcs, flow, v) == 0,
    ensures
        set_excess(arcs, flow, set, arcs.len() as int, j) == if j > SOURCE {
            excess(arcs, flow, SOURCE as int)
        } else {
            0
        },
    decreases j,
{
    if j > 0 {
        lemma_set_excess_of_conserving_flow(arcs, flow, set, j - 1);
        let v = j - 1;
        if v != SOURCE && v != SINK {
            assert(excess(arcs, flow, v) == 0);
        }
    }
}

/// The net inflow into a set is at least minus the capacity leaving it.
proof fn lemma_cut_inflow_bound(arcs: Seq<FlowArc>, flow: Seq<int>, set: Seq<bool>, m: int)
    requires
        0 <= m <= arcs.len(),
        flow.len() == arcs.len(),
        forall|k: int| 0 <= k < arcs.len() ==> 0 <= #[trigger] flow[k] <= arcs[k].capacity,
    ensures
        cut_inflow(arcs, flow, set, m) >= -cut_capacity(arcs, set, m),
    decreases m,
{
    if m > 0 {
        lemma_cut_inflow_bound(arcs, flow, set, m - 1);
        assert(0 <= flow[m - 1] <= arcs[m - 1].capacity);
    }
}

/// A flow that fills every arc leaving the set and leaves every arc entering it empty
/// brings exactly minus the leaving capacity into the set.
proof fn lemma_cut_inflow_saturated(arcs: Seq<FlowArc>, flow: Seq<int>, set: Seq<bool>, m: int)
    requires
        0 <= m <= arcs.len(),
        flow.len() == arcs.len(),
        forall|k: int|
            0 <= k < arcs.len() && in_set(set, arcs[k].tail as int) && !in_set(
                set,
                arcs[k].head as int,
            ) ==> #[trigger] flow[k] == arcs[k].capacity,
        forall|k: int|
            0 <= k < arcs.len() && !in_set(set, arcs[k].tail as int) && in_set(
                set,
                arcs[k].head as int,
            ) ==> #[trigger] flow[k] == 0,
    ensures
        cut_inflow(arcs, flow, set, m) == -cut_capacity(arcs, set, m),
    decreases m,
{
    if m > 0 {
        lemma_cut_inflow_saturated(arcs, flow, set, m - 1);
        let k = m - 1;
        if in_set(set, arcs[k].tail as int) && !in_set(set, arcs[k].head as int) {
            assert(flow[k] == arcs[k].capacity);
        }
        if !in_set(set, arcs[k].tail as int) && in_set(set, arcs[k].head as int) {
            assert(flow[k] == 0);
        }
    }
}

/// Max-flow/min-cut, the half that bounds flows: every feasible flow's value is at most the
/// capacity leaving any node set that holds the source but not the sink.
pub proof fn lemma_flow_value_at_most_cut(arcs: Seq<FlowArc>, flow: Seq<int>, set: Seq<bool>)
    requires
        is_feasible_flow(arcs, flow),
        in_set(set, SOURCE as int),
        !in_set(set, SINK as int),
        forall|k: int|
            0 <= k < arcs.len() ==> #[trigger] arcs[k].tail < set.len() && arcs[k].head < set.len(),
    ensures
        flow_value(arcs, flow) <= cut_capacity(arcs, set, arcs.len() as int),
{
    lemma_set_excess_is_cut_inflow(arcs, flow, set, arcs.len() as int);
    lemma_set_excess_of_conserving_flow(arcs, flow, set, set.len() as int);
    lemma_cut_inflow_bound(arcs, flow, set, arcs.len() as int);
}

/// The other half: a feasible flow that saturates a source/sink cut has the cut's capacity as
/// its value.
pub proof fn lemma_saturating_flow_value(arcs: Seq<FlowArc>, flow: Seq<int>, set: Seq<bool>)
    requires
        is_feasible_flow(arcs, flow),
        in_set(set, SOURCE as int),
        !in_set(set, SINK as int),
        forall|k: int|
            0 <= k < arcs.len() ==> #[trigger] arcs[k].tail < set.len() && arcs[k].head < set.len(),
        forall|k: int|
            0 <= k < arcs.len() && in_set(set, arcs[k].tail as int) && !in_set(
                set,
                arcs[k].head as int,
            ) ==> #[trigger] flow[k] == arcs[k].capacity,
        forall|k: int|
            0 <= k < arcs.len() && !in_set(set, arcs[k].tail as int) && in_set(
                set,
                arcs[k].head as int,
            ) ==> #[trigger] flow[k] == 0,
    ensures
        flow_value(arcs, flow) == cut_capacity(arcs, set, arcs.len() as int),
{
    lemma_set_excess_is_cut_inflow(arcs, flow, set, arcs.len() as int);
    lemma_set_excess_of_conserving_flow(arcs, flow, set, set.len() as int);
    lemma_cut_inflow_saturated(arcs, flow, set, arcs.len() as int);
}

/// Changing the flow on one arc by `delta` moves `delta` of excess from its tail to its head.
pub proof fn lemma_excess_after_update(arcs: Seq<FlowArc>, flow: Seq<int>, k: int, delta: int, v: int, m: int)
    requires
        0 <= k < flow.len(),
        0 <= m <= flow.len(),
    ensures
        excess_upto(arcs, flow.update(k, flow[k] + delta), v, m) == excess_upto(arcs, flow, v, m)
            + if k < m {
            arc_inflow(arcs[k], delta, v)
        } else {
            0
        },
    decreases m,
{
    if m > 0 {
        lemma_excess_after_update(arcs, flow, k, delta, v, m - 1);
    }
}

/// The zero flow leaves every node balanced.
pub proof fn lemma_zero_flow_excess(arcs: Seq<FlowArc>, v: int, m: int)
    requires
        0 <= m <= arcs.len(),
    ensures
        excess_upto(arcs, zero_flow(arcs.len() as int), v, m) == 0,
    decreases m,
{
    if m > 0 {
        lemma_zero_flow_excess(arcs, v, m - 1);
    }
}

/// The zero flow is feasible and has value zero.
pub proof fn lemma_zero_flow_feasible(arcs: Seq<FlowArc>)
    ensures
        is_feasible_flow(arcs, zero_flow(arcs.len() as int)),
        flow_value(arcs, zero_flow(arcs.len() as int)) == 0,
{
    assert forall|v: int| #[trigger] excess(arcs, zero_flow(arcs.len() as int), v) == 0 by {
        lemma_zero_flow_excess(arcs, v, arcs.len() as int);
    }
}

/// Without arcs, every flow is empty and has value zero.
pub proof fn lemma_no_arcs_value(arcs: Seq<FlowArc>, flow: Seq<int>)
    requires
        arcs.len() == 0,
    ensures
        flow_value(arcs, flow) == 0,
{
}

} // verus!

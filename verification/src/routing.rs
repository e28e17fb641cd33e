//! Routing of incoming requests through the service network as a maximum flow.
use vstd::prelude::*;

use crate::flow::{
    FlowArc, SINK, SOURCE, cut_capacity, excess, flow_value, in_set, is_feasible_flow,
    lemma_excess_after_update,
    lemma_flow_value_at_most_cut, lemma_no_arcs_value, lemma_saturating_flow_value,
    lemma_zero_flow_feasible, zero_flow,
};
use crate::infrastructure::{Service, ServiceKind, find_service, lemma_service_position, service_position};
use crate::network::{Network, NetworkLink};
use crate::traffic::LinkTraffic;

verus! {

/// How many requests reached request-serving infrastructure, and what each link carried.
#[derive(Clone, Debug, PartialEq, Eq)]
pub struct RoutingResult {
    pub served: u64,
    pub link_traffic: Vec<LinkTraffic>,
}

/// The flow node where requests enter the service at `index`.
pub open spec fn service_input(index: int) -> int {
    2 + 2 * index
}

/// The flow node where requests leave the service at `index`.
pub open spec fn service_output(index: int) -> int {
    3 + 2 * index
}

pub open spec fn arc(tail: int, head: int, capacity: u64) -> FlowArc {
    FlowArc { tail: tail as usize, head: head as usize, capacity }
}

/// The arcs of one service: its own throughput, the ingress of a gateway and the exit of a
/// request-serving service.
pub open spec fn service_arcs(service: Service, index: int, demand: u64) -> Seq<FlowArc> {
    let internal = seq![
        arc(service_input(index), service_output(index), service.spec_traffic_capacity(demand)),
    ];
    let with_ingress = if service.spec_kind() == ServiceKind::InternetGateway {
        internal.push(arc(SOURCE as int, service_input(index), demand))
    } else {
        internal
    };
    if service.spec_kind().serves_requests() {
        with_ingress.push(arc(service_output(index), SINK as int, demand))
    } else {
        with_ingress
    }
}

/// The arcs of every service, in service order.
pub open spec fn services_arcs(services: Seq<Service>, demand: u64) -> Seq<FlowArc>
    decreases services.len(),
{
    if services.len() == 0 {
        Seq::empty()
    } else {
        services_arcs(services.drop_last(), demand) + service_arcs(
            services.last(),
            services.len() - 1,
            demand,
        )
    }
}

/// The links whose two endpoints are both among `services`, in link order.
pub open spec fn routable_links(services: Seq<Service>, links: Seq<NetworkLink>) -> Seq<NetworkLink>
    decreases links.len(),
{
    if links.len() == 0 {
        Seq::empty()
    } else {
        let rest = routable_links(services, links.drop_last());
        let link = links.last();
        if service_position(services, link.from) is Some && service_position(
            services,
            link.to,
        ) is Some {
            rest.push(link)
        } else {
            rest
        }
    }
}

/// The arc that carries requests along a routable link.
pub open spec fn link_arc(services: Seq<Service>, link: NetworkLink, demand: u64) -> FlowArc {
    arc(
        service_output(service_position(services, link.from).unwrap()),
        service_input(service_position(services, link.to).unwrap()),
        demand,
    )
}

/// The flow network of a tick: service arcs, then one arc per routable link.
pub open spec fn routing_arcs(demand: u64, services: Seq<Service>, links: Seq<NetworkLink>) -> Seq<
    FlowArc,
> {
    let routable = routable_links(services, links);
    services_arcs(services, demand) + Seq::new(
        routable.len(),
        |j: int| link_arc(services, routable[j], demand),
    )
}

/// The traffic of the first `count` routable links under `flow`, listing only links that
/// carry requests; the link arcs start at arc `base`.
pub open spec fn link_traffic_of(routable: Seq<NetworkLink>, flow: Seq<int>, base: int, count: int) -> Seq<
    LinkTraffic,
>
    decreases count,
{
    if count <= 0 {
        Seq::empty()
    } else {
        let rest = link_traffic_of(routable, flow, base, count - 1);
        let amount = flow[base + count - 1];
        if amount > 0 {
            rest.push(
                LinkTraffic {
                    from: routable[count - 1].from,
                    to: routable[count - 1].to,
                    requests: amount as u64,
                },
            )
        } else {
            rest
        }
    }
}

/// `served` is the most requests that any routing can deliver, capped at the demand.
pub open spec fn optimal_routing_value(
    demand: u64,
    services: Seq<Service>,
    links: Seq<NetworkLink>,
    served: int,
) -> bool {
    let arcs = routing_arcs(demand, services, links);
    &&& 0 <= served <= demand
    &&& exists|flow: Seq<int>| #[trigger]
        is_feasible_flow(arcs, flow) && flow_value(arcs, flow) == served
    &&& forall|flow: Seq<int>| #[trigger]
        is_feasible_flow(arcs, flow) ==> (if flow_value(arcs, flow) < demand {
            flow_value(arcs, flow)
        } else {
            demand as int
        }) <= served
}

/// The number of requests that reach request-serving infrastructure in a tick.
pub open spec fn routed_requests(demand: u64, services: Seq<Service>, links: Seq<NetworkLink>) -> int {
    choose|served: int| optimal_routing_value(demand, services, links, served)
}

/// `served` and `traffic` describe a best routing of `demand` requests: the served count is
/// maximal and the per-link traffic comes from one flow that achieves it.
pub open spec fn is_routing(
    demand: u64,
    services: Seq<Service>,
    links: Seq<NetworkLink>,
    served: u64,
    traffic: Seq<LinkTraffic>,
) -> bool {
    let arcs = routing_arcs(demand, services, links);
    let routable = routable_links(services, links);
    &&& served == routed_requests(demand, services, links)
    &&& exists|flow: Seq<int>| #[trigger]
        is_feasible_flow(arcs, flow) && flow_value(arcs, flow) == served && traffic
            == link_traffic_of(
            routable,
            flow,
            services_arcs(services, demand).len() as int,
            routable.len() as int,
        )
}

/// The residual graph before any flow: every arc's full capacity forward, nothing backward.
pub open spec fn initial_residual(arcs: Seq<FlowArc>) -> Seq<u64> {
    Seq::new(
        2 * arcs.len(),
        |e: int|
            if e % 2 == 0 {
                arcs[e / 2].capacity
            } else {
                0
            },
    )
}

/// Where a breadth-first search starts: only the source is reached.
pub open spec fn search_start(node_count: int) -> Seq<Option<(usize, usize)>> {
    Seq::new(
        node_count as nat,
        |v: int|
            if v == SOURCE {
                Some((SOURCE, usize::MAX))
            } else {
                None
            },
    )
}

/// The rest of a breadth-first search from the source to the sink over the residual edges with
/// spare capacity. `queue` lists the reached nodes in the order they were reached; the node
/// before `head` in it is having its edges examined, from edge `e` on, in edge order. A node
/// is reached from the first edge found to it; the search ends with the reach tree as soon as
/// it reaches the sink, and with nothing once every reached node has been examined.
pub open spec fn search_from(
    arcs: Seq<FlowArc>,
    residual: Seq<u64>,
    node_count: int,
    queue: Seq<usize>,
    parent: Seq<Option<(usize, usize)>>,
    head: int,
    e: int,
) -> Option<Seq<Option<(usize, usize)>>>
    decreases node_count - head, residual.len() - e,
{
    if 0 <= e < residual.len() {
        let from = queue[head - 1];
        let to = edge_head(arcs, e);
        if edge_tail(arcs, e) == from && residual[e] != 0 && 0 <= to < parent.len()
            && parent[to] is None {
            let reached = parent.update(to, Some((from, e as usize)));
            if to == SINK {
                Some(reached)
            } else {
                search_from(
                    arcs,
                    residual,
                    node_count,
                    queue.push(to as usize),
                    reached,
                    head,
                    e + 1,
                )
            }
        } else {
            search_from(arcs, residual, node_count, queue, parent, head, e + 1)
        }
    } else if 0 <= head < queue.len() && head < node_count {
        search_from(arcs, residual, node_count, queue, parent, head + 1, 0)
    } else {
        None
    }
}

/// The reach tree of the breadth-first search for an augmenting path, if it reaches the sink.
pub open spec fn breadth_first_search(arcs: Seq<FlowArc>, residual: Seq<u64>, node_count: int) -> Option<
    Seq<Option<(usize, usize)>>,
> {
    search_from(
        arcs,
        residual,
        node_count,
        seq![SOURCE],
        search_start(node_count),
        0,
        residual.len() as int,
    )
}

/// The edges of the reach-tree path from `node` back to the source, nearest first, following
/// at most `steps` edges.
pub open spec fn path_edges_from(parent: Seq<Option<(usize, usize)>>, node: int, steps: nat) -> Seq<
    usize,
>
    decreases steps,
{
    if node == SOURCE || steps == 0 {
        Seq::empty()
    } else {
        match parent[node] {
            Some((previous, e)) => seq![e] + path_edges_from(
                parent,
                previous as int,
                (steps - 1) as nat,
            ),
            None => Seq::empty(),
        }
    }
}

/// The least spare capacity among the first `count` edges of a path, and `start`.
pub open spec fn path_bottleneck(residual: Seq<u64>, edges: Seq<usize>, count: int, start: u64) -> u64
    decreases count,
{
    if count <= 0 {
        start
    } else {
        let before = path_bottleneck(residual, edges, count - 1, start);
        let spare = residual[edges[count - 1] as int];
        if spare < before {
            spare
        } else {
            before
        }
    }
}

/// The residual graph after pushing `amount` along the first `count` edges of a path.
pub open spec fn pushed_along(residual: Seq<u64>, edges: Seq<usize>, count: int, amount: u64) -> Seq<
    u64,
>
    decreases count,
{
    if count <= 0 {
        residual
    } else {
        let before = pushed_along(residual, edges, count - 1, amount);
        let e = edges[count - 1] as int;
        let partner = edge_partner(e);
        before.update(e, (before[e] - amount) as u64).update(
            partner,
            (before[partner] + amount) as u64,
        )
    }
}

/// The residual graph and the total pushed after at most `rounds` more rounds of augmentation
/// from `residual`, with `total` pushed so far: each round stops at `limit`, otherwise finds the
/// breadth-first path to the sink and pushes its bottleneck, capped at what is left of `limit`.
pub open spec fn flow_rounds(
    arcs: Seq<FlowArc>,
    residual: Seq<u64>,
    node_count: int,
    limit: u64,
    total: u64,
    rounds: nat,
) -> (Seq<u64>, u64)
    decreases rounds,
{
    if rounds == 0 || total >= limit {
        (residual, total)
    } else {
        match breadth_first_search(arcs, residual, node_count) {
            None => (residual, total),
            Some(parent) => {
                let edges = path_edges_from(parent, SINK as int, node_count as nat);
                let amount = path_bottleneck(
                    residual,
                    edges,
                    edges.len() as int,
                    (limit - total) as u64,
                );
                flow_rounds(
                    arcs,
                    pushed_along(residual, edges, edges.len() as int, amount),
                    node_count,
                    limit,
                    (total + amount) as u64,
                    (rounds - 1) as nat,
                )
            },
        }
    }
}

/// The residual graph that routing `demand` requests leaves.
pub open spec fn routed_residual(demand: u64, services: Seq<Service>, links: Seq<NetworkLink>) -> Seq<
    u64,
> {
    let arcs = routing_arcs(demand, services, links);
    flow_rounds(arcs, initial_residual(arcs), (2 + 2 * services.len()) as int, demand, 0, demand as nat).0
}

/// The traffic of each routable link, in link order, under the flow that routing `demand`
/// requests finds; links that carry nothing are left out.
pub open spec fn routed_traffic(demand: u64, services: Seq<Service>, links: Seq<NetworkLink>) -> Seq<
    LinkTraffic,
> {
    let routable = routable_links(services, links);
    link_traffic_of(
        routable,
        flow_of(routing_arcs(demand, services, links), routed_residual(demand, services, links)),
        services_arcs(services, demand).len() as int,
        routable.len() as int,
    )
}

/// Services and links few enough that the routing graph can be indexed.
pub open spec fn routing_fits(services_count: int, links_count: int) -> bool {
    8 * (services_count + links_count) + 8 <= usize::MAX
}

/// There is only one best served count.
pub proof fn lemma_optimal_routing_value_unique(
    demand: u64,
    services: Seq<Service>,
    links: Seq<NetworkLink>,
    served: int,
)
    requires
        optimal_routing_value(demand, services, links, served),
    ensures
        routed_requests(demand, services, links) == served,
{
    let arcs = routing_arcs(demand, services, links);
    let other = routed_requests(demand, services, links);
    assert(optimal_routing_value(demand, services, links, other));
    let flow1 = choose|flow: Seq<int>| #[trigger]
        is_feasible_flow(arcs, flow) && flow_value(arcs, flow) == served;
    let flow2 = choose|flow: Seq<int>| #[trigger]
        is_feasible_flow(arcs, flow) && flow_value(arcs, flow) == other;
    assert(is_feasible_flow(arcs, flow1));
    assert(is_feasible_flow(arcs, flow2));
}

// ---------------------------------------------------------------------------------------------
// The residual graph: arc `k` has a forward edge `2k` and a backward edge `2k + 1`.
// ---------------------------------------------------------------------------------------------
/// The node a residual edge leaves.
pub open spec fn edge_tail(arcs: Seq<FlowArc>, e: int) -> int {
    if e % 2 == 0 {
        arcs[e / 2].tail as int
    } else {
        arcs[e / 2].head as int
    }
}

/// The node a residual edge enters.
pub open spec fn edge_head(arcs: Seq<FlowArc>, e: int) -> int {
    if e % 2 == 0 {
        arcs[e / 2].head as int
    } else {
        arcs[e / 2].tail as int
    }
}

/// The residual edge paired with `e`.
pub open spec fn edge_partner(e: int) -> int {
    if e % 2 == 0 {
        e + 1
    } else {
        e - 1
    }
}

/// Each arc's two residual capacities add up to its capacity.
pub open spec fn residual_matches(arcs: Seq<FlowArc>, residual: Seq<u64>) -> bool {
    &&& residual.len() == 2 * arcs.len()
    &&& forall|k: int|
        0 <= k < arcs.len() ==> #[trigger] residual[2 * k] + residual[2 * k + 1]
            == arcs[k].capacity
}

/// The flow that a residual graph records: what each arc's backward edge can return.
pub open spec fn flow_of(arcs: Seq<FlowArc>, residual: Seq<u64>) -> Seq<int> {
    Seq::new(arcs.len(), |k: int| residual[2 * k + 1] as int)
}

/// Every arc joins two of the first `node_count` nodes.
pub open spec fn arcs_within(arcs: Seq<FlowArc>, node_count: int) -> bool {
    forall|k: int|
        0 <= k < arcs.len() ==> #[trigger] arcs[k].tail < node_count && arcs[k].head
            < node_count
}

/// Breadth-first search results: every reached node other than the source was reached from an
/// earlier-ranked node over a residual edge with spare capacity, and the sink was reached.
pub open spec fn is_search_tree(
    arcs: Seq<FlowArc>,
    residual: Seq<u64>,
    parent: Seq<Option<(usize, usize)>>,
    rank: Seq<int>,
    node_count: int,
) -> bool {
    &&& parent.len() == node_count
    &&& rank.len() == node_count
    &&& parent[SINK as int] is Some
    &&& parent[SOURCE as int] == Some((SOURCE, usize::MAX))
    &&& rank[SOURCE as int] == 0
    &&& forall|v: int|
        0 <= v < node_count && #[trigger] parent[v] is Some ==> 0 <= rank[v]
    &&& forall|v: int|
        0 <= v < node_count && v != SOURCE && #[trigger] parent[v] is Some ==> {
            let (p, e) = parent[v].unwrap();
            &&& p < node_count
            &&& parent[p as int] is Some
            &&& e < residual.len()
            &&& edge_tail(arcs, e as int) == p
            &&& edge_head(arcs, e as int) == v
            &&& residual[e as int] > 0
            &&& rank[p as int] < rank[v]
        }
}

/// A node set that holds the source but not the sink and that no residual edge with spare
/// capacity leaves.
pub open spec fn is_closed_cut(arcs: Seq<FlowArc>, residual: Seq<u64>, set: Seq<bool>, node_count: int) -> bool {
    &&& set.len() == node_count
    &&& in_set(set, SOURCE as int)
    &&& !in_set(set, SINK as int)
    &&& forall|e: int|
        0 <= e < residual.len() && in_set(set, edge_tail(arcs, e)) && residual[e] > 0
            ==> #[trigger] in_set(set, edge_head(arcs, e))
}

/// Number of unreached nodes.
pub open spec fn unreached_count(parent: Seq<Option<(usize, usize)>>) -> nat
    decreases parent.len(),
{
    if parent.len() == 0 {
        0
    } else {
        unreached_count(parent.drop_last()) + if parent.last() is None {
            1nat
        } else {
            0nat
        }
    }
}

proof fn lemma_unreached_count_reach(parent: Seq<Option<(usize, usize)>>, v: int, entry: (usize, usize))
    requires
        0 <= v < parent.len(),
        parent[v] is None,
    ensures
        unreached_count(parent.update(v, Some(entry))) + 1 == unreached_count(parent),
    decreases parent.len(),
{
    let updated = parent.update(v, Some(entry));
    if v < parent.len() - 1 {
        lemma_unreached_count_reach(parent.drop_last(), v, entry);
        assert(updated.drop_last() == parent.drop_last().update(v, Some(entry)));
    } else {
        assert(updated.drop_last() == parent.drop_last());
    }
}

proof fn lemma_unreached_count_bound(parent: Seq<Option<(usize, usize)>>)
    ensures
        unreached_count(parent) <= parent.len(),
    decreases parent.len(),
{
    if parent.len() > 0 {
        lemma_unreached_count_bound(parent.drop_last());
    }
}

proof fn lemma_unreached_count_all(parent: Seq<Option<(usize, usize)>>)
    requires
        forall|v: int| 0 <= v < parent.len() ==> #[trigger] parent[v] is None,
    ensures
        unreached_count(parent) == parent.len(),
    decreases parent.len(),
{
    if parent.len() > 0 {
        lemma_unreached_count_all(parent.drop_last());
    }
}

/// Both endpoints of every residual edge are nodes of the network.
proof fn lemma_edge_within(arcs: Seq<FlowArc>, node_count: int, e: int)
    requires
        arcs_within(arcs, node_count),
        0 <= e < 2 * arcs.len(),
    ensures
        0 <= edge_tail(arcs, e) < node_count,
        0 <= edge_head(arcs, e) < node_count,
        0 <= edge_partner(e) < 2 * arcs.len(),
        edge_partner(e) / 2 == e / 2,
        edge_tail(arcs, edge_partner(e)) == edge_head(arcs, e),
        edge_head(arcs, edge_partner(e)) == edge_tail(arcs, e),
{
    let k = e / 2;
    assert(0 <= k < arcs.len()) by (nonlinear_arith)
        requires
            0 <= e < 2 * arcs.len(),
            k == e / 2,
    ;
    assert(arcs[k].tail < node_count && arcs[k].head < node_count);
}

fn edge_endpoints(arcs: &Vec<FlowArc>, e: usize) -> (ends: (usize, usize))
    requires
        e < 2 * arcs@.len(),
    ensures
        ends.0 == edge_tail(arcs@, e as int),
        ends.1 == edge_head(arcs@, e as int),
{
    let arc = arcs[e / 2];
    if e % 2 == 0 {
        (arc.tail, arc.head)
    } else {
        (arc.head, arc.tail)
    }
}

/// The search so far: the queue lists the reached nodes by rank, and each reached node other
/// than the source was reached from an earlier node over an edge with spare capacity.
#[verifier::opaque]
spec fn search_progress(
    arcs: Seq<FlowArc>,
    residual: Seq<u64>,
    parent: Seq<Option<(usize, usize)>>,
    rank: Seq<int>,
    queue: Seq<usize>,
    node_count: int,
) -> bool {
    &&& 2 <= node_count
    &&& arcs_within(arcs, node_count)
    &&& residual.len() == 2 * arcs.len()
    &&& parent.len() == node_count
    &&& rank.len() == node_count
    &&& unreached_count(parent) + queue.len() == node_count
    &&& queue.len() >= 1
    &&& queue[0] == SOURCE
    &&& parent[SOURCE as int] == Some((SOURCE, usize::MAX))
    &&& rank[SOURCE as int] == 0
    &&& forall|i: int|
        0 <= i < queue.len() ==> #[trigger] queue[i] < node_count && parent[queue[i] as int] is Some
            && rank[queue[i] as int] == i
    &&& forall|v: int|
        0 <= v < node_count && #[trigger] parent[v] is Some ==> 0 <= rank[v] < queue.len()
            && queue[rank[v]] == v
    &&& forall|v: int|
        0 <= v < node_count && v != SOURCE && #[trigger] parent[v] is Some ==> {
            let (p, e) = parent[v].unwrap();
            &&& p < node_count
            &&& parent[p as int] is Some
            &&& e < residual.len()
            &&& edge_tail(arcs, e as int) == p
            &&& edge_head(arcs, e as int) == v
            &&& residual[e as int] > 0
            &&& rank[p as int] < rank[v]
        }
}

/// Every edge with spare capacity that leaves a node of rank below `done`, or leaves `from`
/// and comes before edge `scanned`, enters a reached node.
spec fn search_closed(
    arcs: Seq<FlowArc>,
    residual: Seq<u64>,
    parent: Seq<Option<(usize, usize)>>,
    rank: Seq<int>,
    node_count: int,
    done: int,
    from: int,
    scanned: int,
) -> bool {
    forall|f: int|
        0 <= f < residual.len() && 0 <= edge_tail(arcs, f) < node_count && parent[edge_tail(
            arcs,
            f,
        )] is Some && (rank[edge_tail(arcs, f)] < done || (edge_tail(arcs, f) == from && f
            < scanned)) && residual[f] > 0 ==> #[trigger] parent[edge_head(arcs, f)] is Some
}

proof fn lemma_search_start(
    arcs: Seq<FlowArc>,
    residual: Seq<u64>,
    parent: Seq<Option<(usize, usize)>>,
    node_count: int,
)
    requires
        2 <= node_count,
        arcs_within(arcs, node_count),
        residual.len() == 2 * arcs.len(),
        parent.len() == node_count,
        forall|v: int| 0 <= v < node_count ==> #[trigger] parent[v] is None,
    ensures
        search_progress(
            arcs,
            residual,
            parent.update(SOURCE as int, Some((SOURCE, usize::MAX))),
            Seq::new(node_count as nat, |v: int| 0int),
            seq![SOURCE],
            node_count,
        ),
{
    reveal(search_progress);
    lemma_unreached_count_all(parent);
    lemma_unreached_count_reach(parent, SOURCE as int, (SOURCE, usize::MAX));
}

/// Reaching a new node over an edge with spare capacity from a queued node keeps the search
/// consistent.
#[verifier::spinoff_prover]
proof fn lemma_search_reach(
    arcs: Seq<FlowArc>,
    residual: Seq<u64>,
    parent: Seq<Option<(usize, usize)>>,
    rank: Seq<int>,
    queue: Seq<usize>,
    node_count: int,
    from: usize,
    e: usize,
    to: usize,
)
    requires
        search_progress(arcs, residual, parent, rank, queue, node_count),
        0 <= e < residual.len(),
        edge_tail(arcs, e as int) == from,
        edge_head(arcs, e as int) == to,
        residual[e as int] > 0,
        from < node_count,
        parent[from as int] is Some,
        to < node_count,
        parent[to as int] is None,
    ensures
        to != SOURCE,
        search_progress(
            arcs,
            residual,
            parent.update(to as int, Some((from, e))),
            rank.update(to as int, queue.len() as int),
            queue.push(to),
            node_count,
        ),
        forall|v: int|
            0 <= v < node_count && parent[v] is Some ==> #[trigger] parent.update(
                to as int,
                Some((from, e)),
            )[v] is Some,
{
    reveal(search_progress);
    lemma_unreached_count_reach(parent, to as int, (from, e));
    let new_parent = parent.update(to as int, Some((from, e)));
    let new_rank = rank.update(to as int, queue.len() as int);
    let new_queue = queue.push(to);
    assert forall|i: int| 0 <= i < new_queue.len() implies #[trigger] new_queue[i] < node_count
        && new_parent[new_queue[i] as int] is Some && new_rank[new_queue[i] as int] == i by {
        if i < queue.len() {
            assert(parent[queue[i] as int] is Some);
        }
    }
    assert forall|v: int|
        0 <= v < node_count && v != SOURCE && #[trigger] new_parent[v] is Some implies {
            let (p, f) = new_parent[v].unwrap();
            &&& p < node_count
            &&& new_parent[p as int] is Some
            &&& f < residual.len()
            &&& edge_tail(arcs, f as int) == p
            &&& edge_head(arcs, f as int) == v
            &&& residual[f as int] > 0
            &&& new_rank[p as int] < new_rank[v]
        } by {
        if v != to {
            assert(parent[v] is Some);
            let (p, f) = parent[v].unwrap();
            assert(parent[p as int] is Some);
        } else {
            assert(rank[from as int] < queue.len());
        }
    }
}

/// Reaching `to` over edge `e` from `from` extends the closed part of the search past `e`.
proof fn lemma_closed_after_reach(
    arcs: Seq<FlowArc>,
    residual: Seq<u64>,
    parent: Seq<Option<(usize, usize)>>,
    rank: Seq<int>,
    new_parent: Seq<Option<(usize, usize)>>,
    new_rank: Seq<int>,
    node_count: int,
    done: int,
    from: int,
    e: int,
    to: int,
)
    requires
        search_closed(arcs, residual, parent, rank, node_count, done, from, e),
        0 <= to < node_count,
        parent.len() == node_count,
        rank.len() == node_count,
        new_parent.len() == node_count,
        new_rank.len() == node_count,
        parent[to] is None,
        new_parent == parent.update(to, new_parent[to]),
        new_parent[to] is Some,
        new_rank == rank.update(to, new_rank[to]),
        new_rank[to] >= done,
        edge_head(arcs, e) == to,
        to != from,
        arcs_within(arcs, node_count),
        residual.len() == 2 * arcs.len(),
    ensures
        search_closed(arcs, residual, new_parent, new_rank, node_count, done, from, e + 1),
{
    assert forall|f: int|
        0 <= f < residual.len() && 0 <= edge_tail(arcs, f) < node_count && new_parent[edge_tail(
            arcs,
            f,
        )] is Some && (new_rank[edge_tail(arcs, f)] < done || (edge_tail(arcs, f) == from && f
            < e + 1)) && residual[f] > 0 implies #[trigger] new_parent[edge_head(arcs, f)] is Some by {
        let t = edge_tail(arcs, f);
        lemma_edge_within(arcs, node_count, f);
        if f != e && t != to {
            assert(parent[t] is Some);
            assert(parent[edge_head(arcs, f)] is Some);
            let h = edge_head(arcs, f);
            if h != to {
                assert(new_parent[h] == parent[h]);
            }
        }
    }
}

proof fn lemma_progress_ranks(
    arcs: Seq<FlowArc>,
    residual: Seq<u64>,
    parent: Seq<Option<(usize, usize)>>,
    rank: Seq<int>,
    queue: Seq<usize>,
    node_count: int,
)
    requires
        search_progress(arcs, residual, parent, rank, queue, node_count),
    ensures
        forall|v: int|
            0 <= v < node_count && #[trigger] parent[v] is Some ==> 0 <= rank[v] < queue.len()
                && queue[rank[v]] == v,
        forall|i: int|
            0 <= i < queue.len() ==> #[trigger] queue[i] < node_count && parent[queue[i] as int] is Some
                && rank[queue[i] as int] == i,
        unreached_count(parent) + queue.len() == node_count,
        parent.len() == node_count,
        rank.len() == node_count,
{
    reveal(search_progress);
}

/// Once every edge of the node of rank `done` is scanned, the closed part covers rank `done`.
proof fn lemma_closed_advance(
    arcs: Seq<FlowArc>,
    residual: Seq<u64>,
    parent: Seq<Option<(usize, usize)>>,
    rank: Seq<int>,
    queue: Seq<usize>,
    node_count: int,
    done: int,
    from: int,
)
    requires
        forall|v: int|
            0 <= v < node_count && #[trigger] parent[v] is Some ==> 0 <= rank[v] < queue.len()
                && queue[rank[v]] == v,
        search_closed(arcs, residual, parent, rank, node_count, done, from, residual.len() as int),
        0 <= done < queue.len(),
        queue[done] == from,
    ensures
        search_closed(arcs, residual, parent, rank, node_count, done + 1, -1, 0),
{
    assert forall|f: int|
        0 <= f < residual.len() && 0 <= edge_tail(arcs, f) < node_count && parent[edge_tail(
            arcs,
            f,
        )] is Some && (rank[edge_tail(arcs, f)] < done + 1 || (edge_tail(arcs, f) == -1 && f
            < 0)) && residual[f] > 0 implies #[trigger] parent[edge_head(arcs, f)] is Some by {
        let t = edge_tail(arcs, f);
        assert(queue[rank[t]] == t);
    }
}

/// Breadth-first search for a path of spare residual capacity from the source to the sink.
/// Edges of a node are examined in edge order and the search stops when it reaches the sink.
#[verifier::spinoff_prover]
#[verifier::rlimit(40)]
fn augmenting_path(arcs: &Vec<FlowArc>, residual: &Vec<u64>, node_count: usize) -> (res: (
    Option<Vec<Option<(usize, usize)>>>,
    Ghost<Seq<int>>,
    Ghost<Seq<bool>>,
))
    requires
        2 <= node_count,
        arcs_within(arcs@, node_count as int),
        residual@.len() == 2 * arcs@.len(),
    ensures
        match res.0 {
            Some(parent) => {
                &&& is_search_tree(arcs@, residual@, parent@, res.1@, node_count as int)
                &&& breadth_first_search(arcs@, residual@, node_count as int) == Some(parent@)
                &&& res.1@[SINK as int] < node_count
            },
            None => {
                &&& is_closed_cut(arcs@, residual@, res.2@, node_count as int)
                &&& breadth_first_search(arcs@, residual@, node_count as int) is None
            },
        },
{
    let mut parent: Vec<Option<(usize, usize)>> = Vec::new();
    while parent.len() < node_count
        invariant
            parent@.len() <= node_count,
            forall|v: int| 0 <= v < parent@.len() ==> #[trigger] parent@[v] is None,
        decreases node_count - parent@.len(),
    {
        parent.push(None);
    }
    proof {
        lemma_search_start(arcs@, residual@, parent@, node_count as int);
    }
    parent.set(SOURCE, Some((SOURCE, usize::MAX)));
    let mut queue: Vec<usize> = Vec::new();
    queue.push(SOURCE);
    let ghost search = breadth_first_search(arcs@, residual@, node_count as int);
    proof {
        assert(parent@ =~= search_start(node_count as int));
        assert(queue@ =~= seq![SOURCE]);
    }
    let ghost mut rank: Seq<int> = Seq::new(node_count as nat, |v: int| 0int);
    let mut head: usize = 0;
    while head < queue.len()
        invariant
            search_progress(arcs@, residual@, parent@, rank, queue@, node_count as int),
            arcs_within(arcs@, node_count as int),
            residual@.len() == 2 * arcs@.len(),
            parent@.len() == node_count,
            head <= queue@.len(),
            parent@[SINK as int] is None,
            rank.len() == node_count,
            search_closed(arcs@, residual@, parent@, rank, node_count as int, head as int, -1, 0),
            search == breadth_first_search(arcs@, residual@, node_count as int),
            search_from(
                arcs@,
                residual@,
                node_count as int,
                queue@,
                parent@,
                head as int,
                residual@.len() as int,
            ) == search,
        decreases node_count - head,
    {
        proof {
            reveal(search_progress);
            lemma_unreached_count_bound(parent@);
        }
        let from = queue[head];
        head = head + 1;
        proof {
            reveal(search_progress);
            assert(parent@[from as int] is Some && rank[from as int] == head - 1);
        }
        let mut e: usize = 0;
        while e < residual.len()
            invariant
                search_progress(arcs@, residual@, parent@, rank, queue@, node_count as int),
                arcs_within(arcs@, node_count as int),
                residual@.len() == 2 * arcs@.len(),
                parent@.len() == node_count,
                1 <= head <= queue@.len(),
                from < node_count,
                parent@[from as int] is Some,
                rank[from as int] == head - 1,
                rank.len() == node_count,
                queue@[head - 1] == from,
                e <= residual@.len(),
                parent@[SINK as int] is None,
                search_closed(
                    arcs@,
                    residual@,
                    parent@,
                    rank,
                    node_count as int,
                    head - 1,
                    from as int,
                    e as int,
                ),
                search == breadth_first_search(arcs@, residual@, node_count as int),
                search_from(
                    arcs@,
                    residual@,
                    node_count as int,
                    queue@,
                    parent@,
                    head as int,
                    e as int,
                ) == search,
            decreases residual@.len() - e,
        {
            proof {
                lemma_edge_within(arcs@, node_count as int, e as int);
            }
            let (tail, to) = edge_endpoints(arcs, e);
            if tail == from && residual[e] != 0 && parent[to].is_none() {
                let ghost old_parent = parent@;
                let ghost old_rank = rank;
                proof {
                    lemma_search_reach(
                        arcs@,
                        residual@,
                        parent@,
                        rank,
                        queue@,
                        node_count as int,
                        from,
                        e,
                        to,
                    );
                }
                parent.set(to, Some((from, e)));
                proof {
                    rank = rank.update(to as int, queue@.len() as int);
                }
                if to == SINK {
                    proof {
                        reveal(search_progress);
                        assert(rank[SINK as int] < node_count);
                    }
                    let ghost visited = Seq::new(node_count as nat, |v: int| parent@[v] is Some);
                    return (Some(parent), Ghost(rank), Ghost(visited));
                }
                queue.push(to);
                proof {
                    lemma_closed_after_reach(
                        arcs@,
                        residual@,
                        old_parent,
                        old_rank,
                        parent@,
                        rank,
                        node_count as int,
                        head - 1,
                        from as int,
                        e as int,
                        to as int,
                    );
                }
            }
            e = e + 1;
        }
        proof {
            lemma_progress_ranks(arcs@, residual@, parent@, rank, queue@, node_count as int);
            lemma_closed_advance(
                arcs@,
                residual@,
                parent@,
                rank,
                queue@,
                node_count as int,
                head - 1,
                from as int,
            );
        }
    }
    let ghost visited = Seq::new(node_count as nat, |v: int| parent@[v] is Some);
    proof {
        reveal(search_progress);
        assert forall|e: int|
            0 <= e < residual@.len() && in_set(visited, edge_tail(arcs@, e)) && residual@[e] > 0
                implies #[trigger] in_set(visited, edge_head(arcs@, e)) by {
            lemma_edge_within(arcs@, node_count as int, e);
            let t = edge_tail(arcs@, e);
            assert(parent@[t] is Some);
        }
    }
    (None, Ghost(rank), Ghost(visited))
}

/// Pushes as much flow as possible from the source to the sink, stopping at `limit`; returns
/// the total. The residual graph holds the final flow.
#[verifier::spinoff_prover]
#[verifier::rlimit(60)]
fn maximum_flow(arcs: &Vec<FlowArc>, residual: &mut Vec<u64>, node_count: usize, limit: u64) -> (total: u64)
    requires
        2 <= node_count,
        arcs_within(arcs@, node_count as int),
        residual_matches(arcs@, old(residual)@),
        forall|k: int| 0 <= k < arcs@.len() ==> #[trigger] old(residual)@[2 * k + 1] == 0,
    ensures
        final(residual)@ == flow_rounds(
            arcs@,
            old(residual)@,
            node_count as int,
            limit,
            0,
            limit as nat,
        ).0,
        total == flow_rounds(arcs@, old(residual)@, node_count as int, limit, 0, limit as nat).1,
        residual_matches(arcs@, final(residual)@),
        is_feasible_flow(arcs@, flow_of(arcs@, final(residual)@)),
        flow_value(arcs@, flow_of(arcs@, final(residual)@)) == total,
        total <= limit,
        forall|flow: Seq<int>| #[trigger]
            is_feasible_flow(arcs@, flow) ==> (if flow_value(arcs@, flow) < limit {
                flow_value(arcs@, flow)
            } else {
                limit as int
            }) <= total,
{
    proof {
        assert(flow_of(arcs@, residual@) == zero_flow(arcs@.len() as int));
        lemma_zero_flow_feasible(arcs@);
    }
    let mut total: u64 = 0;
    let ghost start = residual@;
    let ghost mut rounds: nat = limit as nat;
    loop
        invariant
            flow_rounds(arcs@, residual@, node_count as int, limit, total, rounds) == flow_rounds(
                arcs@,
                start,
                node_count as int,
                limit,
                0,
                limit as nat,
            ),
            rounds >= limit - total,
            2 <= node_count,
            arcs_within(arcs@, node_count as int),
            residual_matches(arcs@, residual@),
            is_feasible_flow(arcs@, flow_of(arcs@, residual@)),
            flow_value(arcs@, flow_of(arcs@, residual@)) == total,
            total <= limit,
        ensures
            residual@ == flow_rounds(arcs@, start, node_count as int, limit, 0, limit as nat).0,
            total == flow_rounds(arcs@, start, node_count as int, limit, 0, limit as nat).1,
            residual_matches(arcs@, residual@),
            is_feasible_flow(arcs@, flow_of(arcs@, residual@)),
            flow_value(arcs@, flow_of(arcs@, residual@)) == total,
            total <= limit,
            total == limit || forall|flow: Seq<int>| #[trigger]
                is_feasible_flow(arcs@, flow) ==> flow_value(arcs@, flow) <= total,
        decreases limit - total,
    {
        if total >= limit {
            break;
        }
        let (found, Ghost(rank), Ghost(visited)) = augmenting_path(arcs, residual, node_count);
        let parent = match found {
            Some(parent) => parent,
            None => {
                proof {
                    lemma_closed_cut_bounds_flows(arcs@, residual@, visited, node_count as int);
                }
                break;
            },
        };
        // Walk back from the sink, collecting the path and its bottleneck.
        let ghost original = residual@;
        let mut path_edges: Vec<usize> = Vec::new();
        let ghost mut path_nodes: Seq<usize> = seq![SINK];
        let mut path_capacity: u64 = limit - total;
        let mut node: usize = SINK;
        while node != SOURCE
            invariant
                is_search_tree(arcs@, residual@, parent@, rank, node_count as int),
                residual@ == original,
                residual@.len() == 2 * arcs@.len(),
                node < node_count,
                parent@[node as int] is Some,
                1 <= path_capacity <= limit - total,
                rank[SINK as int] < node_count,
                0 <= rank[node as int],
                rank[node as int] + path_edges@.len() <= rank[SINK as int],
                path_edges@ + path_edges_from(
                    parent@,
                    node as int,
                    (node_count - path_edges@.len()) as nat,
                ) == path_edges_from(parent@, SINK as int, node_count as nat),
                path_capacity == path_bottleneck(
                    original,
                    path_edges@,
                    path_edges@.len() as int,
                    (limit - total) as u64,
                ),
                path_nodes.len() == path_edges@.len() + 1,
                path_nodes[0] == SINK,
                path_nodes.last() == node,
                forall|i: int| 0 <= i < path_nodes.len() ==> #[trigger] path_nodes[i] < node_count
                    && parent@[path_nodes[i] as int] is Some,
                forall|i: int|
                    0 <= i < path_edges@.len() ==> {
                        &&& #[trigger] path_edges@[i] < residual@.len()
                        &&& edge_head(arcs@, path_edges@[i] as int) == path_nodes[i]
                        &&& edge_tail(arcs@, path_edges@[i] as int) == path_nodes[i + 1]
                        &&& rank[path_nodes[i + 1] as int] < rank[path_nodes[i] as int]
                        &&& original[path_edges@[i] as int] >= path_capacity
                    },
            decreases rank[node as int],
        {
            let (previous, edge) = parent[node].unwrap();
            let ghost old_capacity = path_capacity;
            if residual[edge] < path_capacity {
                path_capacity = residual[edge];
            }
            let ghost old_edges = path_edges@;
            let ghost old_nodes = path_nodes;
            path_edges.push(edge);
            proof {
                let steps = (node_count - old_edges.len()) as nat;
                assert(steps >= 1);
                assert(path_edges_from(parent@, node as int, steps) == seq![edge]
                    + path_edges_from(parent@, previous as int, (steps - 1) as nat));
                assert(path_edges@ + path_edges_from(parent@, previous as int, (steps - 1) as nat)
                    =~= old_edges + path_edges_from(parent@, node as int, steps));
                assert(path_edges@.drop_last() =~= old_edges);
                assert(path_bottleneck(original, path_edges@, old_edges.len() as int, (limit
                    - total) as u64) == path_bottleneck(
                    original,
                    old_edges,
                    old_edges.len() as int,
                    (limit - total) as u64,
                )) by {
                    lemma_bottleneck_prefix(
                        original,
                        old_edges,
                        path_edges@,
                        old_edges.len() as int,
                        (limit - total) as u64,
                    );
                }
                path_nodes = path_nodes.push(previous);
                assert(parent@[node as int] is Some);
                assert(node != SOURCE);
                let last = old_edges.len() as int;
                assert forall|i: int| 0 <= i < path_edges@.len() implies {
                    &&& #[trigger] path_edges@[i] < residual@.len()
                    &&& edge_head(arcs@, path_edges@[i] as int) == path_nodes[i]
                    &&& edge_tail(arcs@, path_edges@[i] as int) == path_nodes[i + 1]
                    &&& rank[path_nodes[i + 1] as int] < rank[path_nodes[i] as int]
                    &&& original[path_edges@[i] as int] >= path_capacity
                } by {
                    if i < last {
                        assert(path_edges@[i] == old_edges[i]);
                        assert(path_nodes[i] == old_nodes[i]);
                        assert(path_nodes[i + 1] == old_nodes[i + 1]);
                        assert(original[old_edges[i] as int] >= old_capacity);
                    } else {
                        assert(path_edges@[i] == edge);
                        assert(path_nodes[i] == node);
                        assert(path_nodes[i + 1] == previous);
                    }
                }
            }
            node = previous;
        }
        proof {
            assert(path_edges@ =~= path_edges_from(parent@, SINK as int, node_count as nat));
        }
        // Push the bottleneck along the path.
        let ghost start_flow = flow_of(arcs@, residual@);
        let mut i: usize = 0;
        while i < path_edges.len()
            invariant
                is_search_tree(arcs@, original, parent@, rank, node_count as int),
                arcs_within(arcs@, node_count as int),
                residual_matches(arcs@, residual@),
                residual_matches(arcs@, original),
                start_flow == flow_of(arcs@, original),
                residual@ == pushed_along(original, path_edges@, i as int, path_capacity),
                i <= path_edges@.len(),
                1 <= path_capacity <= limit - total,
                path_nodes.len() == path_edges@.len() + 1,
                path_nodes[0] == SINK,
                path_nodes.last() == SOURCE,
                forall|j: int| 0 <= j < path_nodes.len() ==> #[trigger] path_nodes[j] < node_count
                    && parent@[path_nodes[j] as int] is Some,
                forall|j: int|
                    0 <= j < path_edges@.len() ==> {
                        &&& #[trigger] path_edges@[j] < residual@.len()
                        &&& edge_head(arcs@, path_edges@[j] as int) == path_nodes[j]
                        &&& edge_tail(arcs@, path_edges@[j] as int) == path_nodes[j + 1]
                        &&& rank[path_nodes[j + 1] as int] < rank[path_nodes[j] as int]
                        &&& original[path_edges@[j] as int] >= path_capacity
                    },
                forall|x: int|
                    0 <= x < residual@.len() && (rank[edge_tail(arcs@, x)] < rank[path_nodes[i as int] as int]
                        || rank[edge_head(arcs@, x)] < rank[path_nodes[i as int] as int])
                        ==> #[trigger] residual@[x] == original[x],
                forall|v: int| #[trigger]
                    excess(arcs@, flow_of(arcs@, residual@), v) == excess(arcs@, start_flow, v) + (
                    if v == SINK {
                        path_capacity as int
                    } else {
                        0
                    }) - (if v == path_nodes[i as int] {
                        path_capacity as int
                    } else {
                        0
                    }),
            decreases path_edges@.len() - i,
        {
            let edge = path_edges[i];
            let partner = if edge % 2 == 0 {
                edge + 1
            } else {
                edge - 1
            };
            proof {
                let k = (edge / 2) as int;
                assert(partner / 2 == k);
                assert(residual@[2 * k] + residual@[2 * k + 1] == arcs@[k].capacity);
                assert(residual@[edge as int] == original[edge as int]);
            }
            let ghost before = residual@;
            let reduced = residual[edge] - path_capacity;
            residual.set(edge, reduced);
            let increased = residual[partner] + path_capacity;
            residual.set(partner, increased);
            proof {
                assert(residual@ =~= pushed_along(original, path_edges@, i + 1, path_capacity));
                lemma_augment_edge(
                    arcs@,
                    before,
                    residual@,
                    edge as int,
                    path_capacity as int,
                );
                let k = edge as int / 2;
                assert forall|v: int| #[trigger]
                    excess(arcs@, flow_of(arcs@, residual@), v) == excess(arcs@, start_flow, v) + (
                    if v == SINK {
                        path_capacity as int
                    } else {
                        0
                    }) - (if v == path_nodes[i + 1] {
                        path_capacity as int
                    } else {
                        0
                    }) by {
                    assert(excess(arcs@, flow_of(arcs@, residual@), v) == excess(
                        arcs@,
                        flow_of(arcs@, before),
                        v,
                    ) + (if v == path_nodes[i as int] {
                        path_capacity as int
                    } else {
                        0
                    }) - (if v == path_nodes[i + 1] {
                        path_capacity as int
                    } else {
                        0
                    }));
                }
                assert forall|x: int|
                    0 <= x < residual@.len() && (rank[edge_tail(arcs@, x)] < rank[path_nodes[i
                        + 1] as int] || rank[edge_head(arcs@, x)] < rank[path_nodes[i + 1] as int])
                        implies #[trigger] residual@[x] == original[x] by {
                    assert(x / 2 == k ==> (x == edge || x == partner));
                    if x != edge && x != partner {
                        assert(residual@[x] == before[x]);
                    }
                }
            }
            i = i + 1;
        }
        proof {
            assert(path_nodes[i as int] == SOURCE);
            let flow = flow_of(arcs@, residual@);
            assert forall|v: int| v != SOURCE && v != SINK implies #[trigger] excess(arcs@, flow, v)
                == 0 by {
                assert(excess(arcs@, start_flow, v) == 0);
            }
            assert(excess(arcs@, flow, SOURCE as int) == excess(arcs@, start_flow, SOURCE as int)
                - path_capacity);
            assert forall|k: int| 0 <= k < arcs@.len() implies 0 <= #[trigger] flow[k]
                <= arcs@[k].capacity by {
                assert(residual@[2 * k] + residual@[2 * k + 1] == arcs@[k].capacity);
            }
        }
        total = total + path_capacity;
        proof {
            rounds = (rounds - 1) as nat;
        }
    }
    proof {
        assert forall|flow: Seq<int>| #[trigger] is_feasible_flow(arcs@, flow) implies (if flow_value(
            arcs@,
            flow,
        ) < limit {
            flow_value(arcs@, flow)
        } else {
            limit as int
        }) <= total by {
            if total != limit {
                assert(flow_value(arcs@, flow) <= total);
            }
        }
    }
    total
}

/// The bottleneck of a path's first `count` edges depends only on those edges.
proof fn lemma_bottleneck_prefix(residual: Seq<u64>, edges: Seq<usize>, longer: Seq<usize>, count: int, start: u64)
    requires
        0 <= count <= edges.len(),
        count <= longer.len(),
        forall|i: int| 0 <= i < count ==> #[trigger] edges[i] == longer[i],
    ensures
        path_bottleneck(residual, longer, count, start) == path_bottleneck(residual, edges, count, start),
    decreases count,
{
    if count > 0 {
        lemma_bottleneck_prefix(residual, edges, longer, count - 1, start);
        assert(edges[count - 1] == longer[count - 1]);
    }
}

/// Reducing a residual edge by `amount` and raising its partner moves `amount` of excess from
/// the edge's tail to its head.
proof fn lemma_augment_edge(
    arcs: Seq<FlowArc>,
    before: Seq<u64>,
    after: Seq<u64>,
    edge: int,
    amount: int,
)
    requires
        residual_matches(arcs, before),
        0 <= edge < before.len(),
        after.len() == before.len(),
        after[edge] == before[edge] - amount,
        after[edge_partner(edge)] == before[edge_partner(edge)] + amount,
        forall|x: int| 0 <= x < before.len() && x != edge && x != edge_partner(edge) ==> #[trigger] after[x] == before[x],
    ensures
        residual_matches(arcs, after),
        forall|v: int| #[trigger]
            excess(arcs, flow_of(arcs, after), v) == excess(arcs, flow_of(arcs, before), v) + (
            if v == edge_head(arcs, edge) {
                amount
            } else {
                0
            }) - (if v == edge_tail(arcs, edge) {
                amount
            } else {
                0
            }),
{
    let k = edge / 2;
    let old_flow = flow_of(arcs, before);
    let delta = if edge % 2 == 0 {
        amount
    } else {
        -amount
    };
    assert(flow_of(arcs, after) == old_flow.update(k, old_flow[k] + delta)) by {
        assert forall|j: int| 0 <= j < arcs.len() implies #[trigger] flow_of(arcs, after)[j]
            == old_flow.update(k, old_flow[k] + delta)[j] by {
            if j != k {
                assert(2 * j + 1 != edge && 2 * j + 1 != edge_partner(edge));
            }
        }
    }
    assert forall|j: int| 0 <= j < arcs.len() implies #[trigger] after[2 * j] + after[2 * j + 1]
        == arcs[j].capacity by {
        assert(before[2 * j] + before[2 * j + 1] == arcs[j].capacity);
        if j != k {
            assert(2 * j != edge && 2 * j != edge_partner(edge));
            assert(2 * j + 1 != edge && 2 * j + 1 != edge_partner(edge));
        }
    }
    assert forall|v: int| #[trigger]
        excess(arcs, flow_of(arcs, after), v) == excess(arcs, old_flow, v) + (if v == edge_head(
            arcs,
            edge,
        ) {
            amount
        } else {
            0
        }) - (if v == edge_tail(arcs, edge) {
            amount
        } else {
            0
        }) by {
        lemma_excess_after_update(arcs, old_flow, k, delta, v, arcs.len() as int);
    }
}

/// A closed cut bounds every feasible flow by the value of the current one.
proof fn lemma_closed_cut_bounds_flows(arcs: Seq<FlowArc>, residual: Seq<u64>, set: Seq<bool>, node_count: int)
    requires
        is_closed_cut(arcs, residual, set, node_count),
        residual_matches(arcs, residual),
        arcs_within(arcs, node_count),
        is_feasible_flow(arcs, flow_of(arcs, residual)),
    ensures
        forall|flow: Seq<int>| #[trigger]
            is_feasible_flow(arcs, flow) ==> flow_value(arcs, flow) <= flow_value(
                arcs,
                flow_of(arcs, residual),
            ),
{
    let current = flow_of(arcs, residual);
    assert forall|k: int|
        0 <= k < arcs.len() && in_set(set, arcs[k].tail as int) && !in_set(set, arcs[k].head as int)
            implies #[trigger] current[k] == arcs[k].capacity by {
        let e = 2 * k;
        assert(edge_tail(arcs, e) == arcs[k].tail);
        assert(residual[2 * k] + residual[2 * k + 1] == arcs[k].capacity);
        if residual[e] > 0 {
            assert(in_set(set, edge_head(arcs, e)));
        }
    }
    assert forall|k: int|
        0 <= k < arcs.len() && !in_set(set, arcs[k].tail as int) && in_set(set, arcs[k].head as int)
            implies #[trigger] current[k] == 0 by {
        let e = 2 * k + 1;
        assert(edge_tail(arcs, e) == arcs[k].head);
        if residual[e] > 0 {
            assert(in_set(set, edge_head(arcs, e)));
        }
    }
    lemma_saturating_flow_value(arcs, current, set);
    assert forall|flow: Seq<int>| #[trigger] is_feasible_flow(arcs, flow) implies flow_value(
        arcs,
        flow,
    ) <= flow_value(arcs, current) by {
        lemma_flow_value_at_most_cut(arcs, flow, set);
    }
}


/// Link traffic is empty under a flow that carries nothing.
proof fn lemma_link_traffic_of_zero(routable: Seq<NetworkLink>, flow: Seq<int>, base: int, count: int)
    requires
        forall|k: int| base <= k < base + count ==> #[trigger] flow[k] == 0,
    ensures
        link_traffic_of(routable, flow, base, count) == Seq::<LinkTraffic>::empty(),
    decreases count,
{
    if count > 0 {
        lemma_link_traffic_of_zero(routable, flow, base, count - 1);
        assert(flow[base + count - 1] == 0);
    }
}

/// No link is routable without services.
proof fn lemma_no_routable_links(services: Seq<Service>, links: Seq<NetworkLink>)
    requires
        services.len() == 0,
    ensures
        routable_links(services, links) == Seq::<NetworkLink>::empty(),
    decreases links.len(),
{
    if links.len() > 0 {
        lemma_no_routable_links(services, links.drop_last());
    }
}

/// The arcs of the services, in service order.
fn build_service_arcs(demand: u64, services: &[Service]) -> (arcs: Vec<FlowArc>)
    requires
        routing_fits(services@.len() as int, 0),
    ensures
        arcs@ == services_arcs(services@, demand),
        arcs_within(arcs@, 2 + 2 * services@.len() as int),
        arcs@.len() <= 3 * services@.len(),
{
    let mut arcs: Vec<FlowArc> = Vec::new();
    let mut index: usize = 0;
    while index < services.len()
        invariant
            routing_fits(services@.len() as int, 0),
            index <= services@.len(),
            arcs@ == services_arcs(services@.take(index as int), demand),
            arcs_within(arcs@, 2 + 2 * index as int),
            arcs@.len() <= 3 * index,
        decreases services@.len() - index,
    {
        let service = services[index];
        let input = 2 + 2 * index;
        let output = input + 1;
        arcs.push(FlowArc { tail: input, head: output, capacity: service.traffic_capacity(demand) });
        if service.kind() == ServiceKind::InternetGateway {
            arcs.push(FlowArc { tail: SOURCE, head: input, capacity: demand });
        }
        if service.kind().serves_requests() {
            arcs.push(FlowArc { tail: output, head: SINK, capacity: demand });
        }
        proof {
            let prefix = services@.take(index + 1);
            assert(prefix.drop_last() == services@.take(index as int));
            assert(prefix.last() == service);
            assert(arcs@ == services_arcs(prefix, demand));
        }
        index = index + 1;
    }
    proof {
        assert(services@.take(services@.len() as int) == services@);
    }
    arcs
}

/// Appends one arc per routable link, in link order; returns each routable link with the index
/// of its arc.
fn build_link_arcs(
    demand: u64,
    services: &[Service],
    network: &Network,
    arcs: &mut Vec<FlowArc>,
) -> (link_arcs: Vec<(NetworkLink, usize)>)
    requires
        routing_fits(services@.len() as int, network.spec_links().len() as int),
        old(arcs)@ == services_arcs(services@, demand),
        old(arcs)@.len() <= 3 * services@.len(),
        arcs_within(old(arcs)@, 2 + 2 * services@.len() as int),
    ensures
        final(arcs)@ == routing_arcs(demand, services@, network.spec_links()),
        arcs_within(final(arcs)@, 2 + 2 * services@.len() as int),
        link_arcs@.len() == routable_links(services@, network.spec_links()).len(),
        link_arcs@.len() <= network.spec_links().len(),
        forall|j: int|
            #![trigger link_arcs@[j]]
            0 <= j < link_arcs@.len() ==> link_arcs@[j].0 == routable_links(
                services@,
                network.spec_links(),
            )[j] && link_arcs@[j].1 == old(arcs)@.len() + j,
{
    let ghost links = network.spec_links();
    let base = arcs.len();
    let node_count = 2 + 2 * services.len();
    let links_slice = network.links();
    let mut link_arcs: Vec<(NetworkLink, usize)> = Vec::new();
    let mut i: usize = 0;
    while i < links_slice.len()
        invariant
            routing_fits(services@.len() as int, links.len() as int),
            links_slice@ == links,
            node_count == 2 + 2 * services@.len(),
            base == services_arcs(services@, demand).len(),
            base <= 3 * services@.len(),
            i <= links.len(),
            link_arcs@.len() == routable_links(services@, links.take(i as int)).len(),
            arcs@ == services_arcs(services@, demand) + Seq::new(
                link_arcs@.len(),
                |j: int| link_arc(services@, routable_links(services@, links.take(i as int))[j], demand),
            ),
            forall|j: int|
                #![trigger link_arcs@[j]]
                0 <= j < link_arcs@.len() ==> link_arcs@[j].0 == routable_links(
                    services@,
                    links.take(i as int),
                )[j] && link_arcs@[j].1 == base + j,
            link_arcs@.len() <= i,
            arcs_within(arcs@, node_count as int),
        decreases links.len() - i,
    {
        let link = links_slice[i];
        let from = find_service(services, link.from);
        let to = find_service(services, link.to);
        let ghost before_routable = routable_links(services@, links.take(i as int));
        let ghost before_arcs = arcs@;
        proof {
            assert(links.take(i + 1).drop_last() == links.take(i as int));
            assert(links.take(i + 1).last() == link);
        }
        proof {
            lemma_service_position(services@, link.from);
            lemma_service_position(services@, link.to);
        }
        if let (Some(from_index), Some(to_index)) = (from, to) {
            let index = arcs.len();
            arcs.push(
                FlowArc { tail: 3 + 2 * from_index, head: 2 + 2 * to_index, capacity: demand },
            );
            let ghost before_link_arcs = link_arcs@;
            link_arcs.push((link, index));
            proof {
                lemma_service_position(services@, link.from);
                lemma_service_position(services@, link.to);
                let now = routable_links(services@, links.take(i + 1));
                assert(now == before_routable.push(link));
                assert(index == base + before_link_arcs.len());
                assert forall|j: int| #![trigger link_arcs@[j]] 0 <= j < link_arcs@.len() implies link_arcs@[j].0
                    == now[j] && link_arcs@[j].1 == base + j by {
                    if j < link_arcs@.len() - 1 {
                        assert(link_arcs@[j] == before_link_arcs[j]);
                        assert(before_link_arcs[j].0 == before_routable[j]);
                        assert(now[j] == before_routable[j]);
                    } else {
                        assert(link_arcs@[j] == (link, index));
                        assert(now[j] == link);
                    }
                }
                assert(arcs@ == services_arcs(services@, demand) + Seq::new(
                    link_arcs@.len(),
                    |j: int| link_arc(services@, now[j], demand),
                ));
            }
        } else {
            proof {
                let now = routable_links(services@, links.take(i + 1));
                assert(now == before_routable);
                assert(from.is_none() || to.is_none());
                assert forall|j: int| #![trigger link_arcs@[j]] 0 <= j < link_arcs@.len() implies link_arcs@[j].0
                    == now[j] && link_arcs@[j].1 == base + j by {
                    assert(link_arcs@[j].0 == before_routable[j]);
                }
            }
        }
        i = i + 1;
    }
    proof {
        assert(links.take(i as int) == links);
        assert(base == old(arcs)@.len());
        assert forall|j: int| #![trigger link_arcs@[j]] 0 <= j < link_arcs@.len() implies link_arcs@[j].0
            == routable_links(services@, links)[j] && link_arcs@[j].1 == old(arcs)@.len() + j by {
            assert(link_arcs@[j].0 == routable_links(services@, links.take(i as int))[j]);
        }
    }
    link_arcs
}

/// Routes `demand` incoming requests from the gateways through the network to the
/// request-serving services, as a maximum flow capped at the demand; reports the requests
/// served and the traffic of each link that carries any.
#[verifier::spinoff_prover]
#[verifier::rlimit(40)]
pub fn route_requests(demand: u64, services: &[Service], network: &Network) -> (result: RoutingResult)
    requires
        routing_fits(services@.len() as int, network.spec_links().len() as int),
    ensures
        result.served <= demand,
        optimal_routing_value(demand, services@, network.spec_links(), result.served as int),
        is_routing(demand, services@, network.spec_links(), result.served, result.link_traffic@),
        result.link_traffic@ == routed_traffic(demand, services@, network.spec_links()),
        demand == 0 || services@.len() == 0 ==> result.served == 0 && result.link_traffic@.len()
            == 0,
{
    let ghost links = network.spec_links();
    let ghost arcs_spec = routing_arcs(demand, services@, links);
    let ghost routable = routable_links(services@, links);
    if demand == 0 || services.len() == 0 {
        let ghost zero = zero_flow(arcs_spec.len() as int);
        proof {
            lemma_zero_flow_feasible(arcs_spec);
            lemma_link_traffic_of_zero(
                routable,
                zero,
                services_arcs(services@, demand).len() as int,
                routable.len() as int,
            );
            if services@.len() == 0 {
                lemma_no_routable_links(services@, links);
                assert(services_arcs(services@, demand) == Seq::<FlowArc>::empty());
                assert(arcs_spec.len() == 0);
                assert forall|flow: Seq<int>| #[trigger]
                    is_feasible_flow(arcs_spec, flow) implies (if flow_value(arcs_spec, flow)
                    < demand {
                    flow_value(arcs_spec, flow)
                } else {
                    demand as int
                }) <= 0 by {
                    lemma_no_arcs_value(arcs_spec, flow);
                }
            }
            assert(is_feasible_flow(arcs_spec, zero) && flow_value(arcs_spec, zero) == 0);
            assert(optimal_routing_value(demand, services@, links, 0));
            lemma_optimal_routing_value_unique(demand, services@, links, 0);
            if services@.len() == 0 {
                assert(routable.len() == 0);
            } else {
                let start = initial_residual(arcs_spec);
                assert(routed_residual(demand, services@, links) == start);
                assert forall|k: int|
                    services_arcs(services@, demand).len() <= k < services_arcs(services@, demand).len()
                        + routable.len() implies #[trigger] flow_of(arcs_spec, start)[k] == 0 by {
                    assert(start[2 * k + 1] == 0);
                }
                lemma_link_traffic_of_zero(
                    routable,
                    flow_of(arcs_spec, start),
                    services_arcs(services@, demand).len() as int,
                    routable.len() as int,
                );
            }
            assert(routed_traffic(demand, services@, links) =~= Seq::<LinkTraffic>::empty());
        }
        return RoutingResult { served: 0, link_traffic: Vec::new() };
    }
    let mut arcs = build_service_arcs(demand, services);
    let base = arcs.len();
    let node_count = 2 + 2 * services.len();
    let link_arcs = build_link_arcs(demand, services, network, &mut arcs);
    let mut residual: Vec<u64> = Vec::new();
    let mut k: usize = 0;
    while k < arcs.len()
        invariant
            k <= arcs@.len(),
            arcs@.len() <= 3 * services@.len() + links.len(),
            routing_fits(services@.len() as int, links.len() as int),
            residual@.len() == 2 * k,
            forall|j: int|
                0 <= j < k ==> #[trigger] residual@[2 * j] == arcs@[j].capacity && residual@[2 * j
                    + 1] == 0,
        decreases arcs@.len() - k,
    {
        residual.push(arcs[k].capacity);
        residual.push(0);
        proof {
            assert forall|j: int|
                0 <= j < k + 1 implies #[trigger] residual@[2 * j] == arcs@[j].capacity
                    && residual@[2 * j + 1] == 0 by {
                if j < k {
                    assert(residual@[2 * j] == residual@.drop_last().drop_last()[2 * j]);
                }
            }
        }
        k = k + 1;
    }
    proof {
        assert forall|j: int| 0 <= j < arcs@.len() implies #[trigger] residual@[2 * j + 1] == 0
            && residual@[2 * j] + residual@[2 * j + 1] == arcs@[j].capacity by {
            assert(residual@[2 * j] == arcs@[j].capacity);
        }
    }
    proof {
        assert forall|e: int| 0 <= e < residual@.len() implies #[trigger] residual@[e]
            == initial_residual(arcs@)[e] by {
            let j = e / 2;
            if e % 2 == 0 {
                assert(e == 2 * j);
                assert(residual@[2 * j] == arcs@[j].capacity);
            } else {
                assert(e == 2 * j + 1);
                assert(residual@[2 * j + 1] == 0);
            }
        }
        assert(residual@ =~= initial_residual(arcs@));
    }
    let served = maximum_flow(&arcs, &mut residual, node_count, demand);
    proof {
        assert(residual@ == routed_residual(demand, services@, links));
    }
    let ghost flow = flow_of(arcs@, residual@);
    let mut link_traffic: Vec<LinkTraffic> = Vec::new();
    let mut j: usize = 0;
    while j < link_arcs.len()
        invariant
            j <= link_arcs@.len(),
            link_arcs@.len() == routable.len(),
            residual_matches(arcs@, residual@),
            arcs@ == arcs_spec,
            flow == flow_of(arcs@, residual@),
            arcs_spec.len() == base + routable.len(),
            arcs_spec.len() <= 3 * services@.len() + links.len(),
            routing_fits(services@.len() as int, links.len() as int),
            forall|t: int|
                #![trigger link_arcs@[t]]
                0 <= t < link_arcs@.len() ==> link_arcs@[t].0 == routable[t]
                    && link_arcs@[t].1 == base + t,
            link_traffic@ == link_traffic_of(routable, flow, base as int, j as int),
        decreases link_arcs@.len() - j,
    {
        let (link, index) = link_arcs[j];
        proof {
            assert(link_arcs@[j as int].1 == base + j);
        }
        let requests = residual[2 * index + 1];
        if requests > 0 {
            link_traffic.push(LinkTraffic { from: link.from, to: link.to, requests });
        }
        j = j + 1;
    }
    proof {
        assert(is_feasible_flow(arcs_spec, flow) && flow_value(arcs_spec, flow) == served);
        assert(optimal_routing_value(demand, services@, links, served as int));
        lemma_optimal_routing_value_unique(demand, services@, links, served as int);
    }
    RoutingResult { served, link_traffic }
}

/// The number of incoming requests that reach request-serving infrastructure.
pub fn served_requests(demand: u64, services: &[Service], network: &Network) -> (served: u64)
    requires
        routing_fits(services@.len() as int, network.spec_links().len() as int),
    ensures
        served == routed_requests(demand, services@, network.spec_links()),
        optimal_routing_value(demand, services@, network.spec_links(), served as int),
{
    route_requests(demand, services, network).served
}

/// The requests per tick that the internet gateways among the first `count` services can pass
/// on, each at most its throughput at its tier and nothing while it is not operational.
pub open spec fn gateway_throughput(services: Seq<Service>, demand: u64, count: int) -> int
    decreases count,
{
    if count <= 0 {
        0
    } else {
        gateway_throughput(services, demand, count - 1) + if services[count - 1].spec_kind()
            == ServiceKind::InternetGateway {
            services[count - 1].spec_traffic_capacity(demand) as int
        } else {
            0
        }
    }
}

/// The source and the entry node of every gateway.
spec fn gateway_side(services: Seq<Service>) -> Seq<bool> {
    Seq::new(
        (usize::MAX + 1) as nat,
        |v: int|
            v == SOURCE || (2 <= v < 2 + 2 * services.len() && v % 2 == 0 && services[(v - 2)
                / 2].spec_kind() == ServiceKind::InternetGateway),
    )
}

/// The cut of the first `m` arcs of a sequence does not look past them.
proof fn lemma_cut_prefix(a: Seq<FlowArc>, b: Seq<FlowArc>, set: Seq<bool>, m: int)
    requires
        0 <= m <= a.len(),
    ensures
        cut_capacity(a + b, set, m) == cut_capacity(a, set, m),
    decreases m,
{
    if m > 0 {
        lemma_cut_prefix(a, b, set, m - 1);
        assert((a + b)[m - 1] == a[m - 1]);
    }
}

/// Every routable link joins two listed services.
proof fn lemma_routable_positions(services: Seq<Service>, links: Seq<NetworkLink>)
    ensures
        forall|j: int|
            0 <= j < routable_links(services, links).len() ==> service_position(
                services,
                #[trigger] routable_links(services, links)[j].from,
            ) is Some && service_position(services, routable_links(services, links)[j].to) is Some,
    decreases links.len(),
{
    if links.len() > 0 {
        lemma_routable_positions(services, links.drop_last());
        let rest = routable_links(services, links.drop_last());
        assert forall|j: int| 0 <= j < routable_links(services, links).len() implies service_position(
            services,
            #[trigger] routable_links(services, links)[j].from,
        ) is Some && service_position(services, routable_links(services, links)[j].to) is Some by {
            if j < rest.len() {
                assert(routable_links(services, links)[j] == rest[j]);
            }
        }
    }
}

/// The arcs of the services cross from the gateway side exactly through the gateways' own
/// throughput.
proof fn lemma_cut_of_services(services: Seq<Service>, demand: u64, count: int)
    requires
        0 <= count <= services.len(),
        routing_fits(services.len() as int, 0),
    ensures
        cut_capacity(
            services_arcs(services.take(count), demand),
            gateway_side(services),
            services_arcs(services.take(count), demand).len() as int,
        ) == gateway_throughput(services, demand, count),
    decreases count,
{
    let set = gateway_side(services);
    if count == 0 {
        assert(services.take(0).len() == 0);
    } else {
        let i = count - 1;
        lemma_cut_of_services(services, demand, i);
        let prefix = services.take(count);
        assert(prefix.drop_last() == services.take(i));
        assert(prefix.last() == services[i]);
        let x = services_arcs(services.take(i), demand);
        let y = service_arcs(services[i], i, demand);
        let z = x + y;
        assert(services_arcs(prefix, demand) == z);
        lemma_cut_prefix(x, y, set, x.len() as int);
        let service = services[i];
        let input = 2 + 2 * i;
        let output = 3 + 2 * i;
        assert(in_set(set, input) == (service.spec_kind() == ServiceKind::InternetGateway)) by {
            assert((input - 2) / 2 == i);
        }
        assert(!in_set(set, output));
        assert(in_set(set, SOURCE as int));
        let n = x.len() as int;
        assert(z[n] == y[0]);
        let base = cut_capacity(z, set, n);
        assert(cut_capacity(z, set, n + 1) == base + if service.spec_kind()
            == ServiceKind::InternetGateway {
            service.spec_traffic_capacity(demand) as int
        } else {
            0
        });
        if y.len() >= 2 {
            assert(z[n + 1] == y[1]);
            assert(cut_capacity(z, set, n + 2) == cut_capacity(z, set, n + 1));
        }
        if y.len() >= 3 {
            assert(z[n + 2] == y[2]);
            assert(cut_capacity(z, set, n + 3) == cut_capacity(z, set, n + 2));
        }
    }
}

/// The link arcs all leave exit nodes, which lie off the gateway side, so they add nothing to
/// its cut.
proof fn lemma_cut_of_links(services: Seq<Service>, demand: u64, links: Seq<NetworkLink>, k: int)
    requires
        0 <= k <= routable_links(services, links).len(),
        routing_fits(services.len() as int, links.len() as int),
    ensures
        ({
            let arcs = routing_arcs(demand, services, links);
            let base = services_arcs(services, demand).len() as int;
            cut_capacity(arcs, gateway_side(services), base + k) == cut_capacity(
                arcs,
                gateway_side(services),
                base,
            )
        }),
    decreases k,
{
    if k > 0 {
        lemma_cut_of_links(services, demand, links, k - 1);
        let routable = routable_links(services, links);
        let arcs = routing_arcs(demand, services, links);
        let base = services_arcs(services, demand).len() as int;
        lemma_routable_positions(services, links);
        let link = routable[k - 1];
        assert(service_position(services, link.from) is Some);
        lemma_service_position(services, link.from);
        let p = service_position(services, link.from).unwrap();
        assert(arcs[base + k - 1] == link_arc(services, link, demand));
        assert(!in_set(gateway_side(services), (3 + 2 * p) as usize as int));
    }
}

/// No routing serves more than the internet gateways can pass on: each gateway carries at most
/// its throughput at its tier, so every feasible flow, and the best one, stays within the sum
/// of the gateways' throughputs.
pub proof fn law_gateways_bound_routing(
    demand: u64,
    services: Seq<Service>,
    links: Seq<NetworkLink>,
    flow: Seq<int>,
)
    requires
        routing_fits(services.len() as int, links.len() as int),
        is_feasible_flow(routing_arcs(demand, services, links), flow),
    ensures
        flow_value(routing_arcs(demand, services, links), flow) <= gateway_throughput(
            services,
            demand,
            services.len() as int,
        ),
{
    let arcs = routing_arcs(demand, services, links);
    let set = gateway_side(services);
    let routable = routable_links(services, links);
    let x = services_arcs(services, demand);
    let y = Seq::new(routable.len(), |j: int| link_arc(services, routable[j], demand));
    assert(arcs == x + y);
    lemma_flow_value_at_most_cut(arcs, flow, set);
    lemma_cut_of_links(services, demand, links, routable.len() as int);
    lemma_cut_prefix(x, y, set, x.len() as int);
    assert(services.take(services.len() as int) == services);
    lemma_cut_of_services(services, demand, services.len() as int);
}

/// The requests that routing serves never exceed what the internet gateways can pass on.
pub proof fn law_served_within_gateway_throughput(
    demand: u64,
    services: Seq<Service>,
    links: Seq<NetworkLink>,
    served: int,
)
    requires
        routing_fits(services.len() as int, links.len() as int),
        optimal_routing_value(demand, services, links, served),
    ensures
        served <= gateway_throughput(services, demand, services.len() as int),
{
    let arcs = routing_arcs(demand, services, links);
    let flow = choose|flow: Seq<int>| #[trigger]
        is_feasible_flow(arcs, flow) && flow_value(arcs, flow) == served;
    law_gateways_bound_routing(demand, services, links, flow);
}

} // verus!

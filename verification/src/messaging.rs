//! Asynchronous work carried by queues, topics and event buses between request-serving services.
use vstd::prelude::*;

use crate::economy::{saturating_sum, smaller};
use crate::infrastructure::{
    MessagingMode, Service, ServiceId, find_service, lemma_service_position, service_position,
};
use crate::network::{Network, NetworkLink};
use crate::traffic::LinkTraffic;

verus! {

broadcast use crate::infrastructure::ServiceId::lemma_value_identifies;

/// A queue stores at most this many ticks of its throughput.
pub const QUEUE_STORAGE_MULTIPLIER: u64 = 10;

/// Messages waiting in one queue between ticks.
#[derive(Clone, Copy, Debug, PartialEq, Eq, Structural)]
pub struct QueueBacklog {
    pub queue: ServiceId,
    pub messages: u64,
}

/// What the messaging services did during one tick.
#[derive(Clone, Debug, PartialEq, Eq)]
pub struct MessagingResult {
    pub published: u64,
    pub processed: u64,
    pub queued: u64,
    pub dropped: u64,
    pub link_traffic: Vec<LinkTraffic>,
}

/// The running totals of a tick's messaging work.
#[verifier::ext_equal]
pub struct MessagingTally {
    pub published: u64,
    pub processed: u64,
    pub dropped: u64,
    pub link_traffic: Seq<LinkTraffic>,
}

/// Everything the messaging work of a tick reads and changes: its totals, the queue
/// backlogs, and the spare capacity of each request-serving service.
#[verifier::ext_equal]
pub struct MessagingState {
    pub tally: MessagingTally,
    pub backlogs: Seq<QueueBacklog>,
    pub spare: Seq<(ServiceId, u64)>,
}

/// A batch of events handed to consumers one after another.
#[verifier::ext_equal]
pub struct Delivery {
    pub spare: Seq<(ServiceId, u64)>,
    pub tally: MessagingTally,
    /// Events not yet delivered.
    pub pending: u64,
    /// How many more events the broker may dispatch.
    pub allowance: u64,
}

impl MessagingResult {
    pub open spec fn tally(self) -> MessagingTally {
        MessagingTally {
            published: self.published,
            processed: self.processed,
            dropped: self.dropped,
            link_traffic: self.link_traffic@,
        }
    }
}

/// The requests that the first `count` entries of `traffic` carry to `target`.
pub open spec fn requests_to(target: ServiceId, traffic: Seq<LinkTraffic>, count: int) -> nat
    decreases count,
{
    if count <= 0 {
        0
    } else {
        requests_to(target, traffic, count - 1) + if traffic[count - 1].to == target {
            traffic[count - 1].requests as nat
        } else {
            0nat
        }
    }
}

/// The requests that `traffic` carries to `target`.
pub open spec fn incoming_requests_to(target: ServiceId, traffic: Seq<LinkTraffic>) -> nat {
    requests_to(target, traffic, traffic.len() as int)
}

/// An operational service that runs application code.
pub open spec fn is_worker(service: Service) -> bool {
    service.spec_kind().serves_requests() && service.spec_is_operational()
}

/// The requests sent to every operational request-serving service add up to a `u64`.
pub open spec fn worker_loads_fit(services: Seq<Service>, traffic: Seq<LinkTraffic>) -> bool {
    forall|i: int|
        #![trigger services[i]]
        0 <= i < services.len() && is_worker(services[i]) ==> incoming_requests_to(
            services[i].spec_id(),
            traffic,
        ) <= u64::MAX
}

/// An operational messaging service.
pub open spec fn is_broker(service: Service) -> bool {
    service.spec_kind().messaging_mode() is Some && service.spec_is_operational()
}

/// The first service with identity `id`.
pub open spec fn lookup_service(services: Seq<Service>, id: ServiceId) -> Option<Service> {
    match service_position(services, id) {
        Some(i) => Some(services[i]),
        None => None,
    }
}

/// The capacity a worker has left once it has served its incoming requests.
pub open spec fn spare_after_requests(service: Service, traffic: Seq<LinkTraffic>) -> u64 {
    let capacity = service.spec_traffic_capacity(u64::MAX);
    let load = incoming_requests_to(service.spec_id(), traffic);
    if load < capacity {
        (capacity - load) as u64
    } else {
        0
    }
}

/// The spare capacity of each worker among the first `count` services, in service order.
pub open spec fn initial_spare(services: Seq<Service>, traffic: Seq<LinkTraffic>, count: int) -> Seq<
    (ServiceId, u64),
>
    decreases count,
{
    if count <= 0 {
        Seq::empty()
    } else {
        let rest = initial_spare(services, traffic, count - 1);
        let service = services[count - 1];
        if is_worker(service) {
            rest.push((service.spec_id(), spare_after_requests(service, traffic)))
        } else {
            rest
        }
    }
}

/// Index of the first entry of `spare` that belongs to `worker`.
pub open spec fn spare_position(spare: Seq<(ServiceId, u64)>, worker: ServiceId) -> Option<int>
    decreases spare.len(),
{
    if spare.len() == 0 {
        None
    } else if spare[0].0 == worker {
        Some(0)
    } else {
        match spare_position(spare.drop_first(), worker) {
            Some(i) => Some(i + 1),
            None => None,
        }
    }
}

/// The spare capacity recorded for `worker`; none when it has no entry.
pub open spec fn spare_of(spare: Seq<(ServiceId, u64)>, worker: ServiceId) -> u64 {
    match spare_position(spare, worker) {
        Some(i) => spare[i].1,
        None => 0,
    }
}

/// `spare` once `worker` has used `consumed` of its spare capacity.
pub open spec fn after_consuming(spare: Seq<(ServiceId, u64)>, worker: ServiceId, consumed: u64) -> Seq<
    (ServiceId, u64),
> {
    match spare_position(spare, worker) {
        Some(i) => spare.update(i, (worker, (spare[i].1 - consumed) as u64)),
        None => spare,
    }
}

/// The workers that the first `count` links lead to from `broker`, in link order.
pub open spec fn consumers_among(
    broker: ServiceId,
    services: Seq<Service>,
    links: Seq<NetworkLink>,
    count: int,
) -> Seq<Service>
    decreases count,
{
    if count <= 0 {
        Seq::empty()
    } else {
        let rest = consumers_among(broker, services, links, count - 1);
        let link = links[count - 1];
        if link.from == broker {
            match lookup_service(services, link.to) {
                Some(service) => if is_worker(service) {
                    rest.push(service)
                } else {
                    rest
                },
                None => rest,
            }
        } else {
            rest
        }
    }
}

/// The workers that `broker` delivers to, in link order.
pub open spec fn consumers_of(broker: ServiceId, services: Seq<Service>, links: Seq<NetworkLink>) -> Seq<
    Service,
> {
    consumers_among(broker, services, links, links.len() as int)
}

/// `traffic` with a record of `requests` from `from` to `to`, when there are any.
pub open spec fn with_link_traffic(
    traffic: Seq<LinkTraffic>,
    from: ServiceId,
    to: ServiceId,
    requests: u64,
) -> Seq<LinkTraffic> {
    if requests > 0 {
        traffic.push(LinkTraffic { from, to, requests })
    } else {
        traffic
    }
}

/// The ingress capacity left and the totals after `broker` has taken what it can of the work
/// of the producers on the first `count` links: each producer publishes one event per request
/// it received, and what no longer fits is dropped.
pub open spec fn ingress(
    services: Seq<Service>,
    request_traffic: Seq<LinkTraffic>,
    broker: ServiceId,
    links: Seq<NetworkLink>,
    count: int,
    capacity: u64,
    tally: MessagingTally,
) -> (u64, MessagingTally)
    decreases count,
{
    if count <= 0 {
        (capacity, tally)
    } else {
        let (remaining, before) = ingress(
            services,
            request_traffic,
            broker,
            links,
            count - 1,
            capacity,
            tally,
        );
        let link = links[count - 1];
        if link.to == broker {
            match lookup_service(services, link.from) {
                Some(producer) => if is_worker(producer) {
                    let attempted = incoming_requests_to(producer.spec_id(), request_traffic);
                    let published: u64 = if attempted < remaining {
                        attempted as u64
                    } else {
                        remaining
                    };
                    (
                        (remaining - published) as u64,
                        MessagingTally {
                            dropped: saturating_sum(before.dropped, (attempted - published) as u64),
                            link_traffic: with_link_traffic(
                                before.link_traffic,
                                producer.spec_id(),
                                broker,
                                published,
                            ),
                            ..before
                        },
                    )
                } else {
                    (remaining, before)
                },
                None => (remaining, before),
            }
        } else {
            (remaining, before)
        }
    }
}

/// The first `count` consumers in turn take as many pending events as their spare capacity
/// and the broker's allowance let them.
pub open spec fn sequential_delivery(
    consumers: Seq<Service>,
    broker: ServiceId,
    count: int,
    start: Delivery,
) -> Delivery
    decreases count,
{
    if count <= 0 {
        start
    } else {
        let before = sequential_delivery(consumers, broker, count - 1, start);
        let consumer = consumers[count - 1].spec_id();
        let delivered = smaller(
            smaller(before.pending, spare_of(before.spare, consumer)),
            before.allowance,
        );
        Delivery {
            spare: after_consuming(before.spare, consumer, delivered),
            tally: MessagingTally {
                processed: saturating_sum(before.tally.processed, delivered),
                link_traffic: with_link_traffic(before.tally.link_traffic, broker, consumer, delivered),
                ..before.tally
            },
            pending: (before.pending - delivered) as u64,
            allowance: (before.allowance - delivered) as u64,
        }
    }
}

/// The first `count` consumers each receive every one of the `accepted` events that their spare
/// capacity allows; the copies they cannot take are dropped.
pub open spec fn fan_out(
    consumers: Seq<Service>,
    broker: ServiceId,
    accepted: u64,
    count: int,
    spare: Seq<(ServiceId, u64)>,
    tally: MessagingTally,
) -> (Seq<(ServiceId, u64)>, MessagingTally)
    decreases count,
{
    if count <= 0 {
        (spare, tally)
    } else {
        let (spare_before, before) = fan_out(consumers, broker, accepted, count - 1, spare, tally);
        let consumer = consumers[count - 1].spec_id();
        let delivered = smaller(accepted, spare_of(spare_before, consumer));
        (
            after_consuming(spare_before, consumer, delivered),
            MessagingTally {
                processed: saturating_sum(before.processed, delivered),
                dropped: saturating_sum(before.dropped, (accepted - delivered) as u64),
                link_traffic: with_link_traffic(before.link_traffic, broker, consumer, delivered),
                ..before
            },
        )
    }
}

/// Index of the backlog entry of `queue`.
pub open spec fn backlog_position(backlogs: Seq<QueueBacklog>, queue: ServiceId) -> Option<int>
    decreases backlogs.len(),
{
    if backlogs.len() == 0 {
        None
    } else if backlogs[0].queue == queue {
        Some(0)
    } else {
        match backlog_position(backlogs.drop_first(), queue) {
            Some(i) => Some(i + 1),
            None => None,
        }
    }
}

/// `backlogs` with an empty entry for `queue` appended when it has none.
pub open spec fn with_backlog_entry(backlogs: Seq<QueueBacklog>, queue: ServiceId) -> Seq<
    QueueBacklog,
> {
    if backlog_position(backlogs, queue) is Some {
        backlogs
    } else {
        backlogs.push(QueueBacklog { queue, messages: 0 })
    }
}

/// The messages waiting in the first `count` backlogs.
pub open spec fn backlog_total(backlogs: Seq<QueueBacklog>, count: int) -> nat
    decreases count,
{
    if count <= 0 {
        0
    } else {
        backlog_total(backlogs, count - 1) + backlogs[count - 1].messages as nat
    }
}

/// The messages waiting in every backlog.
pub open spec fn queued_messages(backlogs: Seq<QueueBacklog>) -> nat {
    backlog_total(backlogs, backlogs.len() as int)
}

/// A queue stores what fits of the `accepted` events in its storage, then dispatches from its
/// backlog, up to its throughput, to each consumer in turn.
pub open spec fn queue_step(
    consumers: Seq<Service>,
    state: MessagingState,
    queue: ServiceId,
    throughput: u64,
    accepted: u64,
    tally: MessagingTally,
) -> MessagingState {
    let backlogs = with_backlog_entry(state.backlogs, queue);
    let k = backlog_position(backlogs, queue)->0;
    let waiting = backlogs[k].messages;
    let storage = throughput * QUEUE_STORAGE_MULTIPLIER;
    let room: u64 = if waiting < storage {
        (storage - waiting) as u64
    } else {
        0
    };
    let stored = smaller(accepted, room);
    let delivery = sequential_delivery(
        consumers,
        queue,
        consumers.len() as int,
        Delivery {
            spare: state.spare,
            tally: MessagingTally {
                dropped: saturating_sum(tally.dropped, (accepted - stored) as u64),
                ..tally
            },
            pending: (waiting + stored) as u64,
            allowance: throughput,
        },
    );
    MessagingState {
        tally: delivery.tally,
        backlogs: backlogs.update(k, QueueBacklog { queue, messages: delivery.pending }),
        spare: delivery.spare,
    }
}

/// One broker's work: it accepts what its producers publish, up to its capacity, then hands
/// the events on as its messaging mode prescribes. Other services change nothing.
pub open spec fn broker_step(
    services: Seq<Service>,
    links: Seq<NetworkLink>,
    request_traffic: Seq<LinkTraffic>,
    state: MessagingState,
    broker: Service,
) -> MessagingState {
    if !is_broker(broker) {
        state
    } else {
        let id = broker.spec_id();
        let capacity = broker.spec_traffic_capacity(u64::MAX);
        let (remaining, offered) = ingress(
            services,
            request_traffic,
            id,
            links,
            links.len() as int,
            capacity,
            state.tally,
        );
        let accepted = (capacity - remaining) as u64;
        let tally = MessagingTally {
            published: saturating_sum(offered.published, accepted),
            ..offered
        };
        let consumers = consumers_of(id, services, links);
        match broker.spec_kind().messaging_mode() {
            Some(MessagingMode::Queue) => queue_step(consumers, state, id, capacity, accepted, tally),
            Some(MessagingMode::FanOut) => if consumers.len() == 0 {
                MessagingState {
                    tally: MessagingTally {
                        dropped: saturating_sum(tally.dropped, accepted),
                        ..tally
                    },
                    ..state
                }
            } else {
                let (spare, fanned) = fan_out(
                    consumers,
                    id,
                    accepted,
                    consumers.len() as int,
                    state.spare,
                    tally,
                );
                MessagingState { tally: fanned, backlogs: state.backlogs, spare }
            },
            _ => {
                let delivery = sequential_delivery(
                    consumers,
                    id,
                    consumers.len() as int,
                    Delivery { spare: state.spare, tally, pending: accepted, allowance: accepted },
                );
                MessagingState {
                    tally: MessagingTally {
                        dropped: saturating_sum(delivery.tally.dropped, delivery.pending),
                        ..delivery.tally
                    },
                    backlogs: state.backlogs,
                    spare: delivery.spare,
                }
            },
        }
    }
}

/// The messaging state after the first `count` services have done their work, in order.
pub open spec fn messaging_after(
    services: Seq<Service>,
    links: Seq<NetworkLink>,
    request_traffic: Seq<LinkTraffic>,
    count: int,
    start: MessagingState,
) -> MessagingState
    decreases count,
{
    if count <= 0 {
        start
    } else {
        broker_step(
            services,
            links,
            request_traffic,
            messaging_after(services, links, request_traffic, count - 1, start),
            services[count - 1],
        )
    }
}

/// The whole messaging work of a tick, starting from the queues' `backlogs` and the spare
/// capacity that `request_traffic` leaves each worker.
pub open spec fn messaging_outcome(
    services: Seq<Service>,
    links: Seq<NetworkLink>,
    request_traffic: Seq<LinkTraffic>,
    backlogs: Seq<QueueBacklog>,
) -> MessagingState {
    messaging_after(
        services,
        links,
        request_traffic,
        services.len() as int,
        MessagingState {
            tally: MessagingTally {
                published: 0,
                processed: 0,
                dropped: 0,
                link_traffic: Seq::empty(),
            },
            backlogs,
            spare: initial_spare(services, request_traffic, services.len() as int),
        },
    )
}

/// Counting more traffic entries never counts fewer requests.
proof fn lemma_requests_to_grows(target: ServiceId, traffic: Seq<LinkTraffic>, count: int, more: int)
    requires
        count <= more,
    ensures
        requests_to(target, traffic, count) <= requests_to(target, traffic, more),
    decreases more - count,
{
    if count < more {
        lemma_requests_to_grows(target, traffic, count, more - 1);
    }
}

/// The requests that `request_traffic` carries to `producer`.
fn incoming_requests(producer: ServiceId, request_traffic: &[LinkTraffic]) -> (requests: u64)
    requires
        incoming_requests_to(producer, request_traffic@) <= u64::MAX,
    ensures
        requests == incoming_requests_to(producer, request_traffic@),
{
    let mut requests: u64 = 0;
    let mut i: usize = 0;
    while i < request_traffic.len()
        invariant
            i <= request_traffic@.len(),
            requests == requests_to(producer, request_traffic@, i as int),
            incoming_requests_to(producer, request_traffic@) <= u64::MAX,
        decreases request_traffic@.len() - i,
    {
        proof {
            lemma_requests_to_grows(producer, request_traffic@, i + 1, request_traffic@.len() as int);
        }
        let traffic = request_traffic[i];
        if traffic.to == producer {
            requests = requests + traffic.requests;
        }
        i = i + 1;
    }
    requests
}

/// `spare_position` finds the first entry of the worker, or reports that there is none.
proof fn lemma_spare_position(spare: Seq<(ServiceId, u64)>, worker: ServiceId)
    ensures
        match spare_position(spare, worker) {
            Some(i) => 0 <= i < spare.len() && spare[i].0 == worker && forall|j: int|
                0 <= j < i ==> #[trigger] spare[j].0 != worker,
            None => forall|j: int| 0 <= j < spare.len() ==> #[trigger] spare[j].0 != worker,
        },
    decreases spare.len(),
{
    if spare.len() > 0 && spare[0].0 != worker {
        lemma_spare_position(spare.drop_first(), worker);
        assert forall|j: int| 0 < j < spare.len() implies #[trigger] spare[j] == spare.drop_first()[j
            - 1] by {}
    }
}

/// The first index with `worker`'s identity is where `spare_position` points.
proof fn lemma_spare_position_at(spare: Seq<(ServiceId, u64)>, worker: ServiceId, i: int)
    requires
        0 <= i < spare.len(),
        spare[i].0 == worker,
        forall|j: int| 0 <= j < i ==> #[trigger] spare[j].0 != worker,
    ensures
        spare_position(spare, worker) == Some(i),
{
    lemma_spare_position(spare, worker);
    match spare_position(spare, worker) {
        Some(p) => {
            if p < i {
                assert(spare[p].0 != worker);
            } else if p > i {
                assert(spare[i].0 != worker);
            }
        },
        None => {
            assert(spare[i].0 != worker);
        },
    }
}

/// The spare capacity of every operational worker once it has served its requests.
fn initial_spare_capacity(services: &[Service], request_traffic: &[LinkTraffic]) -> (spare: Vec<
    (ServiceId, u64),
>)
    requires
        worker_loads_fit(services@, request_traffic@),
    ensures
        spare@ == initial_spare(services@, request_traffic@, services@.len() as int),
{
    let mut spare: Vec<(ServiceId, u64)> = Vec::new();
    let mut i: usize = 0;
    while i < services.len()
        invariant
            i <= services@.len(),
            spare@ == initial_spare(services@, request_traffic@, i as int),
            worker_loads_fit(services@, request_traffic@),
        decreases services@.len() - i,
    {
        let service = services[i];
        if service.kind().serves_requests() && service.is_operational() {
            let load = incoming_requests(service.id(), request_traffic);
            let capacity = service.traffic_capacity(u64::MAX);
            spare.push((service.id(), capacity.saturating_sub(load)));
        }
        i = i + 1;
    }
    spare
}

/// The spare capacity recorded for `worker`.
fn remaining_worker_capacity(spare: &[(ServiceId, u64)], worker: ServiceId) -> (capacity: u64)
    ensures
        capacity == spare_of(spare@, worker),
{
    proof {
        lemma_spare_position(spare@, worker);
    }
    let mut i: usize = 0;
    while i < spare.len()
        invariant
            i <= spare@.len(),
            forall|j: int| 0 <= j < i ==> #[trigger] spare@[j].0 != worker,
        decreases spare@.len() - i,
    {
        if spare[i].0 == worker {
            proof {
                lemma_spare_position_at(spare@, worker, i as int);
            }
            return spare[i].1;
        }
        i = i + 1;
    }
    0
}

/// Records that `worker` has used `consumed` of its spare capacity.
fn consume_worker_capacity(spare: &mut Vec<(ServiceId, u64)>, worker: ServiceId, consumed: u64)
    requires
        consumed <= spare_of(old(spare)@, worker),
    ensures
        final(spare)@ == after_consuming(old(spare)@, worker, consumed),
{
    proof {
        lemma_spare_position(spare@, worker);
    }
    let mut i: usize = 0;
    while i < spare.len()
        invariant
            i <= spare@.len(),
            *spare == *old(spare),
            consumed <= spare_of(spare@, worker),
            forall|j: int| 0 <= j < i ==> #[trigger] spare@[j].0 != worker,
        decreases spare@.len() - i,
    {
        if spare[i].0 == worker {
            proof {
                lemma_spare_position_at(spare@, worker, i as int);
            }
            let left = spare[i].1 - consumed;
            spare.set(i, (worker, left));
            return;
        }
        i = i + 1;
    }
}

/// Records `requests` from `from` to `to`, when there are any.
fn push_traffic(traffic: &mut Vec<LinkTraffic>, from: ServiceId, to: ServiceId, requests: u64)
    ensures
        final(traffic)@ == with_link_traffic(old(traffic)@, from, to, requests),
{
    if requests > 0 {
        traffic.push(LinkTraffic { from, to, requests });
    }
}

/// The operational workers that `broker` links to, in link order.
fn consumers(broker: ServiceId, services: &[Service], network: &Network) -> (found: Vec<Service>)
    ensures
        found@ == consumers_of(broker, services@, network.spec_links()),
{
    let links = network.links();
    let mut found: Vec<Service> = Vec::new();
    let mut i: usize = 0;
    while i < links.len()
        invariant
            i <= links@.len(),
            links@ == network.spec_links(),
            found@ == consumers_among(broker, services@, links@, i as int),
        decreases links@.len() - i,
    {
        let link = links[i];
        if link.from == broker {
            if let Some(index) = find_service(services, link.to) {
                proof {
                    lemma_service_position(services@, link.to);
                }
                let service = services[index];
                if service.kind().serves_requests() && service.is_operational() {
                    found.push(service);
                }
            }
        }
        i = i + 1;
    }
    found
}

/// `backlog_position` finds the first entry of the queue, or reports that there is none.
proof fn lemma_backlog_position(backlogs: Seq<QueueBacklog>, queue: ServiceId)
    ensures
        match backlog_position(backlogs, queue) {
            Some(i) => 0 <= i < backlogs.len() && backlogs[i].queue == queue && forall|j: int|
                0 <= j < i ==> #[trigger] backlogs[j].queue != queue,
            None => forall|j: int| 0 <= j < backlogs.len() ==> #[trigger] backlogs[j].queue != queue,
        },
    decreases backlogs.len(),
{
    if backlogs.len() > 0 && backlogs[0].queue != queue {
        lemma_backlog_position(backlogs.drop_first(), queue);
        assert forall|j: int| 0 < j < backlogs.len() implies #[trigger] backlogs[j]
            == backlogs.drop_first()[j - 1] by {}
    }
}

/// The first index with the queue's identity is where `backlog_position` points.
proof fn lemma_backlog_position_at(backlogs: Seq<QueueBacklog>, queue: ServiceId, i: int)
    requires
        0 <= i < backlogs.len(),
        backlogs[i].queue == queue,
        forall|j: int| 0 <= j < i ==> #[trigger] backlogs[j].queue != queue,
    ensures
        backlog_position(backlogs, queue) == Some(i),
{
    lemma_backlog_position(backlogs, queue);
    match backlog_position(backlogs, queue) {
        Some(p) => {
            if p < i {
                assert(backlogs[p].queue != queue);
            } else if p > i {
                assert(backlogs[i].queue != queue);
            }
        },
        None => {
            assert(backlogs[i].queue != queue);
        },
    }
}

/// The index of `queue`'s backlog; an empty one is appended when it has none.
fn queue_backlog(backlogs: &mut Vec<QueueBacklog>, queue: ServiceId) -> (index: usize)
    ensures
        final(backlogs)@ == with_backlog_entry(old(backlogs)@, queue),
        backlog_position(final(backlogs)@, queue) == Some(index as int),
{
    proof {
        lemma_backlog_position(backlogs@, queue);
    }
    let mut i: usize = 0;
    while i < backlogs.len()
        invariant
            i <= backlogs@.len(),
            *backlogs == *old(backlogs),
            forall|j: int| 0 <= j < i ==> #[trigger] backlogs@[j].queue != queue,
        decreases backlogs@.len() - i,
    {
        if backlogs[i].queue == queue {
            proof {
                lemma_backlog_position_at(backlogs@, queue, i as int);
            }
            return i;
        }
        i = i + 1;
    }
    let index = backlogs.len();
    backlogs.push(QueueBacklog { queue, messages: 0 });
    proof {
        assert forall|j: int| 0 <= j < index implies #[trigger] backlogs@[j].queue != queue by {
            assert(backlogs@[j] == old(backlogs)@[j]);
        }
        lemma_backlog_position_at(backlogs@, queue, index as int);
    }
    index
}

/// Offers `broker` the work of every producer linked to it, up to `capacity` events; returns
/// how many it accepted.
fn accept_published(
    broker: ServiceId,
    capacity: u64,
    services: &[Service],
    network: &Network,
    request_traffic: &[LinkTraffic],
    result: &mut MessagingResult,
) -> (accepted: u64)
    requires
        worker_loads_fit(services@, request_traffic@),
    ensures
        accepted == capacity - ingress(
            services@,
            request_traffic@,
            broker,
            network.spec_links(),
            network.spec_links().len() as int,
            capacity,
            old(result).tally(),
        ).0,
        final(result).tally() == ingress(
            services@,
            request_traffic@,
            broker,
            network.spec_links(),
            network.spec_links().len() as int,
            capacity,
            old(result).tally(),
        ).1,
        final(result).queued == old(result).queued,
{
    let links = network.links();
    let mut remaining = capacity;
    let mut i: usize = 0;
    while i < links.len()
        invariant
            i <= links@.len(),
            links@ == network.spec_links(),
            remaining <= capacity,
            remaining == ingress(
                services@,
                request_traffic@,
                broker,
                links@,
                i as int,
                capacity,
                old(result).tally(),
            ).0,
            result.tally() == ingress(
                services@,
                request_traffic@,
                broker,
                links@,
                i as int,
                capacity,
                old(result).tally(),
            ).1,
            result.queued == old(result).queued,
            worker_loads_fit(services@, request_traffic@),
        decreases links@.len() - i,
    {
        let link = links[i];
        if link.to == broker {
            if let Some(index) = find_service(services, link.from) {
                proof {
                    lemma_service_position(services@, link.from);
                }
                let producer = services[index];
                if producer.kind().serves_requests() && producer.is_operational() {
                    let attempted = incoming_requests(producer.id(), request_traffic);
                    let published = if attempted < remaining {
                        attempted
                    } else {
                        remaining
                    };
                    remaining = remaining - published;
                    result.dropped = result.dropped.saturating_add(attempted - published);
                    push_traffic(&mut result.link_traffic, producer.id(), broker, published);
                }
            }
        }
        i = i + 1;
    }
    capacity - remaining
}

/// Hands `pending` events to the consumers in turn, each taking what its spare capacity and
/// what is left of `allowance` let it; returns the events left undelivered.
fn deliver_in_turn(
    consumers: &[Service],
    broker: ServiceId,
    pending: u64,
    allowance: u64,
    spare: &mut Vec<(ServiceId, u64)>,
    result: &mut MessagingResult,
) -> (left: u64)
    ensures
        left == sequential_delivery(
            consumers@,
            broker,
            consumers@.len() as int,
            Delivery { spare: old(spare)@, tally: old(result).tally(), pending, allowance },
        ).pending,
        final(spare)@ == sequential_delivery(
            consumers@,
            broker,
            consumers@.len() as int,
            Delivery { spare: old(spare)@, tally: old(result).tally(), pending, allowance },
        ).spare,
        final(result).tally() == sequential_delivery(
            consumers@,
            broker,
            consumers@.len() as int,
            Delivery { spare: old(spare)@, tally: old(result).tally(), pending, allowance },
        ).tally,
        final(result).queued == old(result).queued,
{
    let ghost start = Delivery { spare: old(spare)@, tally: old(result).tally(), pending, allowance };
    let mut left = pending;
    let mut budget = allowance;
    let mut i: usize = 0;
    while i < consumers.len()
        invariant
            i <= consumers@.len(),
            left == sequential_delivery(consumers@, broker, i as int, start).pending,
            budget == sequential_delivery(consumers@, broker, i as int, start).allowance,
            spare@ == sequential_delivery(consumers@, broker, i as int, start).spare,
            result.tally() == sequential_delivery(consumers@, broker, i as int, start).tally,
            result.queued == old(result).queued,
        decreases consumers@.len() - i,
    {
        let consumer = consumers[i].id();
        let available = remaining_worker_capacity(spare.as_slice(), consumer);
        let mut delivered = if left < available {
            left
        } else {
            available
        };
        if budget < delivered {
            delivered = budget;
        }
        left = left - delivered;
        budget = budget - delivered;
        consume_worker_capacity(spare, consumer, delivered);
        result.processed = result.processed.saturating_add(delivered);
        push_traffic(&mut result.link_traffic, broker, consumer, delivered);
        i = i + 1;
    }
    left
}

/// Delivers a copy of each of the `accepted` events to every consumer, as far as its spare
/// capacity allows; the copies a consumer cannot take are dropped.
fn process_fan_out(
    broker: ServiceId,
    accepted: u64,
    services: &[Service],
    network: &Network,
    spare: &mut Vec<(ServiceId, u64)>,
    result: &mut MessagingResult,
)
    ensures
        ({
            let consumers = consumers_of(broker, services@, network.spec_links());
            if consumers.len() == 0 {
                &&& final(spare)@ == old(spare)@
                &&& final(result).tally() == (MessagingTally {
                    dropped: saturating_sum(old(result).dropped, accepted),
                    ..old(result).tally()
                })
            } else {
                &&& final(spare)@ == fan_out(
                    consumers,
                    broker,
                    accepted,
                    consumers.len() as int,
                    old(spare)@,
                    old(result).tally(),
                ).0
                &&& final(result).tally() == fan_out(
                    consumers,
                    broker,
                    accepted,
                    consumers.len() as int,
                    old(spare)@,
                    old(result).tally(),
                ).1
            }
        }),
        final(result).queued == old(result).queued,
{
    let consumers = consumers(broker, services, network);
    if consumers.len() == 0 {
        result.dropped = result.dropped.saturating_add(accepted);
        return;
    }
    let ghost start_spare = old(spare)@;
    let ghost start_tally = old(result).tally();
    let mut i: usize = 0;
    while i < consumers.len()
        invariant
            i <= consumers@.len(),
            spare@ == fan_out(consumers@, broker, accepted, i as int, start_spare, start_tally).0,
            result.tally() == fan_out(
                consumers@,
                broker,
                accepted,
                i as int,
                start_spare,
                start_tally,
            ).1,
            result.queued == old(result).queued,
        decreases consumers@.len() - i,
    {
        let consumer = consumers[i].id();
        let available = remaining_worker_capacity(spare.as_slice(), consumer);
        let delivered = if accepted < available {
            accepted
        } else {
            available
        };
        consume_worker_capacity(spare, consumer, delivered);
        result.processed = result.processed.saturating_add(delivered);
        result.dropped = result.dropped.saturating_add(accepted - delivered);
        push_traffic(&mut result.link_traffic, broker, consumer, delivered);
        i = i + 1;
    }
}

/// Delivers each of the `accepted` events to a single consumer: the consumers in turn take as
/// many as their spare capacity allows, and the events none can take are dropped.
fn process_routed(
    broker: ServiceId,
    accepted: u64,
    services: &[Service],
    network: &Network,
    spare: &mut Vec<(ServiceId, u64)>,
    result: &mut MessagingResult,
)
    ensures
        ({
            let consumers = consumers_of(broker, services@, network.spec_links());
            let delivery = sequential_delivery(
                consumers,
                broker,
                consumers.len() as int,
                Delivery {
                    spare: old(spare)@,
                    tally: old(result).tally(),
                    pending: accepted,
                    allowance: accepted,
                },
            );
            &&& final(spare)@ == delivery.spare
            &&& final(result).tally() == (MessagingTally {
                dropped: saturating_sum(delivery.tally.dropped, delivery.pending),
                ..delivery.tally
            })
        }),
        final(result).queued == old(result).queued,
{
    let consumers = consumers(broker, services, network);
    let remaining = deliver_in_turn(consumers.as_slice(), broker, accepted, accepted, spare, result);
    result.dropped = result.dropped.saturating_add(remaining);
}

/// Stores what fits of the `accepted` events in the queue's backlog, dropping the rest, then
/// dispatches up to `throughput` events from the backlog to the consumers in turn.
fn process_queue(
    broker: ServiceId,
    accepted: u64,
    throughput: u64,
    services: &[Service],
    network: &Network,
    backlogs: &mut Vec<QueueBacklog>,
    spare: &mut Vec<(ServiceId, u64)>,
    result: &mut MessagingResult,
)
    requires
        throughput <= 1500,
    ensures
        ({
            let after = queue_step(
                consumers_of(broker, services@, network.spec_links()),
                MessagingState {
                    tally: old(result).tally(),
                    backlogs: old(backlogs)@,
                    spare: old(spare)@,
                },
                broker,
                throughput,
                accepted,
                old(result).tally(),
            );
            &&& final(result).tally() == after.tally
            &&& final(backlogs)@ == after.backlogs
            &&& final(spare)@ == after.spare
        }),
        final(result).queued == old(result).queued,
{
    let index = queue_backlog(backlogs, broker);
    proof {
        lemma_backlog_position(backlogs@, broker);
    }
    let waiting = backlogs[index].messages;
    let storage = throughput * QUEUE_STORAGE_MULTIPLIER;
    let stored = if accepted < storage.saturating_sub(waiting) {
        accepted
    } else {
        storage.saturating_sub(waiting)
    };
    result.dropped = result.dropped.saturating_add(accepted - stored);
    let backlog = waiting + stored;
    let consumers = consumers(broker, services, network);
    let left = deliver_in_turn(consumers.as_slice(), broker, backlog, throughput, spare, result);
    backlogs.set(index, QueueBacklog { queue: broker, messages: left });
}

/// Runs one tick of messaging: every operational broker, in service order, accepts the events
/// that its producers publish (one per request each received in `request_traffic`) up to its
/// capacity, and hands them on to its consumers as its messaging mode prescribes, using only
/// the capacity that the consumers have left after their own requests. Queues keep their
/// backlog in `backlogs` from one tick to the next.
#[verifier::spinoff_prover]
pub fn process_messages(
    services: &[Service],
    network: &Network,
    request_traffic: &[LinkTraffic],
    backlogs: &mut Vec<QueueBacklog>,
) -> (result: MessagingResult)
    requires
        worker_loads_fit(services@, request_traffic@),
        queued_messages(
            messaging_outcome(services@, network.spec_links(), request_traffic@, old(backlogs)@).backlogs,
        ) <= u64::MAX,
    ensures
        ({
            let outcome = messaging_outcome(
                services@,
                network.spec_links(),
                request_traffic@,
                old(backlogs)@,
            );
            &&& result.tally() == outcome.tally
            &&& final(backlogs)@ == outcome.backlogs
            &&& result.queued == queued_messages(outcome.backlogs)
        }),
{
    let mut result = MessagingResult {
        published: 0,
        processed: 0,
        queued: 0,
        dropped: 0,
        link_traffic: Vec::new(),
    };
    let mut spare = initial_spare_capacity(services, request_traffic);
    let ghost start = MessagingState {
        tally: result.tally(),
        backlogs: old(backlogs)@,
        spare: spare@,
    };
    let ghost links = network.spec_links();
    let mut i: usize = 0;
    while i < services.len()
        invariant
            i <= services@.len(),
            links == network.spec_links(),
            worker_loads_fit(services@, request_traffic@),
            result.tally() == messaging_after(services@, links, request_traffic@, i as int, start).tally,
            backlogs@ == messaging_after(services@, links, request_traffic@, i as int, start).backlogs,
            spare@ == messaging_after(services@, links, request_traffic@, i as int, start).spare,
        decreases services@.len() - i,
    {
        let broker = services[i];
        if let Some(mode) = broker.kind().messaging_mode() {
            if broker.is_operational() {
                let capacity = broker.traffic_capacity(u64::MAX);
                let accepted = accept_published(
                    broker.id(),
                    capacity,
                    services,
                    network,
                    request_traffic,
                    &mut result,
                );
                result.published = result.published.saturating_add(accepted);
                match mode {
                    MessagingMode::Queue => process_queue(
                        broker.id(),
                        accepted,
                        capacity,
                        services,
                        network,
                        backlogs,
                        &mut spare,
                        &mut result,
                    ),
                    MessagingMode::FanOut => process_fan_out(
                        broker.id(),
                        accepted,
                        services,
                        network,
                        &mut spare,
                        &mut result,
                    ),
                    MessagingMode::Routed => process_routed(
                        broker.id(),
                        accepted,
                        services,
                        network,
                        &mut spare,
                        &mut result,
                    ),
                }
            }
        }
        i = i + 1;
    }
    result.queued = total_backlog(backlogs.as_slice());
    result
}

/// Counting more backlogs never counts fewer messages.
proof fn lemma_backlog_total_grows(backlogs: Seq<QueueBacklog>, count: int, more: int)
    requires
        count <= more,
    ensures
        backlog_total(backlogs, count) <= backlog_total(backlogs, more),
    decreases more - count,
{
    if count < more {
        lemma_backlog_total_grows(backlogs, count, more - 1);
    }
}

/// The messages waiting in every backlog.
fn total_backlog(backlogs: &[QueueBacklog]) -> (total: u64)
    requires
        queued_messages(backlogs@) <= u64::MAX,
    ensures
        total == queued_messages(backlogs@),
{
    let mut total: u64 = 0;
    let mut i: usize = 0;
    while i < backlogs.len()
        invariant
            i <= backlogs@.len(),
            total == backlog_total(backlogs@, i as int),
            queued_messages(backlogs@) <= u64::MAX,
        decreases backlogs@.len() - i,
    {
        proof {
            lemma_backlog_total_grows(backlogs@, i + 1, backlogs@.len() as int);
        }
        total = total + backlogs[i].messages;
        i = i + 1;
    }
    total
}


/// Handing events to consumers in turn neither creates nor loses events: what the consumers
/// processed and what is still pending add up to what was pending before, and no more was
/// delivered than the broker's allowance.
pub proof fn law_delivery_conserves_events(
    consumers: Seq<Service>,
    broker: ServiceId,
    count: int,
    start: Delivery,
)
    requires
        start.tally.processed + start.pending <= u64::MAX,
    ensures
        ({
            let end = sequential_delivery(consumers, broker, count, start);
            &&& end.tally.processed + end.pending == start.tally.processed + start.pending
            &&& end.pending <= start.pending
            &&& end.allowance + (start.pending - end.pending) == start.allowance
            &&& end.tally.published == start.tally.published
            &&& end.tally.dropped == start.tally.dropped
        }),
    decreases count,
{
    if count > 0 {
        law_delivery_conserves_events(consumers, broker, count - 1, start);
    }
}

/// The messages waiting in `queue`'s backlog; none when it has no entry.
pub open spec fn waiting_in(backlogs: Seq<QueueBacklog>, queue: ServiceId) -> u64 {
    match backlog_position(backlogs, queue) {
        Some(k) => backlogs[k].messages,
        None => 0,
    }
}

/// A queue never holds more than its storage, ten ticks of its throughput, unless it already
/// did: what does not fit is dropped, and dispatching only shrinks the backlog.
pub proof fn law_queue_storage_is_bounded(
    consumers: Seq<Service>,
    state: MessagingState,
    queue: ServiceId,
    throughput: u64,
    accepted: u64,
    tally: MessagingTally,
)
    ensures
        ({
            let before = waiting_in(state.backlogs, queue);
            let storage = throughput * QUEUE_STORAGE_MULTIPLIER;
            let after = queue_step(consumers, state, queue, throughput, accepted, tally);
            &&& backlog_position(after.backlogs, queue) is Some
            &&& waiting_in(after.backlogs, queue) <= if before < storage {
                storage
            } else {
                before as int
            }
        }),
{
    let backlogs = with_backlog_entry(state.backlogs, queue);
    lemma_backlog_position(state.backlogs, queue);
    if backlog_position(state.backlogs, queue) is None {
        assert forall|j: int| 0 <= j < state.backlogs.len() implies #[trigger] backlogs[j].queue
            != queue by {
            assert(backlogs[j] == state.backlogs[j]);
        }
        lemma_backlog_position_at(backlogs, queue, state.backlogs.len() as int);
    }
    lemma_backlog_position(backlogs, queue);
    let k = backlog_position(backlogs, queue)->0;
    let waiting = backlogs[k].messages;
    let storage = throughput * QUEUE_STORAGE_MULTIPLIER;
    let room: u64 = if waiting < storage {
        (storage - waiting) as u64
    } else {
        0
    };
    let stored = smaller(accepted, room);
    let start = Delivery {
        spare: state.spare,
        tally: MessagingTally {
            dropped: saturating_sum(tally.dropped, (accepted - stored) as u64),
            ..tally
        },
        pending: (waiting + stored) as u64,
        allowance: throughput,
    };
    lemma_delivery_shrinks(consumers, queue, consumers.len() as int, start);
    let after = queue_step(consumers, state, queue, throughput, accepted, tally);
    assert forall|j: int| 0 <= j < k implies #[trigger] after.backlogs[j].queue != queue by {
        assert(after.backlogs[j] == backlogs[j]);
    }
    lemma_backlog_position_at(after.backlogs, queue, k);
}

/// Delivery never adds to the pending events.
proof fn lemma_delivery_shrinks(consumers: Seq<Service>, broker: ServiceId, count: int, start: Delivery)
    ensures
        sequential_delivery(consumers, broker, count, start).pending <= start.pending,
    decreases count,
{
    if count > 0 {
        lemma_delivery_shrinks(consumers, broker, count - 1, start);
    }
}


/// A topic hands every accepted event to each consumer once: per consumer, each of the
/// `accepted` events is either processed by it or dropped, so the processed and dropped counts
/// together grow by `accepted` for every consumer, and the processed count by at most that.
pub proof fn law_fan_out_delivers_or_drops_every_copy(
    consumers: Seq<Service>,
    broker: ServiceId,
    accepted: u64,
    count: int,
    spare: Seq<(ServiceId, u64)>,
    tally: MessagingTally,
)
    requires
        0 <= count,
        tally.processed + accepted * count <= u64::MAX,
        tally.dropped + accepted * count <= u64::MAX,
    ensures
        ({
            let after = fan_out(consumers, broker, accepted, count, spare, tally).1;
            &&& after.processed + after.dropped == tally.processed + tally.dropped + accepted
                * count
            &&& tally.processed <= after.processed <= tally.processed + accepted * count
            &&& tally.dropped <= after.dropped <= tally.dropped + accepted * count
            &&& after.published == tally.published
        }),
    decreases count,
{
    if count == 0 {
        assert(accepted * count == 0) by (nonlinear_arith)
            requires
                count == 0,
        ;
    } else {
        assert(accepted * (count - 1) + accepted == accepted * count) by (nonlinear_arith);
        assert(accepted * (count - 1) <= accepted * count) by (nonlinear_arith)
            requires
                count >= 1,
        ;
        law_fan_out_delivers_or_drops_every_copy(
            consumers,
            broker,
            accepted,
            count - 1,
            spare,
            tally,
        );
        let (spare_before, before) = fan_out(consumers, broker, accepted, count - 1, spare, tally);
        let consumer = consumers[count - 1].spec_id();
        let delivered = smaller(accepted, spare_of(spare_before, consumer));
        let after = fan_out(consumers, broker, accepted, count, spare, tally).1;
        assert(delivered <= accepted);
        assert(before.processed + delivered <= u64::MAX);
        assert(before.dropped + (accepted - delivered) <= u64::MAX);
        assert(after.processed == before.processed + delivered);
        assert(after.dropped == before.dropped + (accepted - delivered));
    }
}

} // verus!

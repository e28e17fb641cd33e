//! Scheduled cyberattacks and the firewalls that stop them.
use vstd::prelude::*;

use crate::clock::Tick;
use crate::infrastructure::{
    Service, ServiceId, ServiceKind, find_service, lemma_service_position, service_position,
};
use crate::network::{Network, NetworkLink, links_contain};
use crate::traffic::CyberAttackReport;

verus! {

broadcast use crate::infrastructure::ServiceId::lemma_value_identifies;

/// Attacks strike on every tick that is a positive multiple of this interval.
pub const CYBER_ATTACK_INTERVAL: u64 = 8;

/// Ticks an attacked service stays offline.
pub const DISRUPTION_TICKS: u16 = 2;

/// Attack traffic can follow a link from `from` to `to`: the first service named `to` is
/// operational and, unless firewalls are passable, not a firewall.
pub open spec fn attack_step(
    services: Seq<Service>,
    links: Seq<NetworkLink>,
    allow_firewalls: bool,
    from: ServiceId,
    to: ServiceId,
) -> bool {
    &&& links_contain(links, from, to)
    &&& match service_position(services, to) {
        Some(i) => services[i].spec_is_operational() && (allow_firewalls || services[i].spec_kind()
            != ServiceKind::Firewall),
        None => false,
    }
}

/// `id` names an operational internet gateway, where attack traffic enters.
pub open spec fn is_ingress(services: Seq<Service>, id: ServiceId) -> bool {
    exists|i: int|
        0 <= i < services.len() && #[trigger] services[i].spec_id() == id
            && services[i].spec_kind() == ServiceKind::InternetGateway
            && services[i].spec_is_operational()
}

/// A route that attack traffic can take from an ingress.
pub open spec fn is_attack_path(
    services: Seq<Service>,
    links: Seq<NetworkLink>,
    allow_firewalls: bool,
    path: Seq<ServiceId>,
) -> bool {
    &&& path.len() >= 1
    &&& is_ingress(services, path[0])
    &&& forall|i: int|
        1 <= i < path.len() ==> #[trigger] attack_step(
            services,
            links,
            allow_firewalls,
            path[i - 1],
            path[i],
        )
}

/// Attack traffic can reach `target`; with `allow_firewalls` false it must avoid firewalls.
pub open spec fn attack_reachable(
    services: Seq<Service>,
    links: Seq<NetworkLink>,
    target: ServiceId,
    allow_firewalls: bool,
) -> bool {
    exists|path: Seq<ServiceId>| #[trigger]
        is_attack_path(services, links, allow_firewalls, path) && path.last() == target
}

/// The service at `i` is an operational application server that attack traffic can reach.
pub open spec fn is_attack_target(services: Seq<Service>, links: Seq<NetworkLink>, i: int) -> bool {
    &&& services[i].spec_kind() == ServiceKind::ApplicationServer
    &&& services[i].spec_is_operational()
    &&& attack_reachable(services, links, services[i].spec_id(), true)
}

/// Attacks are scheduled on positive multiples of the attack interval.
pub open spec fn is_attack_tick(tick: Tick) -> bool {
    tick.spec_number() != 0 && tick.spec_number() % CYBER_ATTACK_INTERVAL == 0
}

/// The first attack target among the first `count` services.
pub open spec fn first_attack_target(services: Seq<Service>, links: Seq<NetworkLink>, count: int) -> Option<
    int,
>
    decreases count,
{
    if count <= 0 {
        None
    } else {
        match first_attack_target(services, links, count - 1) {
            Some(i) => Some(i),
            None => if is_attack_target(services, links, count - 1) {
                Some(count - 1)
            } else {
                None
            },
        }
    }
}

/// What the attack of `tick` does: nothing off schedule or without a reachable target;
/// otherwise it strikes the first target, and is blocked when every route to it passes a
/// firewall.
pub open spec fn attack_report(tick: Tick, services: Seq<Service>, links: Seq<NetworkLink>) -> Option<
    CyberAttackReport,
> {
    if !is_attack_tick(tick) {
        None
    } else {
        match first_attack_target(services, links, services.len() as int) {
            None => None,
            Some(i) => {
                let target = services[i].spec_id();
                let blocked = !attack_reachable(services, links, target, false);
                Some(
                    CyberAttackReport {
                        target,
                        blocked,
                        disruption_ticks: if blocked {
                            0
                        } else {
                            DISRUPTION_TICKS
                        },
                    },
                )
            },
        }
    }
}

/// The services after the attack of `tick`: an unblocked attack disrupts the first service
/// named like its target.
pub open spec fn services_after_attack(tick: Tick, services: Seq<Service>, links: Seq<NetworkLink>) -> Seq<
    Service,
> {
    match attack_report(tick, services, links) {
        Some(report) => if report.blocked {
            services
        } else {
            match service_position(services, report.target) {
                Some(p) => services.update(p, services[p].spec_disrupted(DISRUPTION_TICKS)),
                None => services,
            }
        },
        None => services,
    }
}

/// An attack changes at most one service, and only by disrupting it; identities stay.
pub proof fn lemma_services_after_attack(tick: Tick, services: Seq<Service>, links: Seq<NetworkLink>)
    ensures
        services_after_attack(tick, services, links).len() == services.len(),
        forall|i: int|
            0 <= i < services.len() ==> #[trigger] services_after_attack(tick, services, links)[i]
                == services[i] || services_after_attack(tick, services, links)[i]
                == services[i].spec_disrupted(DISRUPTION_TICKS),
{
    if let Some(report) = attack_report(tick, services, links) {
        lemma_service_position(services, report.target);
    }
}

proof fn lemma_first_attack_target(services: Seq<Service>, links: Seq<NetworkLink>, count: int)
    requires
        0 <= count <= services.len(),
    ensures
        match first_attack_target(services, links, count) {
            Some(i) => 0 <= i < count && is_attack_target(services, links, i) && forall|j: int|
                0 <= j < i ==> !#[trigger] is_attack_target(services, links, j),
            None => forall|j: int| 0 <= j < count ==> !#[trigger] is_attack_target(services, links, j),
        },
    decreases count,
{
    if count > 0 {
        lemma_first_attack_target(services, links, count - 1);
    }
}

/// Every ingress is in `visited`, and no attack step leaves it.
spec fn closed_under_attack(
    services: Seq<Service>,
    links: Seq<NetworkLink>,
    allow_firewalls: bool,
    visited: Seq<ServiceId>,
) -> bool {
    &&& forall|id: ServiceId| is_ingress(services, id) ==> #[trigger] visited.contains(id)
    &&& forall|from: ServiceId, to: ServiceId|
        #![trigger visited.contains(from), attack_step(services, links, allow_firewalls, from, to)]
        visited.contains(from) && attack_step(services, links, allow_firewalls, from, to)
            ==> visited.contains(to)
}

proof fn lemma_closed_set_holds_paths(
    services: Seq<Service>,
    links: Seq<NetworkLink>,
    allow_firewalls: bool,
    visited: Seq<ServiceId>,
    path: Seq<ServiceId>,
    i: int,
)
    requires
        closed_under_attack(services, links, allow_firewalls, visited),
        is_attack_path(services, links, allow_firewalls, path),
        0 <= i < path.len(),
    ensures
        visited.contains(path[i]),
    decreases i,
{
    if i > 0 {
        lemma_closed_set_holds_paths(services, links, allow_firewalls, visited, path, i - 1);
        assert(attack_step(services, links, allow_firewalls, path[i - 1], path[i]));
    }
}

proof fn lemma_path_extends(
    services: Seq<Service>,
    links: Seq<NetworkLink>,
    allow_firewalls: bool,
    path: Seq<ServiceId>,
    next: ServiceId,
)
    requires
        is_attack_path(services, links, allow_firewalls, path),
        attack_step(services, links, allow_firewalls, path.last(), next),
    ensures
        is_attack_path(services, links, allow_firewalls, path.push(next)),
        path.push(next).last() == next,
{
    let extended = path.push(next);
    assert forall|i: int| 1 <= i < extended.len() implies #[trigger] attack_step(
        services,
        links,
        allow_firewalls,
        extended[i - 1],
        extended[i],
    ) by {
        if i < path.len() {
            assert(attack_step(services, links, allow_firewalls, path[i - 1], path[i]));
        }
    }
}

/// Every id in `ids` names some service.
spec fn all_service_ids(services: Seq<Service>, ids: Seq<ServiceId>) -> bool {
    forall|k: int|
        0 <= k < ids.len() ==> exists|i: int|
            0 <= i < services.len() && #[trigger] services[i].spec_id() == #[trigger] ids[k]
}

proof fn lemma_distinct_ids_bounded(services: Seq<Service>, ids: Seq<ServiceId>)
    requires
        ids.no_duplicates(),
        all_service_ids(services, ids),
    ensures
        ids.len() <= services.len(),
{
    let all = services.map_values(|s: Service| s.spec_id());
    assert forall|x: ServiceId| ids.to_set().contains(x) implies all.to_set().contains(x) by {
        let k = choose|k: int| 0 <= k < ids.len() && ids[k] == x;
        let i = choose|i: int| 0 <= i < services.len() && #[trigger] services[i].spec_id() == ids[k];
        assert(all[i] == x);
    }
    ids.unique_seq_to_set();
    all.lemma_cardinality_of_set();
    vstd::set_lib::lemma_len_subset(ids.to_set(), all.to_set());
}

proof fn lemma_push_contains(s: Seq<ServiceId>, x: ServiceId)
    ensures
        s.push(x).contains(x),
        forall|y: ServiceId| s.contains(y) ==> #[trigger] s.push(x).contains(y),
        forall|y: ServiceId| #[trigger] s.push(x).contains(y) ==> s.contains(y) || y == x,
{
    assert(s.push(x)[s.len() as int] == x);
    assert forall|y: ServiceId| s.contains(y) implies #[trigger] s.push(x).contains(y) by {
        let w = choose|w: int| 0 <= w < s.len() && s[w] == y;
        assert(s.push(x)[w] == y);
    }
    assert forall|y: ServiceId| #[trigger] s.push(x).contains(y) implies s.contains(y) || y == x by {
        let w = choose|w: int| 0 <= w < s.len() + 1 && s.push(x)[w] == y;
        if w < s.len() {
            assert(s[w] == y);
        }
    }
}

fn contains_id(ids: &Vec<ServiceId>, id: ServiceId) -> (found: bool)
    ensures
        found == ids@.contains(id),
{
    let mut i: usize = 0;
    while i < ids.len()
        invariant
            i <= ids@.len(),
            forall|j: int| 0 <= j < i ==> ids@[j] != id,
        decreases ids@.len() - i,
    {
        if ids[i] == id {
            return true;
        }
        i = i + 1;
    }
    false
}

/// Breadth-first search from every operational gateway along links into operational services,
/// passing through firewalls only when `allow_firewalls` is set.
#[verifier::spinoff_prover]
pub fn reachable_from_gateway(
    services: &[Service],
    network: &Network,
    target: ServiceId,
    allow_firewalls: bool,
) -> (reachable: bool)
    ensures
        reachable == attack_reachable(services@, network.spec_links(), target, allow_firewalls),
{
    let ghost links = network.spec_links();
    let mut queue: Vec<ServiceId> = Vec::new();
    let mut i: usize = 0;
    while i < services.len()
        invariant
            i <= services@.len(),
            forall|k: int|
                0 <= k < queue@.len() ==> is_attack_path(
                    services@,
                    links,
                    allow_firewalls,
                    seq![#[trigger] queue@[k]],
                ),
            all_service_ids(services@, queue@),
            forall|j: int|
                0 <= j < i && services@[j].spec_kind() == ServiceKind::InternetGateway
                    && services@[j].spec_is_operational() ==> #[trigger] queue@.contains(
                    services@[j].spec_id(),
                ),
        decreases services@.len() - i,
    {
        let service = services[i];
        if service.kind() == ServiceKind::InternetGateway && service.is_operational() {
            let ghost before = queue@;
            queue.push(service.id());
            proof {
                lemma_push_contains(before, service.spec_id());
                assert(services@[i as int].spec_id() == service.spec_id());
                assert(is_ingress(services@, service.spec_id()));
                assert forall|k: int| 0 <= k < queue@.len() implies exists|i: int|
                    0 <= i < services@.len() && #[trigger] services@[i].spec_id() == #[trigger] queue@[k] by {
                    if k < before.len() {
                        assert(queue@[k] == before[k]);
                    }
                }
            }
        }
        i = i + 1;
    }
    let mut visited: Vec<ServiceId> = Vec::new();
    let mut head: usize = 0;
    let links_slice = network.links();
    while head < queue.len()
        invariant
            links_slice@ == links,
            links == network.spec_links(),
            head <= queue@.len(),
            forall|id: ServiceId| is_ingress(services@, id) ==> #[trigger] queue@.contains(id),
            forall|k: int|
                0 <= k < queue@.len() ==> attack_reachable(
                    services@,
                    links,
                    #[trigger] queue@[k],
                    allow_firewalls,
                ),
            all_service_ids(services@, queue@),
            all_service_ids(services@, visited@),
            visited@.no_duplicates(),
            forall|k: int| 0 <= k < head ==> #[trigger] visited@.contains(queue@[k]),
            forall|k: int| 0 <= k < visited@.len() ==> #[trigger] queue@.contains(visited@[k]),
            !visited@.contains(target),
            forall|from: ServiceId, to: ServiceId|
                #![trigger visited@.contains(from), attack_step(services@, links, allow_firewalls, from, to)]
                visited@.contains(from) && attack_step(services@, links, allow_firewalls, from, to)
                    ==> queue@.contains(to),
        decreases services@.len() - visited@.len(), queue@.len() - head,
    {
        proof {
            lemma_distinct_ids_bounded(services@, visited@);
        }
        let current = queue[head];
        head = head + 1;
        if contains_id(&visited, current) {
            continue;
        }
        let ghost before_visited = visited@;
        visited.push(current);
        proof {
            assert(visited@.no_duplicates()) by {
                assert forall|a: int, b: int| 0 <= a < b < visited@.len() implies visited@[a]
                    != visited@[b] by {
                    if b == visited@.len() - 1 {
                        assert(before_visited.contains(visited@[a]));
                    }
                }
            }
            assert forall|k: int| 0 <= k < head implies #[trigger] visited@.contains(queue@[k]) by {
                if k < head - 1 {
                    assert(before_visited.contains(queue@[k]));
                    let w = choose|w: int| 0 <= w < before_visited.len() && before_visited[w] == queue@[k];
                    assert(visited@[w] == queue@[k]);
                } else {
                    assert(visited@[visited@.len() - 1] == current);
                }
            }
            assert forall|k: int| 0 <= k < visited@.len() implies #[trigger] queue@.contains(
                visited@[k],
            ) by {
                if k < visited@.len() - 1 {
                    assert(visited@[k] == before_visited[k]);
                } else {
                    assert(queue@[head - 1] == current);
                }
            }
            assert forall|k: int| 0 <= k < visited@.len() implies exists|i: int|
                0 <= i < services@.len() && #[trigger] services@[i].spec_id() == #[trigger] visited@[k] by {
                if k < visited@.len() - 1 {
                    assert(visited@[k] == before_visited[k]);
                } else {
                    assert(queue@[head - 1] == current);
                }
            }
        }
        proof {
            assert(attack_reachable(services@, links, queue@[head - 1], allow_firewalls));
            lemma_push_contains(before_visited, current);
        }
        if current == target {
            proof {
                assert(queue@[head - 1] == target);
                assert(attack_reachable(services@, links, target, allow_firewalls));
            }
            return true;
        }
        let ghost current_reachable = queue@;
        let mut j: usize = 0;
        while j < links_slice.len()
            invariant
                links_slice@ == links,
                links == network.spec_links(),
                j <= links.len(),
                1 <= head <= current_reachable.len(),
                head <= queue@.len(),
                current == current_reachable[head - 1],
                current == queue@[head - 1],
                visited@.contains(current),
                current_reachable.len() <= queue@.len(),
                forall|k: int| 0 <= k < current_reachable.len() ==> #[trigger] queue@[k] == current_reachable[k],
                forall|id: ServiceId| is_ingress(services@, id) ==> #[trigger] queue@.contains(id),
                forall|k: int|
                    0 <= k < queue@.len() ==> attack_reachable(
                        services@,
                        links,
                        #[trigger] queue@[k],
                        allow_firewalls,
                    ),
                all_service_ids(services@, queue@),
                all_service_ids(services@, visited@),
                visited@.no_duplicates(),
                forall|k: int| 0 <= k < head ==> #[trigger] visited@.contains(queue@[k]),
                forall|k: int| 0 <= k < visited@.len() ==> #[trigger] queue@.contains(visited@[k]),
                !visited@.contains(target),
                forall|from: ServiceId, to: ServiceId|
                    #![trigger visited@.contains(from), attack_step(services@, links, allow_firewalls, from, to)]
                    visited@.contains(from) && from != current && attack_step(
                        services@,
                        links,
                        allow_firewalls,
                        from,
                        to,
                    ) ==> queue@.contains(to),
                forall|to: ServiceId|
                    #![trigger attack_step(services@, links, allow_firewalls, current, to)]
                    attack_step(services@, links, allow_firewalls, current, to) && (exists|l: int|
                        0 <= l < j && #[trigger] links[l] == (NetworkLink { from: current, to }))
                        ==> queue@.contains(to),
            decreases links.len() - j,
        {
            let link = links_slice[j];
            if link.from == current {
                proof {
                    lemma_service_position(services@, link.to);
                }
                if let Some(index) = find_service(services, link.to) {
                    let next = services[index];
                    if next.is_operational() && (allow_firewalls || next.kind()
                        != ServiceKind::Firewall) {
                        let ghost before = queue@;
                        queue.push(next.id());
                        proof {
                            lemma_push_contains(before, link.to);
                            assert(before[head - 1] == current_reachable[head - 1]);
                            assert(attack_reachable(services@, links, before[head - 1], allow_firewalls));
                            assert(attack_step(services@, links, allow_firewalls, current, link.to));
                            let path = choose|path: Seq<ServiceId>| #[trigger]
                                is_attack_path(services@, links, allow_firewalls, path)
                                    && path.last() == current;
                            assert(attack_reachable(services@, links, current, allow_firewalls));
                            lemma_path_extends(services@, links, allow_firewalls, path, link.to);
                            assert forall|k: int| 0 <= k < queue@.len() implies attack_reachable(
                                services@,
                                links,
                                #[trigger] queue@[k],
                                allow_firewalls,
                            ) by {
                                if k < before.len() {
                                    assert(queue@[k] == before[k]);
                                } else {
                                    assert(is_attack_path(
                                        services@,
                                        links,
                                        allow_firewalls,
                                        path.push(link.to),
                                    ));
                                }
                            }
                            assert(queue@[queue@.len() - 1] == link.to);
                            assert forall|x: ServiceId| before.contains(x) implies #[trigger] queue@.contains(x) by {
                                let w = choose|w: int| 0 <= w < before.len() && before[w] == x;
                                assert(queue@[w] == x);
                            }
                            assert forall|k: int| 0 <= k < queue@.len() implies exists|i: int|
                                0 <= i < services@.len() && #[trigger] services@[i].spec_id()
                                    == #[trigger] queue@[k] by {
                                if k < before.len() {
                                    assert(queue@[k] == before[k]);
                                } else {
                                    assert(services@[index as int].spec_id() == queue@[k]);
                                }
                            }
                        }
                    }
                }
            }
            proof {
                assert forall|to: ServiceId|
                    #![trigger attack_step(services@, links, allow_firewalls, current, to)]
                    attack_step(services@, links, allow_firewalls, current, to) && (exists|l: int|
                        0 <= l < j + 1 && #[trigger] links[l] == (NetworkLink { from: current, to }))
                        implies queue@.contains(to) by {
                    let l = choose|l: int|
                        0 <= l < j + 1 && #[trigger] links[l] == (NetworkLink { from: current, to });
                    if l == j {
                        lemma_service_position(services@, to);
                        assert(queue@[queue@.len() - 1] == to);
                    }
                }
            }
            j = j + 1;
        }
        proof {
            lemma_distinct_ids_bounded(services@, visited@);
            assert forall|from: ServiceId, to: ServiceId|
                #![trigger visited@.contains(from), attack_step(services@, links, allow_firewalls, from, to)]
                visited@.contains(from) && attack_step(services@, links, allow_firewalls, from, to)
                    implies queue@.contains(to) by {
                if from == current {
                    let l = choose|l: int|
                        0 <= l < links.len() && #[trigger] links[l] == (NetworkLink { from, to });
                    assert(links[l] == (NetworkLink { from: current, to }));
                }
            }
        }
    }
    proof {
        assert forall|from: ServiceId, to: ServiceId|
            #![trigger visited@.contains(from), attack_step(services@, links, allow_firewalls, from, to)]
            visited@.contains(from) && attack_step(services@, links, allow_firewalls, from, to)
                implies visited@.contains(to) by {
            let k = choose|k: int| 0 <= k < queue@.len() && queue@[k] == to;
            assert(visited@.contains(queue@[k]));
        }
        assert forall|id: ServiceId| is_ingress(services@, id) implies #[trigger] visited@.contains(id) by {
            assert(queue@.contains(id));
            let k = choose|k: int| 0 <= k < queue@.len() && queue@[k] == id;
            assert(visited@.contains(queue@[k]));
        }
        assert(closed_under_attack(services@, links, allow_firewalls, visited@));
        if attack_reachable(services@, links, target, allow_firewalls) {
            let path = choose|path: Seq<ServiceId>| #[trigger]
                is_attack_path(services@, links, allow_firewalls, path) && path.last() == target;
            lemma_closed_set_holds_paths(
                services@,
                links,
                allow_firewalls,
                visited@,
                path,
                path.len() - 1,
            );
        }
    }
    false
}

/// On scheduled ticks, attacks the first operational application server that attack traffic
/// can reach. The attack is blocked when every route to the target passes a firewall;
/// otherwise the first service named like the target is disrupted.
#[verifier::spinoff_prover]
pub fn resolve_scheduled_attack(tick: Tick, services: &mut Vec<Service>, network: &Network) -> (report:
    Option<CyberAttackReport>)
    ensures
        report == attack_report(tick, old(services)@, network.spec_links()),
        final(services)@ == services_after_attack(tick, old(services)@, network.spec_links()),
{
    let number = tick.number();
    if number == 0 || number % CYBER_ATTACK_INTERVAL != 0 {
        return None;
    }
    let ghost links = network.spec_links();
    let mut i: usize = 0;
    let mut found: Option<usize> = None;
    while i < services.len() && found.is_none()
        invariant
            i <= services@.len(),
            services@ == old(services)@,
            links == network.spec_links(),
            match found {
                None => forall|j: int| 0 <= j < i ==> !#[trigger] is_attack_target(services@, links, j),
                Some(index) => index < services@.len() && is_attack_target(
                    services@,
                    links,
                    index as int,
                ) && forall|j: int|
                    0 <= j < index ==> !#[trigger] is_attack_target(services@, links, j),
            },
        decreases services@.len() - i,
    {
        let service = services[i];
        if service.kind() == ServiceKind::ApplicationServer && service.is_operational()
            && reachable_from_gateway(services.as_slice(), network, service.id(), true) {
            found = Some(i);
        } else {
            proof {
                assert(service == services@[i as int]);
            assert(!is_attack_target(services@, links, i as int));
            }
        }
        i = i + 1;
    }
    proof {
        lemma_first_attack_target(services@, links, services@.len() as int);
        match first_attack_target(services@, links, services@.len() as int) {
            Some(t) => {
                if let Some(index) = found {
                    if t < index {
                        assert(!is_attack_target(services@, links, t));
                    }
                    if index < t {
                        assert(!is_attack_target(services@, links, index as int));
                    }
                }
            },
            None => {
                if let Some(index) = found {
                    assert(!is_attack_target(services@, links, index as int));
                }
            },
        }
    }
    let index = match found {
        Some(index) => index,
        None => {
            return None;
        },
    };
    let target = services[index].id();
    let blocked = !reachable_from_gateway(services.as_slice(), network, target, false);
    proof {
        lemma_service_position(services@, target);
    }
    if !blocked {
        match find_service(services.as_slice(), target) {
            Some(position) => {
                let mut service = services[position];
                service.disrupt(DISRUPTION_TICKS);
                services.set(position, service);
            },
            None => {
                proof {
                    lemma_service_position(services@, target);
                }
            },
        }
    }
    Some(
        CyberAttackReport {
            target,
            blocked,
            disruption_ticks: if blocked {
                0
            } else {
                DISRUPTION_TICKS
            },
        },
    )
}

} // verus!

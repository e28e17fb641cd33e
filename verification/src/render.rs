//! A compact, deterministic terminal view of the public simulation state.
use vstd::prelude::*;

use crate::infrastructure::{Service, ServiceKind, ServiceState, service_position};
use crate::map::GridPosition;
use crate::network::NetworkLink;
use crate::simulation::Simulation;
use crate::text::{
    bool_text, decimal, decimal_len, digit, digit_char, push_bool, push_decimal,
    push_repeated, push_signed_decimal, repeated, signed_decimal,
};
use crate::traffic::TickReport;
use crate::infrastructure::ServiceId;

verus! {

/// The character that shows a service on the map: `!` while disrupted, `^` while upgrading,
/// otherwise a letter for its kind, lower case while it is being built.
pub open spec fn symbol_of(service: Service) -> char {
    match service.spec_state() {
        ServiceState::Disrupted { .. } => '!',
        ServiceState::Upgrading { .. } => '^',
        ServiceState::UnderConstruction { .. } => match service.spec_kind() {
            ServiceKind::InternetGateway => 'g',
            ServiceKind::Firewall => 'f',
            ServiceKind::LoadBalancer => 'l',
            ServiceKind::ApplicationServer => 'a',
            ServiceKind::MessageQueue => 'q',
            ServiceKind::PubSubTopic => 't',
            ServiceKind::EventBus => 'e',
        },
        ServiceState::Operational => match service.spec_kind() {
            ServiceKind::InternetGateway => 'G',
            ServiceKind::Firewall => 'F',
            ServiceKind::LoadBalancer => 'L',
            ServiceKind::ApplicationServer => 'A',
            ServiceKind::MessageQueue => 'Q',
            ServiceKind::PubSubTopic => 'T',
            ServiceKind::EventBus => 'E',
        },
    }
}

/// The character of a tile: `.` when it is empty, `?` when its occupant is not a known service.
pub open spec fn tile_symbol(simulation: Simulation, tile: GridPosition) -> char {
    match simulation.spec_map().spec_service_at(tile) {
        None => '.',
        Some(id) => match service_position(simulation.spec_services(), id) {
            Some(i) => symbol_of(simulation.spec_services()[i]),
            None => '?',
        },
    }
}

/// The width of the row labels: the length of the last row's number.
pub open spec fn label_width(simulation: Simulation) -> nat {
    decimal((simulation.spec_map().spec_size().spec_height() - 1) as nat).len()
}

/// The last decimal digit of each column number.
pub open spec fn column_digits(width: nat) -> Seq<char> {
    Seq::new(width, |x: int| digit_char((x % 10) as nat))
}

/// The top or bottom edge of the map.
pub open spec fn border_line(label_width: nat, width: nat) -> Seq<char> {
    repeated(' ', label_width + 1) + "+"@ + repeated('-', width) + "+\n"@
}

/// `text` padded with spaces on the left to `width` characters.
pub open spec fn right_aligned(text: Seq<char>, width: nat) -> Seq<char> {
    repeated(
        ' ',
        if text.len() < width {
            (width - text.len()) as nat
        } else {
            0
        },
    ) + text
}

/// The tiles of row `y`, left to right.
pub open spec fn row_tiles(simulation: Simulation, y: nat, count: nat) -> Seq<char> {
    Seq::new(count, |x: int| tile_symbol(simulation, GridPosition { x: x as u16, y: y as u16 }))
}

/// The line of row `y`: its number, then its tiles between two bars.
pub open spec fn row_line(simulation: Simulation, y: nat) -> Seq<char> {
    right_aligned(decimal(y), label_width(simulation)) + " |"@ + row_tiles(
        simulation,
        y,
        simulation.spec_map().spec_size().spec_width() as nat,
    ) + "|\n"@
}

/// The lines of the first `count` rows.
pub open spec fn row_lines(simulation: Simulation, count: int) -> Seq<char>
    decreases count,
{
    if count <= 0 {
        Seq::empty()
    } else {
        row_lines(simulation, count - 1) + row_line(simulation, (count - 1) as nat)
    }
}

/// The first `count` links, as `from -> to` separated by commas.
pub open spec fn links_text(links: Seq<NetworkLink>, count: int) -> Seq<char>
    decreases count,
{
    if count <= 0 {
        Seq::empty()
    } else {
        links_text(links, count - 1) + (if count > 1 {
            ", "@
        } else {
            Seq::empty()
        }) + decimal(links[count - 1].from.spec_value() as nat) + " -> "@ + decimal(
            links[count - 1].to.spec_value() as nat,
        )
    }
}

/// The first `count` identities, separated by commas.
pub open spec fn ids_text(ids: Seq<ServiceId>, count: int) -> Seq<char>
    decreases count,
{
    if count <= 0 {
        Seq::empty()
    } else {
        ids_text(ids, count - 1) + (if count > 1 {
            ", "@
        } else {
            Seq::empty()
        }) + decimal(ids[count - 1].spec_value() as nat)
    }
}

/// The line listing the network links.
pub open spec fn links_line(links: Seq<NetworkLink>) -> Seq<char> {
    "Links: "@ + (if links.len() == 0 {
        "none"@
    } else {
        links_text(links, links.len() as int)
    }) + "\n"@
}

/// The line listing the services completed during the tick.
pub open spec fn completed_line(ids: Seq<ServiceId>) -> Seq<char> {
    "Completed: "@ + (if ids.len() == 0 {
        "none"@
    } else {
        ids_text(ids, ids.len() as int)
    }) + "\n"@
}

/// The line reporting the tick's cyberattack, if there was one.
pub open spec fn attack_line(report: TickReport) -> Seq<char> {
    match report.cyberattack {
        None => Seq::empty(),
        Some(attack) => if attack.blocked {
            "Cyberattack: blocked before service "@ + decimal(attack.target.spec_value() as nat)
                + "\n"@
        } else {
            "Cyberattack: service "@ + decimal(attack.target.spec_value() as nat)
                + " disrupted for "@ + decimal(attack.disruption_ticks as nat) + " ticks\n"@
        },
    }
}

/// The traffic summary of a tick's report.
pub open spec fn report_lines(report: TickReport) -> Seq<char> {
    totals_line(report) + completed_line(report.completed_services@) + attack_line(report)
}

/// The line of a tick's demand, service, money and failover.
pub open spec fn totals_line(report: TickReport) -> Seq<char> {
    "Traffic: received="@ + decimal(report.received as nat) + " | served="@ + decimal(
        report.served as nat,
    ) + " | dropped="@ + decimal(report.dropped as nat) + " | revenue="@ + decimal(
        report.revenue as nat,
    ) + " | opex="@ + decimal(report.operating_cost as nat) + " | net="@ + signed_decimal(
        report.net_income as int,
    ) + " | outage_penalty="@ + decimal(report.outage_penalty as nat) + " | failover="@
        + bool_text(report.failover_active) + "\n"@
}

/// The legend of the map symbols.
pub open spec fn legend_line() -> Seq<char> {
    "Legend: g/G=Gateway, f/F=Firewall, l/L=Load Balancer, a/A=App Server, !=disrupted\n"@
}

/// The whole view: status, column numbers, the framed map, the legend, the links and the
/// traffic of the last tick, if one is given.
pub open spec fn rendered_view(simulation: Simulation, report: Option<&TickReport>) -> Seq<char> {
    let size = simulation.spec_map().spec_size();
    let label = label_width(simulation);
    "Tick: "@ + decimal(simulation.spec_tick().spec_number() as nat) + " | Credits: "@ + decimal(
        simulation.spec_budget().spec_credits() as nat,
    ) + "\n"@ + repeated(' ', label + 2) + column_digits(size.spec_width() as nat) + "\n"@
        + border_line(label, size.spec_width() as nat) + row_lines(
        simulation,
        size.spec_height() as int,
    ) + border_line(label, size.spec_width() as nat) + legend_line() + links_line(
        simulation.spec_network().spec_links(),
    ) + match report {
        Some(report) => report_lines(*report),
        None => "Traffic: awaiting first tick\n"@,
    }
}


/// The character that shows `service` on the map.
fn service_symbol(service: &Service) -> (symbol: char)
    ensures
        symbol == symbol_of(*service),
{
    match (service.kind(), service.state()) {
        (_, ServiceState::Disrupted { .. }) => '!',
        (_, ServiceState::Upgrading { .. }) => '^',
        (ServiceKind::InternetGateway, ServiceState::UnderConstruction { .. }) => 'g',
        (ServiceKind::InternetGateway, ServiceState::Operational) => 'G',
        (ServiceKind::Firewall, ServiceState::UnderConstruction { .. }) => 'f',
        (ServiceKind::Firewall, ServiceState::Operational) => 'F',
        (ServiceKind::LoadBalancer, ServiceState::UnderConstruction { .. }) => 'l',
        (ServiceKind::LoadBalancer, ServiceState::Operational) => 'L',
        (ServiceKind::ApplicationServer, ServiceState::UnderConstruction { .. }) => 'a',
        (ServiceKind::ApplicationServer, ServiceState::Operational) => 'A',
        (ServiceKind::MessageQueue, ServiceState::UnderConstruction { .. }) => 'q',
        (ServiceKind::MessageQueue, ServiceState::Operational) => 'Q',
        (ServiceKind::PubSubTopic, ServiceState::UnderConstruction { .. }) => 't',
        (ServiceKind::PubSubTopic, ServiceState::Operational) => 'T',
        (ServiceKind::EventBus, ServiceState::UnderConstruction { .. }) => 'e',
        (ServiceKind::EventBus, ServiceState::Operational) => 'E',
    }
}

/// Appends the top or bottom edge of the map.
fn push_border(text: &mut String, label: usize, width: u16)
    requires
        label < 10,
    ensures
        final(text)@ == old(text)@ + border_line(label as nat, width as nat),
{
    push_repeated(text, ' ', label + 1);
    text.append("+");
    push_repeated(text, '-', width as usize);
    text.append("+\n");
    assert(text@ =~= old(text)@ + border_line(label as nat, width as nat));
}

/// Appends the last decimal digit of each column number.
fn push_column_digits(text: &mut String, width: u16)
    ensures
        final(text)@ == old(text)@ + column_digits(width as nat),
{
    let mut x: u16 = 0;
    while x < width
        invariant
            x <= width,
            text@ == old(text)@ + column_digits(x as nat),
        decreases width - x,
    {
        let ch = digit((x % 10) as u64);
        text.push(ch);
        x = x + 1;
        assert(text@ =~= old(text)@ + column_digits(x as nat));
    }
}

/// Appends the line of row `y`.
fn push_row(text: &mut String, simulation: &Simulation, label: usize, y: u16)
    requires
        simulation.wf(),
        label == label_width(*simulation),
        label < 10,
        y < simulation.spec_map().spec_size().spec_height(),
    ensures
        final(text)@ == old(text)@ + row_line(*simulation, y as nat),
{
    let width = simulation.map().size().width();
    let number_len = decimal_len(y);
    let padding = if number_len < label {
        label - number_len
    } else {
        0
    };
    push_repeated(text, ' ', padding);
    push_decimal(text, y as u128);
    text.append(" |");
    let ghost start = text@;
    let mut x: u16 = 0;
    while x < width
        invariant
            x <= width,
            width == simulation.spec_map().spec_size().spec_width(),
            simulation.wf(),
            text@ == start + row_tiles(*simulation, y as nat, x as nat),
        decreases width - x,
    {
        let position = GridPosition::new(x, y);
        let symbol = match simulation.map().service_at(position) {
            None => '.',
            Some(id) => match simulation.service(id) {
                Some(service) => service_symbol(service),
                None => '?',
            },
        };
        text.push(symbol);
        x = x + 1;
        assert(text@ =~= start + row_tiles(*simulation, y as nat, x as nat));
    }
    text.append("|\n");
    assert(text@ =~= old(text)@ + row_line(*simulation, y as nat));
}

/// Appends the line listing the network links.
fn push_links(text: &mut String, links: &[NetworkLink])
    ensures
        final(text)@ == old(text)@ + links_line(links@),
{
    text.append("Links: ");
    if links.len() == 0 {
        text.append("none");
        text.append("\n");
        assert(text@ =~= old(text)@ + links_line(links@));
        return;
    }
    let ghost start = text@;
    let mut i: usize = 0;
    while i < links.len()
        invariant
            i <= links@.len(),
            text@ == start + links_text(links@, i as int),
        decreases links@.len() - i,
    {
        if i > 0 {
            text.append(", ");
        }
        push_decimal(text, links[i].from.value() as u128);
        text.append(" -> ");
        push_decimal(text, links[i].to.value() as u128);
        i = i + 1;
        assert(text@ =~= start + links_text(links@, i as int));
    }
    text.append("\n");
    assert(text@ =~= old(text)@ + links_line(links@));
}

/// Appends the line listing the services completed during the tick.
fn push_completed(text: &mut String, ids: &[ServiceId])
    ensures
        final(text)@ == old(text)@ + completed_line(ids@),
{
    text.append("Completed: ");
    if ids.len() == 0 {
        text.append("none");
        text.append("\n");
        assert(text@ =~= old(text)@ + completed_line(ids@));
        return;
    }
    let ghost start = text@;
    let mut i: usize = 0;
    while i < ids.len()
        invariant
            i <= ids@.len(),
            text@ == start + ids_text(ids@, i as int),
        decreases ids@.len() - i,
    {
        if i > 0 {
            text.append(", ");
        }
        push_decimal(text, ids[i].value() as u128);
        i = i + 1;
        assert(text@ =~= start + ids_text(ids@, i as int));
    }
    text.append("\n");
    assert(text@ =~= old(text)@ + completed_line(ids@));
}

/// Appends the line reporting the tick's cyberattack, if there was one.
fn push_attack(text: &mut String, report: &TickReport)
    ensures
        final(text)@ == old(text)@ + attack_line(*report),
{
    match report.cyberattack {
        None => {
            assert(text@ =~= old(text)@ + attack_line(*report));
        },
        Some(attack) => {
            if attack.blocked {
                text.append("Cyberattack: blocked before service ");
                push_decimal(text, attack.target.value() as u128);
                text.append("\n");
            } else {
                text.append("Cyberattack: service ");
                push_decimal(text, attack.target.value() as u128);
                text.append(" disrupted for ");
                push_decimal(text, attack.disruption_ticks as u128);
                text.append(" ticks\n");
            }
            assert(text@ =~= old(text)@ + attack_line(*report));
        },
    }
}

/// Appends the line of a tick's demand, service, money and failover.
fn push_totals(text: &mut String, report: &TickReport)
    ensures
        final(text)@ == old(text)@ + totals_line(*report),
{
    text.append("Traffic: received=");
    push_decimal(text, report.received as u128);
    text.append(" | served=");
    push_decimal(text, report.served as u128);
    text.append(" | dropped=");
    push_decimal(text, report.dropped as u128);
    text.append(" | revenue=");
    push_decimal(text, report.revenue as u128);
    text.append(" | opex=");
    push_decimal(text, report.operating_cost as u128);
    text.append(" | net=");
    push_signed_decimal(text, report.net_income);
    text.append(" | outage_penalty=");
    push_decimal(text, report.outage_penalty as u128);
    text.append(" | failover=");
    push_bool(text, report.failover_active);
    text.append("\n");
    assert(text@ =~= old(text)@ + totals_line(*report));
}

/// Appends the traffic summary of a tick's report.
fn push_report(text: &mut String, report: &TickReport)
    ensures
        final(text)@ == old(text)@ + report_lines(*report),
{
    push_totals(text, report);
    push_completed(text, report.completed_services.as_slice());
    push_attack(text, report);
    assert(text@ =~= old(text)@ + report_lines(*report));
}

/// Renders the public simulation state as a compact, deterministic terminal view.
pub fn render_simulation(simulation: &Simulation, report: Option<&TickReport>) -> (view: String)
    requires
        simulation.wf(),
    ensures
        view@ == rendered_view(*simulation, report),
{
    let size = simulation.map().size();
    let label = decimal_len(size.height() - 1);
    proof {
        lemma_short_label(size.spec_height());
    }
    let mut text = String::new();
    text.append("Tick: ");
    push_decimal(&mut text, simulation.tick().number() as u128);
    text.append(" | Credits: ");
    push_decimal(&mut text, simulation.budget().credits() as u128);
    text.append("\n");
    push_repeated(&mut text, ' ', label + 2);
    push_column_digits(&mut text, size.width());
    text.append("\n");
    push_border(&mut text, label, size.width());
    let ghost start = text@;
    let mut y: u16 = 0;
    while y < size.height()
        invariant
            y <= size.spec_height(),
            size == simulation.spec_map().spec_size(),
            simulation.wf(),
            label == label_width(*simulation),
            label < 10,
            text@ == start + row_lines(*simulation, y as int),
        decreases size.spec_height() - y,
    {
        push_row(&mut text, simulation, label, y);
        y = y + 1;
        assert(text@ =~= start + row_lines(*simulation, y as int));
    }
    push_border(&mut text, label, size.width());
    text.append("Legend: g/G=Gateway, f/F=Firewall, l/L=Load Balancer, a/A=App Server, !=disrupted\n");
    push_links(&mut text, simulation.network().links());
    match report {
        Some(report) => push_report(&mut text, report),
        None => text.append("Traffic: awaiting first tick\n"),
    }
    assert(text@ =~= rendered_view(*simulation, report));
    text
}

/// A row number has fewer than ten digits.
proof fn lemma_short_label(height: u16)
    requires
        height > 0,
    ensures
        decimal((height - 1) as nat).len() < 10,
{
    let n = (height - 1) as nat;
    reveal_with_fuel(decimal, 6);
    assert(n / 10 / 10 / 10 / 10 / 10 == 0);
}


/// The completed-services line lists every completed identity, in order: it reads `none` when
/// there are none, names a single identity alone, and each further identity adds `, ` and its
/// number before the line ends.
pub proof fn law_completed_line_lists_every_identity(ids: Seq<ServiceId>, id: ServiceId)
    ensures
        completed_line(Seq::empty()) == "Completed: "@ + "none"@ + "\n"@,
        completed_line(seq![id]) == "Completed: "@ + decimal(id.spec_value() as nat) + "\n"@,
        ids.len() > 0 ==> completed_line(ids.push(id)) == completed_line(ids).drop_last()
            + ", "@ + decimal(id.spec_value() as nat) + "\n"@,
{
    assert(ids_text(seq![id], 0) == Seq::<char>::empty());
    assert(completed_line(seq![id]) =~= "Completed: "@ + decimal(id.spec_value() as nat)
        + "\n"@);
    if ids.len() > 0 {
        reveal_strlit("\n");
        let body = "Completed: "@ + ids_text(ids, ids.len() as int);
        assert(completed_line(ids) =~= body.push('\n'));
        let longer = ids.push(id);
        lemma_ids_text_prefix(ids, longer, ids.len() as int);
        assert(ids_text(longer, longer.len() as int) == ids_text(ids, ids.len() as int) + ", "@
            + decimal(id.spec_value() as nat));
        assert(completed_line(ids).drop_last() =~= body);
        assert(completed_line(longer) =~= completed_line(ids).drop_last() + ", "@ + decimal(
            id.spec_value() as nat,
        ) + "\n"@);
    }
}

/// The text of the first `count` identities depends only on those identities.
proof fn lemma_ids_text_prefix(ids: Seq<ServiceId>, longer: Seq<ServiceId>, count: int)
    requires
        0 <= count <= ids.len(),
        count <= longer.len(),
        forall|i: int| 0 <= i < count ==> #[trigger] ids[i] == longer[i],
    ensures
        ids_text(longer, count) == ids_text(ids, count),
    decreases count,
{
    if count > 0 {
        lemma_ids_text_prefix(ids, longer, count - 1);
        assert(ids[count - 1] == longer[count - 1]);
    }
}

} // verus!

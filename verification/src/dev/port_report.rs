//! The ports that the services of a workspace hold, as a report and a table.
use vstd::prelude::*;
use crate::collections::TextMap;
use crate::config::workspace::DevWorkspaceConfig;
use crate::numbers::{decimal, decimal_text};
use crate::text::{byte_count, byte_length, chars_of, join_texts, joined, same_text, text_option, texts};

verus! {

/// Whether the supervisor that leased ports still runs.
#[derive(Clone, Copy, Debug, PartialEq, Eq, Structural)]
pub enum PortAllocationStatus {
    Active,
    Orphaned,
}

/// The ports that a supervisor has leased.
#[derive(Debug)]
pub struct WorkspacePortAllocation {
    pub supervisor_pid: u32,
    pub status: PortAllocationStatus,
    /// The named port of each service; empty where it was not recorded
    pub services: TextMap<Option<String>>,
    pub ports: TextMap<u16>,
}

/// The ports of a workspace.
#[derive(Debug)]
pub struct WorkspacePortsReport {
    pub workspace: String,
    pub instances: Vec<ServicePortInstance>,
}

/// The ports of a supervisor.
#[derive(Debug)]
pub struct ServicePortInstance {
    pub supervisor_pid: u32,
    pub status: ServicePortStatus,
    pub services: Vec<ServicePort>,
    pub ports: TextMap<u16>,
}

/// Whether the supervisor still runs.
#[derive(Clone, Copy, Debug, PartialEq, Eq, Structural)]
pub enum ServicePortStatus {
    Active,
    Orphaned,
}

/// The port of a service.
#[derive(Debug)]
pub struct ServicePort {
    pub name: String,
    pub port_name: Option<String>,
    pub port: Option<u16>,
}

/// The port of a service by its contents.
pub struct ServicePortView {
    pub name: Seq<char>,
    pub port_name: Option<Seq<char>>,
    pub port: Option<u16>,
}

/// The port of a service by its contents.
pub open spec fn service_port_view(service: ServicePort) -> ServicePortView {
    ServicePortView { name: service.name@, port_name: text_option(service.port_name), port: service.port }
}

/// The ports of services by their contents.
pub open spec fn service_port_views(services: Seq<ServicePort>) -> Seq<ServicePortView> {
    services.map_values(|service: ServicePort| service_port_view(service))
}

/// What a service holds.
pub open spec fn port_held(
    name: Seq<char>,
    port_name: Option<Seq<char>>,
    ports: Map<Seq<char>, u16>,
) -> ServicePortView {
    ServicePortView {
        name,
        port_name,
        port: match port_name {
            Some(port) => if ports.contains_key(port) {
                Some(ports[port])
            } else {
                None
            },
            None => None,
        },
    }
}

/// The services of a supervisor: those that it recorded, or the configured ones
/// where it recorded none.
pub open spec fn services_held(allocation: WorkspacePortAllocation, config: DevWorkspaceConfig) -> Seq<
    ServicePortView,
> {
    if allocation.services.keys().len() == 0 {
        config.services.keys().map_values(
            |name: Seq<char>| port_held(name, text_option(config.services@[name].port), allocation.ports@),
        )
    } else {
        allocation.services.keys().map_values(
            |name: Seq<char>| port_held(name, text_option(allocation.services@[name]), allocation.ports@),
        )
    }
}

fn service_port(name: &str, port_name: &Option<String>, ports: &TextMap<u16>) -> (service: ServicePort)
    ensures
        service_port_view(service) == port_held(name@, text_option(*port_name), ports@),
{
    let port: Option<u16> = match port_name {
        Some(port) => match ports.get(port) {
            Some(number) => Some(*number),
            None => None,
        },
        None => None,
    };
    let port_name = match port_name {
        Some(port) => Some(port.clone()),
        None => None,
    };
    ServicePort { name: name.to_owned(), port_name, port }
}

/// What a supervisor holds. The services are in the order of their names.
pub fn report_instance(allocation: WorkspacePortAllocation, config: &DevWorkspaceConfig) -> (instance: ServicePortInstance)
    ensures
        instance.supervisor_pid == allocation.supervisor_pid,
        instance.status == (match allocation.status {
            PortAllocationStatus::Active => ServicePortStatus::Active,
            PortAllocationStatus::Orphaned => ServicePortStatus::Orphaned,
        }),
        instance.ports == allocation.ports,
        service_port_views(instance.services@) == services_held(allocation, *config),
{
    let mut services: Vec<ServicePort> = Vec::new();
    let ghost wanted = services_held(allocation, *config);
    let recorded = allocation.services.len();
    if recorded == 0 {
        let ghost names = config.services.keys();
        let count = config.services.len();
        let mut i: usize = 0;
        assert(service_port_views(services@) =~= wanted.take(0));
        while i < count
            invariant
                i <= count,
                count == names.len(),
                names == config.services.keys(),
                wanted == names.map_values(
                    |name: Seq<char>| port_held(name, text_option(config.services@[name].port), allocation.ports@),
                ),
                service_port_views(services@) == wanted.take(i as int),
            decreases count - i,
        {
            let ghost before = service_port_views(services@);
            let service = service_port(
                config.services.key_at(i),
                &config.services.value_at(i).port,
                &allocation.ports,
            );
            assert(service_port_view(service) == wanted[i as int]);
            services.push(service);
            assert(service_port_views(services@) =~= before.push(wanted[i as int]));
            assert(service_port_views(services@) =~= wanted.take(i + 1));
            i += 1;
        }
        assert(wanted.take(i as int) =~= wanted);
    } else {
        let ghost names = allocation.services.keys();
        let mut i: usize = 0;
        assert(service_port_views(services@) =~= wanted.take(0));
        while i < recorded
            invariant
                i <= recorded,
                recorded == names.len(),
                names == allocation.services.keys(),
                wanted == names.map_values(
                    |name: Seq<char>| port_held(name, text_option(allocation.services@[name]), allocation.ports@),
                ),
                service_port_views(services@) == wanted.take(i as int),
            decreases recorded - i,
        {
            let ghost before = service_port_views(services@);
            let service = service_port(
                allocation.services.key_at(i),
                allocation.services.value_at(i),
                &allocation.ports,
            );
            assert(service_port_view(service) == wanted[i as int]);
            services.push(service);
            assert(service_port_views(services@) =~= before.push(wanted[i as int]));
            assert(service_port_views(services@) =~= wanted.take(i + 1));
            i += 1;
        }
        assert(wanted.take(i as int) =~= wanted);
    }
    ServicePortInstance {
        supervisor_pid: allocation.supervisor_pid,
        status: match allocation.status {
            PortAllocationStatus::Active => ServicePortStatus::Active,
            PortAllocationStatus::Orphaned => ServicePortStatus::Orphaned,
        },
        services,
        ports: allocation.ports,
    }
}

/// The ports of a workspace: what each of its supervisors holds.
pub fn workspace_ports_report(
    workspace: String,
    allocations: Vec<WorkspacePortAllocation>,
    config: &DevWorkspaceConfig,
) -> (report: WorkspacePortsReport)
    ensures
        report.workspace == workspace,
        report.instances@.len() == allocations@.len(),
        forall|i: int|
            0 <= i < allocations@.len() ==> {
                &&& (#[trigger] report.instances@[i]).supervisor_pid == allocations@[i].supervisor_pid
                &&& report.instances@[i].status == (match allocations@[i].status {
                    PortAllocationStatus::Active => ServicePortStatus::Active,
                    PortAllocationStatus::Orphaned => ServicePortStatus::Orphaned,
                })
                &&& report.instances@[i].ports == allocations@[i].ports
                &&& service_port_views(report.instances@[i].services@) == services_held(allocations@[i], *config)
            },
{
    let mut left = allocations;
    let mut instances: Vec<ServicePortInstance> = Vec::new();
    let count = left.len();
    let mut i: usize = 0;
    while i < count
        invariant
            i <= count,
            count == allocations@.len(),
            instances@.len() == i,
            left@ == allocations@.skip(i as int),
            forall|k: int|
                0 <= k < i ==> {
                    &&& (#[trigger] instances@[k]).supervisor_pid == allocations@[k].supervisor_pid
                    &&& instances@[k].status == (match allocations@[k].status {
                        PortAllocationStatus::Active => ServicePortStatus::Active,
                        PortAllocationStatus::Orphaned => ServicePortStatus::Orphaned,
                    })
                    &&& instances@[k].ports == allocations@[k].ports
                    &&& service_port_views(instances@[k].services@) == services_held(allocations@[k], *config)
                },
        decreases count - i,
    {
        let first = left.remove(0);
        assert(first == allocations@[i as int]);
        instances.push(report_instance(first, config));
        assert(left@ =~= allocations@.skip(i + 1));
        i += 1;
    }
    WorkspacePortsReport { workspace, instances }
}

// ---------------------------------------------------------------------------
// The table
// ---------------------------------------------------------------------------

struct Row {
    service: String,
    port_name: String,
    port: String,
    status: String,
    supervisor: String,
}

/// A row of the table.
pub struct RowView {
    pub service: Seq<char>,
    pub port_name: Seq<char>,
    pub port: Seq<char>,
    pub status: Seq<char>,
    pub supervisor: Seq<char>,
}

spec fn row_view(row: Row) -> RowView {
    RowView {
        service: row.service@,
        port_name: row.port_name@,
        port: row.port@,
        status: row.status@,
        supervisor: row.supervisor@,
    }
}

spec fn row_views(rows: Seq<Row>) -> Seq<RowView> {
    rows.map_values(|row: Row| row_view(row))
}

/// The word for a status.
pub open spec fn status_text(status: ServicePortStatus) -> Seq<char> {
    match status {
        ServicePortStatus::Active => "active"@,
        ServicePortStatus::Orphaned => "orphaned"@,
    }
}

/// The services with the named port.
pub open spec fn names_with_port(services: Seq<ServicePortView>, port_name: Seq<char>) -> Seq<Seq<char>> {
    services.filter(|service: ServicePortView| service.port_name == Some(port_name)).map_values(
        |service: ServicePortView| service.name,
    )
}

/// A text, or a dash where it is empty.
pub open spec fn or_dash(text: Seq<char>) -> Seq<char> {
    if text.len() == 0 {
        "-"@
    } else {
        text
    }
}

/// The row of a named port.
pub open spec fn port_row(instance: ServicePortInstance, port_name: Seq<char>) -> RowView {
    RowView {
        service: or_dash(joined(names_with_port(service_port_views(instance.services@), port_name), ","@)),
        port_name,
        port: decimal(instance.ports@[port_name] as nat),
        status: status_text(instance.status),
        supervisor: decimal(instance.supervisor_pid as nat),
    }
}

/// The row of a service without a port.
pub open spec fn bare_row(instance: ServicePortInstance, service: ServicePortView) -> RowView {
    RowView {
        service: service.name,
        port_name: "-"@,
        port: "-"@,
        status: status_text(instance.status),
        supervisor: decimal(instance.supervisor_pid as nat),
    }
}

/// The rows of a supervisor: its ports, then its services without one.
pub open spec fn instance_rows(instance: ServicePortInstance) -> Seq<RowView> {
    instance.ports.keys().map_values(|port_name: Seq<char>| port_row(instance, port_name))
        + service_port_views(instance.services@).filter(|service: ServicePortView| service.port_name is None).map_values(
        |service: ServicePortView| bare_row(instance, service),
    )
}

/// The rows of all supervisors.
pub open spec fn report_rows(instances: Seq<ServicePortInstance>) -> Seq<RowView>
    decreases instances.len(),
{
    if instances.len() == 0 {
        Seq::empty()
    } else {
        report_rows(instances.drop_last()) + instance_rows(instances.last())
    }
}

/// The names of the columns.
pub open spec fn header_row() -> RowView {
    RowView {
        service: "SERVICE"@,
        port_name: "PORT NAME"@,
        port: "PORT"@,
        status: "STATUS"@,
        supervisor: "SUPERVISOR"@,
    }
}

/// The larger of two sizes.
pub open spec fn larger(one: nat, other: nat) -> nat {
    if one < other {
        other
    } else {
        one
    }
}

/// The sizes of the columns that are filled up.
pub struct Widths {
    pub service: nat,
    pub port_name: nat,
    pub port: nat,
    pub status: nat,
}

/// The size that each column needs, with the names of the columns, in bytes.
pub open spec fn widths_of(rows: Seq<RowView>) -> Widths
    decreases rows.len(),
{
    if rows.len() == 0 {
        Widths {
            service: byte_length(header_row().service),
            port_name: byte_length(header_row().port_name),
            port: byte_length(header_row().port),
            status: byte_length(header_row().status),
        }
    } else {
        let front = widths_of(rows.drop_last());
        let row = rows.last();
        Widths {
            service: larger(front.service, byte_length(row.service)),
            port_name: larger(front.port_name, byte_length(row.port_name)),
            port: larger(front.port, byte_length(row.port)),
            status: larger(front.status, byte_length(row.status)),
        }
    }
}

/// A text with spaces behind it, up to a number of characters.
pub open spec fn padded(text: Seq<char>, width: nat) -> Seq<char> {
    if text.len() < width {
        text + Seq::new((width - text.len()) as nat, |i: int| ' ')
    } else {
        text
    }
}

/// A line of the table.
pub open spec fn table_line(row: RowView, widths: Widths) -> Seq<char> {
    padded(row.service, widths.service) + "  "@ + padded(row.port_name, widths.port_name) + "  "@ + padded(
        row.port,
        widths.port,
    ) + "  "@ + padded(row.status, widths.status) + "  "@ + row.supervisor + "\n"@
}

/// The lines of the table.
pub open spec fn table_lines(rows: Seq<RowView>, widths: Widths) -> Seq<char>
    decreases rows.len(),
{
    if rows.len() == 0 {
        Seq::empty()
    } else {
        table_lines(rows.drop_last(), widths) + table_line(rows.last(), widths)
    }
}

/// The report as text.
pub open spec fn report_text(instances: Seq<ServicePortInstance>) -> Seq<char> {
    if instances.len() == 0 {
        "No running service port allocations found for this worktree.\n"@
    } else {
        let rows = report_rows(instances);
        let widths = widths_of(rows);
        table_line(header_row(), widths) + table_lines(rows, widths)
    }
}

fn status_word(status: ServicePortStatus) -> (text: String)
    ensures
        text@ == status_text(status),
{
    match status {
        ServicePortStatus::Active => "active".to_owned(),
        ServicePortStatus::Orphaned => "orphaned".to_owned(),
    }
}

fn services_on(instance: &ServicePortInstance, port_name: &str) -> (text: String)
    ensures
        text@ == or_dash(joined(names_with_port(service_port_views(instance.services@), port_name@), ","@)),
{
    let ghost all = service_port_views(instance.services@);
    let ghost kept = |service: ServicePortView| service.port_name == Some(port_name@);
    let mut names: Vec<String> = Vec::new();
    let mut i: usize = 0;
    proof {
        reveal(Seq::filter);
        assert(texts(names@) =~= names_with_port(all.take(0), port_name@));
    }
    while i < instance.services.len()
        invariant
            i <= instance.services@.len(),
            all == service_port_views(instance.services@),
            kept == |service: ServicePortView| service.port_name == Some(port_name@),
            texts(names@) == names_with_port(all.take(i as int), port_name@),
        decreases instance.services@.len() - i,
    {
        let service = &instance.services[i];
        let here = match &service.port_name {
            Some(name) => same_text(name, port_name),
            None => false,
        };
        proof {
            reveal(Seq::filter);
            assert(all[i as int] == service_port_view(*service));
            assert(all.take(i + 1).drop_last() =~= all.take(i as int));
            assert(all.take(i + 1).last() == all[i as int]);
            assert(here == kept(all[i as int]));
        }
        let ghost before = texts(names@);
        if here {
            names.push(service.name.clone());
            assert(texts(names@) =~= before.push(service.name@));
            assert(names_with_port(all.take(i + 1), port_name@) =~= before.push(service.name@));
        }
        i += 1;
    }
    assert(all.take(i as int) =~= all);
    let text = join_texts(&names, ",");
    if text.as_str().is_empty() {
        "-".to_owned()
    } else {
        text
    }
}

fn add_port_rows(rows: &mut Vec<Row>, instance: &ServicePortInstance)
    ensures
        row_views(final(rows)@) == row_views(old(rows)@) + instance.ports.keys().map_values(
            |port_name: Seq<char>| port_row(*instance, port_name),
        ),
{
    let ghost before = row_views(rows@);
    let ghost names = instance.ports.keys();
    let ghost wanted = names.map_values(|port_name: Seq<char>| port_row(*instance, port_name));
    let count = instance.ports.len();
    let mut i: usize = 0;
    assert(row_views(rows@) =~= before + wanted.take(0));
    while i < count
        invariant
            i <= count,
            count == names.len(),
            names == instance.ports.keys(),
            wanted == names.map_values(|port_name: Seq<char>| port_row(*instance, port_name)),
            row_views(rows@) == before + wanted.take(i as int),
        decreases count - i,
    {
        let ghost front = row_views(rows@);
        let port_name = instance.ports.key_at(i);
        let row = Row {
            service: services_on(instance, port_name),
            port_name: port_name.clone(),
            port: decimal_text(*instance.ports.value_at(i) as u128),
            status: status_word(instance.status),
            supervisor: decimal_text(instance.supervisor_pid as u128),
        };
        assert(row_view(row) == wanted[i as int]);
        rows.push(row);
        assert(row_views(rows@) =~= front.push(wanted[i as int]));
        assert(row_views(rows@) =~= before + wanted.take(i + 1));
        i += 1;
    }
    assert(wanted.take(i as int) =~= wanted);
}

fn add_bare_rows(rows: &mut Vec<Row>, instance: &ServicePortInstance)
    ensures
        row_views(final(rows)@) == row_views(old(rows)@) + service_port_views(instance.services@).filter(
            |service: ServicePortView| service.port_name is None,
        ).map_values(|service: ServicePortView| bare_row(*instance, service)),
{
    let ghost before = row_views(rows@);
    let ghost all = service_port_views(instance.services@);
    let ghost kept = |service: ServicePortView| service.port_name is None;
    let ghost shown = |service: ServicePortView| bare_row(*instance, service);
    let mut i: usize = 0;
    proof {
        reveal(Seq::filter);
        assert(row_views(rows@) =~= before + all.take(0).filter(kept).map_values(shown));
    }
    while i < instance.services.len()
        invariant
            i <= instance.services@.len(),
            all == service_port_views(instance.services@),
            kept == |service: ServicePortView| service.port_name is None,
            shown == |service: ServicePortView| bare_row(*instance, service),
            row_views(rows@) == before + all.take(i as int).filter(kept).map_values(shown),
        decreases instance.services@.len() - i,
    {
        let service = &instance.services[i];
        proof {
            reveal(Seq::filter);
            assert(all[i as int] == service_port_view(*service));
            assert(all.take(i + 1).drop_last() =~= all.take(i as int));
            assert(all.take(i + 1).last() == all[i as int]);
        }
        if service.port_name.is_none() {
            let ghost front = row_views(rows@);
            let row = Row {
                service: service.name.clone(),
                port_name: "-".to_owned(),
                port: "-".to_owned(),
                status: status_word(instance.status),
                supervisor: decimal_text(instance.supervisor_pid as u128),
            };
            assert(row_view(row) == shown(all[i as int]));
            rows.push(row);
            assert(row_views(rows@) =~= front.push(shown(all[i as int])));
            assert(all.take(i + 1).filter(kept).map_values(shown) =~= all.take(i as int).filter(kept).map_values(
                shown,
            ).push(shown(all[i as int])));
            assert(row_views(rows@) =~= before + all.take(i + 1).filter(kept).map_values(shown));
        }
        i += 1;
    }
    assert(all.take(i as int) =~= all);
}

fn pad(text: &str, width: u64) -> (result: String)
    ensures
        result@ == padded(text@, width as nat),
{
    let mut result = text.to_owned();
    let mut count: u64 = chars_of(text).len() as u64;
    assert(result@ =~= text@ + Seq::new((count - text@.len()) as nat, |i: int| ' '));
    while count < width
        invariant
            text@.len() <= count,
            count <= width || count == text@.len(),
            result@ == text@ + Seq::new((count - text@.len()) as nat, |i: int| ' '),
        decreases width - count,
    {
        result.push(' ');
        assert(result@ =~= text@ + Seq::new((count + 1 - text@.len()) as nat, |i: int| ' '));
        count += 1;
    }
    assert(text@ + Seq::new(0, |i: int| ' ') =~= text@);
    result
}

fn wider(width: u64, text: &str) -> (result: u64)
    ensures
        result == larger(width as nat, byte_length(text@)),
{
    let size = byte_count(text);
    if width < size {
        size
    } else {
        width
    }
}

struct ColumnWidths {
    service: u64,
    port_name: u64,
    port: u64,
    status: u64,
}

spec fn widths_view(widths: ColumnWidths) -> Widths {
    Widths {
        service: widths.service as nat,
        port_name: widths.port_name as nat,
        port: widths.port as nat,
        status: widths.status as nat,
    }
}

fn measure(rows: &Vec<Row>) -> (widths: ColumnWidths)
    ensures
        widths_view(widths) == widths_of(row_views(rows@)),
{
    let ghost all = row_views(rows@);
    let mut widths = ColumnWidths {
        service: byte_count("SERVICE"),
        port_name: byte_count("PORT NAME"),
        port: byte_count("PORT"),
        status: byte_count("STATUS"),
    };
    let mut i: usize = 0;
    assert(all.take(0) =~= Seq::<RowView>::empty());
    while i < rows.len()
        invariant
            i <= rows@.len(),
            all == row_views(rows@),
            widths_view(widths) == widths_of(all.take(i as int)),
        decreases rows@.len() - i,
    {
        let row = &rows[i];
        proof {
            assert(all[i as int] == row_view(*row));
            assert(all.take(i + 1).drop_last() =~= all.take(i as int));
            assert(all.take(i + 1).last() == all[i as int]);
        }
        widths = ColumnWidths {
            service: wider(widths.service, &row.service),
            port_name: wider(widths.port_name, &row.port_name),
            port: wider(widths.port, &row.port),
            status: wider(widths.status, &row.status),
        };
        i += 1;
    }
    assert(all.take(i as int) =~= all);
    widths
}

fn write_line(row: &Row, widths: &ColumnWidths) -> (line: String)
    ensures
        line@ == table_line(row_view(*row), widths_view(*widths)),
{
    let mut line = pad(&row.service, widths.service);
    line.append("  ");
    line.append(&pad(&row.port_name, widths.port_name));
    line.append("  ");
    line.append(&pad(&row.port, widths.port));
    line.append("  ");
    line.append(&pad(&row.status, widths.status));
    line.append("  ");
    line.append(&row.supervisor);
    line.append("\n");
    line
}

/// The report as a table.
pub fn format_workspace_ports(report: &WorkspacePortsReport) -> (text: String)
    ensures
        text@ == report_text(report.instances@),
{
    if report.instances.len() == 0 {
        return "No running service port allocations found for this worktree.\n".to_owned();
    }
    let mut rows: Vec<Row> = Vec::new();
    let mut i: usize = 0;
    assert(report.instances@.take(0) =~= Seq::<ServicePortInstance>::empty());
    assert(row_views(rows@) =~= Seq::<RowView>::empty());
    while i < report.instances.len()
        invariant
            i <= report.instances@.len(),
            row_views(rows@) == report_rows(report.instances@.take(i as int)),
        decreases report.instances@.len() - i,
    {
        let instance = &report.instances[i];
        let ghost before = row_views(rows@);
        proof {
            assert(report.instances@.take(i + 1).drop_last() =~= report.instances@.take(i as int));
            assert(report.instances@.take(i + 1).last() == report.instances@[i as int]);
        }
        add_port_rows(&mut rows, instance);
        add_bare_rows(&mut rows, instance);
        assert(row_views(rows@) =~= before + instance_rows(*instance));
        i += 1;
    }
    assert(report.instances@.take(i as int) =~= report.instances@);
    let widths = measure(&rows);
    let header = Row {
        service: "SERVICE".to_owned(),
        port_name: "PORT NAME".to_owned(),
        port: "PORT".to_owned(),
        status: "STATUS".to_owned(),
        supervisor: "SUPERVISOR".to_owned(),
    };
    let mut output = write_line(&header, &widths);
    let ghost head = output@;
    let ghost all = row_views(rows@);
    let mut j: usize = 0;
    assert(all.take(0) =~= Seq::<RowView>::empty());
    assert(output@ =~= head + table_lines(all.take(0), widths_view(widths)));
    while j < rows.len()
        invariant
            j <= rows@.len(),
            all == row_views(rows@),
            output@ == head + table_lines(all.take(j as int), widths_view(widths)),
        decreases rows@.len() - j,
    {
        proof {
            assert(all[j as int] == row_view(rows@[j as int]));
            assert(all.take(j + 1).drop_last() =~= all.take(j as int));
            assert(all.take(j + 1).last() == all[j as int]);
        }
        let ghost before = output@;
        let line = write_line(&rows[j], &widths);
        output.append(&line);
        assert(output@ =~= head + table_lines(all.take(j + 1), widths_view(widths)));
        j += 1;
    }
    assert(all.take(j as int) =~= all);
    output
}

/// The report lists the supervisors one behind the other.
pub proof fn supervisors_are_listed_in_turn(one: Seq<ServicePortInstance>, two: Seq<ServicePortInstance>, instance: ServicePortInstance)
    ensures
        report_rows(one + two) == report_rows(one) + report_rows(two),
        report_rows(seq![instance]) == instance_rows(instance),
    decreases two.len(),
{
    assert(seq![instance].drop_last() =~= Seq::<ServicePortInstance>::empty());
    assert(report_rows(seq![instance].drop_last()) =~= Seq::<RowView>::empty());
    assert(report_rows(seq![instance]) =~= instance_rows(instance));
    if two.len() == 0 {
        assert(one + two =~= one);
        assert(report_rows(one) + report_rows(two) =~= report_rows(one));
    } else {
        supervisors_are_listed_in_turn(one, two.drop_last(), instance);
        assert((one + two).drop_last() =~= one + two.drop_last());
        assert((one + two).last() == two.last());
        assert(report_rows(one + two) =~= report_rows(one) + report_rows(two));
    }
}

/// The table has its lines one behind the other.
pub proof fn lines_stand_in_turn(one: Seq<RowView>, two: Seq<RowView>, row: RowView, widths: Widths)
    ensures
        table_lines(one + two, widths) == table_lines(one, widths) + table_lines(two, widths),
        table_lines(seq![row], widths) == table_line(row, widths),
    decreases two.len(),
{
    assert(seq![row].drop_last() =~= Seq::<RowView>::empty());
    assert(table_lines(seq![row].drop_last(), widths) =~= Seq::<char>::empty());
    assert(table_lines(seq![row], widths) =~= table_line(row, widths));
    if two.len() == 0 {
        assert(one + two =~= one);
        assert(table_lines(one, widths) + table_lines(two, widths) =~= table_lines(one, widths));
    } else {
        lines_stand_in_turn(one, two.drop_last(), row, widths);
        assert((one + two).drop_last() =~= one + two.drop_last());
        assert((one + two).last() == two.last());
        assert(table_lines(one + two, widths) =~= table_lines(one, widths) + table_lines(two, widths));
    }
}

/// Each column holds whatever stands in it, the name of the column too.
pub proof fn columns_are_wide_enough(rows: Seq<RowView>, at: int)
    requires
        0 <= at < rows.len(),
    ensures
        byte_length(rows[at].service) <= widths_of(rows).service,
        byte_length(rows[at].port_name) <= widths_of(rows).port_name,
        byte_length(rows[at].port) <= widths_of(rows).port,
        byte_length(rows[at].status) <= widths_of(rows).status,
        widths_of(Seq::empty()).service <= widths_of(rows).service,
        widths_of(Seq::empty()).port_name <= widths_of(rows).port_name,
        widths_of(Seq::empty()).port <= widths_of(rows).port,
        widths_of(Seq::empty()).status <= widths_of(rows).status,
    decreases rows.len(),
{
    let front = rows.drop_last();
    if front.len() == 0 {
        assert(front =~= Seq::<RowView>::empty());
        assert(rows[at] == rows.last());
    } else if at < front.len() {
        assert(front[at] == rows[at]);
        columns_are_wide_enough(front, at);
    } else {
        columns_are_wide_enough(front, 0);
        assert(rows[at] == rows.last());
    }
}

/// A column is no wider than it has to be: something in it, or its name, fills it.
pub proof fn columns_are_filled(rows: Seq<RowView>)
    ensures
        widths_of(rows).service == byte_length(header_row().service) || exists|i: int|
            0 <= i < rows.len() && byte_length((#[trigger] rows[i]).service) == widths_of(rows).service,
        widths_of(rows).port_name == byte_length(header_row().port_name) || exists|i: int|
            0 <= i < rows.len() && byte_length((#[trigger] rows[i]).port_name) == widths_of(rows).port_name,
        widths_of(rows).port == byte_length(header_row().port) || exists|i: int|
            0 <= i < rows.len() && byte_length((#[trigger] rows[i]).port) == widths_of(rows).port,
        widths_of(rows).status == byte_length(header_row().status) || exists|i: int|
            0 <= i < rows.len() && byte_length((#[trigger] rows[i]).status) == widths_of(rows).status,
    decreases rows.len(),
{
    if rows.len() > 0 {
        let front = rows.drop_last();
        let end = rows.len() - 1;
        columns_are_filled(front);
        assert(rows[end] == rows.last());
        assert(forall|i: int| 0 <= i < front.len() ==> #[trigger] front[i] == rows[i]);
        if widths_of(rows).service != byte_length(rows[end].service) && widths_of(front).service != byte_length(
            header_row().service,
        ) {
            let i = choose|i: int| 0 <= i < front.len() && byte_length((#[trigger] front[i]).service) == widths_of(front).service;
            assert(byte_length(rows[i].service) == widths_of(rows).service);
        }
        if widths_of(rows).port_name != byte_length(rows[end].port_name) && widths_of(front).port_name != byte_length(
            header_row().port_name,
        ) {
            let i = choose|i: int|
                0 <= i < front.len() && byte_length((#[trigger] front[i]).port_name) == widths_of(front).port_name;
            assert(byte_length(rows[i].port_name) == widths_of(rows).port_name);
        }
        if widths_of(rows).port != byte_length(rows[end].port) && widths_of(front).port != byte_length(header_row().port) {
            let i = choose|i: int| 0 <= i < front.len() && byte_length((#[trigger] front[i]).port) == widths_of(front).port;
            assert(byte_length(rows[i].port) == widths_of(rows).port);
        }
        if widths_of(rows).status != byte_length(rows[end].status) && widths_of(front).status != byte_length(
            header_row().status,
        ) {
            let i = choose|i: int| 0 <= i < front.len() && byte_length((#[trigger] front[i]).status) == widths_of(front).status;
            assert(byte_length(rows[i].status) == widths_of(rows).status);
        }
    }
}

/// A service holds the number of the port that its supervisor recorded for it, or of
/// the configured one where nothing was recorded at all.
pub proof fn services_hold_their_ports(allocation: WorkspacePortAllocation, config: DevWorkspaceConfig, at: int)
    ensures
        allocation.services.keys().len() == 0 ==> services_held(allocation, config).len() == config.services.keys().len(),
        allocation.services.keys().len() > 0 ==> services_held(allocation, config).len()
            == allocation.services.keys().len(),
        0 <= at < services_held(allocation, config).len() ==> {
            let held = services_held(allocation, config)[at];
            let name = if allocation.services.keys().len() == 0 {
                config.services.keys()[at]
            } else {
                allocation.services.keys()[at]
            };
            let port = if allocation.services.keys().len() == 0 {
                config.services@[name].port
            } else {
                allocation.services@[name]
            };
            &&& held.name == name
            &&& port is None ==> held.port_name is None && held.port is None
            &&& port is Some ==> held.port_name == Some(port->0@)
            &&& port is Some && allocation.ports@.contains_key(port->0@) ==> held.port == Some(allocation.ports@[port->0@])
            &&& port is Some && !allocation.ports@.contains_key(port->0@) ==> held.port is None
        },
{
}

/// Every port of a supervisor has a row, with its number, and so has every service
/// without a port.
pub proof fn ports_and_services_have_rows(instance: ServicePortInstance, port: int, service: int)
    ensures
        0 <= port < instance.ports.keys().len() ==> {
            let row = instance_rows(instance)[port];
            &&& row.port_name == instance.ports.keys()[port]
            &&& row.port == decimal(instance.ports@[instance.ports.keys()[port]] as nat)
            &&& row.supervisor == decimal(instance.supervisor_pid as nat)
        },
        0 <= service < instance.services@.len() && service_port_views(instance.services@)[service].port_name is None
            ==> exists|i: int|
            0 <= i < instance_rows(instance).len() && (#[trigger] instance_rows(instance)[i]).service
                == service_port_views(instance.services@)[service].name && instance_rows(instance)[i].port == "-"@,
{
    let rows = instance_rows(instance);
    let views = service_port_views(instance.services@);
    let bare = |service: ServicePortView| service.port_name is None;
    let first = instance.ports.keys().map_values(|port_name: Seq<char>| port_row(instance, port_name));
    let second = views.filter(bare).map_values(|service: ServicePortView| bare_row(instance, service));
    assert(rows == first + second);
    if 0 <= port < instance.ports.keys().len() {
        assert(rows[port] == first[port]);
    }
    if 0 <= service < views.len() && views[service].port_name is None {
        views.lemma_filter_contains(bare, service);
        let k = choose|k: int| 0 <= k < views.filter(bare).len() && views.filter(bare)[k] == views[service];
        assert(second[k] == bare_row(instance, views[service]));
        assert(rows[first.len() + k] == second[k]);
    }
}

/// What stands in a column is not cut, only followed by spaces up to its width.
pub proof fn columns_are_padded(text: Seq<char>, width: nat, at: int)
    ensures
        text.is_prefix_of(padded(text, width)),
        padded(text, width).len() == (if text.len() < width {
            width
        } else {
            text.len()
        }),
        text.len() <= at < padded(text, width).len() ==> padded(text, width)[at] == ' ',
{
    let all = padded(text, width);
    assert(text =~= all.take(text.len() as int));
}

/// A port is named with the services that have it, and with no others.
pub proof fn services_of_a_port_are_named(services: Seq<ServicePortView>, port_name: Seq<char>, name: Seq<char>)
    ensures
        names_with_port(services, port_name).contains(name) <==> exists|i: int|
            0 <= i < services.len() && (#[trigger] services[i]).name == name && services[i].port_name == Some(port_name),
{
    let fits = |service: ServicePortView| service.port_name == Some(port_name);
    let found = services.filter(fits);
    let names = names_with_port(services, port_name);
    assert(names =~= found.map_values(|service: ServicePortView| service.name));
    if names.contains(name) {
        let k = choose|k: int| 0 <= k < names.len() && names[k] == name;
        services.lemma_filter_pred(fits, k);
        assert(found.contains(found[k]));
        services.lemma_filter_contains_rev(fits, found[k]);
        let i = choose|i: int| 0 <= i < services.len() && services[i] == found[k];
        assert(services[i].name == name);
    }
    if exists|i: int| 0 <= i < services.len() && (#[trigger] services[i]).name == name && services[i].port_name == Some(port_name) {
        let i = choose|i: int|
            0 <= i < services.len() && (#[trigger] services[i]).name == name && services[i].port_name == Some(port_name);
        services.lemma_filter_contains(fits, i);
        let k = choose|k: int| 0 <= k < found.len() && found[k] == services[i];
        assert(names[k] == name);
    }
}

} // verus!

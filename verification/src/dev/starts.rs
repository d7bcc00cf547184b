//! What happens around the start of a service.
use vstd::prelude::*;
use crate::collections::{set_of, TextSet};
use crate::dev::plan::ServicePlan;
use crate::dev::process::LogEvent;
use crate::dev::runner::{event_view, event_views};
use crate::executor::results::ExecutionResult;
use crate::graph::closure::{is_neighbor, is_reached, reached_addresses, Direction, AddressGraph};
use crate::graph::targets::TargetGraph;
use crate::numbers::{decimal, decimal_text};
use crate::text::{
    concat2, concat3, concat4, contains_item, join_texts, joined, lines_of, same_text, split_lines, texts,
};

verus! {

// ---------------------------------------------------------------------------
// Prerequisites
// ---------------------------------------------------------------------------

/// The direct dependencies of a target.
pub open spec fn direct_dependencies(graph: &TargetGraph, address: Seq<char>) -> Set<Seq<char>> {
    Set::new(|other: Seq<char>| is_neighbor(graph, Direction::Dependencies, address, other))
}

/// A target that has to run before another: one that it depends on, directly
/// or not, and that ends by itself.
pub open spec fn is_prerequisite(
    graph: &TargetGraph,
    streams: Set<Seq<char>>,
    address: Seq<char>,
    other: Seq<char>,
) -> bool {
    !streams.contains(other) && is_reached(
        graph,
        Direction::Dependencies,
        direct_dependencies(graph, address),
        other,
    )
}

/// The targets that have to run before a service's target starts.
pub fn collect_non_stream_dependencies(address: &str, graph: &TargetGraph, streams: &TextSet) -> (found: TextSet)
    requires
        graph.well_formed(),
    ensures
        found@ == Set::new(|other: Seq<char>| is_prerequisite(graph, streams@, address@, other)),
{
    let first = graph.next_to(Direction::Dependencies, address);
    let seeds = set_of(&first);
    proof {
        assert(seeds@ =~= direct_dependencies(graph, address@)) by {
            assert forall|other: Seq<char>| seeds@.contains(other) <==> #[trigger] direct_dependencies(
                graph,
                address@,
            ).contains(other) by {
                if graph.node_at(address@) is None {
                    assert(texts(first@).len() == 0);
                }
            }
        }
    }
    let reached = reached_addresses(seeds, graph, Direction::Dependencies);
    let mut found = TextSet::new();
    let ghost items = reached.items();
    let count = reached.len();
    let mut i: usize = 0;
    while i < count
        invariant
            i <= count,
            count == items.len(),
            items == reached.items(),
            reached@ == items.to_set(),
            forall|other: Seq<char>| #[trigger]
                found@.contains(other) <==> items.take(i as int).contains(other) && !streams@.contains(other),
        decreases count - i,
    {
        let ghost before = found@;
        let item = reached.item_at(i);
        if !streams.contains(item) {
            let _ = found.insert(item.clone());
        }
        proof {
            let front = items.take(i as int);
            assert(items.take(i + 1) =~= front.push(item@));
            assert forall|other: Seq<char>| #[trigger]
                found@.contains(other) <==> items.take(i + 1).contains(other) && !streams@.contains(other) by {
                assert(before.contains(other) <==> front.contains(other) && !streams@.contains(other));
                if front.contains(other) {
                    let k = choose|k: int| 0 <= k < front.len() && front[k] == other;
                    assert(items.take(i + 1)[k] == other);
                }
                assert(items.take(i + 1)[i as int] == item@);
            }
        }
        i += 1;
    }
    proof {
        assert(items.take(items.len() as int) =~= items);
        assert forall|other: Seq<char>| found@.contains(other) <==> #[trigger] is_prerequisite(
            graph,
            streams@,
            address@,
            other,
        ) by {
            assert(items.to_set().contains(other) == reached@.contains(other));
        }
        assert(found@ =~= Set::new(|other: Seq<char>| is_prerequisite(graph, streams@, address@, other)));
    }
    found
}

/// What a service's prerequisites printed, and which of them failed.
#[derive(Debug)]
pub struct PrerequisiteRun {
    /// Whether a line is a complaint, and the line
    pub lines: Vec<(bool, String)>,
    pub failures: Vec<String>,
}

/// The lines by kind and text.
pub open spec fn report_view(lines: Seq<(bool, String)>) -> Seq<(bool, Seq<char>)> {
    lines.map_values(|line: (bool, String)| (line.0, line.1@))
}

/// The first line about a prerequisite.
pub open spec fn outcome_line(result: ExecutionResult) -> Seq<char> {
    "["@ + (if result.cached {
        "cached"@
    } else if result.success {
        "ok"@
    } else {
        "failed"@
    }) + "] "@ + result.address@
}

/// The lines about a prerequisite: how it ended and what it printed.
pub open spec fn result_lines(result: ExecutionResult) -> Seq<(bool, Seq<char>)> {
    seq![(!result.success, outcome_line(result))] + lines_of(result.output@).map_values(
        |line: Seq<char>| (!result.success, "["@ + result.address@ + "] "@ + line),
    )
}

/// The lines about prerequisites.
pub open spec fn all_result_lines(results: Seq<ExecutionResult>) -> Seq<(bool, Seq<char>)>
    decreases results.len(),
{
    if results.len() == 0 {
        Seq::empty()
    } else {
        all_result_lines(results.drop_last()) + result_lines(results.last())
    }
}

/// The prerequisites that failed.
pub open spec fn failed_addresses(results: Seq<ExecutionResult>) -> Seq<Seq<char>>
    decreases results.len(),
{
    if results.len() == 0 {
        Seq::empty()
    } else {
        let before = failed_addresses(results.drop_last());
        if !results.last().success && !results.last().skipped {
            before.push(results.last().address@)
        } else {
            before
        }
    }
}

fn add_result_lines(result: &ExecutionResult, lines: &mut Vec<(bool, String)>)
    ensures
        report_view(final(lines)@) == report_view(old(lines)@) + result_lines(*result),
{
    let ghost start = report_view(lines@);
    let stderr = !result.success;
    let word = if result.cached {
        "cached"
    } else if result.success {
        "ok"
    } else {
        "failed"
    };
    let first = concat4("[", word, "] ", &result.address);
    let ghost head = (stderr, first@);
    lines.push((stderr, first));
    assert(report_view(lines@) =~= start.push(head));
    let printed = split_lines(&result.output);
    let ghost all = texts(printed@);
    let ghost mapped = all.map_values(|line: Seq<char>| (!result.success, "["@ + result.address@ + "] "@ + line));
    let mut i: usize = 0;
    assert(report_view(lines@) =~= start + (seq![head] + mapped.take(0)));
    while i < printed.len()
        invariant
            i <= printed@.len(),
            all == texts(printed@),
            stderr == !result.success,
            mapped == all.map_values(
                |line: Seq<char>| (!result.success, "["@ + result.address@ + "] "@ + line),
            ),
            report_view(lines@) == start + (seq![head] + mapped.take(i as int)),
        decreases printed@.len() - i,
    {
        let ghost before = report_view(lines@);
        let line = concat4("[", &result.address, "] ", &printed[i]);
        let ghost entry = (stderr, line@);
        lines.push((stderr, line));
        proof {
            assert(report_view(lines@) =~= before.push(entry));
            assert(mapped[i as int] == entry);
            assert(mapped.take(i + 1) =~= mapped.take(i as int).push(entry));
            assert(report_view(lines@) =~= start + (seq![head] + mapped.take(i + 1)));
        }
        i += 1;
    }
    assert(mapped.take(mapped.len() as int) =~= mapped);
}

/// What a service's prerequisites printed, and which of them failed.
pub fn prerequisite_report(results: &Vec<ExecutionResult>) -> (report: PrerequisiteRun)
    ensures
        report_view(report.lines@) == all_result_lines(results@),
        texts(report.failures@) == failed_addresses(results@),
{
    let mut lines: Vec<(bool, String)> = Vec::new();
    let mut failures: Vec<String> = Vec::new();
    let mut i: usize = 0;
    assert(results@.take(0) =~= Seq::<ExecutionResult>::empty());
    assert(report_view(lines@) =~= Seq::<(bool, Seq<char>)>::empty());
    assert(texts(failures@) =~= Seq::<Seq<char>>::empty());
    while i < results.len()
        invariant
            i <= results@.len(),
            report_view(lines@) == all_result_lines(results@.take(i as int)),
            texts(failures@) == failed_addresses(results@.take(i as int)),
        decreases results@.len() - i,
    {
        proof {
            assert(results@.take(i + 1).drop_last() =~= results@.take(i as int));
            assert(results@.take(i + 1).last() == results@[i as int]);
        }
        add_result_lines(&results[i], &mut lines);
        if !results[i].success && !results[i].skipped {
            let ghost before = texts(failures@);
            failures.push(results[i].address.clone());
            assert(texts(failures@) =~= before.push(results@[i as int].address@));
        }
        i += 1;
    }
    assert(results@.take(results@.len() as int) =~= results@);
    PrerequisiteRun { lines, failures }
}

// ---------------------------------------------------------------------------
// Messages
// ---------------------------------------------------------------------------

fn say(service: &str, line: String, stderr: bool) -> (event: LogEvent)
    ensures
        event_view(event) == (service@, line@, stderr),
{
    LogEvent { service: service.to_owned(), line, stderr }
}

/// What is said when a start begins.
pub fn start_messages(service: &str, target_address: &str, reason: &str) -> (messages: Vec<LogEvent>)
    ensures
        event_views(messages@) == (if reason@ == "initial start"@ {
            Seq::empty()
        } else {
            seq![(service@, "restart requested: "@ + reason@, false)]
        }).push((service@, "running prerequisites for "@ + target_address@, false)),
{
    let mut messages: Vec<LogEvent> = Vec::new();
    assert(event_views(messages@) =~= Seq::<(Seq<char>, Seq<char>, bool)>::empty());
    if !same_text(reason, "initial start") {
        let event = say(service, concat2("restart requested: ", reason), false);
        let ghost said = event_view(event);
        messages.push(event);
        assert(event_views(messages@) =~= seq![said]);
    }
    let ghost before = event_views(messages@);
    let event = say(service, concat2("running prerequisites for ", target_address), false);
    let ghost said = event_view(event);
    messages.push(event);
    assert(event_views(messages@) =~= before.push(said));
    messages
}

/// What is said when the prerequisites have run, and whether the service is
/// started.
pub fn after_prerequisites(
    service: &str,
    target_address: &str,
    failures: &Vec<String>,
    shutting_down: bool,
) -> (decision: (bool, LogEvent))
    ensures
        decision.0 == (failures@.len() == 0 && !shutting_down),
        event_view(decision.1) == (if failures@.len() > 0 {
            (service@, "prerequisite failed: "@ + joined(texts(failures@), ", "@), true)
        } else if shutting_down {
            (service@, "shutdown requested; service start skipped"@, false)
        } else {
            (service@, "starting "@ + target_address@, false)
        }),
{
    if failures.len() > 0 {
        return (false, say(service, concat2("prerequisite failed: ", &join_texts(failures, ", ")), true));
    }
    if shutting_down {
        return (false, say(service, "shutdown requested; service start skipped".to_owned(), false));
    }
    (true, say(service, concat2("starting ", target_address), false))
}

/// What is said where a process could not be started.
pub fn start_failed(service: &str, cause: &str) -> (message: LogEvent)
    ensures
        event_view(message) == (service@, "start failed: "@ + cause@, true),
{
    say(service, concat2("start failed: ", cause), true)
}

// ---------------------------------------------------------------------------
// Changes
// ---------------------------------------------------------------------------

/// A file that has changed.
#[derive(Debug)]
pub struct FileChange {
    /// The file is passed over
    pub ignored: bool,
    /// The file is generated
    pub generated: bool,
    /// The services that have to restart for it
    pub services: Vec<String>,
}

/// The change counts.
pub open spec fn counts(change: FileChange, suppress_generated: bool) -> bool {
    !change.ignored && !(suppress_generated && change.generated)
}

/// Some change that counts concerns the service.
pub open spec fn is_concerned(changes: Seq<FileChange>, suppress_generated: bool, name: Seq<char>) -> bool {
    exists|i: int|
        0 <= i < changes.len() && counts(#[trigger] changes[i], suppress_generated) && texts(
            changes[i].services@,
        ).contains(name)
}

fn concerned(changes: &Vec<FileChange>, suppress_generated: bool, name: &str) -> (found: bool)
    ensures
        found == is_concerned(changes@, suppress_generated, name@),
{
    let mut i: usize = 0;
    while i < changes.len()
        invariant
            i <= changes@.len(),
            forall|k: int|
                0 <= k < i ==> !(counts(#[trigger] changes@[k], suppress_generated) && texts(
                    changes@[k].services@,
                ).contains(name@)),
        decreases changes@.len() - i,
    {
        let change = &changes[i];
        if !change.ignored && !(suppress_generated && change.generated) && contains_item(&change.services, name) {
            assert(counts(changes@[i as int], suppress_generated));
            return true;
        }
        i += 1;
    }
    false
}

/// The services that changes concern, in startup order.
pub fn affected_services(names: &Vec<String>, changes: &Vec<FileChange>, suppress_generated: bool) -> (affected: Vec<
    String,
>)
    ensures
        texts(affected@) == texts(names@).filter(
            |name: Seq<char>| is_concerned(changes@, suppress_generated, name),
        ),
        forall|i: int| 0 <= i < affected@.len() ==> texts(names@).contains((#[trigger] affected@[i])@),
{
    let ghost all = texts(names@);
    let ghost keep = |name: Seq<char>| is_concerned(changes@, suppress_generated, name);
    let mut affected: Vec<String> = Vec::new();
    let mut i: usize = 0;
    proof {
        reveal(Seq::filter);
        assert(texts(affected@) =~= all.take(0).filter(keep));
    }
    while i < names.len()
        invariant
            i <= names@.len(),
            all == texts(names@),
            keep == (|name: Seq<char>| is_concerned(changes@, suppress_generated, name)),
            texts(affected@) == all.take(i as int).filter(keep),
            forall|k: int| 0 <= k < affected@.len() ==> texts(names@).contains((#[trigger] affected@[k])@),
        decreases names@.len() - i,
    {
        proof {
            reveal(Seq::filter);
            assert(all.take(i + 1).drop_last() =~= all.take(i as int));
            assert(all.take(i + 1).last() == names@[i as int]@);
        }
        if concerned(changes, suppress_generated, &names[i]) {
            let ghost before = texts(affected@);
            affected.push(names[i].clone());
            proof {
                assert(texts(affected@) =~= before.push(names@[i as int]@));
                assert(all[i as int] == names@[i as int]@);
            }
        }
        i += 1;
    }
    assert(all.take(all.len() as int) =~= all);
    affected
}

// ---------------------------------------------------------------------------
// The plan for a reader
// ---------------------------------------------------------------------------

/// The line about a service.
pub open spec fn service_line(plan: ServicePlan) -> Seq<char> {
    "[services]   "@ + plan.name@ + (match plan.port {
        Some(port) => " :"@ + decimal(port as nat),
        None => Seq::empty(),
    }) + " -> "@ + plan.target_address@ + (match plan.open_url {
        Some(url) => " [open "@ + url@ + "]"@,
        None => Seq::empty(),
    })
}

fn service_line_text(plan: &ServicePlan) -> (line: String)
    ensures
        line@ == service_line(*plan),
{
    let mut line = concat2("[services]   ", &plan.name);
    if let Some(port) = plan.port {
        line = concat3(&line, " :", &decimal_text(port as u128));
    }
    line = concat3(&line, " -> ", &plan.target_address);
    if let Some(url) = &plan.open_url {
        line = concat4(&line, " [open ", url, "]");
    }
    assert(line@ =~= service_line(*plan));
    line
}

/// The lines that show a plan.
pub open spec fn plan_view(services: Seq<ServicePlan>, control_port: Option<u16>) -> Seq<Seq<char>> {
    let about = services.map_values(|plan: ServicePlan| service_line(plan));
    let lines = seq!["[services] "@ + decimal(services.len()) + " service(s)"@] + about;
    match control_port {
        Some(port) => lines.push("[services]   control :"@ + decimal(port as nat)),
        None => lines,
    }
}

/// The lines that show a plan.
pub fn plan_lines(services: &Vec<ServicePlan>, control_port: Option<u16>) -> (lines: Vec<String>)
    ensures
        texts(lines@) == plan_view(services@, control_port),
{
    let mut lines: Vec<String> = Vec::new();
    lines.push(concat3("[services] ", &decimal_text(services.len() as u128), " service(s)"));
    let ghost head = lines@[0]@;
    let ghost about = services@.map_values(|plan: ServicePlan| service_line(plan));
    let mut i: usize = 0;
    assert(texts(lines@) =~= seq![head] + about.take(0));
    while i < services.len()
        invariant
            i <= services@.len(),
            about == services@.map_values(|plan: ServicePlan| service_line(plan)),
            texts(lines@) == seq![head] + about.take(i as int),
        decreases services@.len() - i,
    {
        let ghost before = texts(lines@);
        let line = service_line_text(&services[i]);
        let ghost said = line@;
        lines.push(line);
        proof {
            assert(texts(lines@) =~= before.push(said));
            assert(about.take(i + 1) =~= about.take(i as int).push(said));
            assert(texts(lines@) =~= seq![head] + about.take(i + 1));
        }
        i += 1;
    }
    assert(about.take(about.len() as int) =~= about);
    if let Some(port) = control_port {
        let ghost before = texts(lines@);
        let line = concat2("[services]   control :", &decimal_text(port as u128));
        let ghost said = line@;
        lines.push(line);
        assert(texts(lines@) =~= before.push(said));
    }
    lines
}

/// The header of the dashboard: the workspace and its branch.
pub fn workspace_header(root: &str, branch: Option<&str>) -> (header: String)
    ensures
        header@ == root@ + "  \u{b7}  "@ + (match branch {
            Some(name) => if name@.len() > 0 {
                name@
            } else {
                "detached"@
            },
            None => "detached"@,
        }),
{
    let name = match branch {
        Some(name) => if name.is_empty() {
            "detached"
        } else {
            name
        },
        None => "detached",
    };
    concat3(root, "  \u{b7}  ", name)
}

/// The lines about prerequisites stand one behind the other, each with its own.
pub proof fn prerequisites_are_told_in_turn(one: Seq<ExecutionResult>, two: Seq<ExecutionResult>, result: ExecutionResult)
    ensures
        all_result_lines(one + two) == all_result_lines(one) + all_result_lines(two),
        all_result_lines(seq![result]) == result_lines(result),
    decreases two.len(),
{
    assert(seq![result].drop_last() =~= Seq::<ExecutionResult>::empty());
    assert(seq![result].last() == result);
    assert(all_result_lines(seq![result].drop_last()) =~= Seq::<(bool, Seq<char>)>::empty());
    assert(all_result_lines(seq![result]) =~= result_lines(result));
    if two.len() == 0 {
        assert(one + two =~= one);
        assert(all_result_lines(one) + all_result_lines(two) =~= all_result_lines(one));
    } else {
        prerequisites_are_told_in_turn(one, two.drop_last(), result);
        assert((one + two).drop_last() =~= one + two.drop_last());
        assert((one + two).last() == two.last());
        assert(all_result_lines(one + two) =~= all_result_lines(one) + all_result_lines(two));
    }
}

/// Each prerequisite that failed is named in its turn, and one that was skipped or
/// went well is not.
pub proof fn failed_prerequisites_are_named(one: Seq<ExecutionResult>, two: Seq<ExecutionResult>, result: ExecutionResult)
    ensures
        failed_addresses(one + two) == failed_addresses(one) + failed_addresses(two),
        failed_addresses(seq![result]) == (if !result.success && !result.skipped {
            seq![result.address@]
        } else {
            Seq::empty()
        }),
    decreases two.len(),
{
    assert(seq![result].drop_last() =~= Seq::<ExecutionResult>::empty());
    assert(seq![result].last() == result);
    assert(failed_addresses(seq![result].drop_last()) =~= Seq::<Seq<char>>::empty());
    assert(failed_addresses(seq![result]) =~= (if !result.success && !result.skipped {
            seq![result.address@]
        } else {
            Seq::empty()
        }));
    if two.len() == 0 {
        assert(one + two =~= one);
        assert(failed_addresses(one) + failed_addresses(two) =~= failed_addresses(one));
    } else {
        failed_prerequisites_are_named(one, two.drop_last(), result);
        assert((one + two).drop_last() =~= one + two.drop_last());
        assert((one + two).last() == two.last());
        assert(failed_addresses(one + two) =~= failed_addresses(one) + failed_addresses(two));
    }
}

/// What a target depends on directly runs before it, and so does what that depends
/// on, unless it does not end by itself; nothing else does.
pub proof fn prerequisites_run_first(
    graph: &TargetGraph,
    streams: Set<Seq<char>>,
    address: Seq<char>,
    all: Set<Seq<char>>,
    one: Seq<char>,
    two: Seq<char>,
)
    ensures
        is_neighbor(graph, Direction::Dependencies, address, one) && !streams.contains(one) ==> is_prerequisite(
            graph,
            streams,
            address,
            one,
        ),
        is_prerequisite(graph, streams, address, one) && is_neighbor(graph, Direction::Dependencies, one, two)
            && !streams.contains(two) ==> is_prerequisite(graph, streams, address, two),
        streams.contains(one) ==> !is_prerequisite(graph, streams, address, one),
        (forall|other: Seq<char>| #[trigger] is_neighbor(graph, Direction::Dependencies, address, other) ==> all.contains(other))
            && (forall|a: Seq<char>, b: Seq<char>|
            all.contains(a) && #[trigger] is_neighbor(graph, Direction::Dependencies, a, b) ==> all.contains(b))
            && is_prerequisite(graph, streams, address, one) ==> all.contains(one),
{
    let direct = direct_dependencies(graph, address);
    if direct.contains(one) {
        crate::graph::closure::seed_is_reached(graph, Direction::Dependencies, direct, one);
    }
    if is_prerequisite(graph, streams, address, one) {
        if is_neighbor(graph, Direction::Dependencies, one, two) {
            crate::graph::closure::reached_extends(graph, Direction::Dependencies, direct, one, two);
        }
        if (forall|other: Seq<char>| #[trigger] is_neighbor(graph, Direction::Dependencies, address, other) ==> all.contains(other))
            && (forall|a: Seq<char>, b: Seq<char>|
            all.contains(a) && #[trigger] is_neighbor(graph, Direction::Dependencies, a, b) ==> all.contains(b)) {
            assert forall|other: Seq<char>| direct.contains(other) implies #[trigger] all.contains(other) by {
                assert(is_neighbor(graph, Direction::Dependencies, address, other));
            }
            crate::graph::closure::reached_stays_inside(graph, Direction::Dependencies, direct, all, one);
        }
    }
}

/// A change concerns the services that watch it; an ignored one concerns none, and
/// neither does a generated one while those are left out.
pub proof fn changes_concern_who_watches(changes: Seq<FileChange>, suppress_generated: bool, name: Seq<char>, at: int)
    requires
        0 <= at < changes.len(),
    ensures
        !changes[at].ignored && !(suppress_generated && changes[at].generated) && texts(changes[at].services@).contains(name)
            ==> is_concerned(changes, suppress_generated, name),
        (forall|i: int|
            0 <= i < changes.len() ==> (#[trigger] changes[i]).ignored || (suppress_generated && changes[i].generated)
                || !texts(changes[i].services@).contains(name)) ==> !is_concerned(changes, suppress_generated, name),
{
    if !changes[at].ignored && !(suppress_generated && changes[at].generated) {
        assert(counts(changes[at], suppress_generated));
    }
}

/// A plan is shown with how many services it has, a line for each of them in order,
/// and its control port where it has one.
pub proof fn plans_are_shown(services: Seq<ServicePlan>, control_port: Option<u16>, at: int)
    ensures
        plan_view(services, control_port).len() == services.len() + (if control_port is Some {
            2int
        } else {
            1
        }),
        0 <= at < services.len() ==> ("[services]   "@ + services[at].name@).is_prefix_of(
            plan_view(services, control_port)[at + 1],
        ),
        control_port matches Some(port) ==> plan_view(services, control_port).last() == "[services]   control :"@
            + decimal(port as nat),
{
    if 0 <= at < services.len() {
        let line = plan_view(services, control_port)[at + 1];
        let front = "[services]   "@ + services[at].name@;
        assert(line == service_line(services[at]));
        assert(front =~= line.take(front.len() as int));
    }
}

/// A prerequisite is said to be cached, well or failed, each as it ended, with its
/// address and all that it printed.
pub proof fn prerequisites_are_told(result: ExecutionResult)
    ensures
        result.cached ==> outcome_line(result) == "["@ + "cached"@ + "] "@ + result.address@,
        !result.cached && result.success ==> outcome_line(result) == "["@ + "ok"@ + "] "@ + result.address@,
        !result.cached && !result.success ==> outcome_line(result) == "["@ + "failed"@ + "] "@ + result.address@,
        result_lines(result).len() == 1 + lines_of(result.output@).len(),
        forall|i: int| 0 <= i < result_lines(result).len() ==> (#[trigger] result_lines(result)[i]).0 == !result.success,
{
}

} // verus!

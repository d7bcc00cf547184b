//! The course of a run: what is started, stopped and answered when.
use vstd::prelude::*;
use crate::collections::TextSet;
use crate::dev::dashboard::{Dashboard, ServiceState};
use crate::dev::plan::ServicePlan;
use crate::dev::process::LogEvent;
use crate::numbers::{signed_decimal, signed_text};
use crate::text::{concat2, same_text, text_option, texts};

verus! {

/// How services are run.
#[derive(Debug, Clone, Copy)]
pub struct DevOptions {
    pub watch: bool,
    pub ui: bool,
    pub dry_run: bool,
    pub use_cache: bool,
}

/// A start that waits for its turn.
#[derive(Debug)]
pub struct QueuedStart {
    pub service: String,
    pub reason: String,
}

/// What is being said, by service and line, and whether it is a complaint.
pub open spec fn event_view(event: LogEvent) -> (Seq<char>, Seq<char>, bool) {
    (event.service@, event.line@, event.stderr)
}

/// What is being said.
pub open spec fn event_views(events: Seq<LogEvent>) -> Seq<(Seq<char>, Seq<char>, bool)> {
    events.map_values(|event: LogEvent| event_view(event))
}

/// The waiting starts by service and reason.
pub open spec fn queue_view(pending: Seq<QueuedStart>) -> Seq<(Seq<char>, Seq<char>)> {
    pending.map_values(|start: QueuedStart| (start.service@, start.reason@))
}

// ---------------------------------------------------------------------------
// Queueing
// ---------------------------------------------------------------------------

/// What queueing changes: the starts that wait, the states that are shown and
/// what was said.
pub struct QueueState {
    pub pending: Seq<(Seq<char>, Seq<char>)>,
    pub states: Map<Seq<char>, ServiceState>,
    pub messages: Seq<(Seq<char>, Seq<char>, bool)>,
}

/// A start of the service waits.
pub open spec fn is_queued(pending: Seq<(Seq<char>, Seq<char>)>, service: Seq<char>) -> bool {
    exists|i: int| 0 <= i < pending.len() && (#[trigger] pending[i]).0 == service
}

/// The waiting starts with another reason for the service's.
pub open spec fn with_reason(
    pending: Seq<(Seq<char>, Seq<char>)>,
    service: Seq<char>,
    reason: Seq<char>,
) -> Seq<(Seq<char>, Seq<char>)>
    decreases pending.len(),
{
    if pending.len() == 0 {
        pending
    } else if pending[0].0 == service {
        seq![(service, reason)] + pending.skip(1)
    } else {
        seq![pending[0]] + with_reason(pending.skip(1), service, reason)
    }
}

/// A restart is asked for. One that waits already keeps its turn and gets the
/// new reason.
pub open spec fn queue_one(state: QueueState, service: Seq<char>, reason: Seq<char>) -> QueueState {
    if is_queued(state.pending, service) {
        QueueState { pending: with_reason(state.pending, service, reason), ..state }
    } else {
        QueueState {
            pending: state.pending.push((service, reason)),
            states: state.states.insert(service, ServiceState::Restarting),
            messages: state.messages.push((service, "restart queued: "@ + reason, false)),
        }
    }
}

/// Restarts are asked for, one after the other.
pub open spec fn queue_all(state: QueueState, services: Seq<Seq<char>>, reason: Seq<char>) -> QueueState
    decreases services.len(),
{
    if services.len() == 0 {
        state
    } else {
        queue_one(queue_all(state, services.drop_last(), reason), services.last(), reason)
    }
}

/// No service waits twice.
pub open spec fn waits_once(pending: Seq<(Seq<char>, Seq<char>)>) -> bool {
    forall|i: int, j: int| 0 <= i < j < pending.len() ==> (#[trigger] pending[i]).0 != (#[trigger] pending[j]).0
}

proof fn with_reason_at(pending: Seq<(Seq<char>, Seq<char>)>, service: Seq<char>, reason: Seq<char>, at: int)
    requires
        0 <= at < pending.len(),
        pending[at].0 == service,
        forall|i: int| 0 <= i < at ==> (#[trigger] pending[i]).0 != service,
    ensures
        with_reason(pending, service, reason) == pending.update(at, (service, reason)),
    decreases pending.len(),
{
    if at == 0 {
        assert(seq![(service, reason)] + pending.skip(1) =~= pending.update(0, (service, reason)));
    } else {
        let rest = pending.skip(1);
        assert forall|i: int| 0 <= i < at - 1 implies (#[trigger] rest[i]).0 != service by {
            assert(rest[i] == pending[i + 1]);
        }
        assert(pending[0].0 != service);
        with_reason_at(rest, service, reason, at - 1);
        assert(seq![pending[0]] + rest.update(at - 1, (service, reason)) =~= pending.update(at, (service, reason)));
    }
}

/// Asking for a restart keeps every service waiting at most once, and the
/// service waits afterwards.
pub proof fn queueing_keeps_turns(state: QueueState, service: Seq<char>, reason: Seq<char>)
    requires
        waits_once(state.pending),
    ensures
        waits_once(queue_one(state, service, reason).pending),
        is_queued(queue_one(state, service, reason).pending, service),
        forall|i: int|
            0 <= i < state.pending.len() ==> (#[trigger] queue_one(state, service, reason).pending[i]).0
                == state.pending[i].0,
        queue_one(state, service, reason).pending.len() <= state.pending.len() + 1,
{
    let after = queue_one(state, service, reason).pending;
    if is_queued(state.pending, service) {
        let at = choose|i: int| 0 <= i < state.pending.len() && (#[trigger] state.pending[i]).0 == service;
        assert forall|i: int| 0 <= i < at implies (#[trigger] state.pending[i]).0 != service by {
            assert(state.pending[i].0 != state.pending[at].0);
        }
        with_reason_at(state.pending, service, reason, at);
        assert(after[at].0 == service);
        assert forall|i: int, j: int| 0 <= i < j < after.len() implies (#[trigger] after[i]).0 != (
        #[trigger] after[j]).0 by {
            assert(after[i].0 == state.pending[i].0 && after[j].0 == state.pending[j].0);
        }
    } else {
        assert(after[state.pending.len() as int].0 == service);
        assert forall|i: int, j: int| 0 <= i < j < after.len() implies (#[trigger] after[i]).0 != (
        #[trigger] after[j]).0 by {
            assert(after[i] == state.pending[i]);
            if j < state.pending.len() {
                assert(after[j] == state.pending[j]);
            }
        }
    }
}

// ---------------------------------------------------------------------------
// The run
// ---------------------------------------------------------------------------

/// How long generated files are left alone after a start, in milliseconds.
pub const SUPPRESS_MILLIS: u64 = 700;

/// The state of a run. Times are milliseconds of a clock that never goes back.
#[derive(Debug)]
pub struct DevRun {
    /// The names of the services in startup order
    pub services: Vec<String>,
    /// The services that have a process
    pub running: TextSet,
    /// The service that is being started
    pub starting: Option<String>,
    /// The starts that wait
    pub pending: Vec<QueuedStart>,
    pub dashboard: Dashboard,
    /// Until when changes of generated files are passed over
    pub suppress_until: u128,
    /// How long changes are collected
    pub debounce: u64,
    /// The changes that were collected
    pub changed: Vec<String>,
    /// When the changes are looked at
    pub deadline: Option<u128>,
    pub quitting: bool,
}

/// A service to start.
#[derive(Debug)]
pub struct StartOrder {
    pub service: String,
    pub reason: String,
    /// Its process is ended first
    pub stop_first: bool,
}

impl DevRun {
    /// What is shown, waits and runs are services of the run, and nothing waits
    /// twice.
    pub open spec fn well_formed(&self) -> bool {
        &&& self.dashboard.well_formed()
        &&& texts(self.services@) == texts(self.dashboard.services@)
        &&& waits_once(queue_view(self.pending@))
        &&& forall|i: int|
            0 <= i < self.pending@.len() ==> texts(self.services@).contains((#[trigger] self.pending@[i]).service@)
        &&& forall|name: Seq<char>| #[trigger] self.running@.contains(name) ==> texts(self.services@).contains(name)
        &&& self.starting is Some ==> texts(self.services@).contains(self.starting->0@)
    }

    /// What queueing changes.
    pub open spec fn queue_state(&self) -> QueueState {
        QueueState {
            pending: queue_view(self.pending@),
            states: self.dashboard.states@,
            messages: Seq::empty(),
        }
    }

    /// All but the queue, the dashboard and the times is the same.
    pub open spec fn same_processes(&self, other: &DevRun) -> bool {
        &&& self.services == other.services
        &&& self.running == other.running
        &&& self.starting == other.starting
        &&& self.debounce == other.debounce
    }

    /// All that watching changes is the same.
    pub open spec fn same_watch(&self, other: &DevRun) -> bool {
        &&& self.suppress_until == other.suppress_until
        &&& self.changed == other.changed
        &&& self.deadline == other.deadline
        &&& self.quitting == other.quitting
    }

    /// All of the dashboard but the states and the screen is the same.
    pub open spec fn same_shown(&self, other: &DevRun) -> bool {
        &&& self.dashboard.logs == other.dashboard.logs
        &&& self.dashboard.services == other.dashboard.services
        &&& self.dashboard.urls == other.dashboard.urls
        &&& self.dashboard.ports == other.dashboard.ports
        &&& self.dashboard.max_scroll == other.dashboard.max_scroll
    }

    /// All of the dashboard but the states is the same.
    pub open spec fn same_screen(&self, other: &DevRun) -> bool {
        self.same_shown(other) && self.dashboard.screen() == other.dashboard.screen()
    }

    /// Begin a run: every service waits for its first start.
    pub fn new(services: &Vec<ServicePlan>, debounce: Option<u64>, now: u64) -> (run: DevRun)
        requires
            services@.len() > 0,
            forall|i: int, j: int|
                0 <= i < j < services@.len() ==> (#[trigger] services@[i]).name@ != (#[trigger] services@[j]).name@,
        ensures
            run.well_formed(),
            texts(run.services@) == services@.map_values(|service: ServicePlan| service.name@),
            run.running@ == Set::<Seq<char>>::empty(),
            run.starting is None,
            queue_view(run.pending@) == services@.map_values(
                |service: ServicePlan| (service.name@, "initial start"@),
            ),
            run.suppress_until == now + SUPPRESS_MILLIS,
            run.debounce == (match debounce {
                Some(window) => window,
                None => 300u64,
            }),
            run.changed@.len() == 0,
            run.deadline is None,
            !run.quitting,
            run.dashboard.is_fresh(services@),
            forall|i: int|
                0 <= i < services@.len() ==> run.dashboard.ports@[(#[trigger] services@[i]).name@] == services@[i].port
                    && text_option(run.dashboard.urls@[services@[i].name@]) == text_option(services@[i].open_url),
    {
        let mut names: Vec<String> = Vec::new();
        let mut pending: Vec<QueuedStart> = Vec::new();
        let mut i: usize = 0;
        while i < services.len()
            invariant
                i <= services@.len(),
                names@.len() == i,
                pending@.len() == i,
                forall|k: int| 0 <= k < i ==> (#[trigger] names@[k])@ == services@[k].name@,
                forall|k: int|
                    0 <= k < i ==> (#[trigger] pending@[k]).service@ == services@[k].name@ && pending@[k].reason@
                        == "initial start"@,
            decreases services@.len() - i,
        {
            names.push(services[i].name.clone());
            pending.push(QueuedStart { service: services[i].name.clone(), reason: "initial start".to_owned() });
            i += 1;
        }
        let dashboard = Dashboard::new(services);
        let debounce: u64 = match debounce {
            Some(window) => window,
            None => 300,
        };
        proof {
            assert forall|i: int| 0 <= i < services@.len() implies dashboard.ports@[(#[trigger] services@[i]).name@]
                == services@[i].port && text_option(dashboard.urls@[services@[i].name@]) == text_option(
                services@[i].open_url,
            ) by {
                assert(dashboard.ports@.contains_key(services@[i].name@));
                assert(dashboard.urls@.contains_key(services@[i].name@));
            }
            assert(texts(names@) =~= services@.map_values(|service: ServicePlan| service.name@));
            assert(queue_view(pending@) =~= services@.map_values(
                |service: ServicePlan| (service.name@, "initial start"@),
            ));
            assert forall|i: int| 0 <= i < pending@.len() implies texts(names@).contains(
                (#[trigger] pending@[i]).service@,
            ) by {
                assert(texts(names@)[i] == pending@[i].service@);
            }
            assert forall|i: int, j: int| 0 <= i < j < queue_view(pending@).len() implies (#[trigger] queue_view(
                pending@,
            )[i]).0 != (#[trigger] queue_view(pending@)[j]).0 by {
                assert(services@[i].name@ != services@[j].name@);
            }
        }
        DevRun {
            services: names,
            running: TextSet::new(),
            starting: None,
            pending,
            dashboard,
            suppress_until: now as u128 + SUPPRESS_MILLIS as u128,
            debounce,
            changed: Vec::new(),
            deadline: None,
            quitting: false,
        }
    }

    /// Whether the run goes on.
    pub fn goes_on(&self, interrupted: bool, shut_down: bool) -> (on: bool)
        ensures
            on == (!self.quitting && !interrupted && !shut_down),
    {
        !self.quitting && !interrupted && !shut_down
    }

    /// Ask for a restart. One that waits already keeps its turn and gets the
    /// new reason.
    pub fn queue_restart(&mut self, service: &str, reason: &str) -> (message: Option<LogEvent>)
        requires
            old(self).well_formed(),
            texts(old(self).services@).contains(service@),
        ensures
            final(self).well_formed(),
            final(self).same_processes(old(self)),
            final(self).same_watch(old(self)),
            final(self).same_screen(old(self)),
            ({
                let after = queue_one(old(self).queue_state(), service@, reason@);
                &&& queue_view(final(self).pending@) == after.pending
                &&& final(self).dashboard.states@ == after.states
                &&& (match message {
                    Some(event) => seq![event_view(event)],
                    None => Seq::empty(),
                }) == after.messages
            }),
    {
        let ghost before = queue_view(self.pending@);
        let ghost state = self.queue_state();
        let ghost old_pending = self.pending@;
        proof {
            queueing_keeps_turns(state, service@, reason@);
        }
        let mut i: usize = 0;
        while i < self.pending.len()
            invariant
                i <= self.pending@.len(),
                self.pending@ == old_pending,
                before == queue_view(self.pending@),
                forall|k: int| 0 <= k < i ==> (#[trigger] before[k]).0 != service@,
                *self == *old(self),
                old(self).well_formed(),
                state == old(self).queue_state(),
                waits_once(queue_one(state, service@, reason@).pending),
            decreases self.pending@.len() - i,
        {
            assert(before[i as int] == (self.pending@[i as int].service@, self.pending@[i as int].reason@));
            if same_text(&self.pending[i].service, service) {
                proof {
                    assert(before[i as int].0 == service@);
                    with_reason_at(before, service@, reason@, i as int);
                }
                self.pending[i].reason = reason.to_owned();
                proof {
                    assert(queue_view(self.pending@) =~= before.update(i as int, (service@, reason@)));
                    assert forall|k: int| 0 <= k < self.pending@.len() implies texts(self.services@).contains(
                        (#[trigger] self.pending@[k]).service@,
                    ) by {
                        assert(old_pending[k].service@ == self.pending@[k].service@);
                    }
                }
                return None;
            }
            i += 1;
        }
        self.pending.push(QueuedStart { service: service.to_owned(), reason: reason.to_owned() });
        self.dashboard.set_state(service, ServiceState::Restarting);
        proof {
            assert(queue_view(self.pending@) =~= before.push((service@, reason@)));
            assert forall|k: int| 0 <= k < self.pending@.len() implies texts(self.services@).contains(
                (#[trigger] self.pending@[k]).service@,
            ) by {
                if k < old_pending.len() {
                    assert(self.pending@[k] == old_pending[k]);
                }
            }
        }
        let event = LogEvent {
            service: service.to_owned(),
            line: concat2("restart queued: ", reason),
            stderr: false,
        };
        assert(state.messages.push(event_view(event)) =~= seq![event_view(event)]);
        Some(event)
    }

    /// Ask for the restarts of several services.
    pub fn queue_restarts(&mut self, services: &Vec<String>, reason: &str) -> (messages: Vec<LogEvent>)
        requires
            old(self).well_formed(),
            forall|i: int|
                0 <= i < services@.len() ==> texts(old(self).services@).contains((#[trigger] services@[i])@),
        ensures
            final(self).well_formed(),
            final(self).same_processes(old(self)),
            final(self).same_watch(old(self)),
            final(self).same_screen(old(self)),
            ({
                let after = queue_all(old(self).queue_state(), texts(services@), reason@);
                &&& queue_view(final(self).pending@) == after.pending
                &&& final(self).dashboard.states@ == after.states
                &&& event_views(messages@) == after.messages
            }),
    {
        let ghost start = self.queue_state();
        let ghost all = texts(services@);
        let ghost first = *self;
        let mut messages: Vec<LogEvent> = Vec::new();
        let mut i: usize = 0;
        assert(all.take(0) =~= Seq::<Seq<char>>::empty());
        assert(event_views(messages@) =~= start.messages);
        while i < services.len()
            invariant
                i <= services@.len(),
                all == texts(services@),
                self.well_formed(),
                self.same_processes(&first),
                self.same_watch(&first),
                self.same_screen(&first),
                forall|k: int|
                    0 <= k < services@.len() ==> texts(self.services@).contains((#[trigger] services@[k])@),
                queue_view(self.pending@) == queue_all(start, all.take(i as int), reason@).pending,
                self.dashboard.states@ == queue_all(start, all.take(i as int), reason@).states,
                event_views(messages@) == queue_all(start, all.take(i as int), reason@).messages,
            decreases services@.len() - i,
        {
            proof {
                assert(all.take(i + 1).drop_last() =~= all.take(i as int));
                assert(all.take(i + 1).last() == services@[i as int]@);
            }
            let ghost before = event_views(messages@);
            let ghost now = queue_all(start, all.take(i as int), reason@);
            let ghost fresh = self.queue_state();
            if let Some(event) = self.queue_restart(&services[i], reason) {
                let ghost said = event_view(event);
                messages.push(event);
                proof {
                    assert(event_views(messages@) =~= before.push(said));
                    let one = queue_one(fresh, services@[i as int]@, reason@);
                    assert(one.messages =~= seq![said]);
                    assert(one.messages[0] == said);
                    if !is_queued(fresh.pending, services@[i as int]@) {
                        assert(one.messages =~= Seq::<(Seq<char>, Seq<char>, bool)>::empty().push(
                            (services@[i as int]@, "restart queued: "@ + reason@, false),
                        ));
                    }
                }
            } else {
                proof {
                    let one = queue_one(fresh, services@[i as int]@, reason@);
                    assert(one.messages.len() == 0);
                    assert(is_queued(fresh.pending, services@[i as int]@));
                }
            }
            i += 1;
        }
        assert(all.take(all.len() as int) =~= all);
        messages
    }

    /// The next service to start, where none is being started.
    pub fn next_start(&mut self) -> (order: Option<StartOrder>)
        requires
            old(self).well_formed(),
        ensures
            final(self).well_formed(),
            final(self).services == old(self).services,
            final(self).debounce == old(self).debounce,
            final(self).same_watch(old(self)),
            final(self).same_screen(old(self)),
            order is Some <==> old(self).starting is None && old(self).pending@.len() > 0,
            order is None ==> queue_view(final(self).pending@) == queue_view(old(self).pending@) && final(self).running@ == old(self).running@ && text_option(final(self).starting) == text_option(old(self).starting)
                && final(self).dashboard.states@ == old(self).dashboard.states@,
            order matches Some(start) ==> {
                let first = queue_view(old(self).pending@)[0];
                &&& start.service@ == first.0
                &&& start.reason@ == first.1
                &&& start.stop_first == old(self).running@.contains(first.0)
                &&& queue_view(final(self).pending@) == queue_view(old(self).pending@).skip(1)
                &&& final(self).running@ == old(self).running@.remove(first.0)
                &&& final(self).starting is Some && final(self).starting->0@ == first.0
                &&& final(self).dashboard.states@ == old(self).dashboard.states@.insert(
                    first.0,
                    if first.1 == "initial start"@ {
                        ServiceState::Starting
                    } else {
                        ServiceState::Restarting
                    },
                )
            },
    {
        if self.starting.is_some() || self.pending.len() == 0 {
            return None;
        }
        let ghost old_pending = self.pending@;
        let ghost before = queue_view(self.pending@);
        let start = self.pending.remove(0);
        proof {
            let after = queue_view(self.pending@);
            assert(before[0] == (start.service@, start.reason@));
            assert(after =~= before.skip(1));
            assert forall|i: int, j: int| 0 <= i < j < after.len() implies (#[trigger] after[i]).0 != (
            #[trigger] after[j]).0 by {
                assert(after[i] == before[i + 1] && after[j] == before[j + 1]);
            }
            assert forall|k: int| 0 <= k < self.pending@.len() implies texts(self.services@).contains(
                (#[trigger] self.pending@[k]).service@,
            ) by {
                assert(self.pending@[k] == old_pending[k + 1]);
            }
            assert(texts(self.services@).contains(old_pending[0].service@));
        }
        let stop_first = self.running.remove(&start.service);
        let state = if same_text(&start.reason, "initial start") {
            ServiceState::Starting
        } else {
            ServiceState::Restarting
        };
        self.dashboard.set_state(&start.service, state);
        self.starting = Some(start.service.clone());
        Some(StartOrder { service: start.service, reason: start.reason, stop_first })
    }

    /// A start has ended: the service runs, or it does not.
    pub fn note_started(&mut self, service: &str, started: bool, now: u64)
        requires
            old(self).well_formed(),
            texts(old(self).services@).contains(service@),
        ensures
            final(self).well_formed(),
            final(self).services == old(self).services,
            final(self).pending == old(self).pending,
            final(self).debounce == old(self).debounce,
            final(self).changed == old(self).changed,
            final(self).deadline == old(self).deadline,
            final(self).quitting == old(self).quitting,
            final(self).same_screen(old(self)),
            final(self).starting is None,
            final(self).running@ == (if started {
                old(self).running@.insert(service@)
            } else {
                old(self).running@
            }),
            final(self).dashboard.states@ == old(self).dashboard.states@.insert(
                service@,
                if started {
                    ServiceState::Running
                } else {
                    ServiceState::Stopped
                },
            ),
            final(self).suppress_until == now + SUPPRESS_MILLIS,
    {
        self.starting = None;
        if started {
            let _ = self.running.insert(service.to_owned());
            self.dashboard.set_state(service, ServiceState::Running);
        } else {
            self.dashboard.set_state(service, ServiceState::Stopped);
        }
        self.suppress_until = now as u128 + SUPPRESS_MILLIS as u128;
    }

    /// The process of a service has ended by itself.
    pub fn note_exit(&mut self, service: &str, code: i32) -> (message: LogEvent)
        requires
            old(self).well_formed(),
        ensures
            final(self).well_formed(),
            final(self).services == old(self).services,
            final(self).pending == old(self).pending,
            final(self).starting == old(self).starting,
            final(self).debounce == old(self).debounce,
            final(self).same_watch(old(self)),
            final(self).same_screen(old(self)),
            final(self).running@ == old(self).running@.remove(service@),
            final(self).dashboard.states@ == old(self).dashboard.states@.insert(service@, ServiceState::Stopped),
            event_view(message) == (service@, "process exited with code "@ + signed_decimal(code as int), true),
    {
        let _ = self.running.remove(service);
        self.dashboard.set_state(service, ServiceState::Stopped);
        LogEvent {
            service: service.to_owned(),
            line: concat2("process exited with code ", &signed_text(code)),
            stderr: true,
        }
    }

    /// Files have changed. They are looked at when no change has been waiting
    /// for longer than the debounce window.
    pub fn note_changes(&mut self, paths: &Vec<String>, now: u64)
        requires
            old(self).well_formed(),
        ensures
            final(self).well_formed(),
            final(self).same_processes(old(self)),
            final(self).pending == old(self).pending,
            final(self).dashboard == old(self).dashboard,
            final(self).suppress_until == old(self).suppress_until,
            final(self).quitting == old(self).quitting,
            texts(final(self).changed@) == texts(old(self).changed@) + texts(paths@),
            final(self).deadline == (match old(self).deadline {
                Some(deadline) => Some(deadline),
                None => Some((now + old(self).debounce) as u128),
            }),
    {
        let ghost before = texts(self.changed@);
        let ghost first = *self;
        let ghost all = texts(paths@);
        let mut i: usize = 0;
        assert(texts(self.changed@) =~= before + all.take(0));
        while i < paths.len()
            invariant
                i <= paths@.len(),
                all == texts(paths@),
                self.well_formed(),
                self.same_processes(&first),
                self.pending == first.pending,
                self.dashboard == first.dashboard,
                self.suppress_until == first.suppress_until,
                self.quitting == first.quitting,
                self.deadline == first.deadline,
                texts(self.changed@) == before + all.take(i as int),
            decreases paths@.len() - i,
        {
            let ghost now_changed = texts(self.changed@);
            self.changed.push(paths[i].clone());
            proof {
                assert(texts(self.changed@) =~= now_changed.push(all[i as int]));
                assert(texts(self.changed@) =~= before + all.take(i + 1));
            }
            i += 1;
        }
        assert(all.take(all.len() as int) =~= all);
        if self.deadline.is_none() {
            self.deadline = Some(now as u128 + self.debounce as u128);
        }
    }

    /// The changes to look at, once their time has come, and whether those of
    /// generated files are passed over.
    pub fn take_changes(&mut self, now: u64) -> (changes: Option<(Vec<String>, bool)>)
        requires
            old(self).well_formed(),
        ensures
            final(self).well_formed(),
            final(self).same_processes(old(self)),
            final(self).pending == old(self).pending,
            final(self).dashboard == old(self).dashboard,
            final(self).suppress_until == old(self).suppress_until,
            final(self).quitting == old(self).quitting,
            changes is Some <==> old(self).deadline is Some && now >= old(self).deadline->0,
            changes is None ==> final(self).changed == old(self).changed && final(self).deadline == old(self).deadline,
            changes matches Some((paths, suppress)) ==> {
                &&& paths == old(self).changed
                &&& suppress == (old(self).starting is Some || now < old(self).suppress_until)
                &&& final(self).changed@.len() == 0
                &&& final(self).deadline is None
            },
    {
        match self.deadline {
            Some(deadline) => {
                if (now as u128) < deadline {
                    return None;
                }
            },
            None => return None,
        }
        let mut paths: Vec<String> = Vec::new();
        std::mem::swap(&mut paths, &mut self.changed);
        self.deadline = None;
        let suppress = self.starting.is_some() || (now as u128) < self.suppress_until;
        Some((paths, suppress))
    }

    /// Changes concern some services: they are restarted.
    pub fn note_affected(&mut self, services: &Vec<String>, now: u64) -> (messages: Vec<LogEvent>)
        requires
            old(self).well_formed(),
            forall|i: int|
                0 <= i < services@.len() ==> texts(old(self).services@).contains((#[trigger] services@[i])@),
        ensures
            final(self).well_formed(),
            final(self).same_processes(old(self)),
            final(self).same_screen(old(self)),
            final(self).changed == old(self).changed,
            final(self).deadline == old(self).deadline,
            final(self).quitting == old(self).quitting,
            ({
                let after = queue_all(
                    old(self).queue_state(),
                    texts(services@),
                    "watched dependency changed"@,
                );
                &&& queue_view(final(self).pending@) == after.pending
                &&& final(self).dashboard.states@ == after.states
                &&& event_views(messages@) == after.messages
            }),
            final(self).suppress_until == (if services@.len() > 0 {
                (now + SUPPRESS_MILLIS) as u128
            } else {
                old(self).suppress_until
            }),
    {
        let messages = self.queue_restarts(services, "watched dependency changed");
        if services.len() > 0 {
            self.suppress_until = now as u128 + SUPPRESS_MILLIS as u128;
        }
        messages
    }

    /// The services that have a process, in the order in which they are ended:
    /// the last one first.
    pub fn stop_order(&self) -> (names: Vec<String>)
        requires
            self.well_formed(),
        ensures
            texts(names@) == texts(self.services@).reverse().filter(|name: Seq<char>| self.running@.contains(name)),
    {
        let ghost all = texts(self.services@).reverse();
        let ghost keep = |name: Seq<char>| self.running@.contains(name);
        let mut names: Vec<String> = Vec::new();
        let count: usize = self.services.len();
        let mut i: usize = 0;
        proof {
            reveal(Seq::filter);
            assert(texts(names@) =~= all.take(0).filter(keep));
        }
        while i < count
            invariant
                i <= count,
                count == self.services@.len(),
                all == texts(self.services@).reverse(),
                keep == (|name: Seq<char>| self.running@.contains(name)),
                texts(names@) == all.take(i as int).filter(keep),
            decreases count - i,
        {
            let name = &self.services[count - 1 - i];
            proof {
                reveal(Seq::filter);
                assert(all.take(i + 1).drop_last() =~= all.take(i as int));
                assert(all.take(i + 1).last() == name@);
            }
            if self.running.contains(name) {
                let ghost before = texts(names@);
                names.push(name.clone());
                assert(texts(names@) =~= before.push(name@));
            }
            i += 1;
        }
        assert(all.take(all.len() as int) =~= all);
        names
    }
}

/// Another reason changes the service's start and no other, and no turn.
pub proof fn reasons_change_alone(pending: Seq<(Seq<char>, Seq<char>)>, service: Seq<char>, reason: Seq<char>)
    ensures
        with_reason(pending, service, reason).len() == pending.len(),
        forall|i: int|
            0 <= i < pending.len() ==> (#[trigger] with_reason(pending, service, reason)[i]).0 == pending[i].0 && (
            pending[i].0 != service ==> with_reason(pending, service, reason)[i] == pending[i]),
        forall|i: int|
            0 <= i < pending.len() && pending[i].0 == service && (forall|j: int|
                0 <= j < i ==> (#[trigger] pending[j]).0 != service) ==> (#[trigger] with_reason(
                pending,
                service,
                reason,
            )[i]).1 == reason,
    decreases pending.len(),
{
    if pending.len() > 0 && pending[0].0 != service {
        let rest = pending.skip(1);
        let after = with_reason(pending, service, reason);
        let inner = with_reason(rest, service, reason);
        reasons_change_alone(rest, service, reason);
        assert forall|i: int| 0 <= i < pending.len() implies (#[trigger] after[i]).0 == pending[i].0 && (pending[i].0 != service
            ==> after[i] == pending[i]) by {
            if i > 0 {
                assert(after[i] == inner[i - 1]);
                assert(rest[i - 1] == pending[i]);
            }
        }
        assert forall|i: int|
            0 <= i < pending.len() && pending[i].0 == service && (forall|j: int|
                0 <= j < i ==> (#[trigger] pending[j]).0 != service) implies (#[trigger] after[i]).1 == reason by {
            assert(after[i] == inner[i - 1]);
            assert(rest[i - 1] == pending[i]);
            assert forall|j: int| 0 <= j < i - 1 implies (#[trigger] rest[j]).0 != service by {
                assert(rest[j] == pending[j + 1]);
            }
        }
    }
}

/// Each service for which a restart is asked waits afterwards, once, and those
/// that waited before keep their turns.
pub proof fn all_asked_for_wait(state: QueueState, services: Seq<Seq<char>>, reason: Seq<char>)
    requires
        waits_once(state.pending),
    ensures
        waits_once(queue_all(state, services, reason).pending),
        forall|i: int|
            0 <= i < services.len() ==> is_queued(queue_all(state, services, reason).pending, #[trigger] services[i]),
        state.pending.len() <= queue_all(state, services, reason).pending.len(),
        forall|i: int|
            0 <= i < state.pending.len() ==> (#[trigger] queue_all(state, services, reason).pending[i]).0
                == state.pending[i].0,
    decreases services.len(),
{
    if services.len() > 0 {
        let front = services.drop_last();
        let before = queue_all(state, front, reason);
        let after = queue_all(state, services, reason);
        all_asked_for_wait(state, front, reason);
        queueing_keeps_turns(before, services.last(), reason);
        reasons_change_alone(before.pending, services.last(), reason);
        assert(after == queue_one(before, services.last(), reason));
        assert(before.pending.len() <= after.pending.len());
        assert forall|i: int| 0 <= i < services.len() implies is_queued(after.pending, #[trigger] services[i]) by {
            if i < front.len() {
                assert(front[i] == services[i]);
                let k = choose|k: int| 0 <= k < before.pending.len() && (#[trigger] before.pending[k]).0 == services[i];
                assert(after.pending[k].0 == services[i]);
            }
        }
        assert forall|i: int| 0 <= i < state.pending.len() implies (#[trigger] after.pending[i]).0 == state.pending[i].0 by {
            assert(before.pending[i].0 == state.pending[i].0);
            assert(after.pending[i].0 == before.pending[i].0);
        }
    }
}

/// A service that did not wait is shown as restarting and said to be queued; one that
/// waited stays as it is shown.
pub proof fn queued_services_are_shown(state: QueueState, service: Seq<char>, reason: Seq<char>)
    ensures
        !is_queued(state.pending, service) ==> queue_one(state, service, reason).states == state.states.insert(
            service,
            ServiceState::Restarting,
        ) && queue_one(state, service, reason).pending == state.pending.push((service, reason)) && queue_one(
            state,
            service,
            reason,
        ).messages.len() == state.messages.len() + 1,
        is_queued(state.pending, service) ==> queue_one(state, service, reason).states == state.states && queue_one(
            state,
            service,
            reason,
        ).messages == state.messages && queue_one(state, service, reason).pending.len() == state.pending.len(),
{
    reasons_change_alone(state.pending, service, reason);
}

/// What leaves the processes, the watch and the screen of a run alone changes nothing
/// of what they are made of.
pub proof fn what_is_left_alone_stays(one: DevRun, two: DevRun)
    ensures
        one.same_processes(&two) ==> one.services == two.services && one.running == two.running && one.starting
            == two.starting && one.debounce == two.debounce,
        one.same_watch(&two) ==> one.suppress_until == two.suppress_until && one.changed == two.changed && one.deadline
            == two.deadline && one.quitting == two.quitting,
        one.same_screen(&two) ==> one.dashboard.logs == two.dashboard.logs && one.dashboard.services
            == two.dashboard.services && one.dashboard.urls == two.dashboard.urls && one.dashboard.ports
            == two.dashboard.ports && one.dashboard.active == two.dashboard.active && one.dashboard.scroll
            == two.dashboard.scroll && one.dashboard.wrap == two.dashboard.wrap && one.dashboard.fullscreen
            == two.dashboard.fullscreen,
{
}

} // verus!

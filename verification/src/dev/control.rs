//! Requests to a run: from its control socket and from its keyboard.
use vstd::prelude::*;
use crate::dev::dashboard::{after_key, is_view_key, DashboardAction, Key};
use crate::dev::process::LogEvent;
use crate::dev::runner::{
    all_asked_for_wait, event_view, event_views, is_queued, queue_all, queue_one, queue_view, queueing_keeps_turns,
    waits_once, DevRun, QueueState, SUPPRESS_MILLIS,
};
use crate::text::{concat2, contains_item, same_text, text_option, texts};

verus! {

// ---------------------------------------------------------------------------
// Admission
// ---------------------------------------------------------------------------

/// A line that was sent to the control socket.
#[derive(Debug)]
pub struct WireControlRequest {
    pub command: String,
    pub service: Option<String>,
    pub token: Option<String>,
}

/// A command that changes what runs.
pub open spec fn changes_state(command: Seq<char>) -> bool {
    command == "restart"@ || command == "restart_all"@ || command == "shutdown"@
}

/// Whether a command changes what runs.
pub fn is_state_changing_control_command(command: &str) -> (changes: bool)
    ensures
        changes == changes_state(command@),
{
    same_text(command, "restart") || same_text(command, "restart_all") || same_text(command, "shutdown")
}

/// What becomes of a request.
#[derive(Debug, Clone, Copy, PartialEq, Eq, Structural)]
pub enum Admission {
    /// It is no request
    Invalid,
    /// It changes what runs and does not have the token
    Refused,
    /// The run ends
    Shutdown,
    /// The run answers it
    Forward,
}

/// What becomes of a request.
pub open spec fn admission(request: Option<WireControlRequest>, token: Seq<char>) -> Admission {
    match request {
        None => Admission::Invalid,
        Some(line) => if changes_state(line.command@) && text_option(line.token) != Some(token) {
            Admission::Refused
        } else if line.command@ == "shutdown"@ {
            Admission::Shutdown
        } else {
            Admission::Forward
        },
    }
}

/// Decide what becomes of a request.
pub fn admit_request(request: &Option<WireControlRequest>, token: &str) -> (decision: Admission)
    ensures
        decision == admission(*request, token@),
{
    match request {
        None => Admission::Invalid,
        Some(line) => {
            if is_state_changing_control_command(&line.command) {
                let known = match &line.token {
                    Some(given) => same_text(given, token),
                    None => false,
                };
                if !known {
                    return Admission::Refused;
                }
            }
            if same_text(&line.command, "shutdown") {
                Admission::Shutdown
            } else {
                Admission::Forward
            }
        },
    }
}

/// What a request is answered that the run does not see.
pub fn refusal_text(decision: Admission) -> (text: Option<&'static str>)
    ensures
        match text {
            Some(message) => (decision == Admission::Invalid && message@ == "invalid json"@) || (decision
                == Admission::Refused && message@ == "valid control token required"@),
            None => decision == Admission::Shutdown || decision == Admission::Forward,
        },
{
    match decision {
        Admission::Invalid => Some("invalid json"),
        Admission::Refused => Some("valid control token required"),
        _ => None,
    }
}

/// Without the token nothing that runs can be changed: such a request is
/// refused, and what is forwarded without it changes nothing.
pub proof fn changes_need_the_token(request: WireControlRequest, token: Seq<char>)
    requires
        text_option(request.token) != Some(token),
    ensures
        changes_state(request.command@) ==> admission(Some(request), token) == Admission::Refused,
        admission(Some(request), token) != Admission::Shutdown,
        admission(Some(request), token) == Admission::Forward ==> !changes_state(request.command@),
{
}

/// The longest request, in bytes.
pub const MAX_REQUEST_BYTES: usize = 65536;

// ---------------------------------------------------------------------------
// Answers
// ---------------------------------------------------------------------------

/// Whether a service has a process.
#[derive(Debug)]
pub struct ServiceStatus {
    pub name: String,
    pub running: bool,
}

/// What a request is answered.
#[derive(Debug)]
pub enum ControlReply {
    Status(Vec<ServiceStatus>),
    Services(Vec<String>),
    Queued,
    Done,
    Failed(String),
}

/// The answer is the one to a request.
pub open spec fn is_reply(run: DevRun, command: Seq<char>, service: Option<Seq<char>>, reply: ControlReply) -> bool {
    if command == "status"@ {
        reply matches ControlReply::Status(list) && list@.len() == run.services@.len() && forall|i: int|
            0 <= i < list@.len() ==> (#[trigger] list@[i]).name@ == run.services@[i]@ && list@[i].running
                == run.running@.contains(run.services@[i]@)
    } else if command == "list_services"@ {
        reply matches ControlReply::Services(list) && texts(list@) == texts(run.services@)
    } else if command == "restart"@ {
        match service {
            None => reply matches ControlReply::Failed(message) && message@ == "restart requires 'service' field"@,
            Some(name) => if texts(run.services@).contains(name) {
                reply is Queued
            } else {
                reply matches ControlReply::Failed(message) && message@ == "unknown service: "@ + name
            },
        }
    } else if command == "restart_all"@ {
        reply is Queued
    } else if command == "shutdown"@ {
        reply is Done
    } else {
        reply matches ControlReply::Failed(message) && message@ == "unknown command: "@ + command
    }
}

/// What a request changes.
pub open spec fn after_request(
    run: DevRun,
    command: Seq<char>,
    service: Option<Seq<char>>,
    interrupted: bool,
) -> QueueState {
    if command == "restart"@ && service is Some && texts(run.services@).contains(service->0) {
        queue_one(run.queue_state(), service->0, "control socket restart"@)
    } else if command == "restart_all"@ && !interrupted {
        queue_all(run.queue_state(), texts(run.services@), "control socket restart_all"@)
    } else {
        run.queue_state()
    }
}

/// Only what a request changes is changed.
pub open spec fn only_queue(before: DevRun, after: DevRun) -> bool {
    &&& after.same_processes(&before)
    &&& after.same_screen(&before)
    &&& after.suppress_until == before.suppress_until
    &&& after.changed == before.changed
    &&& after.deadline == before.deadline
}

impl DevRun {
    /// Answer a request that was admitted.
    pub fn handle_control(&mut self, command: &str, service: Option<&str>, interrupted: bool) -> (answer: (
        ControlReply,
        Vec<LogEvent>,
    ))
        requires
            old(self).well_formed(),
        ensures
            final(self).well_formed(),
            only_queue(*old(self), *final(self)),
            ({
                let name = match service {
                    Some(name) => Some(name@),
                    None => None,
                };
                let after = after_request(*old(self), command@, name, interrupted);
                &&& is_reply(*old(self), command@, name, answer.0)
                &&& queue_view(final(self).pending@) == after.pending
                &&& final(self).dashboard.states@ == after.states
                &&& event_views(answer.1@) == after.messages
                &&& final(self).quitting == (old(self).quitting || command@ == "shutdown"@)
            }),
    {
        proof {
            command_names();
        }
        let mut messages: Vec<LogEvent> = Vec::new();
        assert(event_views(messages@) =~= Seq::<(Seq<char>, Seq<char>, bool)>::empty());
        if same_text(command, "status") {
            let list = self.statuses();
            return (ControlReply::Status(list), messages);
        }
        if same_text(command, "list_services") {
            return (ControlReply::Services(self.services.clone()), messages);
        }
        if same_text(command, "restart") {
            return match service {
                None => (ControlReply::Failed("restart requires 'service' field".to_owned()), messages),
                Some(name) => {
                    if !contains_item(&self.services, name) {
                        return (ControlReply::Failed(concat2("unknown service: ", name)), messages);
                    }
                    if let Some(event) = self.queue_restart(name, "control socket restart") {
                        let ghost said = event_view(event);
                        messages.push(event);
                        assert(event_views(messages@) =~= seq![said]);
                    }
                    (ControlReply::Queued, messages)
                },
            };
        }
        if same_text(command, "restart_all") {
            if !interrupted {
                let all = self.services.clone();
                proof {
                    assert forall|i: int| 0 <= i < all@.len() implies texts(self.services@).contains(
                        (#[trigger] all@[i])@,
                    ) by {
                        assert(texts(self.services@)[i] == all@[i]@);
                    }
                }
                messages = self.queue_restarts(&all, "control socket restart_all");
            }
            return (ControlReply::Queued, messages);
        }
        if same_text(command, "shutdown") {
            self.quitting = true;
            return (ControlReply::Done, messages);
        }
        (ControlReply::Failed(concat2("unknown command: ", command)), messages)
    }

    fn statuses(&self) -> (list: Vec<ServiceStatus>)
        ensures
            list@.len() == self.services@.len(),
            forall|i: int|
                0 <= i < list@.len() ==> (#[trigger] list@[i]).name@ == self.services@[i]@ && list@[i].running
                    == self.running@.contains(self.services@[i]@),
    {
        let mut list: Vec<ServiceStatus> = Vec::new();
        let mut i: usize = 0;
        while i < self.services.len()
            invariant
                i <= self.services@.len(),
                list@.len() == i,
                forall|k: int|
                    0 <= k < i ==> (#[trigger] list@[k]).name@ == self.services@[k]@ && list@[k].running
                        == self.running@.contains(self.services@[k]@),
            decreases self.services@.len() - i,
        {
            let running = self.running.contains(&self.services[i]);
            list.push(ServiceStatus { name: self.services[i].clone(), running });
            i += 1;
        }
        list
    }
}

proof fn command_names()
    ensures
        "status"@ != "list_services"@,
        "status"@ != "restart"@,
        "status"@ != "restart_all"@,
        "status"@ != "shutdown"@,
        "list_services"@ != "restart"@,
        "list_services"@ != "restart_all"@,
        "list_services"@ != "shutdown"@,
        "restart"@ != "restart_all"@,
        "restart"@ != "shutdown"@,
        "restart_all"@ != "shutdown"@,
{
    reveal_strlit("status");
    reveal_strlit("list_services");
    reveal_strlit("restart");
    reveal_strlit("restart_all");
    reveal_strlit("shutdown");
    assert("status"@.len() == 6);
    assert("list_services"@.len() == 13);
    assert("restart"@.len() == 7);
    assert("restart_all"@.len() == 11);
    assert("shutdown"@.len() == 8);
}

/// A request that does not change what runs leaves what waits, what is shown
/// and the end of the run as they are.
pub proof fn questions_change_nothing(run: DevRun, command: Seq<char>, service: Option<Seq<char>>, interrupted: bool)
    requires
        !changes_state(command),
    ensures
        after_request(run, command, service, interrupted) == run.queue_state(),
{
}

// ---------------------------------------------------------------------------
// Keys
// ---------------------------------------------------------------------------

/// What a key does to a run.
#[derive(Debug)]
pub enum RunKey {
    Quit,
    /// A restart was asked for
    Restarted(Option<LogEvent>),
    /// The page of the service that is shown is opened, if it has one
    Open(Option<String>),
    Draw,
    Ignore,
}

impl DevRun {
    /// What a key does.
    pub fn handle_key(&mut self, key: Key, control: bool, now: u64) -> (outcome: RunKey)
        requires
            old(self).well_formed(),
        ensures
            final(self).well_formed(),
            final(self).same_processes(old(self)),
            final(self).same_shown(old(self)),
            final(self).changed == old(self).changed,
            final(self).deadline == old(self).deadline,
            final(self).quitting == old(self).quitting,
            outcome is Quit <==> key == Key::Char('q') || (control && key == Key::Char('c')),
            outcome is Restarted <==> key == Key::Char('r'),
            outcome is Open <==> key == Key::Char('o'),
            outcome is Draw <==> is_view_key(key),
            final(self).dashboard.screen() == after_key(
                old(self).dashboard.screen(),
                old(self).dashboard.services@.len() as int,
                old(self).dashboard.max_scroll as int,
                key,
            ),
            outcome matches RunKey::Restarted(message) ==> {
                let name = old(self).dashboard.services@[old(self).dashboard.active as int]@;
                let after = queue_one(old(self).queue_state(), name, "manual restart"@);
                &&& queue_view(final(self).pending@) == after.pending
                &&& final(self).dashboard.states@ == after.states
                &&& (match message {
                    Some(event) => seq![event_view(event)],
                    None => Seq::empty(),
                }) == after.messages
                &&& final(self).suppress_until == now + SUPPRESS_MILLIS
            },
            !(outcome is Restarted) ==> final(self).pending == old(self).pending && final(self).dashboard.states
                == old(self).dashboard.states && final(self).suppress_until == old(self).suppress_until,
            outcome matches RunKey::Open(url) ==> text_option(url) == (if old(self).dashboard.urls@.contains_key(
                old(self).dashboard.services@[old(self).dashboard.active as int]@,
            ) {
                text_option(
                    old(self).dashboard.urls@[old(self).dashboard.services@[old(self).dashboard.active as int]@],
                )
            } else {
                None
            }),
    {
        match self.dashboard.handle_key(key, control) {
            DashboardAction::Quit => RunKey::Quit,
            DashboardAction::Open => RunKey::Open(self.dashboard.active_url()),
            DashboardAction::Draw => RunKey::Draw,
            DashboardAction::Ignore => RunKey::Ignore,
            DashboardAction::Restart(name) => {
                proof {
                    let shown = self.dashboard.services@;
                    assert(texts(shown)[self.dashboard.active as int] == name@);
                    assert(texts(self.services@)[self.dashboard.active as int] == name@);
                    assert(texts(self.services@).contains(name@));
                }
                let message = self.queue_restart(&name, "manual restart");
                self.suppress_until = now as u128 + SUPPRESS_MILLIS as u128;
                RunKey::Restarted(message)
            },
        }
    }
}

// ---------------------------------------------------------------------------
// The token
// ---------------------------------------------------------------------------

/// A hexadecimal digit in lower case.
pub open spec fn low_hex(value: int) -> char {
    if value < 10 {
        (48 + value) as char
    } else {
        (87 + value) as char
    }
}

/// Bytes in lower case hexadecimal, two digits each.
pub open spec fn hex_of(bytes: Seq<u8>) -> Seq<char>
    decreases bytes.len(),
{
    if bytes.len() == 0 {
        Seq::empty()
    } else {
        hex_of(bytes.drop_last()).push(low_hex(bytes.last() as int / 16)).push(low_hex(bytes.last() as int % 16))
    }
}

/// Bytes in lower case hexadecimal, two digits each.
pub fn hex_text(bytes: &Vec<u8>) -> (text: String)
    ensures
        text@ == hex_of(bytes@),
        text@.len() == 2 * bytes@.len(),
{
    let mut text = String::new();
    let mut i: usize = 0;
    assert(bytes@.take(0) =~= Seq::<u8>::empty());
    while i < bytes.len()
        invariant
            i <= bytes@.len(),
            text@ == hex_of(bytes@.take(i as int)),
            text@.len() == 2 * i,
        decreases bytes@.len() - i,
    {
        proof {
            assert(bytes@.take(i + 1).drop_last() =~= bytes@.take(i as int));
            assert(bytes@.take(i + 1).last() == bytes@[i as int]);
        }
        let high: u8 = bytes[i] / 16;
        let low: u8 = bytes[i] % 16;
        if high < 10 {
            text.push((48 + high) as char);
        } else {
            text.push((87 + high) as char);
        }
        if low < 10 {
            text.push((48 + low) as char);
        } else {
            text.push((87 + low) as char);
        }
        i += 1;
    }
    assert(bytes@.take(bytes@.len() as int) =~= bytes@);
    text
}

/// Each byte is written as its two digits, in its place, so that different bytes
/// are written differently.
pub proof fn bytes_are_written_apart(one: Seq<u8>, two: Seq<u8>)
    ensures
        hex_of(one).len() == 2 * one.len(),
        forall|i: int|
            0 <= i < one.len() ==> hex_of(one)[2 * i] == low_hex(#[trigger] one[i] as int / 16) && hex_of(one)[2 * i + 1]
                == low_hex(one[i] as int % 16),
        hex_of(one) == hex_of(two) ==> one == two,
    decreases one.len() + two.len(),
{
    if one.len() > 0 {
        let front = one.drop_last();
        bytes_are_written_apart(front, Seq::empty());
        assert forall|i: int| 0 <= i < one.len() implies hex_of(one)[2 * i] == low_hex(#[trigger] one[i] as int / 16)
            && hex_of(one)[2 * i + 1] == low_hex(one[i] as int % 16) by {
            if i < front.len() {
                assert(front[i] == one[i]);
                assert(hex_of(one)[2 * i] == hex_of(front)[2 * i]);
                assert(hex_of(one)[2 * i + 1] == hex_of(front)[2 * i + 1]);
            } else {
                assert(one[i] == one.last());
            }
        }
    }
    if hex_of(one) == hex_of(two) {
        written_bytes_are_told(one, two);
    }
}

proof fn hex_length(bytes: Seq<u8>)
    ensures
        hex_of(bytes).len() == 2 * bytes.len(),
    decreases bytes.len(),
{
    if bytes.len() > 0 {
        hex_length(bytes.drop_last());
    }
}

proof fn written_bytes_are_told(one: Seq<u8>, two: Seq<u8>)
    requires
        hex_of(one) == hex_of(two),
    ensures
        one == two,
    decreases one.len(),
{
    hex_length(one);
    hex_length(two);
    if one.len() > 0 {
        let first = hex_of(one.drop_last());
        let second = hex_of(two.drop_last());
        hex_length(one.drop_last());
        hex_length(two.drop_last());
        let all = hex_of(one);
        let end = all.len() as int;
        assert(all[end - 1] == low_hex(one.last() as int % 16) && all[end - 1] == low_hex(two.last() as int % 16));
        assert(all[end - 2] == low_hex(one.last() as int / 16) && all[end - 2] == low_hex(two.last() as int / 16));
        assert(one.last() == two.last());
        assert(first =~= all.take(end - 2));
        assert(second =~= all.take(end - 2));
        written_bytes_are_told(one.drop_last(), two.drop_last());
        assert(one =~= one.drop_last().push(one.last()));
        assert(two =~= two.drop_last().push(two.last()));
    } else {
        assert(one =~= two);
    }
}

/// A restart of a known service makes it wait for its start, a restart of all makes
/// every service wait, and no other request makes any wait.
pub proof fn restarts_are_queued(run: DevRun, service: Seq<char>, interrupted: bool, at: int)
    requires
        waits_once(run.queue_state().pending),
    ensures
        texts(run.services@).contains(service) ==> is_queued(
            after_request(run, "restart"@, Some(service), interrupted).pending,
            service,
        ),
        !texts(run.services@).contains(service) ==> after_request(run, "restart"@, Some(service), interrupted)
            == run.queue_state(),
        !interrupted && 0 <= at < run.services@.len() ==> is_queued(
            after_request(run, "restart_all"@, None, interrupted).pending,
            run.services@[at]@,
        ),
        after_request(run, "shutdown"@, None, interrupted) == run.queue_state(),
{
    reveal_strlit("restart");
    reveal_strlit("restart_all");
    reveal_strlit("shutdown");
    assert("restart"@.len() == 7);
    assert("restart_all"@.len() == 11);
    assert("shutdown"@.len() == 8);
    queueing_keeps_turns(run.queue_state(), service, "control socket restart"@);
    all_asked_for_wait(run.queue_state(), texts(run.services@), "control socket restart_all"@);
    if 0 <= at < run.services@.len() {
        assert(texts(run.services@)[at] == run.services@[at]@);
    }
}

/// With the token a request is done, and a request that cannot be read is refused as
/// that.
pub proof fn the_token_admits(request: WireControlRequest, token: Seq<char>)
    requires
        text_option(request.token) == Some(token),
    ensures
        request.command@ == "shutdown"@ ==> admission(Some(request), token) == Admission::Shutdown,
        request.command@ != "shutdown"@ ==> admission(Some(request), token) == Admission::Forward,
        admission(None, token) == Admission::Invalid,
{
}

/// Each request gets its own answer: what runs, which services there are, that a start
/// waits, that the run ends, or what is wrong.
pub proof fn requests_are_answered(run: DevRun, service: Option<Seq<char>>, reply: ControlReply, command: Seq<char>)
    requires
        is_reply(run, command, service, reply),
    ensures
        command == "status"@ ==> reply is Status && reply->Status_0@.len() == run.services@.len() && forall|i: int|
            0 <= i < run.services@.len() ==> (#[trigger] reply->Status_0@[i]).running == run.running@.contains(
                run.services@[i]@,
            ),
        command == "list_services"@ ==> reply is Services && texts(reply->Services_0@) == texts(run.services@),
        command == "restart"@ && service is None ==> reply is Failed,
        command == "restart"@ && service is Some ==> (reply is Queued <==> texts(run.services@).contains(service->0)) && (
        reply is Failed <==> !texts(run.services@).contains(service->0)),
        command == "restart_all"@ ==> reply is Queued,
        command == "shutdown"@ ==> reply is Done,
        command != "status"@ && command != "list_services"@ && command != "restart"@ && command != "restart_all"@ && command
            != "shutdown"@ ==> reply is Failed,
{
    reveal_strlit("status");
    reveal_strlit("list_services");
    reveal_strlit("restart");
    reveal_strlit("restart_all");
    reveal_strlit("shutdown");
    assert("status"@.len() == 6);
    assert("list_services"@.len() == 13);
    assert("restart"@.len() == 7);
    assert("restart_all"@.len() == 11);
    assert("shutdown"@.len() == 8);
}

/// A request changes what waits and nothing of what runs, is watched or is shown.
pub proof fn requests_change_the_queue_alone(before: DevRun, after: DevRun)
    requires
        only_queue(before, after),
    ensures
        after.services == before.services,
        after.running == before.running,
        after.starting == before.starting,
        after.changed == before.changed,
        after.deadline == before.deadline,
        after.suppress_until == before.suppress_until,
        after.dashboard.logs == before.dashboard.logs,
        after.dashboard.active == before.dashboard.active,
{
}

} // verus!

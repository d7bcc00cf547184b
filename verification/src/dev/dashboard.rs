//! What the dashboard of a run shows and how keys change it.
use vstd::prelude::*;
use vstd::utf8::encode_utf8;
use crate::collections::TextMap;
use crate::dev::ansi::{strip_ansi_sequences, stripped};
use crate::dev::plan::ServicePlan;
use crate::dev::process::LogEvent;
use crate::numbers::{decimal, decimal_text};
use crate::text::{concat2, concat3, text_option, texts};

verus! {

/// The number of lines that are kept of a service.
pub const MAX_LINES: usize = 5000;

/// The number of bytes that are kept of a service.
pub const MAX_LOG_BYTES: u128 = 2097152;

/// What a service is doing.
#[derive(Clone, Copy, Debug, PartialEq, Eq, Structural)]
pub enum ServiceState {
    Starting,
    Running,
    Restarting,
    Stopped,
}

impl ServiceState {
    /// The state for a reader.
    pub fn label(self) -> (text: &'static str)
        ensures
            text@ == (match self {
                ServiceState::Starting => "starting"@,
                ServiceState::Running => "running"@,
                ServiceState::Restarting => "restarting"@,
                ServiceState::Stopped => "stopped"@,
            }),
    {
        match self {
            ServiceState::Starting => "starting",
            ServiceState::Running => "running",
            ServiceState::Restarting => "restarting",
            ServiceState::Stopped => "stopped",
        }
    }
}

/// Where a line comes from, which decides its colour.
#[derive(Clone, Copy, Debug, PartialEq, Eq, Structural)]
pub enum LineKind {
    Output,
    Error,
    System,
}

/// A line that is kept of a service.
#[derive(Debug)]
pub struct LogLine {
    pub text: String,
    pub kind: LineKind,
}

/// The lines that are kept of a service, and their size in bytes.
#[derive(Debug)]
pub struct ServiceLog {
    pub lines: Vec<LogLine>,
    pub bytes: u128,
}

/// The size of lines in bytes.
pub open spec fn total_bytes(lines: Seq<(Seq<char>, LineKind)>) -> int
    decreases lines.len(),
{
    if lines.len() == 0 {
        0
    } else {
        encode_utf8(lines[0].0).len() + total_bytes(lines.skip(1))
    }
}

/// The newest of some lines that are within both limits.
pub open spec fn kept_lines(lines: Seq<(Seq<char>, LineKind)>) -> Seq<(Seq<char>, LineKind)>
    decreases lines.len(),
{
    if lines.len() > 0 && (lines.len() > MAX_LINES || total_bytes(lines) > MAX_LOG_BYTES) {
        kept_lines(lines.skip(1))
    } else {
        lines
    }
}

/// Lines by text and kind.
pub open spec fn line_views(lines: Seq<LogLine>) -> Seq<(Seq<char>, LineKind)> {
    lines.map_values(|line: LogLine| (line.text@, line.kind))
}

impl ServiceLog {
    /// The lines by text and kind.
    pub open spec fn view_lines(&self) -> Seq<(Seq<char>, LineKind)> {
        line_views(self.lines@)
    }

    /// The size is that of the lines, and both are within their limits.
    pub open spec fn well_formed(&self) -> bool {
        &&& self.bytes == total_bytes(self.view_lines())
        &&& self.lines@.len() <= MAX_LINES
        &&& self.bytes <= MAX_LOG_BYTES
    }
}

proof fn total_after_push(lines: Seq<(Seq<char>, LineKind)>, line: (Seq<char>, LineKind))
    ensures
        total_bytes(lines.push(line)) == total_bytes(lines) + encode_utf8(line.0).len(),
    decreases lines.len(),
{
    reveal_with_fuel(total_bytes, 2);
    if lines.len() == 0 {
        assert(lines.push(line).skip(1) =~= Seq::<(Seq<char>, LineKind)>::empty());
        assert(lines.push(line)[0] == line);
    } else {
        assert(lines.push(line)[0] == lines[0]);
        assert(lines.push(line).skip(1) =~= lines.skip(1).push(line));
        total_after_push(lines.skip(1), line);
    }
}

/// What is kept of a service's output is within both limits, and it is the
/// end of the output.
pub proof fn kept_lines_are_the_newest(lines: Seq<(Seq<char>, LineKind)>)
    ensures
        kept_lines(lines).len() <= MAX_LINES,
        total_bytes(kept_lines(lines)) <= MAX_LOG_BYTES,
        kept_lines(lines).is_suffix_of(lines),
    decreases lines.len(),
{
    if lines.len() > 0 && (lines.len() > MAX_LINES || total_bytes(lines) > MAX_LOG_BYTES) {
        let rest = lines.skip(1);
        kept_lines_are_the_newest(rest);
        let kept = kept_lines(rest);
        assert(rest.subrange(rest.len() - kept.len(), rest.len() as int) =~= lines.subrange(
            lines.len() - kept.len(),
            lines.len() as int,
        ));
    } else {
        assert(lines.subrange(0, lines.len() as int) =~= lines);
    }
}

fn byte_count(text: &str) -> (count: u128)
    ensures
        count == encode_utf8(text@).len(),
        count <= usize::MAX,
{
    let bytes = text.as_bytes();
    bytes.len() as u128
}

impl ServiceLog {
    /// Add a line, and drop the oldest lines that are beyond a limit.
    pub fn push(&mut self, text: String, kind: LineKind)
        requires
            old(self).well_formed(),
        ensures
            final(self).well_formed(),
            final(self).view_lines() == kept_lines(old(self).view_lines().push((text@, kind))),
    {
        let ghost all = self.view_lines().push((text@, kind));
        proof {
            total_after_push(self.view_lines(), (text@, kind));
            kept_lines_are_the_newest(all);
        }
        let ghost before = self.view_lines();
        let added: u128 = byte_count(&text);
        self.bytes = self.bytes + added;
        self.lines.push(LogLine { text, kind });
        assert(self.view_lines() =~= all);
        while self.lines.len() > 0 && (self.lines.len() > MAX_LINES || self.bytes > MAX_LOG_BYTES)
            invariant
                self.bytes == total_bytes(self.view_lines()),
                kept_lines(self.view_lines()) == kept_lines(all),
            decreases self.lines@.len(),
        {
            let ghost now = self.view_lines();
            let removed = self.lines.remove(0);
            proof {
                assert(self.view_lines() =~= now.skip(1));
                assert(now[0] == (removed.text@, removed.kind));
                total_is_no_less(now.skip(1));
            }
            self.bytes = self.bytes - byte_count(&removed.text);
        }
        proof {
            kept_lines_are_the_newest(all);
            if self.lines@.len() == 0 {
                assert(self.view_lines().len() == 0);
            }
        }
    }
}

proof fn total_is_no_less(lines: Seq<(Seq<char>, LineKind)>)
    ensures
        total_bytes(lines) >= 0,
    decreases lines.len(),
{
    if lines.len() > 0 {
        total_is_no_less(lines.skip(1));
    }
}

/// The services of a run as they are shown.
#[derive(Debug)]
pub struct Dashboard {
    pub services: Vec<String>,
    pub ports: TextMap<Option<u16>>,
    pub urls: TextMap<Option<String>>,
    pub states: TextMap<ServiceState>,
    pub logs: TextMap<ServiceLog>,
    /// The place of the service whose output is shown
    pub active: usize,
    /// The first line that is shown; the largest number follows the output
    pub scroll: u16,
    pub max_scroll: u16,
    pub wrap: bool,
    pub fullscreen: bool,
}

/// A key of the keyboard.
#[derive(Clone, Copy, Debug, PartialEq, Eq, Structural)]
pub enum Key {
    Char(char),
    Left,
    Right,
    Tab,
    Up,
    Down,
    Enter,
    Other,
}

/// What a key asks for.
#[derive(Debug)]
pub enum DashboardAction {
    /// Nothing
    Ignore,
    Draw,
    Restart(String),
    Open,
    Quit,
}

/// What the dashboard shows apart from states and output.
pub struct Screen {
    pub active: int,
    pub scroll: int,
    pub wrap: bool,
    pub fullscreen: bool,
}

/// The screen after a key, where the run has `count` services.
pub open spec fn after_key(screen: Screen, count: int, max_scroll: int, key: Key) -> Screen {
    let follow = u16::MAX as int;
    match key {
        Key::Char('h') | Key::Left => Screen {
            active: if screen.active > 0 {
                screen.active - 1
            } else {
                0
            },
            scroll: follow,
            ..screen
        },
        Key::Char('l') | Key::Right | Key::Tab => Screen {
            active: if screen.active + 1 < count {
                screen.active + 1
            } else {
                count - 1
            },
            scroll: follow,
            ..screen
        },
        Key::Char('j') | Key::Down => Screen {
            scroll: if screen.scroll == follow {
                follow
            } else if screen.scroll + 1 < max_scroll {
                screen.scroll + 1
            } else {
                max_scroll
            },
            ..screen
        },
        Key::Char('k') | Key::Up => Screen {
            scroll: if screen.scroll == follow {
                if max_scroll > 0 {
                    max_scroll - 1
                } else {
                    0
                }
            } else if screen.scroll > 0 {
                screen.scroll - 1
            } else {
                0
            },
            ..screen
        },
        Key::Char('w') => Screen { wrap: !screen.wrap, ..screen },
        Key::Char('f') => Screen { fullscreen: !screen.fullscreen, ..screen },
        Key::Enter => Screen { scroll: follow, ..screen },
        _ => screen,
    }
}

/// A key that changes what is shown.
pub open spec fn is_view_key(key: Key) -> bool {
    match key {
        Key::Char(c) => c == 'h' || c == 'l' || c == 'j' || c == 'k' || c == 'w' || c == 'f',
        Key::Other => false,
        _ => true,
    }
}

/// The kept lines of every service are unchanged, but for one.
pub open spec fn only_log_of(before: Map<Seq<char>, ServiceLog>, after: Map<Seq<char>, ServiceLog>, name: Seq<char>) -> bool {
    after.dom() == before.dom() && after.remove(name) == before.remove(name)
}

impl Dashboard {
    /// There is a service, the active one is among them, and all that is kept
    /// of their output is within the limits.
    pub open spec fn well_formed(&self) -> bool {
        &&& self.active < self.services@.len()
        &&& forall|name: Seq<char>| #[trigger] self.logs@.contains_key(name) ==> self.logs@[name].well_formed()
    }

    /// What is shown apart from states and output.
    pub open spec fn screen(&self) -> Screen {
        Screen {
            active: self.active as int,
            scroll: self.scroll as int,
            wrap: self.wrap,
            fullscreen: self.fullscreen,
        }
    }

    /// All but the screen is the same.
    pub open spec fn same_content(&self, other: &Dashboard) -> bool {
        &&& self.services == other.services
        &&& self.ports == other.ports
        &&& self.urls == other.urls
        &&& self.states == other.states
        &&& self.logs == other.logs
        &&& self.max_scroll == other.max_scroll
    }

    /// Nothing was started or said, and the first service is shown, with the
    /// ports and addresses of the plan.
    pub open spec fn is_fresh(&self, services: Seq<ServicePlan>) -> bool {
        &&& texts(self.services@) == services.map_values(|service: ServicePlan| service.name@)
        &&& forall|name: Seq<char>| #[trigger]
            self.logs@.contains_key(name) <==> texts(self.services@).contains(name)
        &&& forall|name: Seq<char>| #[trigger]
            self.logs@.contains_key(name) ==> self.logs@[name].view_lines().len() == 0
        &&& forall|name: Seq<char>| #[trigger]
            self.states@.contains_key(name) <==> texts(self.services@).contains(name)
        &&& forall|name: Seq<char>| #[trigger]
            self.states@.contains_key(name) ==> self.states@[name] == ServiceState::Stopped
        &&& forall|name: Seq<char>| #[trigger]
            self.ports@.contains_key(name) ==> exists|i: int|
                0 <= i < services.len() && (#[trigger] services[i]).name@ == name && services[i].port
                    == self.ports@[name]
        &&& forall|name: Seq<char>| #[trigger]
            self.urls@.contains_key(name) ==> exists|i: int|
                0 <= i < services.len() && (#[trigger] services[i]).name@ == name && text_option(
                    services[i].open_url,
                ) == text_option(self.urls@[name])
        &&& forall|i: int|
            0 <= i < services.len() ==> self.ports@.contains_key((#[trigger] services[i]).name@)
                && self.urls@.contains_key(services[i].name@)
        &&& self.active == 0
        &&& self.scroll == u16::MAX
        &&& self.max_scroll == 0
        &&& self.wrap
        &&& !self.fullscreen
    }

    /// The dashboard of a run that has not started anything.
    pub fn new(services: &Vec<ServicePlan>) -> (dashboard: Dashboard)
        requires
            services@.len() > 0,
        ensures
            dashboard.well_formed(),
            dashboard.is_fresh(services@),
    {
        let mut names: Vec<String> = Vec::new();
        let mut ports: TextMap<Option<u16>> = TextMap::new();
        let mut urls: TextMap<Option<String>> = TextMap::new();
        let mut states: TextMap<ServiceState> = TextMap::new();
        let mut logs: TextMap<ServiceLog> = TextMap::new();
        let mut i: usize = 0;
        while i < services.len()
            invariant
                i <= services@.len(),
                names@.len() == i,
                forall|k: int| 0 <= k < i ==> (#[trigger] names@[k])@ == services@[k].name@,
                forall|name: Seq<char>| #[trigger] logs@.contains_key(name) <==> texts(names@).contains(name),
                forall|name: Seq<char>| #[trigger]
                    logs@.contains_key(name) ==> logs@[name].view_lines().len() == 0 && logs@[name].well_formed(),
                forall|name: Seq<char>| #[trigger] states@.contains_key(name) <==> texts(names@).contains(name),
                forall|name: Seq<char>| #[trigger]
                    states@.contains_key(name) ==> states@[name] == ServiceState::Stopped,
                forall|name: Seq<char>| #[trigger]
                    ports@.contains_key(name) ==> exists|k: int|
                        0 <= k < i && (#[trigger] services@[k]).name@ == name && services@[k].port == ports@[name],
                forall|name: Seq<char>| #[trigger]
                    urls@.contains_key(name) ==> exists|k: int|
                        0 <= k < i && (#[trigger] services@[k]).name@ == name && text_option(services@[k].open_url)
                            == text_option(urls@[name]),
                forall|k: int|
                    0 <= k < i ==> ports@.contains_key((#[trigger] services@[k]).name@) && urls@.contains_key(
                        services@[k].name@,
                    ),
            decreases services@.len() - i,
        {
            let service = &services[i];
            let ghost before = texts(names@);
            let ghost old_logs = logs@;
            let ghost old_states = states@;
            let ghost old_ports = ports@;
            let ghost old_urls = urls@;
            names.push(service.name.clone());
            ports.insert(service.name.clone(), service.port);
            let url = match &service.open_url {
                Some(url) => Some(url.clone()),
                None => None,
            };
            urls.insert(service.name.clone(), url);
            states.insert(service.name.clone(), ServiceState::Stopped);
            logs.insert(service.name.clone(), ServiceLog { lines: Vec::new(), bytes: 0 });
            proof {
                let name = service.name@;
                assert(texts(names@) =~= before.push(name));
                assert forall|other: Seq<char>| #[trigger]
                    texts(names@).contains(other) <==> before.contains(other) || other == name by {
                    if before.contains(other) {
                        let k = choose|k: int| 0 <= k < before.len() && before[k] == other;
                        assert(texts(names@)[k] == other);
                    }
                    assert(texts(names@)[i as int] == name);
                }
                assert forall|other: Seq<char>| #[trigger] logs@.contains_key(other) <==> texts(names@).contains(
                    other,
                ) by {
                    assert(old_logs.contains_key(other) <==> before.contains(other));
                }
                assert forall|other: Seq<char>| #[trigger] states@.contains_key(other) <==> texts(names@).contains(
                    other,
                ) by {
                    assert(old_states.contains_key(other) <==> before.contains(other));
                }
                assert forall|other: Seq<char>| #[trigger] ports@.contains_key(other) implies exists|k: int|
                    0 <= k < i + 1 && (#[trigger] services@[k]).name@ == other && services@[k].port == ports@[other] by {
                    if other == name {
                        assert(services@[i as int].name@ == other);
                    } else {
                        assert(old_ports.contains_key(other));
                    }
                }
                assert forall|other: Seq<char>| #[trigger] urls@.contains_key(other) implies exists|k: int|
                    0 <= k < i + 1 && (#[trigger] services@[k]).name@ == other && text_option(services@[k].open_url)
                        == text_option(urls@[other]) by {
                    if other == name {
                        assert(services@[i as int].name@ == other);
                    } else {
                        assert(old_urls.contains_key(other));
                    }
                }
            }
            i += 1;
        }
        assert(texts(names@) =~= services@.map_values(|service: ServicePlan| service.name@));
        Dashboard {
            services: names,
            ports,
            urls,
            states,
            logs,
            active: 0,
            scroll: u16::MAX,
            max_scroll: 0,
            wrap: true,
            fullscreen: false,
        }
    }

    /// The service whose output is shown.
    pub fn active_name(&self) -> (name: &str)
        requires
            self.well_formed(),
        ensures
            name@ == self.services@[self.active as int]@,
    {
        self.services[self.active].as_str()
    }

    /// Where the service whose output is shown can be opened.
    pub fn active_url(&self) -> (url: Option<String>)
        requires
            self.well_formed(),
        ensures
            text_option(url) == (if self.urls@.contains_key(self.services@[self.active as int]@) {
                text_option(self.urls@[self.services@[self.active as int]@])
            } else {
                None
            }),
    {
        match self.urls.get(self.active_name()) {
            Some(Some(url)) => Some(url.clone()),
            _ => None,
        }
    }

    /// Note what a service is doing.
    pub fn set_state(&mut self, service: &str, state: ServiceState)
        requires
            old(self).well_formed(),
        ensures
            final(self).well_formed(),
            final(self).states@ == old(self).states@.insert(service@, state),
            final(self).services == old(self).services,
            final(self).ports == old(self).ports,
            final(self).urls == old(self).urls,
            final(self).logs == old(self).logs,
            final(self).screen() == old(self).screen(),
            final(self).max_scroll == old(self).max_scroll,
    {
        self.states.insert(service.to_owned(), state);
    }

    fn push_styled(&mut self, service: &str, line: &str, kind: LineKind)
        requires
            old(self).well_formed(),
        ensures
            final(self).well_formed(),
            only_log_of(old(self).logs@, final(self).logs@, service@),
            old(self).logs@.contains_key(service@) ==> final(self).logs@[service@].view_lines() == kept_lines(
                old(self).logs@[service@].view_lines().push((stripped(line@), kind)),
            ),
            final(self).services == old(self).services,
            final(self).ports == old(self).ports,
            final(self).urls == old(self).urls,
            final(self).states == old(self).states,
            final(self).screen() == old(self).screen(),
            final(self).max_scroll == old(self).max_scroll,
    {
        let ghost before = self.logs@;
        match self.logs.remove(service) {
            None => {
                assert(self.logs@ =~= before);
            },
            Some(taken) => {
                let mut log = taken;
                log.push(strip_ansi_sequences(line), kind);
                self.logs.insert(service.to_owned(), log);
                assert(self.logs@.dom() =~= before.dom());
                assert(self.logs@.remove(service@) =~= before.remove(service@));
            },
        }
    }

    /// Keep a line that a service printed, without its control sequences.
    pub fn push_log(&mut self, event: &LogEvent)
        requires
            old(self).well_formed(),
        ensures
            final(self).well_formed(),
            only_log_of(old(self).logs@, final(self).logs@, event.service@),
            old(self).logs@.contains_key(event.service@) ==> final(self).logs@[event.service@].view_lines()
                == kept_lines(
                old(self).logs@[event.service@].view_lines().push(
                    (stripped(event.line@), if event.stderr {
                        LineKind::Error
                    } else {
                        LineKind::Output
                    }),
                ),
            ),
            final(self).services == old(self).services,
            final(self).ports == old(self).ports,
            final(self).urls == old(self).urls,
            final(self).states == old(self).states,
            final(self).screen() == old(self).screen(),
            final(self).max_scroll == old(self).max_scroll,
    {
        let kind = if event.stderr {
            LineKind::Error
        } else {
            LineKind::Output
        };
        self.push_styled(&event.service, &event.line, kind);
    }

    /// Keep a line that Aster says about a service.
    pub fn push_system(&mut self, service: &str, line: &str)
        requires
            old(self).well_formed(),
        ensures
            final(self).well_formed(),
            only_log_of(old(self).logs@, final(self).logs@, service@),
            old(self).logs@.contains_key(service@) ==> final(self).logs@[service@].view_lines() == kept_lines(
                old(self).logs@[service@].view_lines().push((stripped(line@), LineKind::System)),
            ),
            final(self).services == old(self).services,
            final(self).ports == old(self).ports,
            final(self).urls == old(self).urls,
            final(self).states == old(self).states,
            final(self).screen() == old(self).screen(),
            final(self).max_scroll == old(self).max_scroll,
    {
        self.push_styled(service, line, LineKind::System);
    }

    /// What a key does.
    pub fn handle_key(&mut self, key: Key, control: bool) -> (action: DashboardAction)
        requires
            old(self).well_formed(),
        ensures
            final(self).well_formed(),
            final(self).same_content(old(self)),
            ({
                let quits = key == Key::Char('q') || (control && key == Key::Char('c'));
                &&& action is Quit <==> quits
                &&& action is Restart <==> key == Key::Char('r')
                &&& action matches DashboardAction::Restart(name) ==> name@ == old(self).services@[old(
                    self,
                ).active as int]@
                &&& action is Open <==> key == Key::Char('o')
                &&& action is Draw <==> is_view_key(key)
                &&& final(self).screen() == after_key(
                    old(self).screen(),
                    old(self).services@.len() as int,
                    old(self).max_scroll as int,
                    key,
                )
            }),
    {
        let count: usize = self.services.len();
        match key {
            Key::Char(c) => {
                if c == 'c' && control {
                    return DashboardAction::Quit;
                }
                if c == 'q' {
                    return DashboardAction::Quit;
                }
                if c == 'r' {
                    return DashboardAction::Restart(self.active_name().to_owned());
                }
                if c == 'o' {
                    return DashboardAction::Open;
                }
                if c == 'h' {
                    self.show_previous();
                } else if c == 'l' {
                    self.show_next();
                } else if c == 'j' {
                    self.scroll_down();
                } else if c == 'k' {
                    self.scroll_up();
                } else if c == 'w' {
                    self.wrap = !self.wrap;
                } else if c == 'f' {
                    self.fullscreen = !self.fullscreen;
                } else {
                    return DashboardAction::Ignore;
                }
                DashboardAction::Draw
            },
            Key::Left => {
                self.show_previous();
                DashboardAction::Draw
            },
            Key::Right | Key::Tab => {
                self.show_next();
                DashboardAction::Draw
            },
            Key::Down => {
                self.scroll_down();
                DashboardAction::Draw
            },
            Key::Up => {
                self.scroll_up();
                DashboardAction::Draw
            },
            Key::Enter => {
                self.scroll = u16::MAX;
                DashboardAction::Draw
            },
            Key::Other => DashboardAction::Ignore,
        }
    }

    fn show_previous(&mut self)
        requires
            old(self).well_formed(),
        ensures
            final(self).well_formed(),
            final(self).same_content(old(self)),
            final(self).screen() == after_key(
                old(self).screen(),
                old(self).services@.len() as int,
                old(self).max_scroll as int,
                Key::Left,
            ),
    {
        if self.active > 0 {
            self.active = self.active - 1;
        }
        self.scroll = u16::MAX;
    }

    fn show_next(&mut self)
        requires
            old(self).well_formed(),
        ensures
            final(self).well_formed(),
            final(self).same_content(old(self)),
            final(self).screen() == after_key(
                old(self).screen(),
                old(self).services@.len() as int,
                old(self).max_scroll as int,
                Key::Right,
            ),
    {
        let count: usize = self.services.len();
        if self.active < count - 1 {
            self.active = self.active + 1;
        }
        self.scroll = u16::MAX;
    }

    fn scroll_down(&mut self)
        requires
            old(self).well_formed(),
        ensures
            final(self).well_formed(),
            final(self).same_content(old(self)),
            final(self).screen() == after_key(
                old(self).screen(),
                old(self).services@.len() as int,
                old(self).max_scroll as int,
                Key::Down,
            ),
    {
        if self.scroll != u16::MAX {
            let next: u16 = self.scroll + 1;
            self.scroll = if next < self.max_scroll {
                next
            } else {
                self.max_scroll
            };
        }
    }

    fn scroll_up(&mut self)
        requires
            old(self).well_formed(),
        ensures
            final(self).well_formed(),
            final(self).same_content(old(self)),
            final(self).screen() == after_key(
                old(self).screen(),
                old(self).services@.len() as int,
                old(self).max_scroll as int,
                Key::Up,
            ),
    {
        let from: u16 = if self.scroll == u16::MAX {
            self.max_scroll
        } else {
            self.scroll
        };
        self.scroll = if from > 0 {
            from - 1
        } else {
            0
        };
    }

    /// The first line to show, where the output takes `rendered` lines and the
    /// area has `height` of them.
    pub fn place_scroll(&mut self, rendered: usize, height: usize) -> (first: u16)
        requires
            old(self).well_formed(),
        ensures
            final(self).well_formed(),
            final(self).services == old(self).services,
            final(self).ports == old(self).ports,
            final(self).urls == old(self).urls,
            final(self).states == old(self).states,
            final(self).logs == old(self).logs,
            final(self).active == old(self).active,
            final(self).wrap == old(self).wrap,
            final(self).fullscreen == old(self).fullscreen,
            final(self).max_scroll == (if rendered <= height {
                0
            } else if rendered - height <= u16::MAX {
                rendered - height
            } else {
                u16::MAX as int
            }),
            first == (if old(self).scroll <= final(self).max_scroll {
                old(self).scroll
            } else {
                final(self).max_scroll
            }),
            final(self).scroll == (if old(self).scroll == u16::MAX {
                u16::MAX
            } else {
                first
            }),
    {
        let beyond: usize = if rendered > height {
            rendered - height
        } else {
            0
        };
        self.max_scroll = if beyond <= u16::MAX as usize {
            beyond as u16
        } else {
            u16::MAX
        };
        if self.scroll == u16::MAX {
            return self.max_scroll;
        }
        if self.scroll > self.max_scroll {
            self.scroll = self.max_scroll;
        }
        self.scroll
    }

    /// How a service is listed: its name with its port, and its state.
    pub fn service_label(&self, at: usize) -> (label: (String, String))
        requires
            self.well_formed(),
            at < self.services@.len(),
        ensures
            ({
                let name = self.services@[at as int]@;
                let port = if self.ports@.contains_key(name) {
                    self.ports@[name]
                } else {
                    None
                };
                &&& label.0@ == name + (match port {
                    Some(number) => " :"@ + decimal(number as nat),
                    None => Seq::empty(),
                })
                &&& label.1@ == "  "@ + state_text(
                    if self.states@.contains_key(name) {
                        self.states@[name]
                    } else {
                        ServiceState::Stopped
                    },
                )
            }),
    {
        let name = &self.services[at];
        let state = match self.states.get(name) {
            Some(state) => *state,
            None => ServiceState::Stopped,
        };
        let first = match self.ports.get(name) {
            Some(Some(number)) => {
                let text = concat2(name, &concat2(" :", &decimal_text(*number as u128)));
                text
            },
            _ => {
                assert(name@ =~= name@ + Seq::<char>::empty());
                name.clone()
            },
        };
        (first, concat2("  ", state.label()))
    }
}

/// The state for a reader.
pub open spec fn state_text(state: ServiceState) -> Seq<char> {
    match state {
        ServiceState::Starting => "starting"@,
        ServiceState::Running => "running"@,
        ServiceState::Restarting => "restarting"@,
        ServiceState::Stopped => "stopped"@,
    }
}

/// The last lines of the screen: where the control token is, and the keys.
pub fn footer_text(control_token_path: Option<&str>) -> (text: String)
    ensures
        text@ == (match control_token_path {
            Some(path) => "control token: "@ + path@ + "\n"@ + help_text(),
            None => help_text(),
        }),
{
    let help = "h/l service  j/k scroll  Enter bottom  r restart  o open  w wrap  f fullscreen  q quit";
    match control_token_path {
        Some(path) => concat2(&concat3("control token: ", path, "\n"), help),
        None => help.to_owned(),
    }
}

/// The keys for a reader.
pub open spec fn help_text() -> Seq<char> {
    "h/l service  j/k scroll  Enter bottom  r restart  o open  w wrap  f fullscreen  q quit"@
}

/// More of a service's output is never kept than fits, nor less: any longer end of
/// it is beyond one of the limits.
pub proof fn kept_lines_are_the_most(lines: Seq<(Seq<char>, LineKind)>, left_out: int)
    requires
        0 <= left_out <= lines.len(),
        lines.len() - left_out > kept_lines(lines).len(),
    ensures
        lines.skip(left_out).len() > MAX_LINES || total_bytes(lines.skip(left_out)) > MAX_LOG_BYTES,
    decreases lines.len(),
{
    if left_out == 0 {
        assert(lines.skip(0) =~= lines);
    } else {
        assert(lines.skip(left_out) =~= lines.skip(1).skip(left_out - 1));
        kept_lines_are_the_most(lines.skip(1), left_out - 1);
    }
}

/// The size of lines is that of the first of them and that of the others.
pub proof fn sizes_add_up(one: Seq<(Seq<char>, LineKind)>, two: Seq<(Seq<char>, LineKind)>)
    ensures
        total_bytes(one + two) == total_bytes(one) + total_bytes(two),
        one.len() == 1 ==> total_bytes(one) == encode_utf8(one[0].0).len(),
    decreases one.len(),
{
    if one.len() == 0 {
        assert(one + two =~= two);
    } else {
        sizes_add_up(one.skip(1), two);
        assert((one + two).skip(1) =~= one.skip(1) + two);
        assert((one + two)[0] == one[0]);
        assert(total_bytes(Seq::<(Seq<char>, LineKind)>::empty()) == 0);
        if one.len() == 1 {
            assert(one.skip(1) =~= Seq::<(Seq<char>, LineKind)>::empty());
        }
    }
}

/// The shown service is always one of the run, each step goes to the next one, and
/// a step there and back between two services changes nothing of what is shown.
pub proof fn keys_move_between_services(screen: Screen, count: int, max_scroll: int)
    requires
        0 <= screen.active < count,
    ensures
        0 <= after_key(screen, count, max_scroll, Key::Left).active < count,
        0 <= after_key(screen, count, max_scroll, Key::Right).active < count,
        screen.active + 1 < count ==> after_key(screen, count, max_scroll, Key::Right).active == screen.active + 1
            && after_key(after_key(screen, count, max_scroll, Key::Right), count, max_scroll, Key::Left).active
            == screen.active,
        screen.active > 0 ==> after_key(screen, count, max_scroll, Key::Left).active == screen.active - 1,
        after_key(screen, count, max_scroll, Key::Tab) == after_key(screen, count, max_scroll, Key::Right),
        after_key(screen, count, max_scroll, Key::Char('h')) == after_key(screen, count, max_scroll, Key::Left),
        after_key(screen, count, max_scroll, Key::Char('l')) == after_key(screen, count, max_scroll, Key::Right),
        after_key(screen, count, max_scroll, Key::Other) == screen,
{
}

/// Wrapping and the full screen are turned on and off by their keys alone, and
/// scrolling stays between the first and the last line.
pub proof fn keys_change_the_view(screen: Screen, count: int, max_scroll: int)
    requires
        0 <= max_scroll < u16::MAX,
        0 <= screen.scroll <= u16::MAX,
    ensures
        ({
            let wrapped = after_key(screen, count, max_scroll, Key::Char('w'));
            wrapped.wrap != screen.wrap && after_key(wrapped, count, max_scroll, Key::Char('w')) == screen
        }),
        ({
            let full = after_key(screen, count, max_scroll, Key::Char('f'));
            full.fullscreen != screen.fullscreen && after_key(full, count, max_scroll, Key::Char('f')) == screen
        }),
        screen.scroll != u16::MAX ==> 0 <= after_key(screen, count, max_scroll, Key::Down).scroll <= max_scroll,
        screen.scroll == u16::MAX ==> after_key(screen, count, max_scroll, Key::Down) == screen,
        screen.scroll <= max_scroll && screen.scroll > 0 ==> after_key(screen, count, max_scroll, Key::Up).scroll
            == screen.scroll - 1,
        screen.scroll < max_scroll ==> after_key(screen, count, max_scroll, Key::Down).scroll == screen.scroll + 1,
        after_key(screen, count, max_scroll, Key::Enter).scroll == u16::MAX,
{
}

/// A line of one service leaves the lines of all others as they are, and no service
/// comes or goes with it.
pub proof fn other_logs_stay(before: Map<Seq<char>, ServiceLog>, after: Map<Seq<char>, ServiceLog>, name: Seq<char>, other: Seq<char>)
    requires
        only_log_of(before, after, name),
    ensures
        after.contains_key(other) <==> before.contains_key(other),
        other != name && before.contains_key(other) ==> after[other] == before[other],
{
    if other != name && before.contains_key(other) {
        assert(after.remove(name)[other] == before.remove(name)[other]);
    }
}

/// What changes the screen alone leaves the services, their states and their output as
/// they are.
pub proof fn the_screen_changes_alone(one: Dashboard, two: Dashboard)
    requires
        one.same_content(&two),
    ensures
        one.services == two.services,
        one.ports == two.ports,
        one.urls == two.urls,
        one.states == two.states,
        one.logs == two.logs,
        one.max_scroll == two.max_scroll,
        one.screen() == two.screen() <==> one.active == two.active && one.scroll == two.scroll && one.wrap == two.wrap
            && one.fullscreen == two.fullscreen,
{
}

/// A new dashboard shows each service as stopped, with its port and its address and
/// without output, the first of them, at the end of its output.
pub proof fn new_dashboards_show_stopped_services(dashboard: Dashboard, services: Seq<ServicePlan>, at: int)
    requires
        dashboard.is_fresh(services),
        0 <= at < services.len(),
    ensures
        dashboard.services@.len() == services.len(),
        dashboard.services@[at]@ == services[at].name@,
        dashboard.states@.contains_key(services[at].name@),
        dashboard.states@[services[at].name@] == ServiceState::Stopped,
        dashboard.logs@.contains_key(services[at].name@),
        dashboard.logs@[services[at].name@].view_lines().len() == 0,
        dashboard.ports@.contains_key(services[at].name@),
        dashboard.urls@.contains_key(services[at].name@),
        dashboard.active == 0,
        dashboard.scroll == u16::MAX,
        dashboard.wrap,
        !dashboard.fullscreen,
{
    let names = texts(dashboard.services@);
    assert(names[at] == services[at].name@);
    assert(names.contains(services[at].name@));
}

} // verus!

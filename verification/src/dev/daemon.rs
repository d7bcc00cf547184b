//! The broker that keeps one supervisor per workspace and group.
use vstd::prelude::*;
use vstd::utf8::encode_utf8;
use crate::cache::hasher::{digest_hex, sha256_hex};
use crate::collections::TextMap;
use crate::numbers::{decimal, decimal_text};
use crate::text::{chars_of, concat3, contains_char, same_text, text_of, text_option, texts, trim_text, trimmed};

verus! {

/// The version of the protocol between the program and its daemon.
pub const PROTOCOL_VERSION: u16 = 1;

/// The group of a bundle that was started without one.
pub const DEFAULT_GROUP: &'static str = "__aster_default__";

/// What went wrong.
#[derive(Clone, Copy, Debug, PartialEq, Eq, Structural)]
pub enum DaemonErrorCode {
    UnsupportedPlatform,
    UnsupportedProtocol,
    InvalidRequest,
    InvalidPath,
    InsecureRuntimeDirectory,
    EndpointCollision,
    DaemonUnavailable,
    StartupFailed,
    NotFound,
    Busy,
    Internal,
}

/// An error of the daemon or of a request to it.
#[derive(Debug, PartialEq, Eq)]
pub struct DaemonError {
    pub code: DaemonErrorCode,
    pub message: String,
    pub diagnostics: Option<String>,
}

impl Clone for DaemonError {
    fn clone(&self) -> (copy: DaemonError)
        ensures
            copy == *self,
    {
        let diagnostics = match &self.diagnostics {
            Some(text) => Some(text.clone()),
            None => None,
        };
        DaemonError { code: self.code, message: self.message.clone(), diagnostics }
    }
}

impl DaemonError {
    /// The message for a reader.
    pub fn to_string(&self) -> (text: String)
        ensures
            text@ == self.message@,
    {
        self.message.clone()
    }
}

/// An error by code, message and diagnostics.
pub open spec fn error_view(error: DaemonError) -> (DaemonErrorCode, Seq<char>, Option<Seq<char>>) {
    (error.code, error.message@, text_option(error.diagnostics))
}

/// An error without diagnostics.
pub fn daemon_error(code: DaemonErrorCode, message: &str) -> (error: DaemonError)
    ensures
        error_view(error) == (code, message@, None::<Seq<char>>),
{
    DaemonError { code, message: message.to_owned(), diagnostics: None }
}

/// What is said of another version of the protocol.
pub open spec fn mismatch_view() -> (DaemonErrorCode, Seq<char>, Option<Seq<char>>) {
    (
        DaemonErrorCode::UnsupportedProtocol,
        "daemon protocol version "@ + decimal(PROTOCOL_VERSION as nat) + " is required"@,
        None,
    )
}

/// The error for another version of the protocol.
pub fn protocol_mismatch() -> (error: DaemonError)
    ensures
        error_view(error) == mismatch_view(),
{
    let message = concat3("daemon protocol version ", &decimal_text(PROTOCOL_VERSION as u128), " is required");
    daemon_error(DaemonErrorCode::UnsupportedProtocol, &message)
}

/// Refuse another version of the protocol.
pub fn check_version(version: u16) -> (checked: Result<(), DaemonError>)
    ensures
        checked is Ok <==> version == PROTOCOL_VERSION,
        checked matches Err(error) ==> error_view(error) == mismatch_view(),
{
    if version == PROTOCOL_VERSION {
        Ok(())
    } else {
        Err(protocol_mismatch())
    }
}

// ---------------------------------------------------------------------------
// Groups and identifiers
// ---------------------------------------------------------------------------

/// The group that a request means and the one that is shown; none where the
/// name is empty, has a NUL or is reserved.
pub open spec fn group_of(group: Option<Seq<char>>) -> Option<(Seq<char>, Option<Seq<char>>)> {
    match group {
        None => Some((DEFAULT_GROUP@, None)),
        Some(name) => {
            let plain = trimmed(name);
            if plain.len() == 0 || plain.contains('\0') || plain == DEFAULT_GROUP@ {
                None
            } else {
                Some((plain, Some(plain)))
            }
        },
    }
}

/// What is said of a group that cannot be asked for.
pub open spec fn bad_group_view() -> (DaemonErrorCode, Seq<char>, Option<Seq<char>>) {
    (
        DaemonErrorCode::InvalidRequest,
        "service group is empty or reserved for Aster's default bundle"@,
        None,
    )
}

/// The group that a request means, and the one that is shown.
pub fn normalize_group(group: Option<&str>) -> (normal: Result<(String, Option<String>), DaemonError>)
    ensures
        ({
            let wanted = group_of(
                match group {
                    Some(name) => Some(name@),
                    None => None,
                },
            );
            match normal {
                Ok((name, display)) => wanted == Some((name@, text_option(display))),
                Err(error) => wanted is None && error_view(error) == bad_group_view(),
            }
        }),
{
    match group {
        None => Ok((DEFAULT_GROUP.to_owned(), None)),
        Some(name) => {
            let plain = trim_text(name);
            if plain.as_str().is_empty() || contains_char(&plain, '\0') || same_text(&plain, DEFAULT_GROUP) {
                return Err(
                    daemon_error(
                        DaemonErrorCode::InvalidRequest,
                        "service group is empty or reserved for Aster's default bundle",
                    ),
                );
            }
            let display = plain.clone();
            Ok((plain, Some(display)))
        },
    }
}

/// No name that can be asked for means the default bundle.
pub proof fn default_group_is_reserved(name: Seq<char>)
    ensures
        group_of(Some(name)) matches Some((group, display)) ==> group != DEFAULT_GROUP@ && display == Some(group),
{
}

/// What identifies a bundle: the beginning of a digest of its workspace and
/// its group.
pub open spec fn bundle_identifier(workspace: Seq<char>, group: Seq<char>) -> Seq<char> {
    sha256_hex(encode_utf8(workspace) + seq![0u8] + encode_utf8(group)).take(24)
}

/// What identifies a bundle.
pub fn bundle_id(workspace: &str, group: &str) -> (id: String)
    ensures
        id@ == bundle_identifier(workspace@, group@),
        id@.len() == 24,
{
    let mut bytes: Vec<u8> = Vec::new();
    let first = workspace.as_bytes();
    let second = group.as_bytes();
    let mut i: usize = 0;
    assert(bytes@ =~= first@.take(0));
    while i < first.len()
        invariant
            i <= first@.len(),
            bytes@ == first@.take(i as int),
        decreases first@.len() - i,
    {
        bytes.push(first[i]);
        i += 1;
        assert(bytes@ =~= first@.take(i as int));
    }
    assert(first@.take(first@.len() as int) =~= first@);
    bytes.push(0u8);
    let ghost front = first@ + seq![0u8];
    let mut j: usize = 0;
    assert(bytes@ =~= front + second@.take(0));
    while j < second.len()
        invariant
            j <= second@.len(),
            bytes@ == front + second@.take(j as int),
        decreases second@.len() - j,
    {
        bytes.push(second[j]);
        j += 1;
        assert(bytes@ =~= front + second@.take(j as int));
    }
    assert(second@.take(second@.len() as int) =~= second@);
    let hex = digest_hex(bytes.as_slice());
    let chars = chars_of(&hex);
    let id = text_of(&chars, 0, 24);
    assert(id@ =~= hex@.take(24));
    id
}

// ---------------------------------------------------------------------------
// Bundles
// ---------------------------------------------------------------------------

/// What a bundle is doing.
#[derive(Clone, Copy, Debug, PartialEq, Eq, Structural)]
pub enum BundleState {
    Starting,
    Running,
    Stopping,
}

/// A bundle of services as it is reported.
#[derive(Debug)]
pub struct BundleDescriptor {
    pub bundle_id: String,
    pub workspace: String,
    pub group: String,
    pub display_group: Option<String>,
    pub supervisor_pid: u32,
    pub state: BundleState,
    pub services: Vec<String>,
    pub ports: TextMap<u16>,
}

/// How a request to launch was met.
#[derive(Clone, Copy, Debug, PartialEq, Eq, Structural)]
pub enum LaunchStatus {
    Started,
    AlreadyRunning,
}

/// The answer to a request to launch.
#[derive(Debug)]
pub struct LaunchResult {
    pub status: LaunchStatus,
    pub bundle: BundleDescriptor,
}

/// What is asked for with a request to launch.
#[derive(Debug, Clone)]
pub struct LaunchOptions {
    pub workspace: String,
    pub group: Option<String>,
    pub watch: bool,
    pub use_cache: bool,
    pub executable: String,
}

impl LaunchOptions {
    /// The default bundle of a workspace, watched and cached.
    pub fn new(workspace: &str, executable: &str) -> (options: LaunchOptions)
        ensures
            options.workspace@ == workspace@,
            options.group is None,
            options.watch,
            options.use_cache,
            options.executable@ == executable@,
    {
        LaunchOptions {
            workspace: workspace.to_owned(),
            group: None,
            watch: true,
            use_cache: true,
            executable: executable.to_owned(),
        }
    }
}

/// A request to the daemon.
#[derive(Debug)]
pub enum Operation {
    Ping,
    Launch { workspace: String, group: Option<String>, watch: bool, use_cache: bool, executable: String },
    ListWorkspace { workspace: String },
    StopWorkspace { workspace: String, group: Option<String> },
    StopAll,
}

/// A bundle by its contents.
pub struct BundleView {
    pub bundle_id: Seq<char>,
    pub workspace: Seq<char>,
    pub group: Seq<char>,
    pub display_group: Option<Seq<char>>,
    pub supervisor_pid: u32,
    pub state: BundleState,
    pub services: Seq<Seq<char>>,
    pub ports: Map<Seq<char>, u16>,
}

/// A bundle by its contents.
pub open spec fn bundle_view(bundle: BundleDescriptor) -> BundleView {
    BundleView {
        bundle_id: bundle.bundle_id@,
        workspace: bundle.workspace@,
        group: bundle.group@,
        display_group: text_option(bundle.display_group),
        supervisor_pid: bundle.supervisor_pid,
        state: bundle.state,
        services: texts(bundle.services@),
        ports: bundle.ports@,
    }
}

/// Bundles by their contents.
pub open spec fn bundle_views(bundles: Seq<BundleDescriptor>) -> Seq<BundleView> {
    bundles.map_values(|bundle: BundleDescriptor| bundle_view(bundle))
}

fn copy_ports(ports: &TextMap<u16>) -> (copy: TextMap<u16>)
    ensures
        copy@ == ports@,
{
    let mut copy: TextMap<u16> = TextMap::new();
    let ghost keys = ports.keys();
    let count = ports.len();
    let mut i: usize = 0;
    assert(copy@ =~= ports@.restrict(keys.take(0).to_set()));
    while i < count
        invariant
            i <= count,
            count == keys.len(),
            keys == ports.keys(),
            keys.to_set() == ports@.dom(),
            copy@ == ports@.restrict(keys.take(i as int).to_set()),
        decreases count - i,
    {
        let ghost front = keys.take(i as int);
        let ghost before = copy@;
        let key = ports.key_at(i);
        copy.insert(key.clone(), *ports.value_at(i));
        proof {
            assert(keys.take(i + 1) =~= front.push(key@));
            front.lemma_push_to_set_commute(key@);
            assert(copy@ =~= ports@.restrict(keys.take(i + 1).to_set()));
        }
        i += 1;
    }
    proof {
        assert(keys.take(keys.len() as int) =~= keys);
        assert(ports@.restrict(keys.to_set()) =~= ports@);
    }
    copy
}

pub(crate) fn copy_bundle(bundle: &BundleDescriptor) -> (copy: BundleDescriptor)
    ensures
        bundle_view(copy) == bundle_view(*bundle),
{
    let display_group = match &bundle.display_group {
        Some(name) => Some(name.clone()),
        None => None,
    };
    BundleDescriptor {
        bundle_id: bundle.bundle_id.clone(),
        workspace: bundle.workspace.clone(),
        group: bundle.group.clone(),
        display_group,
        supervisor_pid: bundle.supervisor_pid,
        state: bundle.state,
        services: bundle.services.clone(),
        ports: copy_ports(&bundle.ports),
    }
}

/// A connection that waits for the answer to a request to launch.
#[derive(Clone, Copy, Debug, PartialEq, Eq, Structural)]
pub struct Waiter {
    pub connection: u64,
    pub status: LaunchStatus,
}

/// A bundle with the time until which it may start, in milliseconds, and who
/// waits for it.
#[derive(Debug)]
pub struct ManagedBundle {
    pub descriptor: BundleDescriptor,
    pub deadline: u128,
    pub waiters: Vec<Waiter>,
}

/// A bundle with its deadline and waiters.
pub struct ManagedView {
    pub bundle: BundleView,
    pub deadline: u128,
    pub waiters: Seq<Waiter>,
}

/// A bundle with its deadline and waiters.
pub open spec fn managed_view(managed: ManagedBundle) -> ManagedView {
    ManagedView {
        bundle: bundle_view(managed.descriptor),
        deadline: managed.deadline,
        waiters: managed.waiters@,
    }
}

/// Bundles with their deadlines and waiters.
pub open spec fn managed_views(bundles: Seq<ManagedBundle>) -> Seq<ManagedView> {
    bundles.map_values(|managed: ManagedBundle| managed_view(managed))
}

/// The bundle is the one of the workspace and the group.
pub open spec fn has_key(managed: ManagedView, workspace: Seq<char>, group: Seq<char>) -> bool {
    managed.bundle.workspace == workspace && managed.bundle.group == group
}

/// No two bundles are of the same workspace and group.
pub open spec fn keys_differ(bundles: Seq<ManagedView>) -> bool {
    forall|i: int, j: int|
        0 <= i < j < bundles.len() ==> !has_key(
            #[trigger] bundles[i],
            (#[trigger] bundles[j]).bundle.workspace,
            bundles[j].bundle.group,
        )
}

/// How long a supervisor may take to start, in milliseconds.
pub const START_TIMEOUT_MILLIS: u64 = 20000;

/// How long a daemon without bundles stays, in milliseconds.
pub const IDLE_GRACE_MILLIS: u64 = 500;

/// The state of the daemon.
#[derive(Debug)]
pub struct Daemon {
    pub bundles: Vec<ManagedBundle>,
    pub stopping_all: bool,
    pub idle_since: Option<u64>,
}

/// What a request to launch leads to.
#[derive(Debug)]
pub enum LaunchDecision {
    /// It is answered
    Reply(LaunchResult),
    /// It is answered when the bundle has started
    Wait,
    /// A supervisor is started for it
    Spawn(SpawnOrder),
}

/// A supervisor to start.
#[derive(Debug)]
pub struct SpawnOrder {
    pub bundle_id: String,
    pub workspace: String,
    pub group: String,
    pub display_group: Option<String>,
}

/// What is said while the daemon ends.
pub open spec fn busy_view() -> (DaemonErrorCode, Seq<char>, Option<Seq<char>>) {
    (DaemonErrorCode::Busy, "daemon is stopping all bundles"@, None)
}

/// How a request to launch is met: a running bundle is reported, one that
/// starts is waited for, and another is started. Nothing else changes.
pub open spec fn launched(
    stopping_all: bool,
    before: Seq<ManagedView>,
    after: Seq<ManagedView>,
    workspace: Seq<char>,
    group: Option<Seq<char>>,
    connection: u64,
    decision: Result<LaunchDecision, DaemonError>,
) -> bool {
    match decision {
        Err(error) => {
            &&& after == before
            &&& if stopping_all {
                error_view(error) == busy_view()
            } else {
                group_of(group) is None && error_view(error) == bad_group_view()
            }
        },
        Ok(decision) => {
            &&& !stopping_all
            &&& group_of(group) matches Some((name, shown))
            &&& match decision {
                LaunchDecision::Reply(result) => {
                    &&& after == before
                    &&& result.status == LaunchStatus::AlreadyRunning
                    &&& exists|at: int|
                        0 <= at < before.len() && has_key(#[trigger] before[at], workspace, name)
                            && before[at].bundle.state == BundleState::Running && bundle_view(result.bundle)
                            == before[at].bundle
                },
                LaunchDecision::Wait => exists|at: int|
                    0 <= at < before.len() && has_key(#[trigger] before[at], workspace, name)
                        && before[at].bundle.state != BundleState::Running && after == before.update(
                        at,
                        ManagedView {
                            waiters: before[at].waiters.push(
                                (Waiter { connection, status: LaunchStatus::AlreadyRunning }),
                            ),
                            ..before[at]
                        },
                    ),
                LaunchDecision::Spawn(order) => {
                    &&& after == before
                    &&& forall|i: int| 0 <= i < before.len() ==> !has_key(#[trigger] before[i], workspace, name)
                    &&& order.workspace@ == workspace
                    &&& order.group@ == name
                    &&& text_option(order.display_group) == shown
                    &&& order.bundle_id@ == bundle_identifier(workspace, name)
                },
            }
        },
    }
}

impl Daemon {
    /// The bundles by their contents.
    pub open spec fn view_bundles(&self) -> Seq<ManagedView> {
        managed_views(self.bundles@)
    }

    /// There is one bundle per workspace and group.
    pub open spec fn well_formed(&self) -> bool {
        keys_differ(self.view_bundles())
    }

    /// A daemon without bundles.
    pub fn new() -> (daemon: Daemon)
        ensures
            daemon.well_formed(),
            daemon.bundles@.len() == 0,
            !daemon.stopping_all,
            daemon.idle_since is None,
    {
        Daemon { bundles: Vec::new(), stopping_all: false, idle_since: None }
    }

    pub(crate) fn find(&self, workspace: &str, group: &str) -> (found: Option<usize>)
        ensures
            found matches Some(at) ==> at < self.bundles@.len() && has_key(
                self.view_bundles()[at as int],
                workspace@,
                group@,
            ),
            found is None ==> forall|i: int|
                0 <= i < self.bundles@.len() ==> !has_key(#[trigger] self.view_bundles()[i], workspace@, group@),
    {
        let ghost all = self.view_bundles();
        let mut i: usize = 0;
        while i < self.bundles.len()
            invariant
                i <= self.bundles@.len(),
                all == self.view_bundles(),
                forall|k: int| 0 <= k < i ==> !has_key(#[trigger] all[k], workspace@, group@),
            decreases self.bundles@.len() - i,
        {
            let bundle = &self.bundles[i].descriptor;
            assert(all[i as int] == managed_view(self.bundles@[i as int]));
            if same_text(&bundle.workspace, workspace) && same_text(&bundle.group, group) {
                return Some(i);
            }
            i += 1;
        }
        None
    }

    /// Meet a request to launch the bundle of a workspace: a running one is
    /// reported, one that starts is waited for, and another is started.
    pub fn launch(&mut self, workspace: &str, group: Option<&str>, connection: u64) -> (decision: Result<
        LaunchDecision,
        DaemonError,
    >)
        requires
            old(self).well_formed(),
        ensures
            final(self).well_formed(),
            final(self).stopping_all == old(self).stopping_all,
            final(self).idle_since == old(self).idle_since,
            launched(
                old(self).stopping_all,
                old(self).view_bundles(),
                final(self).view_bundles(),
                workspace@,
                match group {
                    Some(name) => Some(name@),
                    None => None,
                },
                connection,
                decision,
            ),
    {
        if self.stopping_all {
            return Err(daemon_error(DaemonErrorCode::Busy, "daemon is stopping all bundles"));
        }
        let (name, display_group) = match normalize_group(group) {
            Ok(pair) => pair,
            Err(error) => return Err(error),
        };
        match self.find(workspace, &name) {
            Some(at) => {
                let ghost before = self.view_bundles();
                assert(before[at as int] == managed_view(self.bundles@[at as int]));
                if self.bundles[at].descriptor.state == BundleState::Running {
                    let bundle = copy_bundle(&self.bundles[at].descriptor);
                    return Ok(
                        LaunchDecision::Reply(LaunchResult { status: LaunchStatus::AlreadyRunning, bundle }),
                    );
                }
                self.bundles[at].waiters.push(Waiter { connection, status: LaunchStatus::AlreadyRunning });
                proof {
                    let waiting = ManagedView {
                        waiters: before[at as int].waiters.push(
                            (Waiter { connection, status: LaunchStatus::AlreadyRunning }),
                        ),
                        ..before[at as int]
                    };
                    assert(self.view_bundles() =~= before.update(at as int, waiting));
                    assert forall|i: int, j: int| 0 <= i < j < self.view_bundles().len() implies !has_key(
                        #[trigger] self.view_bundles()[i],
                        (#[trigger] self.view_bundles()[j]).bundle.workspace,
                        self.view_bundles()[j].bundle.group,
                    ) by {
                        assert(self.view_bundles()[i].bundle == before[i].bundle);
                        assert(self.view_bundles()[j].bundle == before[j].bundle);
                    }
                }
                Ok(LaunchDecision::Wait)
            },
            None => {
                let id = bundle_id(workspace, &name);
                Ok(
                    LaunchDecision::Spawn(
                        SpawnOrder { bundle_id: id, workspace: workspace.to_owned(), group: name, display_group },
                    ),
                )
            },
        }
    }

    /// A supervisor was started: its bundle waits for it to be ready.
    pub fn note_spawned(&mut self, order: SpawnOrder, supervisor_pid: u32, connection: u64, now: u64)
        requires
            old(self).well_formed(),
            forall|i: int|
                0 <= i < old(self).bundles@.len() ==> !has_key(
                    #[trigger] old(self).view_bundles()[i],
                    order.workspace@,
                    order.group@,
                ),
        ensures
            final(self).well_formed(),
            final(self).stopping_all == old(self).stopping_all,
            final(self).idle_since == old(self).idle_since,
            final(self).view_bundles() == old(self).view_bundles().push(
                (ManagedView {
                    bundle: (BundleView {
                        bundle_id: order.bundle_id@,
                        workspace: order.workspace@,
                        group: order.group@,
                        display_group: text_option(order.display_group),
                        supervisor_pid,
                        state: BundleState::Starting,
                        services: Seq::empty(),
                        ports: Map::empty(),
                    }),
                    deadline: (now + START_TIMEOUT_MILLIS) as u128,
                    waiters: seq![(Waiter { connection, status: LaunchStatus::Started })],
                }),
            ),
    {
        let ghost before = self.view_bundles();
        let mut waiters: Vec<Waiter> = Vec::new();
        waiters.push(Waiter { connection, status: LaunchStatus::Started });
        let services: Vec<String> = Vec::new();
        assert(texts(services@) =~= Seq::<Seq<char>>::empty());
        assert(waiters@ =~= seq![(Waiter { connection, status: LaunchStatus::Started })]);
        let descriptor = BundleDescriptor {
            bundle_id: order.bundle_id,
            workspace: order.workspace,
            group: order.group,
            display_group: order.display_group,
            supervisor_pid,
            state: BundleState::Starting,
            services,
            ports: TextMap::new(),
        };
        let managed = ManagedBundle {
            descriptor,
            deadline: now as u128 + START_TIMEOUT_MILLIS as u128,
            waiters,
        };
        let ghost added = managed_view(managed);
        self.bundles.push(managed);
        proof {
            assert(self.view_bundles() =~= before.push(added));
            assert forall|i: int, j: int| 0 <= i < j < self.view_bundles().len() implies !has_key(
                #[trigger] self.view_bundles()[i],
                (#[trigger] self.view_bundles()[j]).bundle.workspace,
                self.view_bundles()[j].bundle.group,
            ) by {
                assert(self.view_bundles()[i] == before[i]);
                if j < before.len() {
                    assert(self.view_bundles()[j] == before[j]);
                }
            }
        }
    }
}

/// A bundle that runs is reported, and no second supervisor is started for it.
pub proof fn running_bundles_are_reported(
    before: Seq<ManagedView>,
    after: Seq<ManagedView>,
    workspace: Seq<char>,
    group: Option<Seq<char>>,
    connection: u64,
    decision: Result<LaunchDecision, DaemonError>,
    at: int,
)
    requires
        keys_differ(before),
        launched(false, before, after, workspace, group, connection, decision),
        0 <= at < before.len(),
        group_of(group) matches Some((name, _)) && has_key(before[at], workspace, name),
        before[at].bundle.state == BundleState::Running,
    ensures
        after == before,
        decision matches Ok(LaunchDecision::Reply(result)) && bundle_view(result.bundle) == before[at].bundle,
{
    let name = (group_of(group)->0).0;
    assert forall|other: int| 0 <= other < before.len() && has_key(#[trigger] before[other], workspace, name) implies other
        == at by {
        if other < at {
            assert(!has_key(before[other], before[at].bundle.workspace, before[at].bundle.group));
        } else if at < other {
            assert(!has_key(before[at], before[other].bundle.workspace, before[other].bundle.group));
        }
    }
}

/// A bundle that starts is waited for by whoever asks for it, and only where there is
/// none of the workspace and the group is one started.
pub proof fn starting_bundles_are_waited_for(
    before: Seq<ManagedView>,
    after: Seq<ManagedView>,
    workspace: Seq<char>,
    group: Option<Seq<char>>,
    connection: u64,
    decision: Result<LaunchDecision, DaemonError>,
    at: int,
)
    requires
        keys_differ(before),
        launched(false, before, after, workspace, group, connection, decision),
        0 <= at < before.len(),
        group_of(group) matches Some((name, _)) && has_key(before[at], workspace, name),
        before[at].bundle.state != BundleState::Running,
    ensures
        decision matches Ok(LaunchDecision::Wait),
        after.len() == before.len(),
        after[at].bundle == before[at].bundle,
        after[at].waiters.len() == before[at].waiters.len() + 1,
        after[at].waiters.last().connection == connection,
        forall|i: int| 0 <= i < before.len() && i != at ==> #[trigger] after[i] == before[i],
{
    let name = (group_of(group)->0).0;
    assert forall|i: int| 0 <= i < before.len() && #[trigger] has_key(before[i], workspace, name) implies i == at by {
        if i < at {
            assert(!has_key(before[i], before[at].bundle.workspace, before[at].bundle.group));
        } else if at < i {
            assert(!has_key(before[at], before[i].bundle.workspace, before[i].bundle.group));
        }
    }
}

/// A group can be asked for by any name but an empty one, one with a NUL and the one
/// that is reserved; the white space around it does not matter.
pub proof fn groups_that_can_be_asked_for(name: Seq<char>)
    ensures
        group_of(Some(name)) is Some <==> trimmed(name).len() > 0 && !trimmed(name).contains('\0') && trimmed(name)
            != DEFAULT_GROUP@,
        group_of(Some(name)) matches Some((group, shown)) ==> group == trimmed(name) && shown == Some(group),
        group_of(None) == Some((DEFAULT_GROUP@, None::<Seq<char>>)),
{
}

/// Where there is no bundle of the workspace and the group, one is started, of that
/// workspace and that group.
pub proof fn absent_bundles_are_started(
    before: Seq<ManagedView>,
    after: Seq<ManagedView>,
    workspace: Seq<char>,
    group: Option<Seq<char>>,
    connection: u64,
    decision: Result<LaunchDecision, DaemonError>,
)
    requires
        launched(false, before, after, workspace, group, connection, decision),
        group_of(group) is Some,
        forall|i: int|
            0 <= i < before.len() ==> !((#[trigger] before[i]).bundle.workspace == workspace && before[i].bundle.group == (
            group_of(group)->0).0),
    ensures
        after == before,
        decision matches Ok(LaunchDecision::Spawn(order)) && order.workspace@ == workspace && order.group@ == (group_of(
            group,
        )->0).0,
{
    let name = (group_of(group)->0).0;
    assert forall|i: int| 0 <= i < before.len() implies !has_key(#[trigger] before[i], workspace, name) by {}
}

} // verus!

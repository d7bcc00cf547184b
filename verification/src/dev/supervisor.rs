//! How the daemon starts a supervisor, where it keeps its files, and how its
//! answers are read.
use vstd::prelude::*;
use crate::collections::TextMap;
use crate::dev::broker::ReadyRecord;
use crate::dev::daemon::{
    daemon_error, error_view, mismatch_view, protocol_mismatch, BundleDescriptor, DaemonError, DaemonErrorCode,
    LaunchResult, SpawnOrder, PROTOCOL_VERSION,
};
use crate::numbers::{decimal, decimal_text};
use crate::paths::{join_path, path_join};
use crate::text::{concat2, concat3, concat5, text_option, texts};

verus! {

/// Tells the program to serve as the daemon.
pub const SERVE_ENV: &'static str = "ASTER_INTERNAL_DAEMON_SERVE";

/// Tells a supervisor where to say that it is ready.
pub const READY_SOCKET_ENV: &'static str = "ASTER_INTERNAL_DAEMON_READY_SOCKET";

/// Tells a supervisor which bundle it is.
pub const READY_ID_ENV: &'static str = "ASTER_INTERNAL_DAEMON_BUNDLE_ID";

/// Tells a supervisor its group.
pub const READY_GROUP_ENV: &'static str = "ASTER_INTERNAL_DAEMON_GROUP";

/// Tells a supervisor the group that is shown.
pub const READY_DISPLAY_GROUP_ENV: &'static str = "ASTER_INTERNAL_DAEMON_DISPLAY_GROUP";

/// How long a supervisor may take to stop, in milliseconds.
pub const STOP_GRACE_MILLIS: u64 = 5000;

/// How long the daemon may take to answer at first, in milliseconds.
pub const CONNECT_TIMEOUT_MILLIS: u64 = 10000;

/// The most of a startup log that is reported, in bytes.
pub const DIAGNOSTIC_BYTES: u64 = 16384;

/// A word where it is wanted.
pub open spec fn word_if(wanted: bool, word: Seq<char>) -> Seq<Seq<char>> {
    if wanted {
        seq![word]
    } else {
        Seq::empty()
    }
}

/// The arguments of a supervisor.
pub open spec fn arguments_of(group: Option<Seq<char>>, watch: bool, use_cache: bool) -> Seq<Seq<char>> {
    seq!["services"@, "up"@] + (match group {
        Some(name) => seq![name],
        None => Seq::empty(),
    }) + seq!["--no-ui"@] + word_if(!watch, "--no-watch"@) + word_if(!use_cache, "--no-cache"@)
}

/// The arguments with which a supervisor is started.
pub fn supervisor_arguments(group: Option<&str>, watch: bool, use_cache: bool) -> (arguments: Vec<String>)
    ensures
        texts(arguments@) == arguments_of(
            match group {
                Some(name) => Some(name@),
                None => None,
            },
            watch,
            use_cache,
        ),
{
    let mut arguments: Vec<String> = Vec::new();
    arguments.push("services".to_owned());
    arguments.push("up".to_owned());
    if let Some(name) = group {
        arguments.push(name.to_owned());
    }
    arguments.push("--no-ui".to_owned());
    if !watch {
        arguments.push("--no-watch".to_owned());
    }
    if !use_cache {
        arguments.push("--no-cache".to_owned());
    }
    assert(texts(arguments@) =~= arguments_of(
        match group {
            Some(name) => Some(name@),
            None => None,
        },
        watch,
        use_cache,
    ));
    arguments
}

/// The environment in which a supervisor says that it is ready: the socket,
/// the bundle, the group and the group that is shown, empty where there is
/// none.
pub fn supervisor_environment(order: &SpawnOrder, ready_socket: &str) -> (values: Vec<(String, String)>)
    ensures
        values@.len() == 4,
        values@[0].0@ == READY_SOCKET_ENV@ && values@[0].1@ == ready_socket@,
        values@[1].0@ == READY_ID_ENV@ && values@[1].1@ == order.bundle_id@,
        values@[2].0@ == READY_GROUP_ENV@ && values@[2].1@ == order.group@,
        values@[3].0@ == READY_DISPLAY_GROUP_ENV@,
        values@[3].1@ == (match order.display_group {
            Some(name) => name@,
            None => ""@,
        }),
{
    let shown = match &order.display_group {
        Some(name) => name.clone(),
        None => "".to_owned(),
    };
    let mut values: Vec<(String, String)> = Vec::new();
    values.push((READY_SOCKET_ENV.to_owned(), ready_socket.to_owned()));
    values.push((READY_ID_ENV.to_owned(), order.bundle_id.clone()));
    values.push((READY_GROUP_ENV.to_owned(), order.group.clone()));
    values.push((READY_DISPLAY_GROUP_ENV.to_owned(), shown));
    values
}

/// Where the output of a supervisor goes while it starts.
pub fn startup_log(directory: &str, bundle_id: &str) -> (path: String)
    ensures
        path@ == path_join(directory@, "supervisor-"@ + bundle_id@ + ".log"@),
{
    join_path(directory, &concat3("supervisor-", bundle_id, ".log"))
}

/// What a supervisor sends when its services run. The bundle and the group
/// come from its environment, and an empty group is not shown.
pub fn ready_record(
    bundle_id: Option<String>,
    group: Option<String>,
    display_group: Option<String>,
    workspace: String,
    supervisor_pid: u32,
    services: Vec<String>,
    ports: TextMap<u16>,
) -> (record: Result<ReadyRecord, DaemonError>)
    ensures
        match record {
            Ok(record) => {
                &&& bundle_id == Some(record.bundle_id)
                &&& group == Some(record.group)
                &&& text_option(record.display_group) == (match display_group {
                    Some(name) => if name@.len() > 0 {
                        Some(name@)
                    } else {
                        None
                    },
                    None => None,
                })
                &&& record.version == PROTOCOL_VERSION
                &&& record.workspace == workspace
                &&& record.supervisor_pid == supervisor_pid
                &&& record.services == services
                &&& record.ports == ports
            },
            Err(error) => {
                &&& bundle_id is None || group is None
                &&& error_view(error) == (
                    DaemonErrorCode::InvalidRequest,
                    if bundle_id is None {
                        "missing daemon bundle id"@
                    } else {
                        "missing daemon group"@
                    },
                    None::<Seq<char>>,
                )
            },
        },
{
    let bundle_id = match bundle_id {
        Some(id) => id,
        None => return Err(daemon_error(DaemonErrorCode::InvalidRequest, "missing daemon bundle id")),
    };
    let group = match group {
        Some(name) => name,
        None => return Err(daemon_error(DaemonErrorCode::InvalidRequest, "missing daemon group")),
    };
    let display_group = match display_group {
        Some(name) => if name.as_str().is_empty() {
            None
        } else {
            Some(name)
        },
        None => None,
    };
    Ok(
        ReadyRecord {
            version: PROTOCOL_VERSION,
            bundle_id,
            workspace,
            group,
            display_group,
            supervisor_pid,
            services,
            ports,
        },
    )
}

// ---------------------------------------------------------------------------
// The runtime directory
// ---------------------------------------------------------------------------

/// Where the daemon keeps its files.
#[derive(Debug)]
pub struct RuntimePaths {
    pub directory: String,
    pub socket: String,
    pub lock: String,
    pub pid: String,
    pub log: String,
    pub ready: String,
}

impl RuntimePaths {
    /// The files in a directory.
    pub fn within(directory: &str) -> (paths: RuntimePaths)
        ensures
            paths.directory@ == directory@,
            paths.socket@ == path_join(directory@, "daemon.sock"@),
            paths.lock@ == path_join(directory@, "daemon.lock"@),
            paths.pid@ == path_join(directory@, "daemon.pid"@),
            paths.log@ == path_join(directory@, "daemon.log"@),
            paths.ready@ == path_join(directory@, "ready.sock"@),
    {
        RuntimePaths {
            directory: directory.to_owned(),
            socket: join_path(directory, "daemon.sock"),
            lock: join_path(directory, "daemon.lock"),
            pid: join_path(directory, "daemon.pid"),
            log: join_path(directory, "daemon.log"),
            ready: join_path(directory, "ready.sock"),
        }
    }
}

/// The directory of the daemon: the one that is asked for, or one of the user
/// among the temporary ones.
pub fn runtime_directory(wanted: Option<&str>, temporary: &str, uid: u32) -> (directory: String)
    ensures
        directory@ == (match wanted {
            Some(path) => path@,
            None => path_join(temporary@, "aster-daemon-v1-"@ + decimal(uid as nat)),
        }),
{
    match wanted {
        Some(path) => path.to_owned(),
        None => join_path(temporary, &concat2("aster-daemon-v1-", &decimal_text(uid as u128))),
    }
}

/// Nobody but the user has any right on the file.
pub open spec fn is_private(mode: u32) -> bool {
    mode & 0o077 == 0
}

/// Refuse a directory that is not one, is of another user, or is open to
/// others.
pub fn validate_runtime_directory(path: &str, is_directory: bool, owner: u32, mode: u32, uid: u32) -> (checked: Result<
    (),
    DaemonError,
>)
    ensures
        checked is Ok <==> is_directory && owner == uid && is_private(mode),
        checked matches Err(error) ==> error_view(error) == (
            DaemonErrorCode::InsecureRuntimeDirectory,
            "daemon runtime directory "@ + path@ + " must be owned by effective uid "@ + decimal(uid as nat)
                + " with mode 0700"@,
            None::<Seq<char>>,
        ),
{
    if !is_directory || owner != uid || mode & 0o077 != 0 {
        let message = concat5(
            "daemon runtime directory ",
            path,
            " must be owned by effective uid ",
            &decimal_text(uid as u128),
            " with mode 0700",
        );
        return Err(daemon_error(DaemonErrorCode::InsecureRuntimeDirectory, &message));
    }
    Ok(())
}

/// Refuse a file of the daemon that is no plain file or is of another user.
pub fn validate_runtime_file(path: &str, is_file: bool, owner: u32, uid: u32) -> (checked: Result<(), DaemonError>)
    ensures
        checked is Ok <==> is_file && owner == uid,
        checked matches Err(error) ==> error_view(error) == (
            DaemonErrorCode::EndpointCollision,
            "unsafe daemon runtime file "@ + path@,
            None::<Seq<char>>,
        ),
{
    if !is_file || owner != uid {
        return Err(daemon_error(DaemonErrorCode::EndpointCollision, &concat2("unsafe daemon runtime file ", path)));
    }
    Ok(())
}

/// Whether a stale endpoint is removed before the daemon starts; one that is
/// no socket is refused.
pub fn removes_endpoint(path: &str, is_socket: Option<bool>) -> (removes: Result<bool, DaemonError>)
    ensures
        match removes {
            Ok(removes) => is_socket != Some(false) && removes == (is_socket is Some),
            Err(error) => is_socket == Some(false) && error_view(error) == (
                DaemonErrorCode::EndpointCollision,
                "daemon endpoint "@ + path@ + " is not a socket"@,
                None::<Seq<char>>,
            ),
        },
{
    match is_socket {
        Some(true) => Ok(true),
        Some(false) => Err(
            daemon_error(
                DaemonErrorCode::EndpointCollision,
                &concat3("daemon endpoint ", path, " is not a socket"),
            ),
        ),
        None => Ok(false),
    }
}

/// Where the part of a log that is reported begins.
pub fn tail_start(length: u64, limit: u64) -> (start: u64)
    ensures
        start == (if length > limit {
            length - limit
        } else {
            0
        }),
{
    if length > limit {
        length - limit
    } else {
        0
    }
}

// ---------------------------------------------------------------------------
// Answers
// ---------------------------------------------------------------------------

/// What the daemon answers.
#[derive(Debug)]
pub enum ResponseValue {
    Pong { daemon_pid: u32 },
    Launch(LaunchResult),
    Bundles(Vec<BundleDescriptor>),
    Stopped(Vec<BundleDescriptor>),
}

impl ResponseValue {
    /// The process of the daemon.
    pub fn into_pong(self) -> (pid: Result<u32, DaemonError>)
        ensures
            match pid {
                Ok(pid) => self == (ResponseValue::Pong { daemon_pid: pid }),
                Err(error) => !(self is Pong) && error_view(error) == mismatch_view(),
            },
    {
        match self {
            ResponseValue::Pong { daemon_pid } => Ok(daemon_pid),
            _ => Err(protocol_mismatch()),
        }
    }

    /// How a request to launch was met.
    pub fn into_launch(self) -> (result: Result<LaunchResult, DaemonError>)
        ensures
            match result {
                Ok(result) => self == ResponseValue::Launch(result),
                Err(error) => !(self is Launch) && error_view(error) == mismatch_view(),
            },
    {
        match self {
            ResponseValue::Launch(result) => Ok(result),
            _ => Err(protocol_mismatch()),
        }
    }

    /// The bundles of a workspace.
    pub fn into_bundles(self) -> (bundles: Result<Vec<BundleDescriptor>, DaemonError>)
        ensures
            match bundles {
                Ok(bundles) => self == ResponseValue::Bundles(bundles),
                Err(error) => !(self is Bundles) && error_view(error) == mismatch_view(),
            },
    {
        match self {
            ResponseValue::Bundles(bundles) => Ok(bundles),
            _ => Err(protocol_mismatch()),
        }
    }

    /// The bundles that were stopped.
    pub fn into_stopped(self) -> (bundles: Result<Vec<BundleDescriptor>, DaemonError>)
        ensures
            match bundles {
                Ok(bundles) => self == ResponseValue::Stopped(bundles),
                Err(error) => !(self is Stopped) && error_view(error) == mismatch_view(),
            },
    {
        match self {
            ResponseValue::Stopped(bundles) => Ok(bundles),
            _ => Err(protocol_mismatch()),
        }
    }
}

// ---------------------------------------------------------------------------
// Startup
// ---------------------------------------------------------------------------

/// What is done next while the daemon starts.
#[derive(Debug)]
pub enum StartupStep {
    /// It answers
    Ready,
    /// It has some time left
    Wait,
    /// It will not answer
    Failed(DaemonError),
}

/// A daemon that was started is waited for until it answers, has ended, or its
/// time is over. The status is that of a process that has ended, the error
/// what was said of the last question, and the times are in milliseconds.
pub fn startup_step(ready: bool, status: Option<&str>, error: &str, now: u64, deadline: u64) -> (step: StartupStep)
    ensures
        step is Ready <==> ready,
        step is Wait <==> !ready && now < deadline && status is None,
        step matches StartupStep::Failed(failure) ==> error_view(failure) == (
            DaemonErrorCode::DaemonUnavailable,
            if now < deadline {
                "daemon exited during startup: "@ + status->0@
            } else {
                "daemon did not become ready: "@ + error@
            },
            None::<Seq<char>>,
        ),
{
    if ready {
        return StartupStep::Ready;
    }
    let message = if now < deadline {
        match status {
            None => return StartupStep::Wait,
            Some(text) => concat2("daemon exited during startup: ", text),
        }
    } else {
        concat2("daemon did not become ready: ", error)
    };
    StartupStep::Failed(daemon_error(DaemonErrorCode::DaemonUnavailable, &message))
}

/// A supervisor is told the group where there is one, and each flag where it is
/// wanted and only there.
pub proof fn supervisors_are_told(group: Option<Seq<char>>, watch: bool, use_cache: bool)
    ensures
        arguments_of(group, watch, use_cache).take(2) == seq!["services"@, "up"@],
        group matches Some(name) ==> arguments_of(group, watch, use_cache)[2] == name && arguments_of(
            group,
            watch,
            use_cache,
        )[3] == "--no-ui"@,
        group is None ==> arguments_of(group, watch, use_cache)[2] == "--no-ui"@,
        arguments_of(group, watch, use_cache).len() == 3 + (if group is Some {
            1int
        } else {
            0
        }) + (if watch {
            0int
        } else {
            1
        }) + (if use_cache {
            0int
        } else {
            1
        }),
        !use_cache ==> arguments_of(group, watch, use_cache).last() == "--no-cache"@,
        !watch && use_cache ==> arguments_of(group, watch, use_cache).last() == "--no-watch"@,
{
    let all = arguments_of(group, watch, use_cache);
    assert(all.take(2) =~= seq!["services"@, "up"@]);
}

/// A file is private where neither the group nor anybody else has a right on it.
pub proof fn private_files(mode: u32)
    ensures
        is_private(mode) <==> mode & 0o070 == 0 && mode & 0o007 == 0,
{
    assert(mode & 0o077 == 0 <==> mode & 0o070 == 0 && mode & 0o007 == 0) by (bit_vector);
}

} // verus!

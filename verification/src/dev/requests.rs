//! How the daemon meets a request.
use vstd::prelude::*;
use crate::dev::broker::{is_meant, is_stopped, meant, reported, workspace_stopped, Stopped};
use crate::dev::daemon::{
    bundle_views, busy_view, check_version, daemon_error, error_view, launched, mismatch_view, BundleDescriptor, BundleView, Daemon,
    DaemonError, DaemonErrorCode, LaunchDecision, ManagedView, Operation, PROTOCOL_VERSION,
};
use crate::text::text_option;

verus! {

/// The paths of a request as the file system has them.
#[derive(Debug)]
pub struct RequestPaths {
    pub workspace: Result<String, DaemonError>,
    pub executable: Result<String, DaemonError>,
}

/// How a request is met.
#[derive(Debug)]
pub enum DaemonReply {
    /// The process of the daemon
    Pong(u32),
    /// A request to launch
    Launch { decision: LaunchDecision, executable: String, watch: bool, use_cache: bool },
    /// The bundles of a workspace
    Bundles(Vec<BundleDescriptor>),
    /// Bundles were stopped
    Stopped(Stopped),
}

/// The request to launch is met: while the daemon ends it is refused, then the
/// paths must be good, then the bundle decides.
pub open spec fn launch_handled(
    stopping_all: bool,
    before: Seq<ManagedView>,
    after: Seq<ManagedView>,
    group: Option<Seq<char>>,
    asked: (bool, bool),
    paths: RequestPaths,
    connection: u64,
    reply: Result<DaemonReply, DaemonError>,
) -> bool {
    if stopping_all {
        &&& after == before
        &&& reply matches Err(error) && error_view(error) == busy_view()
    } else {
        match (paths.workspace, paths.executable) {
            (Err(fault), _) => after == before && reply == Err::<DaemonReply, DaemonError>(fault),
            (_, Err(fault)) => after == before && reply == Err::<DaemonReply, DaemonError>(fault),
            (Ok(workspace), Ok(program)) => match reply {
                Ok(DaemonReply::Launch { decision, executable, watch, use_cache }) => executable == program
                    && asked == (watch, use_cache) && launched(
                    false,
                    before,
                    after,
                    workspace@,
                    group,
                    connection,
                    Ok(decision),
                ),
                Ok(_) => false,
                Err(error) => launched(false, before, after, workspace@, group, connection, Err(error)),
            },
        }
    }
}

/// The request to list is met: the path must be good, and nothing changes.
pub open spec fn list_handled(
    before: Seq<ManagedView>,
    paths: RequestPaths,
    reply: Result<DaemonReply, DaemonError>,
) -> bool {
    match paths.workspace {
        Err(fault) => reply == Err::<DaemonReply, DaemonError>(fault),
        Ok(workspace) => reply matches Ok(DaemonReply::Bundles(list)) && bundle_views(list@) == reported(
            meant(before, Some(workspace@), None),
        ),
    }
}

/// The request to stop is met: the path must be good, then the group.
pub open spec fn stop_handled(
    before: Seq<ManagedView>,
    after: Seq<ManagedView>,
    group: Option<Seq<char>>,
    paths: RequestPaths,
    reply: Result<DaemonReply, DaemonError>,
) -> bool {
    match paths.workspace {
        Err(fault) => after == before && reply == Err::<DaemonReply, DaemonError>(fault),
        Ok(workspace) => match reply {
            Ok(DaemonReply::Stopped(stopped)) => workspace_stopped(before, after, workspace@, group, Ok(stopped)),
            Ok(_) => false,
            Err(error) => workspace_stopped(before, after, workspace@, group, Err(error)),
        },
    }
}

/// The request is met.
pub open spec fn request_handled(
    version: u16,
    operation: Operation,
    paths: RequestPaths,
    connection: u64,
    daemon_pid: u32,
    stopping_all: bool,
    before: Seq<ManagedView>,
    after: Seq<ManagedView>,
    reply: Result<DaemonReply, DaemonError>,
) -> bool {
    if version != PROTOCOL_VERSION {
        &&& after == before
        &&& reply matches Err(error) && error_view(error) == mismatch_view()
    } else {
        match operation {
            Operation::Ping => after == before && reply == Ok::<DaemonReply, DaemonError>(DaemonReply::Pong(daemon_pid)),
            Operation::Launch { workspace: _, group, watch, use_cache, executable: _ } => launch_handled(
                stopping_all,
                before,
                after,
                text_option(group),
                (watch, use_cache),
                paths,
                connection,
                reply,
            ),
            Operation::ListWorkspace { workspace: _ } => after == before && list_handled(before, paths, reply),
            Operation::StopWorkspace { workspace: _, group } => stop_handled(
                before,
                after,
                text_option(group),
                paths,
                reply,
            ),
            Operation::StopAll => {
                &&& after.len() == 0
                &&& reply matches Ok(DaemonReply::Stopped(stopped)) && is_stopped(stopped, before)
            },
        }
    }
}

impl Daemon {
    /// Meet a request. The paths are those of the request, as the file system
    /// has them.
    pub fn handle_request(
        &mut self,
        version: u16,
        operation: Operation,
        paths: RequestPaths,
        connection: u64,
        daemon_pid: u32,
    ) -> (reply: Result<DaemonReply, DaemonError>)
        requires
            old(self).well_formed(),
        ensures
            final(self).well_formed(),
            final(self).idle_since == old(self).idle_since,
            final(self).stopping_all == (old(self).stopping_all || (version == PROTOCOL_VERSION && operation is StopAll)),
            request_handled(
                version,
                operation,
                paths,
                connection,
                daemon_pid,
                old(self).stopping_all,
                old(self).view_bundles(),
                final(self).view_bundles(),
                reply,
            ),
    {
        if let Err(error) = check_version(version) {
            return Err(error);
        }
        match operation {
            Operation::Ping => Ok(DaemonReply::Pong(daemon_pid)),
            Operation::Launch { workspace: _, group, watch, use_cache, executable: _ } => {
                if self.stopping_all {
                    return Err(daemon_error(DaemonErrorCode::Busy, "daemon is stopping all bundles"));
                }
                let workspace = match paths.workspace {
                    Ok(path) => path,
                    Err(error) => return Err(error),
                };
                let executable = match paths.executable {
                    Ok(path) => path,
                    Err(error) => return Err(error),
                };
                let launched = match &group {
                    Some(name) => self.launch(&workspace, Some(name.as_str()), connection),
                    None => self.launch(&workspace, None, connection),
                };
                match launched {
                    Ok(decision) => Ok(DaemonReply::Launch { decision, executable, watch, use_cache }),
                    Err(error) => Err(error),
                }
            },
            Operation::ListWorkspace { workspace: _ } => match paths.workspace {
                Ok(workspace) => Ok(DaemonReply::Bundles(self.list_workspace(&workspace))),
                Err(error) => Err(error),
            },
            Operation::StopWorkspace { workspace: _, group } => {
                let workspace = match paths.workspace {
                    Ok(path) => path,
                    Err(error) => return Err(error),
                };
                let stopped = match &group {
                    Some(name) => self.stop_workspace(&workspace, Some(name.as_str())),
                    None => self.stop_workspace(&workspace, None),
                };
                match stopped {
                    Ok(stopped) => Ok(DaemonReply::Stopped(stopped)),
                    Err(error) => Err(error),
                }
            },
            Operation::StopAll => {
                let stopped = self.stop_all();
                assert(self.view_bundles().len() == self.bundles@.len());
                Ok(DaemonReply::Stopped(stopped))
            },
        }
    }
}

/// A refused request changes nothing.
pub proof fn refused_requests_change_nothing(
    version: u16,
    operation: Operation,
    paths: RequestPaths,
    connection: u64,
    daemon_pid: u32,
    stopping_all: bool,
    before: Seq<ManagedView>,
    after: Seq<ManagedView>,
    error: DaemonError,
)
    requires
        request_handled(
            version,
            operation,
            paths,
            connection,
            daemon_pid,
            stopping_all,
            before,
            after,
            Err(error),
        ),
    ensures
        after == before,
{
}

/// While the daemon ends nothing is launched.
pub proof fn nothing_is_launched_at_the_end(
    before: Seq<ManagedView>,
    after: Seq<ManagedView>,
    group: Option<Seq<char>>,
    asked: (bool, bool),
    paths: RequestPaths,
    connection: u64,
    reply: Result<DaemonReply, DaemonError>,
)
    requires
        launch_handled(true, before, after, group, asked, paths, connection, reply),
    ensures
        after == before,
        reply is Err,
{
}

/// A list has the bundles of the workspace that is asked for, all of them and no
/// others.
pub proof fn lists_have_the_workspaces_bundles(
    before: Seq<ManagedView>,
    paths: RequestPaths,
    list: Vec<BundleDescriptor>,
    workspace: String,
    bundle: BundleView,
)
    requires
        paths.workspace == Ok::<String, DaemonError>(workspace),
        list_handled(before, paths, Ok(DaemonReply::Bundles(list))),
    ensures
        bundle_views(list@).contains(bundle) <==> exists|i: int|
            0 <= i < before.len() && (#[trigger] before[i]).bundle == bundle && bundle.workspace == workspace@,
{
    let own = meant(before, Some(workspace@), None);
    let fits = |managed: ManagedView| is_meant(managed, Some(workspace@), None);
    let views = bundle_views(list@);
    assert(own == before.filter(fits));
    assert(views == reported(own));
    if views.contains(bundle) {
        let k = choose|k: int| 0 <= k < views.len() && views[k] == bundle;
        before.lemma_filter_pred(fits, k);
        assert(own.contains(own[k]));
        before.lemma_filter_contains_rev(fits, own[k]);
        let i = choose|i: int| 0 <= i < before.len() && before[i] == own[k];
        assert(before[i].bundle == bundle);
    }
    if exists|i: int| 0 <= i < before.len() && (#[trigger] before[i]).bundle == bundle && bundle.workspace == workspace@ {
        let i = choose|i: int|
            0 <= i < before.len() && (#[trigger] before[i]).bundle == bundle && bundle.workspace == workspace@;
        before.lemma_filter_contains(fits, i);
        let k = choose|k: int| 0 <= k < own.len() && own[k] == before[i];
        assert(views[k] == bundle);
    }
}

/// A question whether the daemon is there is answered with its process; a request of
/// another version, and one for a path that cannot be had, are refused; and to stop
/// everything leaves nothing.
pub proof fn requests_are_met(
    version: u16,
    operation: Operation,
    paths: RequestPaths,
    connection: u64,
    daemon_pid: u32,
    stopping_all: bool,
    before: Seq<ManagedView>,
    after: Seq<ManagedView>,
    reply: Result<DaemonReply, DaemonError>,
)
    requires
        request_handled(version, operation, paths, connection, daemon_pid, stopping_all, before, after, reply),
    ensures
        version != PROTOCOL_VERSION ==> reply is Err && after == before,
        version == PROTOCOL_VERSION && operation is Ping ==> reply == Ok::<DaemonReply, DaemonError>(
            DaemonReply::Pong(daemon_pid),
        ) && after == before,
        version == PROTOCOL_VERSION && operation is StopAll ==> reply is Ok && after.len() == 0,
        version == PROTOCOL_VERSION && operation is ListWorkspace ==> after == before,
        version == PROTOCOL_VERSION && operation is ListWorkspace && paths.workspace is Ok ==> reply is Ok,
        version == PROTOCOL_VERSION && (operation is ListWorkspace || operation is StopWorkspace) && paths.workspace is Err
            ==> reply == Err::<DaemonReply, DaemonError>(paths.workspace->Err_0) && after == before,
        version == PROTOCOL_VERSION && operation is Launch && !stopping_all && paths.workspace is Err ==> reply == Err::<
            DaemonReply,
            DaemonError,
        >(paths.workspace->Err_0) && after == before,
{
}

/// A launch with good paths goes by what bundles there are, and what was asked for is
/// handed on as it was.
pub proof fn launches_go_by_the_bundles(
    before: Seq<ManagedView>,
    after: Seq<ManagedView>,
    group: Option<Seq<char>>,
    asked: (bool, bool),
    paths: RequestPaths,
    connection: u64,
    reply: Result<DaemonReply, DaemonError>,
)
    requires
        launch_handled(false, before, after, group, asked, paths, connection, reply),
        paths.workspace is Ok,
        paths.executable is Ok,
    ensures
        reply matches Err(error) ==> launched(
            false,
            before,
            after,
            paths.workspace->Ok_0@,
            group,
            connection,
            Err(error),
        ),
        reply matches Ok(answer) ==> answer is Launch && answer->executable == paths.executable->Ok_0 && (
        answer->watch, answer->use_cache) == asked && launched(
            false,
            before,
            after,
            paths.workspace->Ok_0@,
            group,
            connection,
            Ok(answer->decision),
        ),
{
}

} // verus!

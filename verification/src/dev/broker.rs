//! What the daemon does with its bundles: list, stop, ready, gone, idle.
use vstd::prelude::*;
use crate::collections::TextMap;
use crate::dev::daemon::{
    bad_group_view, bundle_view, bundle_views, copy_bundle, daemon_error, error_view, group_of, has_key, keys_differ,
    managed_view, managed_views, normalize_group, BundleDescriptor, BundleState, BundleView, Daemon, DaemonError,
    DaemonErrorCode, LaunchResult, ManagedBundle, ManagedView, Waiter, IDLE_GRACE_MILLIS, PROTOCOL_VERSION,
};
use crate::text::{concat2, same_text, text_option, texts, trimmed};

verus! {

/// The bundle is of the workspace, and of the group where one is given.
pub open spec fn is_meant(
    managed: ManagedView,
    workspace: Option<Seq<char>>,
    group: Option<Seq<char>>,
) -> bool {
    &&& workspace matches Some(path) ==> managed.bundle.workspace == path
    &&& group matches Some(name) ==> managed.bundle.group == name
}

/// The bundles that are meant.
pub open spec fn meant(
    bundles: Seq<ManagedView>,
    workspace: Option<Seq<char>>,
    group: Option<Seq<char>>,
) -> Seq<ManagedView> {
    bundles.filter(|managed: ManagedView| is_meant(managed, workspace, group))
}

/// The bundles that are not meant.
pub open spec fn unmeant(
    bundles: Seq<ManagedView>,
    workspace: Option<Seq<char>>,
    group: Option<Seq<char>>,
) -> Seq<ManagedView> {
    bundles.filter(|managed: ManagedView| !is_meant(managed, workspace, group))
}

/// The bundles as they are reported.
pub open spec fn reported(bundles: Seq<ManagedView>) -> Seq<BundleView> {
    bundles.map_values(|managed: ManagedView| managed.bundle)
}

/// The bundles as they are reported when they were stopped.
pub open spec fn stopped_views(bundles: Seq<ManagedView>) -> Seq<BundleView> {
    bundles.map_values(
        |managed: ManagedView| BundleView { state: BundleState::Stopping, ..managed.bundle },
    )
}

/// Who waits, by connection.
pub open spec fn connections(waiters: Seq<Waiter>) -> Seq<u64> {
    waiters.map_values(|waiter: Waiter| waiter.connection)
}

/// Who waits for any of the bundles, in the order of the bundles.
pub open spec fn all_waiting(bundles: Seq<ManagedView>) -> Seq<u64>
    decreases bundles.len(),
{
    if bundles.len() == 0 {
        Seq::empty()
    } else {
        all_waiting(bundles.drop_last()) + connections(bundles.last().waiters)
    }
}

/// Bundles that were stopped, and what those who waited for them are told.
#[derive(Debug)]
pub struct Stopped {
    pub bundles: Vec<BundleDescriptor>,
    pub waiting: Vec<u64>,
    pub error: DaemonError,
}

/// What those who wait are told when a bundle is stopped.
pub open spec fn stopped_error_view() -> (DaemonErrorCode, Seq<char>, Option<Seq<char>>) {
    (DaemonErrorCode::StartupFailed, "service supervisor was stopped during startup"@, None)
}

/// The stopped bundles are the ones that were taken.
pub open spec fn is_stopped(stopped: Stopped, taken: Seq<ManagedView>) -> bool {
    &&& bundle_views(stopped.bundles@) == stopped_views(taken)
    &&& stopped.waiting@ == all_waiting(taken)
    &&& error_view(stopped.error) == stopped_error_view()
}

/// The bundles of a workspace were stopped, or the one of a group of it;
/// nothing is where the group cannot be asked for.
pub open spec fn workspace_stopped(
    before: Seq<ManagedView>,
    after: Seq<ManagedView>,
    workspace: Seq<char>,
    group: Option<Seq<char>>,
    stopped: Result<Stopped, DaemonError>,
) -> bool {
    let wanted = match group {
        Some(name) => match group_of(Some(name)) {
            Some((plain, _)) => Some(Some(plain)),
            None => None,
        },
        None => Some(None),
    };
    match stopped {
        Ok(stopped) => {
            &&& wanted matches Some(name)
            &&& after == unmeant(before, Some(workspace), name)
            &&& is_stopped(stopped, meant(before, Some(workspace), name))
        },
        Err(error) => wanted is None && error_view(error) == bad_group_view() && after == before,
    }
}

/// What a supervisor sends when its services run.
#[derive(Debug)]
pub struct ReadyRecord {
    pub version: u16,
    pub bundle_id: String,
    pub workspace: String,
    pub group: String,
    pub display_group: Option<String>,
    pub supervisor_pid: u32,
    pub services: Vec<String>,
    pub ports: TextMap<u16>,
}

/// The record is of the bundle.
pub open spec fn is_record_of(record: ReadyRecord, managed: ManagedView) -> bool {
    &&& record.version == PROTOCOL_VERSION
    &&& has_key(managed, record.workspace@, record.group@)
    &&& managed.bundle.bundle_id == record.bundle_id@
    &&& managed.bundle.supervisor_pid == record.supervisor_pid
    &&& managed.bundle.display_group == text_option(record.display_group)
}

/// The bundle when its services run.
pub open spec fn running(bundle: BundleView, record: ReadyRecord) -> BundleView {
    BundleView {
        state: BundleState::Running,
        services: texts(record.services@),
        ports: record.ports@,
        ..bundle
    }
}

/// An answer to one who waited.
#[derive(Debug)]
pub struct LaunchAnswer {
    pub connection: u64,
    pub result: LaunchResult,
}

/// Each of those who waited gets the bundle, with the status it waits with.
pub open spec fn answers(list: Seq<LaunchAnswer>, waiters: Seq<Waiter>, bundle: BundleView) -> bool {
    &&& list.len() == waiters.len()
    &&& forall|i: int|
        0 <= i < list.len() ==> {
            &&& (#[trigger] list[i]).connection == waiters[i].connection
            &&& list[i].result.status == waiters[i].status
            &&& bundle_view(list[i].result.bundle) == bundle
        }
}

/// A bundle that is over, and what those who waited for it are told.
#[derive(Debug)]
pub struct Ended {
    pub waiting: Vec<u64>,
    pub error: DaemonError,
}

/// What those who wait are told when a bundle is over.
pub open spec fn ended_view(
    exited: Option<Seq<char>>,
    diagnostics: Option<Seq<char>>,
) -> (DaemonErrorCode, Seq<char>, Option<Seq<char>>) {
    let message = match exited {
        None => "service supervisor readiness timed out"@,
        Some(status) => "service supervisor exited before readiness: "@ + status,
    };
    (DaemonErrorCode::StartupFailed, message, diagnostics)
}

/// The bundle is over: its supervisor is gone, or it has not started in time.
pub open spec fn is_over(managed: ManagedView, exited: bool, now: u64) -> bool {
    exited || (managed.bundle.state == BundleState::Starting && now >= managed.deadline)
}

fn add_connections(list: &mut Vec<u64>, waiters: &Vec<Waiter>)
    ensures
        final(list)@ == old(list)@ + connections(waiters@),
{
    let ghost before = list@;
    let mut i: usize = 0;
    assert(list@ =~= before + connections(waiters@).take(0));
    while i < waiters.len()
        invariant
            i <= waiters@.len(),
            list@ == before + connections(waiters@).take(i as int),
        decreases waiters@.len() - i,
    {
        list.push(waiters[i].connection);
        assert(list@ =~= before + connections(waiters@).take(i + 1));
        i += 1;
    }
    assert(connections(waiters@).take(i as int) =~= connections(waiters@));
}

fn meant_here(managed: &ManagedBundle, workspace: Option<&str>, group: Option<&str>) -> (found: bool)
    ensures
        found == is_meant(
            managed_view(*managed),
            match workspace {
                Some(path) => Some(path@),
                None => None,
            },
            match group {
                Some(name) => Some(name@),
                None => None,
            },
        ),
{
    let place = match workspace {
        Some(path) => same_text(&managed.descriptor.workspace, path),
        None => true,
    };
    let named = match group {
        Some(name) => same_text(&managed.descriptor.group, name),
        None => true,
    };
    place && named
}

proof fn filtered_keys_differ(bundles: Seq<ManagedView>, kept: spec_fn(ManagedView) -> bool)
    requires
        keys_differ(bundles),
    ensures
        keys_differ(bundles.filter(kept)),
    decreases bundles.len(),
{
    reveal(Seq::filter);
    if bundles.len() > 0 {
        let front = bundles.drop_last();
        assert forall|i: int, j: int| 0 <= i < j < front.len() implies !has_key(
            #[trigger] front[i],
            (#[trigger] front[j]).bundle.workspace,
            front[j].bundle.group,
        ) by {
            assert(front[i] == bundles[i]);
            assert(front[j] == bundles[j]);
        }
        filtered_keys_differ(front, kept);
        let rest = front.filter(kept);
        if kept(bundles.last()) {
            assert forall|i: int, j: int| 0 <= i < j < rest.push(bundles.last()).len() implies !has_key(
                #[trigger] rest.push(bundles.last())[i],
                (#[trigger] rest.push(bundles.last())[j]).bundle.workspace,
                rest.push(bundles.last())[j].bundle.group,
            ) by {
                if j == rest.len() {
                    assert(rest.contains(rest[i]));
                    filter_holds(front, kept, rest[i]);
                    let k = choose|k: int| 0 <= k < front.len() && front[k] == rest[i];
                    assert(bundles[k] == front[k]);
                    assert(bundles[bundles.len() - 1] == bundles.last());
                }
            }
        }
    }
}

proof fn filter_holds(bundles: Seq<ManagedView>, kept: spec_fn(ManagedView) -> bool, item: ManagedView)
    requires
        bundles.filter(kept).contains(item),
    ensures
        exists|k: int| 0 <= k < bundles.len() && bundles[k] == item,
    decreases bundles.len(),
{
    reveal(Seq::filter);
    let front = bundles.drop_last();
    if bundles.len() > 0 {
        if front.filter(kept).contains(item) {
            filter_holds(front, kept, item);
            let k = choose|k: int| 0 <= k < front.len() && front[k] == item;
            assert(bundles[k] == item);
        } else {
            assert(bundles[bundles.len() - 1] == bundles.last());
            assert(item == bundles.last());
        }
    }
}

impl Daemon {
    /// The bundles of a workspace, in the order in which they were started.
    pub fn list_workspace(&self, workspace: &str) -> (list: Vec<BundleDescriptor>)
        ensures
            bundle_views(list@) == reported(meant(self.view_bundles(), Some(workspace@), None)),
    {
        let ghost all = self.view_bundles();
        let ghost kept = |managed: ManagedView| is_meant(managed, Some(workspace@), None);
        let mut list: Vec<BundleDescriptor> = Vec::new();
        let mut i: usize = 0;
        proof {
            reveal(Seq::filter);
            assert(bundle_views(list@) =~= reported(all.take(0).filter(kept)));
        }
        while i < self.bundles.len()
            invariant
                i <= self.bundles@.len(),
                all == self.view_bundles(),
                kept == |managed: ManagedView| is_meant(managed, Some(workspace@), None),
                bundle_views(list@) == reported(all.take(i as int).filter(kept)),
            decreases self.bundles@.len() - i,
        {
            proof {
                reveal(Seq::filter);
                assert(all[i as int] == managed_view(self.bundles@[i as int]));
                assert(all.take(i + 1).drop_last() =~= all.take(i as int));
                assert(all.take(i + 1).last() == all[i as int]);
            }
            let ghost before = list@;
            if meant_here(&self.bundles[i], Some(workspace), None) {
                list.push(copy_bundle(&self.bundles[i].descriptor));
                assert(bundle_views(list@) =~= bundle_views(before).push(all[i as int].bundle));
                assert(reported(all.take(i + 1).filter(kept)) =~= reported(all.take(i as int).filter(kept)).push(
                    all[i as int].bundle,
                ));
            }
            i += 1;
        }
        assert(all.take(i as int) =~= all);
        list
    }

    fn stop_meant(&mut self, workspace: Option<&str>, group: Option<&str>) -> (stopped: Stopped)
        requires
            old(self).well_formed(),
        ensures
            final(self).well_formed(),
            final(self).stopping_all == old(self).stopping_all,
            final(self).idle_since == old(self).idle_since,
            ({
                let place = match workspace {
                    Some(path) => Some(path@),
                    None => None,
                };
                let name = match group {
                    Some(name) => Some(name@),
                    None => None,
                };
                &&& final(self).view_bundles() == unmeant(old(self).view_bundles(), place, name)
                &&& is_stopped(stopped, meant(old(self).view_bundles(), place, name))
            }),
    {
        let ghost all = self.view_bundles();
        let ghost place = match workspace {
            Some(path) => Some(path@),
            None => None,
        };
        let ghost name = match group {
            Some(name) => Some(name@),
            None => None,
        };
        let ghost out = |managed: ManagedView| is_meant(managed, place, name);
        let ghost kept = |managed: ManagedView| !is_meant(managed, place, name);
        let mut rest: Vec<ManagedBundle> = Vec::new();
        let mut bundles: Vec<BundleDescriptor> = Vec::new();
        let mut waiting: Vec<u64> = Vec::new();
        let mut left: Vec<ManagedBundle> = Vec::new();
        std::mem::swap(&mut left, &mut self.bundles);
        let count = left.len();
        let mut i: usize = 0;
        proof {
            reveal(Seq::filter);
            assert(managed_views(left@) =~= all.skip(0));
            assert(managed_views(rest@) =~= all.take(0).filter(kept));
            assert(bundle_views(bundles@) =~= stopped_views(all.take(0).filter(out)));
            assert(waiting@ =~= all_waiting(all.take(0).filter(out)));
        }
        while i < count
            invariant
                i <= count,
                count == all.len(),
                place == (match workspace {
                    Some(path) => Some(path@),
                    None => None,
                }),
                name == (match group {
                    Some(name) => Some(name@),
                    None => None,
                }),
                out == |managed: ManagedView| is_meant(managed, place, name),
                kept == |managed: ManagedView| !is_meant(managed, place, name),
                managed_views(left@) == all.skip(i as int),
                managed_views(rest@) == all.take(i as int).filter(kept),
                bundle_views(bundles@) == stopped_views(all.take(i as int).filter(out)),
                waiting@ == all_waiting(all.take(i as int).filter(out)),
            decreases count - i,
        {
            let ghost before_left = left@;
            assert(managed_views(left@).len() == all.len() - i);
            assert(managed_views(left@)[0] == managed_view(left@[0]));
            let first = left.remove(0);
            proof {
                reveal(Seq::filter);
                assert(managed_view(first) == all[i as int]);
                assert(managed_views(left@) =~= all.skip(i + 1)) by {
                    assert forall|k: int| 0 <= k < left@.len() implies managed_views(left@)[k] == all.skip(i + 1)[k] by {
                        assert(left@[k] == before_left[k + 1]);
                        assert(managed_views(before_left)[k + 1] == all.skip(i as int)[k + 1]);
                    }
                }
                assert(all.take(i + 1).drop_last() =~= all.take(i as int));
                assert(all.take(i + 1).last() == all[i as int]);
            }
            let ghost taken = all.take(i as int).filter(out);
            let ghost before_rest = rest@;
            let ghost before_bundles = bundles@;
            if meant_here(&first, workspace, group) {
                let ManagedBundle { descriptor, deadline: _, waiters } = first;
                add_connections(&mut waiting, &waiters);
                let mut descriptor = descriptor;
                descriptor.state = BundleState::Stopping;
                bundles.push(descriptor);
                proof {
                    let next = all.take(i + 1).filter(out);
                    assert(next =~= taken.push(all[i as int]));
                    assert(next.drop_last() =~= taken);
                    assert(bundle_views(bundles@) =~= bundle_views(before_bundles).push(bundle_view(descriptor)));
                    assert(stopped_views(next) =~= stopped_views(taken).push(
                        BundleView { state: BundleState::Stopping, ..all[i as int].bundle },
                    ));
                }
            } else {
                rest.push(first);
                assert(managed_views(rest@) =~= managed_views(before_rest).push(all[i as int]));
            }
            i += 1;
        }
        assert(all.take(i as int) =~= all);
        self.bundles = rest;
        proof {
            filtered_keys_differ(all, kept);
        }
        let error = daemon_error(
            DaemonErrorCode::StartupFailed,
            "service supervisor was stopped during startup",
        );
        Stopped { bundles, waiting, error }
    }

    /// Stop the bundles of a workspace, or the one of a group of it.
    pub fn stop_workspace(&mut self, workspace: &str, group: Option<&str>) -> (stopped: Result<Stopped, DaemonError>)
        requires
            old(self).well_formed(),
        ensures
            final(self).well_formed(),
            final(self).stopping_all == old(self).stopping_all,
            final(self).idle_since == old(self).idle_since,
            workspace_stopped(
                old(self).view_bundles(),
                final(self).view_bundles(),
                workspace@,
                match group {
                    Some(name) => Some(name@),
                    None => None,
                },
                stopped,
            ),
    {
        match group {
            Some(_) => match normalize_group(group) {
                Ok((name, _)) => Ok(self.stop_meant(Some(workspace), Some(name.as_str()))),
                Err(error) => Err(error),
            },
            None => Ok(self.stop_meant(Some(workspace), None)),
        }
    }

    /// Stop every bundle; no other is started from then on.
    pub fn stop_all(&mut self) -> (stopped: Stopped)
        requires
            old(self).well_formed(),
        ensures
            final(self).well_formed(),
            final(self).stopping_all,
            final(self).idle_since == old(self).idle_since,
            final(self).bundles@.len() == 0,
            is_stopped(stopped, old(self).view_bundles()),
    {
        let ghost all = self.view_bundles();
        self.stopping_all = true;
        let stopped = self.stop_meant(None, None);
        proof {
            all_are_meant(all);
            assert(managed_views(self.bundles@).len() == self.bundles@.len());
        }
        stopped
    }

    /// A supervisor says that its services run. Its bundle runs from then on,
    /// and those who waited for it are answered; a record of no bundle is
    /// ignored.
    pub fn note_ready(&mut self, record: ReadyRecord) -> (list: Vec<LaunchAnswer>)
        requires
            old(self).well_formed(),
        ensures
            final(self).well_formed(),
            final(self).stopping_all == old(self).stopping_all,
            final(self).idle_since == old(self).idle_since,
            ({
                let before = old(self).view_bundles();
                ||| (forall|i: int| 0 <= i < before.len() ==> !is_record_of(record, #[trigger] before[i]))
                    && final(self).view_bundles() == before && list@.len() == 0
                ||| exists|at: int|
                    0 <= at < before.len() && is_record_of(record, #[trigger] before[at])
                        && final(self).view_bundles() == before.update(
                        at,
                        ManagedView {
                            bundle: running(before[at].bundle, record),
                            waiters: Seq::empty(),
                            ..before[at]
                        },
                    ) && answers(list@, before[at].waiters, running(before[at].bundle, record))
            }),
    {
        let mut list: Vec<LaunchAnswer> = Vec::new();
        let ghost before = self.view_bundles();
        if record.version != PROTOCOL_VERSION {
            return list;
        }
        let at = match self.find(&record.workspace, &record.group) {
            Some(at) => at,
            None => return list,
        };
        assert(before[at as int] == managed_view(self.bundles@[at as int]));
        let same_display = match (&self.bundles[at].descriptor.display_group, &record.display_group) {
            (Some(one), Some(other)) => same_text(one, other),
            (None, None) => true,
            _ => false,
        };
        if !same_text(&self.bundles[at].descriptor.bundle_id, &record.bundle_id)
            || self.bundles[at].descriptor.supervisor_pid != record.supervisor_pid || !same_display {
            proof {
                assert forall|i: int| 0 <= i < before.len() implies !is_record_of(record, #[trigger] before[i]) by {
                    if i != at {
                        assert(!(has_key(before[i], record.workspace@, record.group@))) by {
                            if i < at {
                                assert(!has_key(before[i], before[at as int].bundle.workspace, before[at as int].bundle.group));
                            } else {
                                assert(!has_key(before[at as int], before[i].bundle.workspace, before[i].bundle.group));
                            }
                        }
                    }
                }
            }
            return list;
        }
        let ghost shown = running(before[at as int].bundle, record);
        let mut waiters: Vec<Waiter> = Vec::new();
        self.bundles[at].descriptor.state = BundleState::Running;
        self.bundles[at].descriptor.services = record.services;
        self.bundles[at].descriptor.ports = record.ports;
        std::mem::swap(&mut waiters, &mut self.bundles[at].waiters);
        proof {
            let after = ManagedView { bundle: shown, waiters: Seq::empty(), ..before[at as int] };
            assert(managed_view(self.bundles@[at as int]) == after);
            assert(self.view_bundles() =~= before.update(at as int, after));
            assert forall|i: int, j: int| 0 <= i < j < self.view_bundles().len() implies !has_key(
                #[trigger] self.view_bundles()[i],
                (#[trigger] self.view_bundles()[j]).bundle.workspace,
                self.view_bundles()[j].bundle.group,
            ) by {
                assert(has_key(self.view_bundles()[i], before[i].bundle.workspace, before[i].bundle.group));
                assert(has_key(self.view_bundles()[j], before[j].bundle.workspace, before[j].bundle.group));
            }
        }
        let mut i: usize = 0;
        while i < waiters.len()
            invariant
                i <= waiters@.len(),
                at < self.bundles@.len(),
                bundle_view(self.bundles@[at as int].descriptor) == shown,
                answers(list@, waiters@.take(i as int), shown),
            decreases waiters@.len() - i,
        {
            let bundle = copy_bundle(&self.bundles[at].descriptor);
            let result = LaunchResult { status: waiters[i].status, bundle };
            list.push(LaunchAnswer { connection: waiters[i].connection, result });
            i += 1;
        }
        assert(waiters@.take(i as int) =~= waiters@);
        list
    }

    /// Whether a bundle is over.
    pub fn has_ended(&self, at: usize, exited: bool, now: u64) -> (over: bool)
        requires
            at < self.bundles@.len(),
        ensures
            over == is_over(self.view_bundles()[at as int], exited, now),
    {
        exited || (self.bundles[at].descriptor.state == BundleState::Starting && now as u128
            >= self.bundles[at].deadline)
    }

    /// Remove a bundle that is over.
    pub fn remove_ended(&mut self, at: usize, exited: Option<&str>, diagnostics: Option<String>) -> (ended: Ended)
        requires
            old(self).well_formed(),
            at < old(self).bundles@.len(),
        ensures
            final(self).well_formed(),
            final(self).stopping_all == old(self).stopping_all,
            final(self).idle_since == old(self).idle_since,
            final(self).view_bundles() == old(self).view_bundles().remove(at as int),
            ended.waiting@ == connections(old(self).view_bundles()[at as int].waiters),
            error_view(ended.error) == ended_view(
                match exited {
                    Some(status) => Some(status@),
                    None => None,
                },
                text_option(diagnostics),
            ),
    {
        let ghost before = self.view_bundles();
        let managed = self.bundles.remove(at);
        proof {
            assert(before[at as int] == managed_view(managed));
            assert(self.view_bundles() =~= before.remove(at as int));
            assert forall|i: int, j: int| 0 <= i < j < self.view_bundles().len() implies !has_key(
                #[trigger] self.view_bundles()[i],
                (#[trigger] self.view_bundles()[j]).bundle.workspace,
                self.view_bundles()[j].bundle.group,
            ) by {
                let one = if i < at { i } else { i + 1 };
                let other = if j < at { j } else { j + 1 };
                assert(self.view_bundles()[i] == before[one]);
                assert(self.view_bundles()[j] == before[other]);
            }
        }
        let mut waiting: Vec<u64> = Vec::new();
        add_connections(&mut waiting, &managed.waiters);
        assert(waiting@ =~= connections(managed.waiters@));
        let message = match exited {
            None => "service supervisor readiness timed out".to_owned(),
            Some(status) => concat2("service supervisor exited before readiness: ", status),
        };
        Ended {
            waiting,
            error: DaemonError { code: DaemonErrorCode::StartupFailed, message, diagnostics },
        }
    }

    /// Whether the daemon ends: it was told to and nothing is left, or nothing
    /// was there for a while.
    pub fn check_idle(&mut self, now: u64) -> (ends: bool)
        ensures
            final(self).bundles == old(self).bundles,
            final(self).stopping_all == old(self).stopping_all,
            ({
                let since = match old(self).idle_since {
                    Some(since) => since,
                    None => now,
                };
                let empty = old(self).bundles@.len() == 0;
                &&& ends == (empty && (old(self).stopping_all || since + IDLE_GRACE_MILLIS <= now))
                &&& final(self).idle_since == (if empty && old(self).stopping_all {
                    old(self).idle_since
                } else if empty {
                    Some(since)
                } else {
                    None
                })
            }),
    {
        if self.bundles.len() == 0 {
            if self.stopping_all {
                return true;
            }
            let since: u64 = match self.idle_since {
                Some(since) => since,
                None => now,
            };
            self.idle_since = Some(since);
            since as u128 + IDLE_GRACE_MILLIS as u128 <= now as u128
        } else {
            self.idle_since = None;
            false
        }
    }
}

proof fn all_are_meant(bundles: Seq<ManagedView>)
    ensures
        meant(bundles, None, None) == bundles,
        unmeant(bundles, None, None).len() == 0,
    decreases bundles.len(),
{
    reveal(Seq::filter);
    if bundles.len() > 0 {
        all_are_meant(bundles.drop_last());
        assert(bundles.drop_last().push(bundles.last()) =~= bundles);
        assert(is_meant(bundles.last(), None, None));
    }
}

/// A workspace that was stopped has no bundle left, and the bundles of other
/// workspaces are the same as before.
pub proof fn stopping_leaves_the_others(bundles: Seq<ManagedView>, stopped: Seq<char>, other: Seq<char>)
    requires
        stopped != other,
    ensures
        meant(unmeant(bundles, Some(stopped), None), Some(stopped), None).len() == 0,
        meant(unmeant(bundles, Some(stopped), None), Some(other), None) == meant(bundles, Some(other), None),
    decreases bundles.len(),
{
    reveal(Seq::filter);
    if bundles.len() > 0 {
        let last = bundles.last();
        let rest = unmeant(bundles.drop_last(), Some(stopped), None);
        stopping_leaves_the_others(bundles.drop_last(), stopped, other);
        if !is_meant(last, Some(stopped), None) {
            assert(rest.push(last).drop_last() =~= rest);
        }
    }
}

/// Who waits for any of some bundles is who waits for the first of them, then who
/// waits for the others.
pub proof fn all_who_wait_are_known(one: Seq<ManagedView>, two: Seq<ManagedView>, bundle: ManagedView)
    ensures
        all_waiting(one + two) == all_waiting(one) + all_waiting(two),
        all_waiting(seq![bundle]) == connections(bundle.waiters),
    decreases two.len(),
{
    assert(seq![bundle].drop_last() =~= Seq::<ManagedView>::empty());
    assert(seq![bundle].last() == bundle);
    assert(all_waiting(seq![bundle].drop_last()) =~= Seq::<u64>::empty());
    assert(all_waiting(seq![bundle]) =~= connections(bundle.waiters));
    if two.len() == 0 {
        assert(one + two =~= one);
        assert(all_waiting(one) + all_waiting(two) =~= all_waiting(one));
    } else {
        all_who_wait_are_known(one, two.drop_last(), bundle);
        assert((one + two).drop_last() =~= one + two.drop_last());
        assert((one + two).last() == two.last());
        assert(all_waiting(one + two) =~= all_waiting(one) + all_waiting(two));
    }
}

/// Stopping takes the bundles of the workspace, or of its group where one is given,
/// and no other.
pub proof fn stopping_takes_what_is_meant(
    before: Seq<ManagedView>,
    after: Seq<ManagedView>,
    workspace: Seq<char>,
    group: Option<Seq<char>>,
    stopped: Stopped,
    bundle: ManagedView,
)
    requires
        workspace_stopped(before, after, workspace, group, Ok(stopped)),
    ensures
        after.contains(bundle) <==> before.contains(bundle) && !(bundle.bundle.workspace == workspace && (group is None
            || bundle.bundle.group == trimmed(group->0))),
        stopped.bundles@.len() + after.len() == before.len(),
{
    let name = match group {
        Some(name) => Some(trimmed(name)),
        None => None,
    };
    let other = |managed: ManagedView| !is_meant(managed, Some(workspace), name);
    let same = |managed: ManagedView| is_meant(managed, Some(workspace), name);
    assert(after == before.filter(other));
    if after.contains(bundle) {
        before.lemma_filter_contains_rev(other, bundle);
        let i = choose|i: int| 0 <= i < after.len() && after[i] == bundle;
        before.lemma_filter_pred(other, i);
    }
    if before.contains(bundle) && other(bundle) {
        let i = choose|i: int| 0 <= i < before.len() && before[i] == bundle;
        before.lemma_filter_contains(other, i);
    }
    parted_lengths(before, Some(workspace), name);
    assert(bundle_views(stopped.bundles@).len() == stopped.bundles@.len());
}

proof fn parted_lengths(bundles: Seq<ManagedView>, workspace: Option<Seq<char>>, group: Option<Seq<char>>)
    ensures
        meant(bundles, workspace, group).len() + unmeant(bundles, workspace, group).len() == bundles.len(),
    decreases bundles.len(),
{
    reveal(Seq::filter);
    if bundles.len() > 0 {
        parted_lengths(bundles.drop_last(), workspace, group);
    }
}

/// A bundle is over where its supervisor is gone or where its time to start has run
/// out; a bundle that runs is over only with its supervisor.
pub proof fn bundles_are_over(managed: ManagedView, now: u64)
    ensures
        is_over(managed, true, now),
        managed.bundle.state == BundleState::Starting && now >= managed.deadline ==> is_over(managed, false, now),
        managed.bundle.state == BundleState::Running ==> !is_over(managed, false, now),
        now < managed.deadline ==> !is_over(managed, false, now),
{
}

/// A bundle that is ready runs with the services and ports of its record, and is the
/// same bundle otherwise.
pub proof fn ready_bundles_run(bundle: BundleView, record: ReadyRecord)
    ensures
        running(bundle, record).state == BundleState::Running,
        running(bundle, record).services == texts(record.services@),
        running(bundle, record).ports == record.ports@,
        running(bundle, record).bundle_id == bundle.bundle_id,
        running(bundle, record).workspace == bundle.workspace,
        running(bundle, record).group == bundle.group,
        running(bundle, record).supervisor_pid == bundle.supervisor_pid,
{
}

/// A record is of a bundle only where workspace, group, bundle and supervisor are the
/// same.
pub proof fn records_are_of_their_bundle(record: ReadyRecord, managed: ManagedView)
    requires
        is_record_of(record, managed),
    ensures
        managed.bundle.workspace == record.workspace@,
        managed.bundle.group == record.group@,
        managed.bundle.bundle_id == record.bundle_id@,
        managed.bundle.supervisor_pid == record.supervisor_pid,
        record.version == PROTOCOL_VERSION,
{
}

/// Who waits is told whether the supervisor went away or did not start in time, and
/// what it printed.
pub proof fn who_waits_is_told(status: Seq<char>, diagnostics: Option<Seq<char>>)
    ensures
        ended_view(None, diagnostics).0 == DaemonErrorCode::StartupFailed,
        ended_view(Some(status), diagnostics).0 == DaemonErrorCode::StartupFailed,
        ended_view(None, diagnostics).2 == diagnostics,
        ended_view(Some(status), diagnostics).2 == diagnostics,
        status.is_suffix_of(ended_view(Some(status), diagnostics).1),
{
    let message = ended_view(Some(status), diagnostics).1;
    assert(status =~= message.skip(message.len() - status.len()));
}

} // verus!

//! A run of targets, level by level.
use vstd::prelude::*;
use crate::collections::{ascending, TextMap, TextSet};
use crate::discovery::scanner::DiscoveredProject;
use crate::executor::jobs::{is_preparation, override_in, prepare_target, Preparation};
use crate::executor::levels::{
    assigned_before, compute_target_levels, dependencies_are_in_earlier_levels, is_rank, level_at, levels_are_disjoint,
};
use crate::executor::results::{failed_result, failed_view, result_views, ExecutionResult, ResultView};
use crate::executor::targets::{dependencies_of, target_dependencies};
use crate::text::{concat2, join_texts, joined, texts};

verus! {

/// What to do with the targets of a level: which run, and which are blocked by
/// which of their dependencies. `failed` are the targets that failed or were
/// blocked so far.
pub struct LevelScan {
    pub runnable: Seq<Seq<char>>,
    pub blocked: Seq<(Seq<char>, Seq<Seq<char>>)>,
    pub failed: Set<Seq<char>>,
}

/// The dependencies of a target that failed or were blocked.
pub open spec fn failed_dependencies(
    projects: Map<Seq<char>, &DiscoveredProject>,
    address: Seq<char>,
    failed: Set<Seq<char>>,
) -> Seq<Seq<char>> {
    dependencies_of(projects, address).filter(|dependency: Seq<char>| failed.contains(dependency))
}

/// The targets of a level one after another: one with a failed dependency is
/// blocked and counts as failed from there on.
pub open spec fn scan_level(
    projects: Map<Seq<char>, &DiscoveredProject>,
    level: Seq<Seq<char>>,
    failed: Set<Seq<char>>,
) -> LevelScan
    decreases level.len(),
{
    if level.len() == 0 {
        LevelScan { runnable: Seq::empty(), blocked: Seq::empty(), failed }
    } else {
        let scan = scan_level(projects, level.drop_last(), failed);
        let missing = failed_dependencies(projects, level.last(), scan.failed);
        if missing.len() == 0 {
            LevelScan { runnable: scan.runnable.push(level.last()), ..scan }
        } else {
            LevelScan {
                blocked: scan.blocked.push((level.last(), missing)),
                failed: scan.failed.insert(level.last()),
                ..scan
            }
        }
    }
}

/// A target of a level is blocked.
pub open spec fn is_blocked(scan: LevelScan, address: Seq<char>) -> bool {
    exists|i: int| 0 <= i < scan.blocked.len() && (#[trigger] scan.blocked[i]).0 == address
}

/// The result of a target that did not run because of what it depends on.
pub open spec fn blocked_view(blocked: (Seq<char>, Seq<Seq<char>>)) -> ResultView {
    failed_view(blocked.0, "Blocked: prerequisite target(s) failed: "@ + joined(blocked.1, ", "@), 0)
}

/// The results of the targets that did not run.
pub open spec fn blocked_views(blocked: Seq<(Seq<char>, Seq<Seq<char>>)>) -> Seq<ResultView> {
    blocked.map_values(|one: (Seq<char>, Seq<Seq<char>>)| blocked_view(one))
}

/// What to do with the targets of a level.
pub struct LevelPlan {
    /// The targets to run, side by side
    pub runnable: Vec<String>,
    /// The results of the targets that are blocked
    pub blocked: Vec<ExecutionResult>,
}

fn find_failed(target_addr: &str, project_map: &TextMap<&DiscoveredProject>, failed: &TextSet) -> (found: Vec<String>)
    ensures
        texts(found@) == failed_dependencies(project_map@, target_addr@, failed@),
{
    let dependencies = target_dependencies(target_addr, project_map);
    let ghost all = texts(dependencies@);
    let ghost wanted = |dependency: Seq<char>| failed@.contains(dependency);
    let mut found: Vec<String> = Vec::new();
    let mut i: usize = 0;
    proof {
        reveal(Seq::filter);
        assert(all.take(0) =~= Seq::<Seq<char>>::empty());
        assert(texts(found@) =~= Seq::<Seq<char>>::empty());
    }
    while i < dependencies.len()
        invariant
            i <= dependencies@.len(),
            all == texts(dependencies@),
            wanted == (|dependency: Seq<char>| failed@.contains(dependency)),
            texts(found@) == all.take(i as int).filter(wanted),
        decreases dependencies@.len() - i,
    {
        let ghost before = texts(found@);
        proof {
            reveal(Seq::filter);
            assert(all.take(i + 1).drop_last() =~= all.take(i as int));
            assert(all.take(i + 1).last() == dependencies@[i as int]@);
        }
        if failed.contains(&dependencies[i]) {
            found.push(dependencies[i].clone());
            assert(texts(found@) =~= before.push(dependencies@[i as int]@));
        }
        i += 1;
    }
    assert(all.take(all.len() as int) =~= all);
    found
}

/// Divides a level into the targets that can run and those that are blocked.
pub fn plan_level(
    level: &Vec<String>,
    project_map: &TextMap<&DiscoveredProject>,
    failed_or_blocked: &mut TextSet,
) -> (plan: LevelPlan)
    ensures
        ({
            let scan = scan_level(project_map@, texts(level@), old(failed_or_blocked)@);
            &&& texts(plan.runnable@) == scan.runnable
            &&& result_views(plan.blocked@) == blocked_views(scan.blocked)
            &&& final(failed_or_blocked)@ == scan.failed
        }),
{
    let ghost all = texts(level@);
    let ghost start = failed_or_blocked@;
    let mut runnable: Vec<String> = Vec::new();
    let mut blocked: Vec<ExecutionResult> = Vec::new();
    let mut i: usize = 0;
    proof {
        assert(all.take(0) =~= Seq::<Seq<char>>::empty());
        assert(texts(runnable@) =~= Seq::<Seq<char>>::empty());
        assert(result_views(blocked@) =~= blocked_views(Seq::empty()));
    }
    while i < level.len()
        invariant
            i <= level@.len(),
            all == texts(level@),
            texts(runnable@) == scan_level(project_map@, all.take(i as int), start).runnable,
            result_views(blocked@) == blocked_views(scan_level(project_map@, all.take(i as int), start).blocked),
            failed_or_blocked@ == scan_level(project_map@, all.take(i as int), start).failed,
        decreases level@.len() - i,
    {
        let ghost scan = scan_level(project_map@, all.take(i as int), start);
        proof {
            assert(all.take(i + 1).drop_last() =~= all.take(i as int));
            assert(all.take(i + 1).last() == level@[i as int]@);
        }
        let missing = find_failed(&level[i], project_map, failed_or_blocked);
        assert(texts(missing@).len() == missing@.len());
        if missing.len() == 0 {
            let ghost before = texts(runnable@);
            runnable.push(level[i].clone());
            assert(texts(runnable@) =~= before.push(level@[i as int]@));
        } else {
            let ghost before = result_views(blocked@);
            let text = concat2("Blocked: prerequisite target(s) failed: ", &join_texts(&missing, ", "));
            let _ = failed_or_blocked.insert(level[i].clone());
            let result = failed_result(&level[i], text, 0);
            let ghost view = result@;
            blocked.push(result);
            proof {
                let one = (level@[i as int]@, texts(missing@));
                assert(view == blocked_view(one));
                assert(result_views(blocked@) =~= before.push(view));
                assert(blocked_views(scan.blocked.push(one)) =~= blocked_views(scan.blocked).push(blocked_view(one)));
            }
        }
        i += 1;
    }
    assert(all.take(all.len() as int) =~= all);
    LevelPlan { runnable, blocked }
}

/// The addresses of the results without success.
pub open spec fn failed_addresses(results: Seq<ExecutionResult>) -> Set<Seq<char>> {
    Set::new(
        |address: Seq<char>|
            exists|i: int| 0 <= i < results.len() && !(#[trigger] results[i]).success && results[i].address@ == address,
    )
}

/// A level that begins.
pub struct LevelStart<'a> {
    /// The targets to run, side by side
    pub runnable: Vec<String>,
    /// What becomes of each of them before anything runs
    pub prepared: Vec<Preparation<'a>>,
}

impl<'a> LevelStart<'a> {
    /// The targets of the level are prepared, with the commands that overrides
    /// give them.
    pub open spec fn prepares(
        &self,
        targets: Seq<Seq<char>>,
        projects: Map<Seq<char>, &DiscoveredProject>,
        overrides: Map<Seq<char>, String>,
    ) -> bool {
        &&& texts(self.runnable@) == targets
        &&& self.prepared@.len() == targets.len()
        &&& forall|i: int|
            0 <= i < targets.len() ==> is_preparation(
                #[trigger] self.prepared@[i],
                projects,
                override_in(overrides, targets[i]),
                targets[i],
            )
    }
}

/// Where a run stands: the levels that are left, the commands that replace
/// those of some targets, the targets that failed or were blocked, and the
/// results so far.
pub struct TargetRun {
    pub levels: Vec<Vec<String>>,
    pub overrides: TextMap<String>,
    pub next: usize,
    pub failed_or_blocked: TextSet,
    pub blocked: Vec<ExecutionResult>,
    pub results: Vec<ExecutionResult>,
}

/// The commands that replace those of some targets.
pub open spec fn overrides_in(overrides: Option<&TextMap<String>>) -> Map<Seq<char>, String> {
    match overrides {
        Some(commands) => commands@,
        None => Map::empty(),
    }
}

impl TargetRun {
    /// The next level is one of the run's levels, or behind the last.
    pub open spec fn well_formed(&self) -> bool {
        self.next <= self.levels@.len()
    }

    /// A run of targets that has not begun. Without targets it has no levels.
    pub fn new(
        targets_to_run: &TextSet,
        project_map: &TextMap<&DiscoveredProject>,
        command_overrides: Option<&TextMap<String>>,
    ) -> (run: TargetRun)
        ensures
            run.well_formed(),
            run.overrides@ == overrides_in(command_overrides),
            run.next == 0,
            run.failed_or_blocked@ == Set::<Seq<char>>::empty(),
            run.blocked@.len() == 0,
            run.results@.len() == 0,
            targets_to_run@.is_empty() ==> run.levels@.len() == 0,
            !targets_to_run@.is_empty() ==> {
                &&& assigned_before(project_map@, targets_to_run@, run.levels@.len() as int) == targets_to_run@
                &&& forall|i: int|
                    0 <= i < run.levels@.len() ==> texts((#[trigger] run.levels@[i])@).to_set() == level_at(
                        project_map@,
                        targets_to_run@,
                        i,
                    ) && ascending(texts(run.levels@[i]@)) && run.levels@[i]@.len() > 0
            },
    {
        let levels = if targets_to_run.is_empty() {
            assert(targets_to_run@.is_empty());
            Vec::new()
        } else {
            proof {
                if targets_to_run@.is_empty() {
                    assert(targets_to_run@ =~= Set::empty());
                }
            }
            compute_target_levels(targets_to_run, project_map)
        };
        let overrides = match command_overrides {
            Some(commands) => commands.clone(),
            None => TextMap::new(),
        };
        TargetRun {
            levels,
            overrides,
            next: 0,
            failed_or_blocked: TextSet::new(),
            blocked: Vec::new(),
            results: Vec::new(),
        }
    }

    /// The targets to run next, side by side, with their commands. None are
    /// left when a shutdown is requested or all levels are done.
    pub fn next_level<'a>(&mut self, project_map: &TextMap<&'a DiscoveredProject>, shutdown: bool) -> (start: Option<
        LevelStart<'a>,
    >)
        requires
            old(self).well_formed(),
        ensures
            final(self).well_formed(),
            final(self).levels == old(self).levels,
            final(self).overrides == old(self).overrides,
            final(self).results == old(self).results,
            start is None <==> shutdown || old(self).next == old(self).levels@.len(),
            start is None ==> *final(self) == *old(self),
            start matches Some(found) ==> {
                let scan = scan_level(
                    project_map@,
                    texts(old(self).levels@[old(self).next as int]@),
                    old(self).failed_or_blocked@,
                );
                &&& final(self).next == old(self).next + 1
                &&& found.prepares(scan.runnable, project_map@, old(self).overrides@)
                &&& result_views(final(self).blocked@) == blocked_views(scan.blocked)
                &&& final(self).failed_or_blocked@ == scan.failed
            },
    {
        if shutdown || self.next == self.levels.len() {
            return None;
        }
        let plan = plan_level(&self.levels[self.next], project_map, &mut self.failed_or_blocked);
        self.next = self.next + 1;
        self.blocked = plan.blocked;
        let runnable = plan.runnable;
        let ghost targets = texts(runnable@);
        let mut prepared: Vec<Preparation<'a>> = Vec::new();
        let mut i: usize = 0;
        while i < runnable.len()
            invariant
                i <= runnable@.len(),
                targets == texts(runnable@),
                prepared@.len() == i,
                forall|k: int|
                    0 <= k < i ==> is_preparation(
                        #[trigger] prepared@[k],
                        project_map@,
                        override_in(self.overrides@, targets[k]),
                        targets[k],
                    ),
            decreases runnable@.len() - i,
        {
            assert(targets[i as int] == runnable@[i as int]@);
            prepared.push(prepare_target(&runnable[i], project_map, Some(&self.overrides)));
            i += 1;
        }
        Some(LevelStart { runnable, prepared })
    }

    /// Takes in what came of the targets that ran: the results of the blocked
    /// targets of the level come first.
    pub fn finish_level(&mut self, level_results: &Vec<ExecutionResult>)
        requires
            old(self).well_formed(),
        ensures
            final(self).well_formed(),
            final(self).levels == old(self).levels,
            final(self).overrides == old(self).overrides,
            final(self).next == old(self).next,
            final(self).blocked@.len() == 0,
            final(self).results@ == old(self).results@ + old(self).blocked@ + level_results@,
            final(self).failed_or_blocked@ == old(self).failed_or_blocked@.union(failed_addresses(level_results@)),
    {
        let ghost failed = self.failed_or_blocked@;
        let ghost before = self.results@ + self.blocked@;
        self.results.append(&mut self.blocked);
        let mut i: usize = 0;
        proof {
            assert(before + level_results@.take(0) =~= before);
            assert(failed_addresses(level_results@.take(0)) =~= Set::empty());
            assert(failed.union(Set::empty()) =~= failed);
        }
        while i < level_results.len()
            invariant
                i <= level_results@.len(),
                self.well_formed(),
                self.levels == old(self).levels,
                self.overrides == old(self).overrides,
                self.next == old(self).next,
                self.blocked@.len() == 0,
                self.results@ == before + level_results@.take(i as int),
                self.failed_or_blocked@ == failed.union(failed_addresses(level_results@.take(i as int))),
            decreases level_results@.len() - i,
        {
            let ghost earlier = level_results@.take(i as int);
            let ghost now = level_results@.take(i + 1);
            let result = &level_results[i];
            assert(now =~= earlier.push(*result));
            if !result.success {
                let _ = self.failed_or_blocked.insert(result.address.clone());
            }
            self.results.push(result.clone());
            proof {
                assert(before + now =~= (before + earlier).push(*result));
                assert forall|address: Seq<char>| failed_addresses(now).contains(address) <==> failed_addresses(
                    earlier,
                ).contains(address) || (!result.success && result.address@ == address) by {
                    if failed_addresses(earlier).contains(address) {
                        let k = choose|k: int|
                            0 <= k < earlier.len() && !(#[trigger] earlier[k]).success && earlier[k].address@
                                == address;
                        assert(now[k] == earlier[k]);
                    }
                    if failed_addresses(now).contains(address) {
                        let k = choose|k: int|
                            0 <= k < now.len() && !(#[trigger] now[k]).success && now[k].address@ == address;
                        if k < earlier.len() {
                            assert(earlier[k] == now[k]);
                        }
                    }
                    if !result.success && result.address@ == address {
                        assert(now[i as int] == *result);
                    }
                }
                assert(self.failed_or_blocked@ =~= failed.union(failed_addresses(now)));
            }
            i += 1;
        }
        assert(level_results@.take(level_results@.len() as int) =~= level_results@);
    }
}

/// What has failed stays failed, and every target of the level is either run
/// or blocked.
pub proof fn scan_covers_level(
    projects: Map<Seq<char>, &DiscoveredProject>,
    level: Seq<Seq<char>>,
    failed: Set<Seq<char>>,
)
    ensures
        failed.subset_of(scan_level(projects, level, failed).failed),
        scan_level(projects, level, failed).runnable.len() + scan_level(projects, level, failed).blocked.len()
            == level.len(),
    decreases level.len(),
{
    if level.len() > 0 {
        scan_covers_level(projects, level.drop_last(), failed);
    }
}

/// A target of the level that does not run counts as failed behind it, with a
/// reason: some of what it depends on has failed. Nothing else comes to count
/// as failed, and every target of the level either runs or does not.
pub proof fn blocked_targets_count_as_failed(
    projects: Map<Seq<char>, &DiscoveredProject>,
    level: Seq<Seq<char>>,
    failed: Set<Seq<char>>,
)
    ensures
        ({
            let scan = scan_level(projects, level, failed);
            &&& forall|address: Seq<char>| #[trigger]
                scan.failed.contains(address) <==> failed.contains(address) || is_blocked(scan, address)
            &&& forall|address: Seq<char>| #[trigger]
                level.contains(address) <==> scan.runnable.contains(address) || is_blocked(scan, address)
            &&& forall|i: int|
                0 <= i < scan.blocked.len() ==> {
                    let (address, reasons) = #[trigger] scan.blocked[i];
                    &&& reasons.len() > 0
                    &&& forall|reason: Seq<char>| #[trigger]
                        reasons.contains(reason) ==> dependencies_of(projects, address).contains(reason)
                            && scan.failed.contains(reason)
                    &&& forall|dependency: Seq<char>| #[trigger]
                        dependencies_of(projects, address).contains(dependency) && failed.contains(dependency)
                            ==> reasons.contains(dependency)
                }
        }),
    decreases level.len(),
{
    let scan = scan_level(projects, level, failed);
    if level.len() > 0 {
        let front = level.drop_last();
        let last = level.last();
        let earlier = scan_level(projects, front, failed);
        blocked_targets_count_as_failed(projects, front, failed);
        let missing = failed_dependencies(projects, last, earlier.failed);
        let dependencies = dependencies_of(projects, last);
        let wanted = |d: Seq<char>| earlier.failed.contains(d);
        assert(missing =~= dependencies.filter(wanted));
        assert forall|address: Seq<char>| is_blocked(scan, address) <==> is_blocked(earlier, address) || (address
            == last && missing.len() > 0) by {
            if is_blocked(earlier, address) {
                let i = choose|i: int| 0 <= i < earlier.blocked.len() && (#[trigger] earlier.blocked[i]).0 == address;
                assert(scan.blocked[i] == earlier.blocked[i]);
            }
            if is_blocked(scan, address) {
                let i = choose|i: int| 0 <= i < scan.blocked.len() && (#[trigger] scan.blocked[i]).0 == address;
                if i < earlier.blocked.len() {
                    assert(scan.blocked[i] == earlier.blocked[i]);
                }
            }
            if address == last && missing.len() > 0 {
                assert(scan.blocked[scan.blocked.len() - 1].0 == last);
            }
        }
        assert forall|address: Seq<char>| #[trigger]
            level.contains(address) <==> scan.runnable.contains(address) || is_blocked(scan, address) by {
            assert(level =~= front.push(last));
            assert(level.contains(address) <==> front.contains(address) || address == last) by {
                if front.contains(address) {
                    let k = choose|k: int| 0 <= k < front.len() && front[k] == address;
                    assert(level[k] == address);
                }
                assert(level[level.len() - 1] == last);
            }
            assert(scan.runnable.contains(address) <==> earlier.runnable.contains(address) || (address == last
                && missing.len() == 0)) by {
                if earlier.runnable.contains(address) {
                    let k = choose|k: int| 0 <= k < earlier.runnable.len() && earlier.runnable[k] == address;
                    assert(scan.runnable[k] == address);
                }
                if missing.len() == 0 {
                    assert(scan.runnable[scan.runnable.len() - 1] == last);
                }
                if scan.runnable.contains(address) {
                    let k = choose|k: int| 0 <= k < scan.runnable.len() && scan.runnable[k] == address;
                    if k < earlier.runnable.len() {
                        assert(earlier.runnable[k] == address);
                    }
                }
            }
        }
        assert forall|i: int| 0 <= i < scan.blocked.len() implies {
            let (address, reasons) = #[trigger] scan.blocked[i];
            &&& reasons.len() > 0
            &&& forall|reason: Seq<char>| #[trigger]
                reasons.contains(reason) ==> dependencies_of(projects, address).contains(reason)
                    && scan.failed.contains(reason)
            &&& forall|dependency: Seq<char>| #[trigger]
                dependencies_of(projects, address).contains(dependency) && failed.contains(dependency)
                    ==> reasons.contains(dependency)
        } by {
            if i < earlier.blocked.len() {
                assert(scan.blocked[i] == earlier.blocked[i]);
            } else {
                assert forall|reason: Seq<char>| #[trigger] missing.contains(reason) implies dependencies.contains(
                    reason,
                ) && scan.failed.contains(reason) by {
                    let k = choose|k: int| 0 <= k < missing.len() && missing[k] == reason;
                    dependencies.lemma_filter_pred(wanted, k);
                    dependencies.lemma_filter_contains_rev(wanted, reason);
                }
                assert forall|dependency: Seq<char>| #[trigger]
                    dependencies.contains(dependency) && failed.contains(dependency) implies missing.contains(
                    dependency,
                ) by {
                    let k = choose|k: int| 0 <= k < dependencies.len() && dependencies[k] == dependency;
                    dependencies.lemma_filter_contains(wanted, k);
                }
            }
        }
    }
}

/// What has failed or was blocked before a level of a run, where `outcomes`
/// holds the targets of each level that ran and failed.
pub open spec fn failed_before(
    projects: Map<Seq<char>, &DiscoveredProject>,
    levels: Seq<Seq<Seq<char>>>,
    outcomes: Seq<Set<Seq<char>>>,
    count: int,
) -> Set<Seq<char>>
    decreases count,
{
    if count <= 0 {
        Set::empty()
    } else {
        scan_level(projects, levels[count - 1], failed_before(projects, levels, outcomes, count - 1)).failed.union(
            outcomes[count - 1],
        )
    }
}

/// The levels are those of a run of the targets, and what ran and failed in a
/// level was run in it.
pub open spec fn is_history(
    projects: Map<Seq<char>, &DiscoveredProject>,
    targets: Set<Seq<char>>,
    levels: Seq<Seq<Seq<char>>>,
    outcomes: Seq<Set<Seq<char>>>,
) -> bool {
    &&& outcomes.len() == levels.len()
    &&& forall|i: int|
        0 <= i < levels.len() ==> (#[trigger] levels[i]).to_set() == level_at(projects, targets, i)
    &&& forall|i: int, address: Seq<char>|
        0 <= i < levels.len() && #[trigger] outcomes[i].contains(address) ==> scan_level(
            projects,
            levels[i],
            failed_before(projects, levels, outcomes, i),
        ).runnable.contains(address)
}

/// A target comes to count as failed only behind its own level.
proof fn failures_stay_in_their_level(
    projects: Map<Seq<char>, &DiscoveredProject>,
    targets: Set<Seq<char>>,
    levels: Seq<Seq<Seq<char>>>,
    outcomes: Seq<Set<Seq<char>>>,
    count: int,
    level: int,
    address: Seq<char>,
)
    requires
        is_history(projects, targets, levels, outcomes),
        0 <= level < levels.len(),
        0 <= count <= levels.len(),
        levels[level].contains(address),
    ensures
        failed_before(projects, levels, outcomes, count).contains(address) ==> level < count && failed_before(
            projects,
            levels,
            outcomes,
            level + 1,
        ).contains(address),
        level < count && failed_before(projects, levels, outcomes, level + 1).contains(address) ==> failed_before(
            projects,
            levels,
            outcomes,
            count,
        ).contains(address),
    decreases count,
{
    if count > 0 {
        failures_stay_in_their_level(projects, targets, levels, outcomes, count - 1, level, address);
        let before = failed_before(projects, levels, outcomes, count - 1);
        let scan = scan_level(projects, levels[count - 1], before);
        blocked_targets_count_as_failed(projects, levels[count - 1], before);
        if level != count - 1 {
            assert(levels[level].to_set().contains(address));
            assert(level_at(projects, targets, level).contains(address));
            if level < count - 1 {
                levels_are_disjoint(projects, targets, level, count - 1, address);
            } else if levels[count - 1].contains(address) {
                assert(levels[count - 1].to_set().contains(address));
                levels_are_disjoint(projects, targets, count - 1, level, address);
            }
            assert(!levels[count - 1].contains(address)) by {
                if levels[count - 1].contains(address) {
                    assert(levels[count - 1].to_set().contains(address));
                }
            }
            assert(!scan.runnable.contains(address));
            assert(!outcomes[count - 1].contains(address));
        }
    }
}

/// What depends on a failed target, directly or not, does not run: where a
/// target is handed out in a level, nothing that a chain of dependencies leads
/// to from it has failed or was blocked before the level.
pub proof fn failures_block_all_behind_them(
    projects: Map<Seq<char>, &DiscoveredProject>,
    targets: Set<Seq<char>>,
    rank: spec_fn(Seq<char>) -> nat,
    levels: Seq<Seq<Seq<char>>>,
    outcomes: Seq<Set<Seq<char>>>,
    level: int,
    path: Seq<Seq<char>>,
    at: int,
)
    requires
        is_rank(projects, targets, rank),
        is_history(projects, targets, levels, outcomes),
        0 <= level < levels.len(),
        path.len() > 0,
        scan_level(projects, levels[level], failed_before(projects, levels, outcomes, level)).runnable.contains(
            path[0],
        ),
        forall|i: int| 0 <= i < path.len() ==> targets.contains(#[trigger] path[i]),
        forall|i: int| 0 < i < path.len() ==> dependencies_of(projects, path[i - 1]).contains(#[trigger] path[i]),
        0 < at < path.len(),
    ensures
        !failed_before(projects, levels, outcomes, level).contains(path[at]),
        !(exists|i: int| 0 <= i < level && (#[trigger] outcomes[i]).contains(path[at])),
    decreases at,
{
    let failed = failed_before(projects, levels, outcomes, level);
    // The level of the target before it on the chain, in which that one ran.
    let home = ran_before(projects, targets, rank, levels, outcomes, level, path, at - 1);
    let earlier = failed_before(projects, levels, outcomes, home);
    let scan = scan_level(projects, levels[home], earlier);
    let k = choose|k: int| 0 <= k < scan.runnable.len() && scan.runnable[k] == path[at - 1];
    failed_prerequisite_blocks(projects, levels[home], earlier, k, path[at]);
    blocked_targets_count_as_failed(projects, levels[home], earlier);
    assert(levels[home].contains(path[at - 1]));
    assert(levels[home].to_set().contains(path[at - 1]));
    dependencies_are_in_earlier_levels(projects, targets, rank, home, path[at - 1], path[at]);
    let own = choose|own: int| 0 <= own < home && #[trigger] level_at(projects, targets, own).contains(path[at]);
    assert(levels[own].to_set().contains(path[at]));
    failures_stay_in_their_level(projects, targets, levels, outcomes, home, own, path[at]);
    failures_stay_in_their_level(projects, targets, levels, outcomes, level, own, path[at]);
    assert forall|i: int| 0 <= i < level implies !(#[trigger] outcomes[i]).contains(path[at]) by {
        if outcomes[i].contains(path[at]) {
            let before = failed_before(projects, levels, outcomes, i);
            blocked_targets_count_as_failed(projects, levels[i], before);
            assert(levels[i].contains(path[at]));
            assert(failed_before(projects, levels, outcomes, i + 1).contains(path[at]));
            failures_stay_in_their_level(projects, targets, levels, outcomes, level, i, path[at]);
        }
    }
}

/// A target on a chain of dependencies from one that runs ran before it.
proof fn ran_before(
    projects: Map<Seq<char>, &DiscoveredProject>,
    targets: Set<Seq<char>>,
    rank: spec_fn(Seq<char>) -> nat,
    levels: Seq<Seq<Seq<char>>>,
    outcomes: Seq<Set<Seq<char>>>,
    level: int,
    path: Seq<Seq<char>>,
    at: int,
) -> (home: int)
    requires
        is_rank(projects, targets, rank),
        is_history(projects, targets, levels, outcomes),
        0 <= level < levels.len(),
        path.len() > 0,
        scan_level(projects, levels[level], failed_before(projects, levels, outcomes, level)).runnable.contains(
            path[0],
        ),
        forall|i: int| 0 <= i < path.len() ==> targets.contains(#[trigger] path[i]),
        forall|i: int| 0 < i < path.len() ==> dependencies_of(projects, path[i - 1]).contains(#[trigger] path[i]),
        0 <= at < path.len(),
    ensures
        0 <= home <= level,
        at > 0 ==> home < level,
        scan_level(projects, levels[home], failed_before(projects, levels, outcomes, home)).runnable.contains(
            path[at],
        ),
    decreases at,
{
    if at == 0 {
        level
    } else {
        let above = ran_before(projects, targets, rank, levels, outcomes, level, path, at - 1);
        let earlier = failed_before(projects, levels, outcomes, above);
        let scan = scan_level(projects, levels[above], earlier);
        let k = choose|k: int| 0 <= k < scan.runnable.len() && scan.runnable[k] == path[at - 1];
        failed_prerequisite_blocks(projects, levels[above], earlier, k, path[at]);
        blocked_targets_count_as_failed(projects, levels[above], earlier);
        assert(levels[above].contains(path[at - 1]));
        assert(levels[above].to_set().contains(path[at - 1]));
        dependencies_are_in_earlier_levels(projects, targets, rank, above, path[at - 1], path[at]);
        let own = choose|own: int| 0 <= own < above && #[trigger] level_at(projects, targets, own).contains(path[at]);
        assert(levels[own].to_set().contains(path[at]));
        let before = failed_before(projects, levels, outcomes, own);
        blocked_targets_count_as_failed(projects, levels[own], before);
        failures_stay_in_their_level(projects, targets, levels, outcomes, above, own, path[at]);
        own
    }
}

/// A target of the level runs where nothing that it depends on has failed or
/// was blocked.
pub proof fn unblocked_targets_run(
    projects: Map<Seq<char>, &DiscoveredProject>,
    level: Seq<Seq<char>>,
    failed: Set<Seq<char>>,
    at: int,
)
    requires
        0 <= at < level.len(),
        forall|dependency: Seq<char>| #[trigger]
            dependencies_of(projects, level[at]).contains(dependency) ==> !scan_level(
                projects,
                level,
                failed,
            ).failed.contains(dependency),
    ensures
        scan_level(projects, level, failed).runnable.contains(level[at]),
    decreases level.len(),
{
    let front = level.drop_last();
    let scan = scan_level(projects, front, failed);
    let all = scan_level(projects, level, failed);
    assert(scan.failed.subset_of(all.failed));
    if at < front.len() {
        assert(front[at] == level[at]);
        unblocked_targets_run(projects, front, failed, at);
        let k = choose|k: int| 0 <= k < scan.runnable.len() && scan.runnable[k] == level[at];
        assert(all.runnable[k] == level[at]);
    } else {
        let dependencies = dependencies_of(projects, level.last());
        let wanted = |d: Seq<char>| scan.failed.contains(d);
        let missing = failed_dependencies(projects, level.last(), scan.failed);
        assert(missing =~= dependencies.filter(wanted));
        if missing.len() > 0 {
            dependencies.lemma_filter_pred(wanted, 0);
            dependencies.lemma_filter_contains_rev(wanted, missing[0]);
        }
        assert(all.runnable[all.runnable.len() - 1] == level[at]);
    }
}

/// A failed prerequisite blocks: no target that is run depends on a target
/// that failed or was blocked before the level.
pub proof fn failed_prerequisite_blocks(
    projects: Map<Seq<char>, &DiscoveredProject>,
    level: Seq<Seq<char>>,
    failed: Set<Seq<char>>,
    at: int,
    dependency: Seq<char>,
)
    requires
        0 <= at < scan_level(projects, level, failed).runnable.len(),
        dependencies_of(projects, scan_level(projects, level, failed).runnable[at]).contains(dependency),
    ensures
        !failed.contains(dependency),
    decreases level.len(),
{
    if level.len() > 0 {
        let scan = scan_level(projects, level.drop_last(), failed);
        let all = scan_level(projects, level, failed);
        if at < scan.runnable.len() {
            assert(all.runnable[at] == scan.runnable[at]);
            failed_prerequisite_blocks(projects, level.drop_last(), failed, at, dependency);
        } else {
            scan_covers_level(projects, level.drop_last(), failed);
            if failed.contains(dependency) {
                let wanted = |d: Seq<char>| scan.failed.contains(d);
                let dependencies = dependencies_of(projects, level.last());
                let k = choose|k: int| 0 <= k < dependencies.len() && dependencies[k] == dependency;
                dependencies.lemma_filter_contains(wanted, k);
                assert(dependencies.filter(wanted) =~= failed_dependencies(projects, level.last(), scan.failed));
            }
        }
    }
}

/// Every result that is no success counts as failed, whatever else it says, and no
/// other address does.
pub proof fn every_failure_counts(results: Seq<ExecutionResult>, at: int, address: Seq<char>)
    ensures
        0 <= at < results.len() && !results[at].success ==> failed_addresses(results).contains(results[at].address@),
        (forall|i: int| 0 <= i < results.len() && (#[trigger] results[i]).address@ == address ==> results[i].success)
            ==> !failed_addresses(results).contains(address),
{
}

/// A blocked target is reported as a failure of its own that took no time, with the
/// targets that failed before it.
pub proof fn blocked_targets_are_reported(address: Seq<char>, reasons: Seq<Seq<char>>)
    ensures
        blocked_view((address, reasons)).address == address,
        !blocked_view((address, reasons)).success,
        !blocked_view((address, reasons)).skipped,
        !blocked_view((address, reasons)).cached,
        joined(reasons, ", "@).is_suffix_of(blocked_view((address, reasons)).output),
        blocked_view((address, reasons)).duration_ms == 0,
{
    let output = blocked_view((address, reasons)).output;
    let list = joined(reasons, ", "@);
    assert(list =~= output.skip(output.len() - list.len()));
}

} // verus!

//! Targets in levels: each level needs only the levels before it.
use vstd::prelude::*;
use crate::collections::{ascending, TextMap, TextSet};
use crate::discovery::scanner::DiscoveredProject;
use crate::executor::targets::{dependencies_of, target_dependencies};
use crate::text::texts;

verus! {

/// Every dependency of the address among `targets` is among `assigned`.
pub open spec fn is_ready(
    projects: Map<Seq<char>, &DiscoveredProject>,
    targets: Set<Seq<char>>,
    assigned: Set<Seq<char>>,
    address: Seq<char>,
) -> bool {
    forall|dependency: Seq<char>| #[trigger]
        dependencies_of(projects, address).contains(dependency) && targets.contains(dependency)
            ==> assigned.contains(dependency)
}

/// The targets that are left and ready.
pub open spec fn ready_targets(
    projects: Map<Seq<char>, &DiscoveredProject>,
    targets: Set<Seq<char>>,
    assigned: Set<Seq<char>>,
) -> Set<Seq<char>> {
    targets.difference(assigned).filter(|address: Seq<char>| is_ready(projects, targets, assigned, address))
}

/// The next level: the targets that are left and ready or, where a cycle
/// leaves none ready, all that are left.
pub open spec fn next_level(
    projects: Map<Seq<char>, &DiscoveredProject>,
    targets: Set<Seq<char>>,
    assigned: Set<Seq<char>>,
) -> Set<Seq<char>> {
    if ready_targets(projects, targets, assigned).is_empty() {
        targets.difference(assigned)
    } else {
        ready_targets(projects, targets, assigned)
    }
}

/// The targets of the first `count` levels.
pub open spec fn assigned_before(
    projects: Map<Seq<char>, &DiscoveredProject>,
    targets: Set<Seq<char>>,
    count: int,
) -> Set<Seq<char>>
    decreases count,
{
    if count <= 0 {
        Set::empty()
    } else {
        let earlier = assigned_before(projects, targets, count - 1);
        earlier.union(next_level(projects, targets, earlier))
    }
}

/// The targets of a level.
pub open spec fn level_at(
    projects: Map<Seq<char>, &DiscoveredProject>,
    targets: Set<Seq<char>>,
    level: int,
) -> Set<Seq<char>> {
    next_level(projects, targets, assigned_before(projects, targets, level))
}

fn ready(address: &str, project_map: &TextMap<&DiscoveredProject>, targets: &TextSet, assigned: &TextSet) -> (ready: bool)
    ensures
        ready == is_ready(project_map@, targets@, assigned@, address@),
{
    let dependencies = target_dependencies(address, project_map);
    let ghost wanted = texts(dependencies@);
    let mut i: usize = 0;
    while i < dependencies.len()
        invariant
            i <= dependencies@.len(),
            wanted == texts(dependencies@),
            wanted == dependencies_of(project_map@, address@),
            forall|k: int| 0 <= k < i && targets@.contains(#[trigger] wanted[k]) ==> assigned@.contains(wanted[k]),
        decreases dependencies@.len() - i,
    {
        assert(wanted[i as int] == dependencies@[i as int]@);
        if targets.contains(&dependencies[i]) && !assigned.contains(&dependencies[i]) {
            assert(wanted.contains(wanted[i as int]));
            return false;
        }
        i += 1;
    }
    assert forall|dependency: Seq<char>| #[trigger]
        dependencies_of(project_map@, address@).contains(dependency) && targets@.contains(
            dependency,
        ) implies assigned@.contains(dependency) by {
        let k = choose|k: int| 0 <= k < wanted.len() && wanted[k] == dependency;
        assert(assigned@.contains(wanted[k]));
    }
    true
}

/// The targets of a list that are not assigned yet, those that are ready or all of them.
fn pick_level(
    all: &Vec<String>,
    only_ready: bool,
    project_map: &TextMap<&DiscoveredProject>,
    targets: &TextSet,
    assigned: &TextSet,
) -> (level: Vec<String>)
    requires
        ascending(texts(all@)),
        texts(all@).to_set() == targets@,
    ensures
        ascending(texts(level@)),
        only_ready ==> texts(level@).to_set() == ready_targets(project_map@, targets@, assigned@),
        !only_ready ==> texts(level@).to_set() == targets@.difference(assigned@),
{
    let ghost source = texts(all@);
    let ghost projects = project_map@;
    let mut level: Vec<String> = Vec::new();
    let mut i: usize = 0;
    assert(texts(level@) =~= Seq::<Seq<char>>::empty());
    while i < all.len()
        invariant
            i <= all@.len(),
            source == texts(all@),
            projects == project_map@,
            ascending(source),
            ascending(texts(level@)),
            forall|k: int|
                0 <= k < texts(level@).len() ==> exists|j: int| 0 <= j < i && source[j] == #[trigger] texts(level@)[k],
            forall|k: int|
                0 <= k < texts(level@).len() ==> !assigned@.contains(#[trigger] texts(level@)[k]) && (only_ready
                    ==> is_ready(projects, targets@, assigned@, texts(level@)[k])),
            forall|j: int|
                0 <= j < i && !assigned@.contains(#[trigger] source[j]) && (only_ready ==> is_ready(
                    projects,
                    targets@,
                    assigned@,
                    source[j],
                )) ==> texts(level@).contains(source[j]),
        decreases all@.len() - i,
    {
        let ghost before = texts(level@);
        let ghost item = all@[i as int]@;
        assert(source[i as int] == item);
        if !assigned.contains(&all[i]) && (!only_ready || ready(&all[i], project_map, targets, assigned)) {
            level.push(all[i].clone());
            proof {
                let now = texts(level@);
                assert(now =~= before.push(item));
                assert forall|a: int, b: int| 0 <= a < b < now.len() implies crate::text::text_lt(
                    #[trigger] now[a],
                    #[trigger] now[b],
                ) by {
                    assert(now[a] == before[a]);
                    let j = choose|j: int| 0 <= j < i && source[j] == before[a];
                    if b < before.len() {
                        assert(now[b] == before[b]);
                    } else {
                        assert(crate::text::text_lt(source[j], source[i as int]));
                    }
                }
                assert forall|k: int| 0 <= k < now.len() implies exists|j: int|
                    0 <= j < i + 1 && source[j] == #[trigger] now[k] by {
                    if k < before.len() {
                        let j = choose|j: int| 0 <= j < i && source[j] == before[k];
                        assert(source[j] == now[k]);
                    } else {
                        assert(source[i as int] == now[k]);
                    }
                }
                assert forall|j: int|
                    0 <= j < i + 1 && !assigned@.contains(#[trigger] source[j]) && (only_ready ==> is_ready(
                        projects,
                        targets@,
                        assigned@,
                        source[j],
                    )) implies now.contains(source[j]) by {
                    if j < i {
                        let k = choose|k: int| 0 <= k < before.len() && before[k] == source[j];
                        assert(now[k] == source[j]);
                    } else {
                        assert(now[before.len() as int] == source[j]);
                    }
                }
            }
        }
        i += 1;
    }
    proof {
        let found = texts(level@).to_set();
        let wanted = if only_ready {
            ready_targets(projects, targets@, assigned@)
        } else {
            targets@.difference(assigned@)
        };
        assert forall|x: Seq<char>| found.contains(x) <==> wanted.contains(x) by {
            if found.contains(x) {
                let k = choose|k: int| 0 <= k < texts(level@).len() && texts(level@)[k] == x;
                let j = choose|j: int| 0 <= j < all@.len() && source[j] == texts(level@)[k];
                assert(source.contains(x));
                assert(targets@.contains(x));
            }
            if wanted.contains(x) {
                assert(source.contains(x));
                let j = choose|j: int| 0 <= j < source.len() && source[j] == x;
                assert(texts(level@).contains(source[j]));
            }
        }
        assert(found =~= wanted);
    }
    level
}

/// Compute DAG levels for target execution
///
/// Level 0 = targets with no dependencies (in our set)
/// Level N = targets whose dependencies are all in levels 0..N-1
pub fn compute_target_levels(targets: &TextSet, project_map: &TextMap<&DiscoveredProject>) -> (levels: Vec<Vec<String>>)
    ensures
        targets@.is_empty() ==> levels@.len() == 1 && levels@[0]@.len() == 0,
        !targets@.is_empty() ==> {
            &&& levels@.len() >= 1
            &&& forall|i: int|
                0 <= i < levels@.len() ==> texts((#[trigger] levels@[i])@).to_set() == level_at(
                    project_map@,
                    targets@,
                    i,
                ) && levels@[i]@.len() > 0
            &&& assigned_before(project_map@, targets@, levels@.len() as int) == targets@
        },
        forall|i: int| 0 <= i < levels@.len() ==> ascending(texts((#[trigger] levels@[i])@)),
{
    let ghost projects = project_map@;
    let all = targets.to_vec();
    let mut levels: Vec<Vec<String>> = Vec::new();
    if targets.is_empty() {
        let none: Vec<String> = Vec::new();
        assert(texts(none@) =~= Seq::<Seq<char>>::empty());
        levels.push(none);
        return levels;
    }
    let total: usize = targets.len();
    let mut assigned = TextSet::new();
    while assigned.len() < total
        invariant
            projects == project_map@,
            ascending(texts(all@)),
            texts(all@).to_set() == targets@,
            total == targets@.len(),
            targets@.finite(),
            assigned@.finite(),
            assigned@.subset_of(targets@),
            assigned@ == assigned_before(projects, targets@, levels@.len() as int),
            forall|i: int|
                0 <= i < levels@.len() ==> texts((#[trigger] levels@[i])@).to_set() == level_at(projects, targets@, i)
                    && levels@[i]@.len() > 0,
            forall|i: int| 0 <= i < levels@.len() ==> ascending(texts((#[trigger] levels@[i])@)),
        decreases total - assigned@.len(),
    {
        let ghost before = assigned@;
        let mut level = pick_level(&all, true, project_map, targets, &assigned);
        proof {
            if level@.len() == 0 {
                assert(ready_targets(projects, targets@, before) =~= Set::empty());
            } else {
                assert(texts(level@)[0] == level@[0]@);
                assert(ready_targets(projects, targets@, before).contains(level@[0]@));
            }
        }
        if level.len() == 0 {
            level = pick_level(&all, false, project_map, targets, &assigned);
            proof {
                if level@.len() == 0 {
                    assert(targets@.difference(before) =~= Set::empty());
                    assert forall|x: Seq<char>| targets@.contains(x) implies before.contains(x) by {
                        assert(!targets@.difference(before).contains(x));
                    }
                    assert(targets@ =~= before);
                }
            }
        }
        let ghost chosen = texts(level@).to_set();
        assert(chosen == next_level(projects, targets@, before));
        let mut i: usize = 0;
        while i < level.len()
            invariant
                i <= level@.len(),
                assigned@.finite(),
                assigned@ == before.union(texts(level@).take(i as int).to_set()),
            decreases level@.len() - i,
        {
            assigned.insert(level[i].clone());
            proof {
                let now = texts(level@).take(i + 1);
                let earlier = texts(level@).take(i as int);
                assert(now =~= earlier.push(level@[i as int]@));
                assert forall|x: Seq<char>| now.contains(x) <==> earlier.contains(x) || x == level@[i as int]@ by {
                    if earlier.contains(x) {
                        let k = choose|k: int| 0 <= k < earlier.len() && earlier[k] == x;
                        assert(now[k] == x);
                    }
                    assert(now[i as int] == level@[i as int]@);
                }
                assert(assigned@ =~= before.union(now.to_set()));
            }
            i += 1;
        }
        proof {
            assert(texts(level@).take(level@.len() as int) =~= texts(level@));
            assert(assigned@ == before.union(chosen));
            assert(chosen.contains(texts(level@)[0]));
            assert(!before.contains(texts(level@)[0]));
            assert(chosen.subset_of(targets@));
            vstd::set_lib::lemma_len_subset(assigned@, targets@);
            vstd::set_lib::lemma_len_subset(before.insert(texts(level@)[0]), assigned@);
        }
        let ghost done = levels@;
        levels.push(level);
        proof {
            assert(assigned_before(projects, targets@, levels@.len() as int) == before.union(
                next_level(projects, targets@, before),
            ));
            assert forall|i: int| 0 <= i < levels@.len() implies texts((#[trigger] levels@[i])@).to_set() == level_at(
                projects,
                targets@,
                i,
            ) && levels@[i]@.len() > 0 by {
                if i < done.len() {
                    assert(levels@[i] == done[i]);
                }
            }
        }
    }
    proof {
        vstd::set_lib::lemma_len_subset(assigned@, targets@);
        vstd::set_lib::lemma_subset_equality(assigned@, targets@);
        if levels@.len() == 0 {
            assert(targets@ =~= Set::empty());
        }
    }
    levels
}

proof fn assigned_within(
    projects: Map<Seq<char>, &DiscoveredProject>,
    targets: Set<Seq<char>>,
    count: int,
)
    ensures
        assigned_before(projects, targets, count).subset_of(targets),
    decreases count,
{
    if count > 0 {
        assigned_within(projects, targets, count - 1);
    }
}

proof fn assigned_grows(
    projects: Map<Seq<char>, &DiscoveredProject>,
    targets: Set<Seq<char>>,
    fewer: int,
    more: int,
)
    requires
        fewer <= more,
    ensures
        assigned_before(projects, targets, fewer).subset_of(assigned_before(projects, targets, more)),
    decreases more - fewer,
{
    if fewer < more {
        assigned_grows(projects, targets, fewer, more - 1);
    }
}

/// Levels hold only requested targets, and no target is in two levels.
pub proof fn levels_are_disjoint(
    projects: Map<Seq<char>, &DiscoveredProject>,
    targets: Set<Seq<char>>,
    first: int,
    second: int,
    address: Seq<char>,
)
    requires
        0 <= first < second,
        level_at(projects, targets, first).contains(address),
    ensures
        targets.contains(address),
        !level_at(projects, targets, second).contains(address),
{
    assert(assigned_before(projects, targets, first + 1).contains(address));
    assigned_grows(projects, targets, first + 1, second);
}

/// Every target of the first `count` levels is in one of them.
pub proof fn assigned_has_level(
    projects: Map<Seq<char>, &DiscoveredProject>,
    targets: Set<Seq<char>>,
    count: int,
    address: Seq<char>,
)
    requires
        assigned_before(projects, targets, count).contains(address),
    ensures
        exists|level: int| 0 <= level < count && #[trigger] level_at(projects, targets, level).contains(address),
    decreases count,
{
    if count > 0 {
        if assigned_before(projects, targets, count - 1).contains(address) {
            assigned_has_level(projects, targets, count - 1, address);
            let level = choose|level: int|
                0 <= level < count - 1 && #[trigger] level_at(projects, targets, level).contains(address);
            assert(level_at(projects, targets, level).contains(address));
        } else {
            assert(level_at(projects, targets, count - 1).contains(address));
        }
    }
}

/// A rank that falls along every dependency: there is one where dependencies form no cycle.
pub open spec fn is_rank(
    projects: Map<Seq<char>, &DiscoveredProject>,
    targets: Set<Seq<char>>,
    rank: spec_fn(Seq<char>) -> nat,
) -> bool {
    forall|address: Seq<char>, dependency: Seq<char>|
        targets.contains(address) && targets.contains(dependency) && #[trigger] dependencies_of(
            projects,
            address,
        ).contains(dependency) ==> rank(dependency) < rank(address)
}

proof fn lowest_is_ready(
    projects: Map<Seq<char>, &DiscoveredProject>,
    targets: Set<Seq<char>>,
    assigned: Set<Seq<char>>,
    rank: spec_fn(Seq<char>) -> nat,
    address: Seq<char>,
)
    requires
        is_rank(projects, targets, rank),
        targets.difference(assigned).contains(address),
    ensures
        !ready_targets(projects, targets, assigned).is_empty(),
    decreases rank(address),
{
    if is_ready(projects, targets, assigned, address) {
        assert(ready_targets(projects, targets, assigned).contains(address));
    } else {
        let dependency = choose|dependency: Seq<char>| #[trigger]
            dependencies_of(projects, address).contains(dependency) && targets.contains(dependency)
                && !assigned.contains(dependency);
        lowest_is_ready(projects, targets, assigned, rank, dependency);
    }
}

/// Where dependencies form no cycle, a target's dependencies among the
/// requested targets are all in levels before its own.
pub proof fn dependencies_are_in_earlier_levels(
    projects: Map<Seq<char>, &DiscoveredProject>,
    targets: Set<Seq<char>>,
    rank: spec_fn(Seq<char>) -> nat,
    level: int,
    address: Seq<char>,
    dependency: Seq<char>,
)
    requires
        is_rank(projects, targets, rank),
        level_at(projects, targets, level).contains(address),
        dependencies_of(projects, address).contains(dependency),
        targets.contains(dependency),
    ensures
        exists|earlier: int| 0 <= earlier < level && #[trigger] level_at(projects, targets, earlier).contains(dependency),
{
    let assigned = assigned_before(projects, targets, level);
    lowest_is_ready(projects, targets, assigned, rank, address);
    assert(is_ready(projects, targets, assigned, address));
    assigned_has_level(projects, targets, level, dependency);
}

/// No target waits longer than it has to: one that is left is in the next level as
/// soon as all that it depends on among the targets is in levels before.
pub proof fn ready_targets_do_not_wait(
    projects: Map<Seq<char>, &DiscoveredProject>,
    targets: Set<Seq<char>>,
    level: int,
    address: Seq<char>,
)
    requires
        targets.contains(address),
        !assigned_before(projects, targets, level).contains(address),
        forall|dependency: Seq<char>| #[trigger]
            dependencies_of(projects, address).contains(dependency) && targets.contains(dependency) ==> assigned_before(
                projects,
                targets,
                level,
            ).contains(dependency),
    ensures
        level_at(projects, targets, level).contains(address),
{
    let assigned = assigned_before(projects, targets, level);
    assert(is_ready(projects, targets, assigned, address));
    assert(ready_targets(projects, targets, assigned).contains(address));
}

/// Levels hold targets and nothing else, and no level is empty while a target is
/// left, also where targets depend on each other in a circle.
pub proof fn levels_go_on(projects: Map<Seq<char>, &DiscoveredProject>, targets: Set<Seq<char>>, level: int, address: Seq<char>)
    ensures
        level_at(projects, targets, level).subset_of(targets),
        targets.contains(address) && !assigned_before(projects, targets, level).contains(address) ==> exists|other: Seq<
            char,
        >|
            level_at(projects, targets, level).contains(other),
{
    let assigned = assigned_before(projects, targets, level);
    let ready = ready_targets(projects, targets, assigned);
    if targets.contains(address) && !assigned.contains(address) {
        if ready.is_empty() {
            assert(level_at(projects, targets, level).contains(address));
        } else {
            let other = choose|other: Seq<char>| ready.contains(other);
            assert(level_at(projects, targets, level).contains(other));
        }
    }
}

} // verus!

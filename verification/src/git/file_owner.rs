//! File-to-project ownership mapping
//!
//! Maps changed files to the projects that own them and expands to the
//! transitive dependents.
use vstd::prelude::*;
use vstd::utf8::encode_utf8;
use crate::collections::TextSet;
use crate::discovery::scanner::{address_of, project_address, DiscoveredProject};
use crate::graph::builder::ProjectGraph;
use crate::graph::closure::{is_neighbor, is_reached, reached_addresses, reached_extends, reached_stays_inside, seed_is_reached, Direction};
use crate::paths::{path_under, under_path};

verus! {

/// The length of a path in bytes.
pub open spec fn path_length(path: Seq<char>) -> usize {
    encode_utf8(path).len() as usize
}

/// The project is the one with the longest path under which the file lies; of
/// several such, the first.
pub open spec fn owns_file(projects: Seq<DiscoveredProject>, file: Seq<char>, at: int) -> bool {
    &&& 0 <= at < projects.len()
    &&& path_under(file, projects[at].relative_path@)
    &&& forall|i: int|
        0 <= i < projects.len() && path_under(file, (#[trigger] projects[i]).relative_path@) ==> path_length(
            projects[i].relative_path@,
        ) <= path_length(projects[at].relative_path@) && (i < at ==> path_length(projects[i].relative_path@)
            < path_length(projects[at].relative_path@))
}

/// The address belongs to a project that owns one of the files.
pub open spec fn owns_some_file(
    projects: Seq<DiscoveredProject>,
    files: Seq<Seq<char>>,
    address: Seq<char>,
) -> bool {
    exists|f: int, at: int|
        0 <= f < files.len() && #[trigger] owns_file(projects, files[f], at) && address_of(projects[at].relative_path@)
            == address
}

fn find_owner(file: &str, projects: &Vec<DiscoveredProject>) -> (owner: Option<usize>)
    ensures
        match owner {
            Some(at) => owns_file(projects@, file@, at as int),
            None => forall|at: int| !owns_file(projects@, file@, at),
        },
{
    let mut owner: Option<usize> = None;
    let mut i: usize = 0;
    while i < projects.len()
        invariant
            i <= projects@.len(),
            match owner {
                Some(at) => at < i && owns_file(projects@.take(i as int), file@, at as int),
                None => forall|k: int| 0 <= k < i ==> !path_under(file@, (#[trigger] projects@[k]).relative_path@),
            },
        decreases projects@.len() - i,
    {
        let ghost fewer = projects@.take(i as int);
        let ghost more = projects@.take(i + 1);
        assert forall|k: int| 0 <= k < i implies fewer[k] == more[k] && fewer[k] == projects@[k] by {}
        assert(more[i as int] == projects@[i as int]);
        if under_path(file, &projects[i].relative_path) {
            let better = match owner {
                Some(at) => projects[i].relative_path.as_str().len() > projects[at].relative_path.as_str().len(),
                None => true,
            };
            if better {
                owner = Some(i);
                assert(owns_file(more, file@, i as int)) by {
                    assert forall|k: int|
                        0 <= k < more.len() && path_under(file@, (#[trigger] more[k]).relative_path@) implies path_length(
                        more[k].relative_path@,
                    ) <= path_length(more[i as int].relative_path@) && (k < i ==> path_length(more[k].relative_path@)
                        < path_length(more[i as int].relative_path@)) by {
                        if k < i {
                            assert(fewer[k] == more[k]);
                        }
                    }
                }
            } else {
                assert(owns_file(more, file@, owner->0 as int)) by {
                    let at = owner->0 as int;
                    assert forall|k: int|
                        0 <= k < more.len() && path_under(file@, (#[trigger] more[k]).relative_path@) implies path_length(
                        more[k].relative_path@,
                    ) <= path_length(more[at].relative_path@) && (k < at ==> path_length(more[k].relative_path@)
                        < path_length(more[at].relative_path@)) by {
                        if k < i {
                            assert(fewer[k] == more[k]);
                        }
                    }
                }
            }
        } else if let Some(at) = owner {
            assert(owns_file(more, file@, at as int)) by {
                assert forall|k: int|
                    0 <= k < more.len() && path_under(file@, (#[trigger] more[k]).relative_path@) implies path_length(
                    more[k].relative_path@,
                ) <= path_length(more[at as int].relative_path@) && (k < at ==> path_length(more[k].relative_path@)
                    < path_length(more[at as int].relative_path@)) by {
                    if k < i {
                        assert(fewer[k] == more[k]);
                    }
                }
            }
        }
        i += 1;
    }
    assert(projects@.take(projects@.len() as int) =~= projects@);
    owner
}

proof fn owner_is_unique(projects: Seq<DiscoveredProject>, file: Seq<char>, a: int, b: int)
    requires
        owns_file(projects, file, a),
        owns_file(projects, file, b),
    ensures
        a == b,
{
    let first = projects[a];
    let second = projects[b];
    assert(path_under(file, first.relative_path@) && path_under(file, second.relative_path@));
}

/// Map changed files to the projects that own them
///
/// A project owns a file if the file path starts with the project's relative_path.
/// The most specific project owns it (e.g., services/api/submodule rather than
/// services/api).
///
/// Files that don't belong to any project (e.g., workspace root files like README.md)
/// are ignored.
pub fn files_to_projects(changed_files: &TextSet, projects: &Vec<DiscoveredProject>) -> (affected: TextSet)
    ensures
        affected@ == Set::new(
            |address: Seq<char>| owns_some_file(projects@, changed_files.items(), address),
        ),
{
    let count = changed_files.len();
    let ghost files = changed_files.items();
    let mut affected = TextSet::new();
    let mut i: usize = 0;
    while i < count
        invariant
            i <= count,
            count == changed_files.items().len(),
            files == changed_files.items(),
            forall|address: Seq<char>| #[trigger]
                affected@.contains(address) <==> owns_some_file(projects@, files.take(i as int), address),
        decreases count - i,
    {
        let ghost before = affected@;
        let ghost fewer = files.take(i as int);
        let ghost more = files.take(i + 1);
        let file = changed_files.item_at(i);
        let owner = find_owner(file, projects);
        if let Some(at) = owner {
            let _ = affected.insert(project_address(&projects[at].relative_path));
        }
        proof {
            assert(more =~= fewer.push(file@));
            assert forall|address: Seq<char>| #[trigger]
                affected@.contains(address) <==> owns_some_file(projects@, more, address) by {
                assert(before.contains(address) <==> owns_some_file(projects@, fewer, address));
                if owns_some_file(projects@, fewer, address) {
                    let (f, at) = choose|f: int, at: int|
                        0 <= f < fewer.len() && #[trigger] owns_file(projects@, fewer[f], at) && address_of(
                            projects@[at].relative_path@,
                        ) == address;
                    assert(more[f] == fewer[f]);
                    assert(owns_file(projects@, more[f], at));
                }
                if owner is Some && address_of(projects@[owner->0 as int].relative_path@) == address {
                    assert(more[i as int] == file@);
                    assert(owns_file(projects@, more[i as int], owner->0 as int));
                }
                if owns_some_file(projects@, more, address) {
                    let (f, at) = choose|f: int, at: int|
                        0 <= f < more.len() && #[trigger] owns_file(projects@, more[f], at) && address_of(
                            projects@[at].relative_path@,
                        ) == address;
                    if f < fewer.len() {
                        assert(owns_file(projects@, fewer[f], at));
                    } else {
                        assert(owns_file(projects@, file@, at));
                        owner_is_unique(projects@, file@, at, owner->0 as int);
                    }
                }
            }
        }
        i += 1;
    }
    assert(files.take(files.len() as int) =~= files);
    assert(affected@ =~= Set::new(|address: Seq<char>| owns_some_file(projects@, files, address)));
    affected
}

// ---------------------------------------------------------------------------
// Dependents
// ---------------------------------------------------------------------------

/// The address is affected or depends, directly or not, on one that is.
pub open spec fn is_affected(graph: &ProjectGraph, affected: Set<Seq<char>>, address: Seq<char>) -> bool {
    is_reached(graph, Direction::Dependents, affected, address)
}

/// Expand directly affected projects to all their dependents
///
/// Finds all projects that transitively depend on the affected projects.
/// Returns the union of directly affected projects and all their dependents.
pub fn affected_with_dependents(directly_affected: TextSet, graph: &ProjectGraph) -> (result: TextSet)
    requires
        graph.well_formed(),
    ensures
        result@ == Set::new(|address: Seq<char>| is_affected(graph, directly_affected@, address)),
{
    let ghost direct = directly_affected@;
    let result = reached_addresses(directly_affected, graph, Direction::Dependents);
    assert(result@ =~= Set::new(|address: Seq<char>| is_affected(graph, direct, address)));
    result
}

/// A file belongs to a project that it lies under, and no project with a longer path
/// holds it; two projects with different paths never both own it.
pub proof fn files_belong_to_the_closest_project(projects: Seq<DiscoveredProject>, file: Seq<char>, at: int, other: int)
    requires
        owns_file(projects, file, at),
        0 <= other < projects.len(),
    ensures
        path_under(file, projects[at].relative_path@),
        path_under(file, projects[other].relative_path@) ==> path_length(projects[other].relative_path@) <= path_length(
            projects[at].relative_path@,
        ),
        owns_file(projects, file, other) ==> other == at,
{
}

/// A file that lies under some project has an owner.
pub proof fn held_files_have_an_owner(projects: Seq<DiscoveredProject>, file: Seq<char>, count: int)
    requires
        0 <= count <= projects.len(),
        exists|i: int| 0 <= i < count && path_under(file, (#[trigger] projects[i]).relative_path@),
    ensures
        exists|at: int| #[trigger] owns_file(projects.take(count), file, at),
    decreases count,
{
    let few = projects.take(count);
    let last = count - 1;
    let fewer = projects.take(last);
    assert(forall|i: int| 0 <= i < count ==> #[trigger] few[i] == projects[i]);
    assert(forall|i: int| 0 <= i < last ==> #[trigger] fewer[i] == projects[i]);
    if exists|i: int| 0 <= i < last && path_under(file, (#[trigger] projects[i]).relative_path@) {
        held_files_have_an_owner(projects, file, last);
        let at = choose|at: int| #[trigger] owns_file(fewer, file, at);
        if path_under(file, projects[last].relative_path@) && path_length(projects[last].relative_path@) > path_length(
            projects[at].relative_path@,
        ) {
            assert forall|i: int|
                0 <= i < few.len() && path_under(file, (#[trigger] few[i]).relative_path@) implies path_length(
                few[i].relative_path@,
            ) <= path_length(few[last].relative_path@) && (i < last ==> path_length(few[i].relative_path@) < path_length(
                few[last].relative_path@,
            )) by {
                if i < last {
                    assert(fewer[i] == few[i]);
                }
            }
            assert(owns_file(few, file, last));
        } else {
            assert forall|i: int|
                0 <= i < few.len() && path_under(file, (#[trigger] few[i]).relative_path@) implies path_length(
                few[i].relative_path@,
            ) <= path_length(few[at].relative_path@) && (i < at ==> path_length(few[i].relative_path@) < path_length(
                few[at].relative_path@,
            )) by {
                if i < last {
                    assert(fewer[i] == few[i]);
                }
            }
            assert(few[at] == fewer[at]);
            assert(owns_file(few, file, at));
        }
    } else {
        assert(path_under(file, projects[last].relative_path@));
        assert forall|i: int| 0 <= i < few.len() && path_under(file, (#[trigger] few[i]).relative_path@) implies i == last by {
            assert(few[i] == projects[i]);
        }
        assert(few[last] == projects[last]);
        assert(owns_file(few, file, last));
    }
}

/// What changed is affected, whatever depends on something affected is, and nothing
/// else.
pub proof fn changes_affect_what_depends_on_them(
    graph: &ProjectGraph,
    changed: Set<Seq<char>>,
    all: Set<Seq<char>>,
    one: Seq<char>,
    two: Seq<char>,
)
    ensures
        changed.contains(one) ==> is_affected(graph, changed, one),
        is_affected(graph, changed, one) && is_neighbor(graph, Direction::Dependents, one, two) ==> is_affected(
            graph,
            changed,
            two,
        ),
        changed.subset_of(all) && (forall|a: Seq<char>, b: Seq<char>|
            all.contains(a) && #[trigger] is_neighbor(graph, Direction::Dependents, a, b) ==> all.contains(b))
            && is_affected(graph, changed, one) ==> all.contains(one),
{
    if changed.contains(one) {
        seed_is_reached(graph, Direction::Dependents, changed, one);
    }
    if is_affected(graph, changed, one) && is_neighbor(graph, Direction::Dependents, one, two) {
        reached_extends(graph, Direction::Dependents, changed, one, two);
    }
    if changed.subset_of(all) && (forall|a: Seq<char>, b: Seq<char>|
        all.contains(a) && #[trigger] is_neighbor(graph, Direction::Dependents, a, b) ==> all.contains(b)) && is_affected(
        graph,
        changed,
        one,
    ) {
        reached_stays_inside(graph, Direction::Dependents, changed, all, one);
    }
}

} // verus!

//! Which changes count as affected.
use vstd::prelude::*;
use crate::collections::TextSet;

verus! {

/// Which revisions are compared, and whether uncommitted changes count too.
#[derive(Debug, Clone, PartialEq, Eq)]
pub struct Comparison {
    pub head: String,
    /// The head is compared with where it parted from the base, not with the base
    pub from_merge_base: bool,
    pub with_uncommitted: bool,
}

/// Which revisions are compared
///
/// - If head is provided: only compare refs (no uncommitted changes)
/// - If head is None: compare the merge base of base and HEAD with HEAD, plus
///   uncommitted changes
pub fn comparison(head: Option<&str>) -> (comparison: Comparison)
    ensures
        comparison.head@ == (match head {
            Some(head) => head@,
            None => "HEAD"@,
        }),
        comparison.from_merge_base == (head is None),
        comparison.with_uncommitted == (head is None),
{
    match head {
        Some(head) => Comparison { head: head.to_owned(), from_merge_base: false, with_uncommitted: false },
        None => Comparison { head: "HEAD".to_owned(), from_merge_base: true, with_uncommitted: true },
    }
}

/// The old and the new path of a changed file, where it has them.
#[derive(Debug, Clone)]
pub struct ChangedPaths {
    pub old: Option<String>,
    pub new: Option<String>,
}

/// The path is the old or the new path of some change.
pub open spec fn is_changed(changes: Seq<ChangedPaths>, path: Seq<char>) -> bool {
    exists|i: int|
        0 <= i < changes.len() && (((#[trigger] changes[i]).old is Some && changes[i].old->0@ == path) || (
        changes[i].new is Some && changes[i].new->0@ == path))
}

/// The files that changed: both old and new paths count, which handles renames.
pub fn changed_files(changes: &Vec<ChangedPaths>) -> (files: TextSet)
    ensures
        files@ == Set::new(|path: Seq<char>| is_changed(changes@, path)),
{
    let mut files = TextSet::new();
    let mut i: usize = 0;
    while i < changes.len()
        invariant
            i <= changes@.len(),
            forall|path: Seq<char>| #[trigger] files@.contains(path) <==> is_changed(changes@.take(i as int), path),
        decreases changes@.len() - i,
    {
        let ghost before = files@;
        let change = &changes[i];
        if let Some(path) = &change.old {
            let _ = files.insert(path.clone());
        }
        if let Some(path) = &change.new {
            let _ = files.insert(path.clone());
        }
        proof {
            let fewer = changes@.take(i as int);
            let more = changes@.take(i + 1);
            assert(more =~= fewer.push(*change));
            assert forall|path: Seq<char>| #[trigger] files@.contains(path) <==> is_changed(more, path) by {
                assert(before.contains(path) <==> is_changed(fewer, path));
                if is_changed(fewer, path) {
                    let k = choose|k: int|
                        0 <= k < fewer.len() && (((#[trigger] fewer[k]).old is Some && fewer[k].old->0@ == path) || (
                        fewer[k].new is Some && fewer[k].new->0@ == path));
                    assert(more[k] == fewer[k]);
                }
                if is_changed(more, path) {
                    let k = choose|k: int|
                        0 <= k < more.len() && (((#[trigger] more[k]).old is Some && more[k].old->0@ == path) || (
                        more[k].new is Some && more[k].new->0@ == path));
                    if k < fewer.len() {
                        assert(fewer[k] == more[k]);
                    }
                }
                assert(more[i as int] == *change);
            }
        }
        i += 1;
    }
    assert(changes@.take(changes@.len() as int) =~= changes@);
    assert(files@ =~= Set::new(|path: Seq<char>| is_changed(changes@, path)));
    files
}

/// All affected files: those changed between the revisions and, where they
/// count, the uncommitted ones.
pub fn all_affected_files(between: &TextSet, uncommitted: Option<&TextSet>) -> (files: TextSet)
    ensures
        files@ == (match uncommitted {
            Some(more) => between@.union(more@),
            None => between@,
        }),
{
    let mut files = between.clone();
    if let Some(more) = uncommitted {
        let count = more.len();
        let ghost all = more.items();
        let mut i: usize = 0;
        assert(between@.union(all.take(0).to_set()) =~= between@);
        while i < count
            invariant
                i <= count,
                count == more.items().len(),
                all == more.items(),
                files@ == between@.union(all.take(i as int).to_set()),
            decreases count - i,
        {
            let item = more.item_at(i);
            let _ = files.insert(item.clone());
            proof {
                let fewer = all.take(i as int);
                let next = all.take(i + 1);
                assert(next =~= fewer.push(item@));
                assert forall|x: Seq<char>| next.contains(x) <==> fewer.contains(x) || x == item@ by {
                    if fewer.contains(x) {
                        let k = choose|k: int| 0 <= k < fewer.len() && fewer[k] == x;
                        assert(next[k] == x);
                    }
                    assert(next[i as int] == item@);
                }
                assert(files@ =~= between@.union(next.to_set()));
            }
            i += 1;
        }
        assert(all.take(all.len() as int) =~= all);
    }
    files
}

/// A change counts with its old path and with its new one, so that a renamed file
/// concerns both places.
pub proof fn both_paths_of_a_change_count(changes: Seq<ChangedPaths>, at: int)
    requires
        0 <= at < changes.len(),
    ensures
        changes[at].old matches Some(path) ==> is_changed(changes, path@),
        changes[at].new matches Some(path) ==> is_changed(changes, path@),
{
}

/// A path counts only where a change has it, as its old or as its new path.
pub proof fn only_paths_of_changes_count(changes: Seq<ChangedPaths>, path: Seq<char>)
    requires
        forall|i: int|
            0 <= i < changes.len() ==> ((#[trigger] changes[i]).old is None || changes[i].old->0@ != path) && (
            changes[i].new is None || changes[i].new->0@ != path),
    ensures
        !is_changed(changes, path),
{
}

} // verus!

//! Cache storage and retrieval
use vstd::prelude::*;
use crate::collections::TextMap;
use crate::paths::{join_path, path_join};
use crate::text::{concat2, contains_char, same_text, starts_with, texts};

verus! {

/// Entry in the cache for a single target
#[derive(Debug, PartialEq)]
pub struct CacheEntry {
    /// Hash of all inputs (files, config, command, deps, env)
    pub hash: String,
    /// When this entry was created (ISO 8601)
    pub timestamp: String,
    /// Whether the target succeeded on this run
    pub success: bool,
}

impl Clone for CacheEntry {
    fn clone(&self) -> (copy: CacheEntry)
        ensures
            copy == *self,
    {
        CacheEntry { hash: self.hash.clone(), timestamp: self.timestamp.clone(), success: self.success }
    }
}

/// Complete cache state stored in .aster/cache.json
#[derive(Debug)]
pub struct CacheState {
    /// Map of target address to cache entry
    pub targets: TextMap<CacheEntry>,
}

impl Default for CacheState {
    fn default() -> (state: CacheState)
        ensures
            state.targets@ == Map::<Seq<char>, CacheEntry>::empty(),
    {
        CacheState { targets: TextMap::new() }
    }
}

/// The cache of a workspace: where its file lies and what it holds.
#[derive(Debug)]
pub struct CacheStore {
    pub cache_path: String,
    pub lock_path: String,
    pub state: CacheState,
}

impl View for CacheStore {
    type V = Map<Seq<char>, CacheEntry>;

    open spec fn view(&self) -> Map<Seq<char>, CacheEntry> {
        self.state.targets@
    }
}

/// A pattern with a target names one entry, one without all entries of a project.
pub open spec fn cleared_by(pattern: Seq<char>, address: Seq<char>) -> bool {
    if pattern.contains(':') {
        address == pattern
    } else {
        (pattern + ":"@).is_prefix_of(address)
    }
}

/// The entries that a pattern does not clear.
pub open spec fn kept(entries: Map<Seq<char>, CacheEntry>, pattern: Seq<char>) -> Map<Seq<char>, CacheEntry> {
    entries.restrict(entries.dom().filter(|address: Seq<char>| !cleared_by(pattern, address)))
}

impl CacheStore {
    /// The store has the same files.
    pub open spec fn same_place(&self, other: &CacheStore) -> bool {
        self.cache_path == other.cache_path && self.lock_path == other.lock_path
    }

    /// An empty store for a workspace.
    pub fn new(workspace_root: &str) -> (store: CacheStore)
        ensures
            store.cache_path@ == path_join(path_join(workspace_root@, ".aster"@), "cache.json"@),
            store.lock_path@ == path_join(path_join(workspace_root@, ".aster"@), "cache.lock"@),
            store@ == Map::<Seq<char>, CacheEntry>::empty(),
    {
        let aster_dir = join_path(workspace_root, ".aster");
        CacheStore {
            cache_path: join_path(&aster_dir, "cache.json"),
            lock_path: join_path(&aster_dir, "cache.lock"),
            state: CacheState::default(),
        }
    }

    /// Replace what the store holds.
    pub fn save(&mut self, state: CacheState)
        ensures
            final(self)@ == state.targets@,
            final(self).same_place(old(self)),
    {
        self.state = state;
    }

    /// Get cache entry for a target
    pub fn get(&self, address: &str) -> (entry: Option<CacheEntry>)
        ensures
            entry is Some <==> self@.contains_key(address@),
            entry matches Some(found) ==> found == self@[address@],
    {
        match self.state.targets.get(address) {
            Some(entry) => Some(entry.clone()),
            None => None,
        }
    }

    /// Update cache entry for a target
    pub fn set(&mut self, address: &str, entry: CacheEntry)
        ensures
            final(self)@ == old(self)@.insert(address@, entry),
            final(self).same_place(old(self)),
    {
        self.state.targets.insert(address.to_owned(), entry);
    }

    /// Remove cache entry for a target
    pub fn remove(&mut self, address: &str)
        ensures
            final(self)@ == old(self)@.remove(address@),
            final(self).same_place(old(self)),
    {
        let _ = self.state.targets.remove(address);
    }

    /// Clear all cache entries
    pub fn clear(&mut self)
        ensures
            final(self)@ == Map::<Seq<char>, CacheEntry>::empty(),
            final(self).same_place(old(self)),
    {
        self.state = CacheState::default();
    }

    /// Clear cache entries matching a pattern (supports //project:target or
    /// //project); says how many there were.
    pub fn clear_matching(&mut self, pattern: &str) -> (removed: usize)
        ensures
            final(self)@ == kept(old(self)@, pattern@),
            final(self).same_place(old(self)),
            removed == old(self)@.dom().len() - final(self)@.dom().len(),
    {
        let count = self.state.targets.len();
        let ghost before = self@;
        let ghost keys = self.state.targets.keys();
        let exact = contains_char(pattern, ':');
        let prefix = concat2(pattern, ":");
        let mut doomed: Vec<String> = Vec::new();
        let mut i: usize = 0;
        while i < count
            invariant
                i <= count,
                count == self.state.targets.keys().len(),
                self.same_place(old(self)),
                self@ == before,
                keys == self.state.targets.keys(),
                exact == pattern@.contains(':'),
                prefix@ == pattern@ + ":"@,
                forall|k: int| 0 <= k < doomed@.len() ==> cleared_by(pattern@, (#[trigger] doomed@[k])@),
                forall|k: int|
                    0 <= k < i && cleared_by(pattern@, #[trigger] keys[k]) ==> texts(doomed@).contains(keys[k]),
            decreases count - i,
        {
            let key = self.state.targets.key_at(i);
            let matched = if exact {
                same_text(key, pattern)
            } else {
                starts_with(key, &prefix)
            };
            let ghost earlier = texts(doomed@);
            if matched {
                doomed.push(key.clone());
                proof {
                    let now = texts(doomed@);
                    assert(now =~= earlier.push(key@));
                    assert forall|k: int| 0 <= k < i + 1 && cleared_by(pattern@, #[trigger] keys[k]) implies now.contains(
                        keys[k],
                    ) by {
                        if k < i {
                            let p = choose|p: int| 0 <= p < earlier.len() && earlier[p] == keys[k];
                            assert(now[p] == keys[k]);
                        } else {
                            assert(now[earlier.len() as int] == keys[k]);
                        }
                    }
                }
            }
            i += 1;
        }
        let mut j: usize = 0;
        assert(before.remove_keys(texts(doomed@).take(0).to_set()) =~= before);
        while j < doomed.len()
            invariant
                j <= doomed@.len(),
                self.same_place(old(self)),
                self@ == before.remove_keys(texts(doomed@).take(j as int).to_set()),
            decreases doomed@.len() - j,
        {
            let _ = self.state.targets.remove(&doomed[j]);
            proof {
                let now = texts(doomed@).take(j + 1);
                let earlier = texts(doomed@).take(j as int);
                assert(now =~= earlier.push(doomed@[j as int]@));
                assert forall|x: Seq<char>| now.contains(x) <==> earlier.contains(x) || x == doomed@[j as int]@ by {
                    if earlier.contains(x) {
                        let k = choose|k: int| 0 <= k < earlier.len() && earlier[k] == x;
                        assert(now[k] == x);
                    }
                    assert(now[j as int] == doomed@[j as int]@);
                }
                assert(self@ =~= before.remove_keys(now.to_set()));
            }
            j += 1;
        }
        proof {
            assert(texts(doomed@).take(doomed@.len() as int) =~= texts(doomed@));
            let gone = texts(doomed@).to_set();
            assert forall|x: Seq<char>| before.contains_key(x) implies (gone.contains(x) <==> cleared_by(pattern@, x)) by {
                if gone.contains(x) {
                    let k = choose|k: int| 0 <= k < texts(doomed@).len() && texts(doomed@)[k] == x;
                    assert(cleared_by(pattern@, doomed@[k]@));
                }
                assert(keys.contains(x));
                let k = choose|k: int| 0 <= k < keys.len() && keys[k] == x;
                if cleared_by(pattern@, x) {
                    assert(texts(doomed@).contains(keys[k]));
                }
            }
            assert(self@ =~= kept(before, pattern@));
        }
        let left = self.state.targets.len();
        proof {
            vstd::set_lib::lemma_len_subset(self@.dom(), before.dom());
        }
        count - left
    }
}

/// What was set last for a target is what is found, and other targets keep theirs.
pub proof fn get_after_set(
    entries: Map<Seq<char>, CacheEntry>,
    address: Seq<char>,
    entry: CacheEntry,
    other: Seq<char>,
)
    ensures
        entries.insert(address, entry).contains_key(address),
        entries.insert(address, entry)[address] == entry,
        other != address ==> entries.insert(address, entry).contains_key(other) == entries.contains_key(other),
        other != address && entries.contains_key(other) ==> entries.insert(address, entry)[other] == entries[other],
        !entries.insert(address, entry).remove(address).contains_key(address),
{
}

/// Clearing a project leaves the entries of every other project, also of one
/// whose address begins with the cleared one.
pub proof fn clearing_spares_other_projects(
    entries: Map<Seq<char>, CacheEntry>,
    project: Seq<char>,
    other: Seq<char>,
    target: Seq<char>,
)
    requires
        !project.contains(':'),
        !other.contains(':'),
        project != other,
        entries.contains_key(other + ":"@ + target),
    ensures
        kept(entries, project).contains_key(other + ":"@ + target),
        kept(entries, project)[other + ":"@ + target] == entries[other + ":"@ + target],
{
    let address = other + ":"@ + target;
    let prefix = project + ":"@;
    reveal_strlit(":");
    if prefix.is_prefix_of(address) {
        assert forall|i: int| 0 <= i < prefix.len() implies prefix[i] == address[i] by {
            assert(address.subrange(0, prefix.len() as int)[i] == address[i]);
        }
        if project.len() < other.len() {
            assert(prefix[project.len() as int] == ':');
            assert(address[project.len() as int] == other[project.len() as int]);
            assert(other.contains(':'));
        } else if other.len() < project.len() {
            assert(address[other.len() as int] == ':');
            assert(prefix[other.len() as int] == project[other.len() as int]);
            assert(project.contains(':'));
        } else {
            assert forall|i: int| 0 <= i < project.len() implies project[i] == other[i] by {
                assert(prefix[i] == address[i]);
            }
            assert(project =~= other);
        }
    }
}

/// Clearing a project clears each of its targets; clearing a target clears that one
/// and spares the others.
pub proof fn clearing_clears(entries: Map<Seq<char>, CacheEntry>, project: Seq<char>, target: Seq<char>, other: Seq<char>)
    requires
        !project.contains(':'),
    ensures
        !kept(entries, project).contains_key(project + ":"@ + target),
        !kept(entries, project + ":"@ + target).contains_key(project + ":"@ + target),
        other != project + ":"@ + target ==> (kept(entries, project + ":"@ + target).contains_key(other)
            <==> entries.contains_key(other)),
        kept(entries, project).dom().subset_of(entries.dom()),
{
    reveal_strlit(":");
    let address = project + ":"@ + target;
    assert((project + ":"@) =~= address.take((project + ":"@).len() as int));
    assert((project + ":"@).is_prefix_of(address));
    assert(address[project.len() as int] == ':');
    assert(address.contains(':'));
}

/// Whatever is stored, the files of a store stay where they are.
pub proof fn stores_stay_in_their_place(one: CacheStore, two: CacheStore)
    requires
        one.same_place(&two),
    ensures
        one.cache_path == two.cache_path,
        one.lock_path == two.lock_path,
{
}

} // verus!

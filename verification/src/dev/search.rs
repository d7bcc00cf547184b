//! The search for a bundle of free ports.
use vstd::prelude::*;
use crate::collections::{TextMap, TextSet};
use crate::config::workspace::{DevPortConfig, DynamicDevPortConfig};
use crate::dev::allocation::{default_dynamic_values, dynamic_root, root_of, shown_values};
use crate::dev::ports::{chains_end, port_value, ports_fault, resolution_fault, resolve_ports, resolves, validate_port_offsets, PortSources};
use crate::numbers::{decimal, decimal_text};
use crate::text::{concat2, concat3, join_texts, joined, same_text, texts};

verus! {

/// Ports that are found together: those that move with a dynamic port, or
/// those that move with none.
#[derive(Debug)]
pub struct PortGroup {
    pub root: Option<String>,
    pub names: Vec<String>,
}

/// The names that move with a root, or with none.
pub open spec fn moving_with(
    configs: Map<Seq<char>, DevPortConfig>,
    names: Seq<Seq<char>>,
    root: Option<Seq<char>>,
) -> Seq<Seq<char>> {
    names.filter(
        |name: Seq<char>| root_of(configs, name, Set::empty()) == Ok::<Option<Seq<char>>, Seq<char>>(root),
    )
}

/// The group by its root and names.
pub open spec fn group_view(group: PortGroup) -> (Option<Seq<char>>, Seq<Seq<char>>) {
    (crate::text::text_option(group.root), texts(group.names@))
}

/// The groups by their roots and names.
pub open spec fn group_views(groups: Seq<PortGroup>) -> Seq<(Option<Seq<char>>, Seq<Seq<char>>)> {
    groups.map_values(|group: PortGroup| group_view(group))
}

/// The groups that have a name: first the one without a root, then those of
/// the given roots.
pub open spec fn port_groups(
    configs: Map<Seq<char>, DevPortConfig>,
    names: Seq<Seq<char>>,
    roots: Seq<Seq<char>>,
) -> Seq<(Option<Seq<char>>, Seq<Seq<char>>)>
    decreases roots.len(),
{
    if roots.len() == 0 {
        let still = moving_with(configs, names, None);
        if still.len() > 0 {
            seq![(None, still)]
        } else {
            Seq::empty()
        }
    } else {
        let before = port_groups(configs, names, roots.drop_last());
        let moving = moving_with(configs, names, Some(roots.last()));
        if moving.len() > 0 {
            before.push((Some(roots.last()), moving))
        } else {
            before
        }
    }
}

/// The first of some names that no port has.
pub open spec fn first_unknown(configs: Map<Seq<char>, DevPortConfig>, names: Seq<Seq<char>>) -> Option<Seq<char>>
    decreases names.len(),
{
    if names.len() == 0 {
        None
    } else {
        match first_unknown(configs, names.drop_last()) {
            Some(name) => Some(name),
            None => if configs.contains_key(names.last()) {
                None
            } else {
                Some(names.last())
            },
        }
    }
}

/// Why a search cannot begin.
pub open spec fn search_fault(configs: TextMap<DevPortConfig>, names: Seq<Seq<char>>) -> Option<Seq<char>> {
    match ports_fault(configs) {
        Some(fault) => Some(fault),
        None => match first_unknown(configs@, names) {
            Some(name) => Some("selected services reference unknown port '"@ + name + "'"@),
            None => None,
        },
    }
}

/// The values that are tried for a dynamic port: the preferred one, then the
/// range.
pub open spec fn candidates(config: DynamicDevPortConfig) -> Seq<int> {
    let start = config.range[0] as int;
    let end = config.range[1] as int;
    let range = Seq::new((end - start + 1) as nat, |i: int| start + i);
    if config.preferred is Some && config.preferred->0 != start {
        seq![config.preferred->0 as int] + range
    } else {
        range
    }
}

/// Nothing is wrong with the range.
pub open spec fn is_range(config: DynamicDevPortConfig) -> bool {
    0 < config.range[0] <= config.range[1] && (config.preferred is Some ==> config.range[0] <= config.preferred->0
        <= config.range[1])
}

/// Every value that is tried lies in the range, and every port of the range is
/// tried.
pub proof fn candidates_are_the_range(config: DynamicDevPortConfig, port: int)
    requires
        is_range(config),
    ensures
        candidates(config).contains(port) <==> config.range[0] <= port <= config.range[1],
{
    let start = config.range[0] as int;
    let end = config.range[1] as int;
    let range = Seq::new((end - start + 1) as nat, |i: int| start + i);
    let list = candidates(config);
    let ahead: int = if config.preferred is Some && config.preferred->0 != start {
        1
    } else {
        0
    };
    if start <= port <= end {
        assert(range[port - start] == port);
        assert(list[ahead + port - start] == port);
    }
    if list.contains(port) {
        let i = choose|i: int| 0 <= i < list.len() && list[i] == port;
        if i >= ahead {
            assert(list[i] == range[i - ahead]);
        }
    }
}

/// What is to be done next.
#[derive(Debug)]
pub enum SearchStep {
    /// Try to take these ports together
    Try(TextMap<u16>),
    /// Every group has its ports; these are the numbers of all ports
    Done(TextMap<u16>),
}

/// A search for free ports, group by group.
#[derive(Debug)]
pub struct PortSearch {
    pub groups: Vec<PortGroup>,
    /// The values of the dynamic ports
    pub values: TextMap<u16>,
    /// The group that is looked at
    pub at: usize,
    /// The number of values that were refused for it
    pub refused: usize,
}

impl PortSearch {
    /// The groups are made of configured ports, and the search stands at one
    /// of them or behind the last.
    pub open spec fn well_formed(&self, configs: TextMap<DevPortConfig>) -> bool {
        &&& ports_fault(configs) is None
        &&& self.at <= self.groups@.len()
        &&& self.refused <= 65537
        &&& forall|i: int, j: int|
            0 <= i < self.groups@.len() && 0 <= j < self.groups@[i].names@.len() ==> configs@.contains_key(
                (#[trigger] self.groups@[i].names@[j])@,
            )
        &&& forall|i: int|
            0 <= i < self.groups@.len() && (#[trigger] self.groups@[i]).root is Some ==> configs@.contains_key(
                self.groups@[i].root->0@,
            ) && configs@[self.groups@[i].root->0@] is Dynamic
    }
}

fn collect_group(configs: &TextMap<DevPortConfig>, active: &TextSet, root: Option<&String>) -> (names: Vec<String>)
    requires
        ports_fault(*configs) is None,
        active@.subset_of(configs@.dom()),
    ensures
        texts(names@) == moving_with(
            configs@,
            active.items(),
            match root {
                Some(name) => Some(name@),
                None => None,
            },
        ),
        forall|j: int| 0 <= j < names@.len() ==> configs@.contains_key((#[trigger] names@[j])@),
{
    let ghost wanted = match root {
        Some(name) => Some(name@),
        None => None,
    };
    let ghost keep = |name: Seq<char>|
        root_of(configs@, name, Set::empty()) == Ok::<Option<Seq<char>>, Seq<char>>(wanted);
    let ghost items = active.items();
    let count = active.len();
    let mut names: Vec<String> = Vec::new();
    let mut i: usize = 0;
    proof {
        reveal(Seq::filter);
        assert(texts(names@) =~= items.take(0).filter(keep));
    }
    while i < count
        invariant
            i <= count,
            count == items.len(),
            items == active.items(),
            active@ == items.to_set(),
            active@.subset_of(configs@.dom()),
            ports_fault(*configs) is None,
            wanted == (match root {
                Some(name) => Some(name@),
                None => None,
            }),
            keep == (|name: Seq<char>|
                root_of(configs@, name, Set::empty()) == Ok::<Option<Seq<char>>, Seq<char>>(wanted)),
            texts(names@) == items.take(i as int).filter(keep),
            forall|j: int| 0 <= j < names@.len() ==> configs@.contains_key((#[trigger] names@[j])@),
        decreases count - i,
    {
        let name = active.item_at(i);
        proof {
            reveal(Seq::filter);
            assert(items.take(i + 1).drop_last() =~= items.take(i as int));
            assert(items.take(i + 1).last() == name@);
            assert(items.to_set().contains(items[i as int]));
        }
        let same = match dynamic_root(name, configs) {
            Ok(found) => match (&found, root) {
                (Some(one), Some(other)) => same_text(one, other),
                (None, None) => true,
                _ => false,
            },
            Err(_) => false,
        };
        if same {
            let ghost before = texts(names@);
            names.push(name.clone());
            assert(texts(names@) =~= before.push(name@));
        }
        i += 1;
    }
    assert(items.take(items.len() as int) =~= items);
    names
}

/// Begin the search for the ports of a run.
pub fn start_search(configs: &TextMap<DevPortConfig>, active: &TextSet) -> (search: Result<PortSearch, String>)
    ensures
        match search {
            Ok(started) => {
                &&& search_fault(*configs, active.items()) is None
                &&& started.well_formed(*configs)
                &&& started.values@ == shown_values(configs@)
                &&& started.at == 0
                &&& started.refused == 0
                &&& group_views(started.groups@) == port_groups(configs@, active.items(), dynamic_names(*configs))
            },
            Err(message) => search_fault(*configs, active.items()) == Some(message@),
        },
{
    if let Err(message) = validate_port_offsets(configs) {
        return Err(message);
    }
    let ghost items = active.items();
    let count = active.len();
    let mut i: usize = 0;
    assert(items.take(0) =~= Seq::<Seq<char>>::empty());
    while i < count
        invariant
            i <= count,
            count == items.len(),
            items == active.items(),
            ports_fault(*configs) is None,
            first_unknown(configs@, items.take(i as int)) is None,
            forall|k: int| 0 <= k < i ==> configs@.contains_key(#[trigger] items[k]),
        decreases count - i,
    {
        let name = active.item_at(i);
        proof {
            assert(items.take(i + 1).drop_last() =~= items.take(i as int));
            assert(items.take(i + 1).last() == name@);
        }
        if !configs.contains_key(name) {
            proof {
                unknown_stays(configs@, items, i + 1);
            }
            return Err(concat3("selected services reference unknown port '", name, "'"));
        }
        i += 1;
    }
    proof {
        assert(items.take(items.len() as int) =~= items);
        assert forall|name: Seq<char>| active@.contains(name) implies configs@.dom().contains(name) by {
            assert(items.contains(name));
        }
    }
    let mut groups: Vec<PortGroup> = Vec::new();
    let still = collect_group(configs, active, None);
    assert(texts(still@).len() == still@.len());
    if still.len() > 0 {
        groups.push(PortGroup { root: None, names: still });
        assert(group_views(groups@) =~= seq![(None, moving_with(configs@, items, None))]);
    } else {
        assert(group_views(groups@) =~= Seq::<(Option<Seq<char>>, Seq<Seq<char>>)>::empty());
    }
    let values = default_dynamic_values(configs);
    let ghost keys = configs.keys();
    let total = configs.len();
    let mut j: usize = 0;
    proof {
        reveal(Seq::filter);
        assert(keys.take(0).filter(|name: Seq<char>| configs@[name] is Dynamic) =~= Seq::<Seq<char>>::empty());
    }
    while j < total
        invariant
            j <= total,
            total == keys.len(),
            keys == configs.keys(),
            items == active.items(),
            ports_fault(*configs) is None,
            active@.subset_of(configs@.dom()),
            group_views(groups@) == port_groups(
                configs@,
                items,
                keys.take(j as int).filter(|name: Seq<char>| configs@[name] is Dynamic),
            ),
            forall|i: int, k: int|
                0 <= i < groups@.len() && 0 <= k < groups@[i].names@.len() ==> configs@.contains_key(
                    (#[trigger] groups@[i].names@[k])@,
                ),
            forall|i: int|
                0 <= i < groups@.len() && (#[trigger] groups@[i]).root is Some ==> configs@.contains_key(
                    groups@[i].root->0@,
                ) && configs@[groups@[i].root->0@] is Dynamic,
        decreases total - j,
    {
        let key = configs.key_at(j);
        proof {
            reveal(Seq::filter);
            assert(keys.take(j + 1).drop_last() =~= keys.take(j as int));
            assert(keys.take(j + 1).last() == key@);
        }
        if let DevPortConfig::Dynamic(_) = configs.value_at(j) {
            let ghost roots = keys.take(j as int).filter(|name: Seq<char>| configs@[name] is Dynamic);
            assert(roots.push(key@).drop_last() =~= roots);
            let names = collect_group(configs, active, Some(key));
            assert(texts(names@).len() == names@.len());
            if names.len() > 0 {
                let ghost before = group_views(groups@);
                let ghost moving = texts(names@);
                groups.push(PortGroup { root: Some(key.clone()), names });
                assert(group_views(groups@) =~= before.push((Some(key@), moving)));
            }
        }
        j += 1;
    }
    assert(keys.take(keys.len() as int) =~= keys);
    Ok(PortSearch { groups, values, at: 0, refused: 0 })
}

/// The names of the dynamic ports, in ascending order.
pub open spec fn dynamic_names(configs: TextMap<DevPortConfig>) -> Seq<Seq<char>> {
    configs.keys().filter(|name: Seq<char>| configs@[name] is Dynamic)
}

/// Where no name is unknown, each is known.
pub proof fn none_is_unknown(configs: Map<Seq<char>, DevPortConfig>, names: Seq<Seq<char>>, at: int)
    requires
        first_unknown(configs, names) is None,
        0 <= at < names.len(),
    ensures
        configs.contains_key(names[at]),
    decreases names.len(),
{
    if at < names.len() - 1 {
        none_is_unknown(configs, names.drop_last(), at);
    }
}

proof fn unknown_stays(configs: Map<Seq<char>, DevPortConfig>, names: Seq<Seq<char>>, count: int)
    requires
        0 <= count <= names.len(),
        first_unknown(configs, names.take(count)) is Some,
    ensures
        first_unknown(configs, names) == first_unknown(configs, names.take(count)),
    decreases names.len() - count,
{
    if count == names.len() {
        assert(names.take(count) =~= names);
    } else {
        assert(names.take(count + 1).drop_last() =~= names.take(count));
        unknown_stays(configs, names, count + 1);
    }
}

/// The numbers are those of some of the ports.
pub open spec fn is_bundle(
    configs: Map<Seq<char>, DevPortConfig>,
    sources: PortSources,
    dynamic: Map<Seq<char>, u16>,
    names: Seq<Seq<char>>,
    bundle: Map<Seq<char>, u16>,
) -> bool {
    &&& bundle.dom() == names.to_set()
    &&& forall|name: Seq<char>| #[trigger]
        bundle.contains_key(name) ==> port_value(configs, sources, dynamic, name, Set::empty()) == Ok::<
            int,
            Seq<char>,
        >(bundle[name] as int)
}

/// The numbers of some of the ports.
pub fn resolve_named_bundle(
    configs: &TextMap<DevPortConfig>,
    sources: &PortSources,
    dynamic: &TextMap<u16>,
    names: &Vec<String>,
) -> (bundle: Result<TextMap<u16>, String>)
    requires
        forall|j: int| 0 <= j < names@.len() ==> configs@.contains_key((#[trigger] names@[j])@),
    ensures
        match bundle {
            Ok(map) => resolution_fault(*configs, *sources, dynamic@) is None && is_bundle(
                configs@,
                *sources,
                dynamic@,
                texts(names@),
                map@,
            ),
            Err(message) => resolution_fault(*configs, *sources, dynamic@) == Some(message@),
        },
{
    let resolved = match resolve_ports(configs, sources, dynamic) {
        Ok(ports) => ports,
        Err(message) => return Err(message),
    };
    let mut bundle: TextMap<u16> = TextMap::new();
    let ghost all = texts(names@);
    let mut i: usize = 0;
    assert(bundle@.dom() =~= all.take(0).to_set());
    while i < names.len()
        invariant
            i <= names@.len(),
            all == texts(names@),
            forall|j: int| 0 <= j < names@.len() ==> configs@.contains_key((#[trigger] names@[j])@),
            resolves(configs@, *sources, dynamic@, resolved@),
            bundle@.dom() == all.take(i as int).to_set(),
            forall|name: Seq<char>| #[trigger]
                bundle@.contains_key(name) ==> resolved@.contains_key(name) && bundle@[name] == resolved@[name],
        decreases names@.len() - i,
    {
        proof {
            assert(all.take(i + 1) =~= all.take(i as int).push(names@[i as int]@));
            all.take(i as int).lemma_push_to_set_commute(names@[i as int]@);
            assert(resolved@.dom().contains(names@[i as int]@));
            assert(resolved@.contains_key(names@[i as int]@));
        }
        if let Some(port) = resolved.get(&names[i]) {
            bundle.insert(names[i].clone(), *port);
        }
        assert(bundle@.dom() =~= all.take(i + 1).to_set());
        i += 1;
    }
    assert(all.take(all.len() as int) =~= all);
    Ok(bundle)
}

/// The ports with their names, in order of name.
pub open spec fn named_ports(names: Seq<Seq<char>>, ports: Map<Seq<char>, u16>) -> Seq<Seq<char>> {
    names.map_values(|name: Seq<char>| name + "="@ + decimal(ports[name] as nat))
}

/// The ports with their names, for a message.
pub fn format_named_ports(ports: &TextMap<u16>) -> (text: String)
    ensures
        text@ == joined(named_ports(ports.keys(), ports@), ", "@),
{
    let mut parts: Vec<String> = Vec::new();
    let ghost names = ports.keys();
    let count = ports.len();
    let mut i: usize = 0;
    while i < count
        invariant
            i <= count,
            count == names.len(),
            names == ports.keys(),
            parts@.len() == i,
            forall|k: int|
                0 <= k < i ==> (#[trigger] parts@[k])@ == names[k] + "="@ + decimal(ports@[names[k]] as nat),
        decreases count - i,
    {
        parts.push(concat3(ports.key_at(i), "=", &decimal_text(*ports.value_at(i) as u128)));
        i += 1;
    }
    assert(texts(parts@) =~= named_ports(names, ports@));
    join_texts(&parts, ", ")
}

fn candidate_at(config: &DynamicDevPortConfig, at: usize) -> (value: Option<u16>)
    requires
        is_range(*config),
    ensures
        value is Some <==> at < candidates(*config).len(),
        value matches Some(port) ==> port as int == candidates(*config)[at as int],
{
    let start: u16 = config.range[0];
    let end: u16 = config.range[1];
    let mut place: usize = at;
    if let Some(preferred) = config.preferred {
        if preferred != start {
            if at == 0 {
                return Some(preferred);
            }
            place = at - 1;
        }
    }
    if place <= (end - start) as usize {
        let port: u16 = start + place as u16;
        Some(port)
    } else {
        None
    }
}

/// What a search does next: the values of the dynamic ports, and the step or
/// the reason to stop.
pub open spec fn is_next_step(
    configs: TextMap<DevPortConfig>,
    sources: PortSources,
    before: PortSearch,
    after: PortSearch,
    step: Result<SearchStep, String>,
) -> bool {
    &&& after.groups@ == before.groups@
    &&& after.at == before.at
    &&& after.refused == before.refused
    &&& if before.at >= before.groups@.len() {
        &&& after.values@ == before.values@
        &&& match step {
            Ok(SearchStep::Done(ports)) => resolution_fault(configs, sources, before.values@) is None && resolves(
                configs@,
                sources,
                before.values@,
                ports@,
            ),
            Ok(SearchStep::Try(_)) => false,
            Err(message) => resolution_fault(configs, sources, before.values@) == Some(message@),
        }
    } else {
        let group = before.groups@[before.at as int];
        let exhausted = group.root is Some && before.refused >= candidates(
            configs@[group.root->0@]->Dynamic_0,
        ).len();
        let values = if group.root is None || exhausted {
            before.values@
        } else {
            before.values@.insert(
                group.root->0@,
                candidates(configs@[group.root->0@]->Dynamic_0)[before.refused as int] as u16,
            )
        };
        &&& after.values@ == values
        &&& match step {
            Ok(SearchStep::Done(_)) => false,
            Ok(SearchStep::Try(bundle)) => !exhausted && resolution_fault(configs, sources, values) is None
                && is_bundle(configs@, sources, values, texts(group.names@), bundle@),
            Err(message) => if exhausted {
                message@ == no_bundle_text(group.root->0@, configs@[group.root->0@]->Dynamic_0)
            } else {
                resolution_fault(configs, sources, values) == Some(message@)
            },
        }
    }
}

/// What is said where every value of a dynamic port was refused.
pub open spec fn no_bundle_text(root: Seq<char>, config: DynamicDevPortConfig) -> Seq<char> {
    "no collision-free port bundle is available for dynamic port '"@ + root + "' in range "@ + decimal(
        config.range[0] as nat,
    ) + "-"@ + decimal(config.range[1] as nat)
}

impl PortSearch {
    /// What is to be done next.
    pub fn next_step(&mut self, configs: &TextMap<DevPortConfig>, sources: &PortSources) -> (step: Result<
        SearchStep,
        String,
    >)
        requires
            old(self).well_formed(*configs),
        ensures
            final(self).well_formed(*configs),
            is_next_step(*configs, *sources, *old(self), *final(self), step),
    {
        if self.at >= self.groups.len() {
            return match resolve_ports(configs, sources, &self.values) {
                Ok(ports) => Ok(SearchStep::Done(ports)),
                Err(message) => Err(message),
            };
        }
        let at = self.at;
        if let Some(root) = &self.groups[at].root {
            let root = root.clone();
            if let Some(DevPortConfig::Dynamic(config)) = configs.get(&root) {
                proof {
                    chains_end(*configs, root@);
                }
                match candidate_at(config, self.refused) {
                    None => {
                        let range = concat3(
                            &decimal_text(config.range[0] as u128),
                            "-",
                            &decimal_text(config.range[1] as u128),
                        );
                        let front = concat3(
                            "no collision-free port bundle is available for dynamic port '",
                            &root,
                            "' in range ",
                        );
                        let text = concat2(&front, &range);
                        assert(text@ =~= no_bundle_text(root@, *config));
                        return Err(text);
                    },
                    Some(port) => {
                        self.values.insert(root, port);
                    },
                }
            }
        }
        assert forall|j: int| 0 <= j < self.groups@[at as int].names@.len() implies configs@.contains_key(
            (#[trigger] self.groups@[at as int].names@[j])@,
        ) by {}
        match resolve_named_bundle(configs, sources, &self.values, &self.groups[at].names) {
            Ok(bundle) => Ok(SearchStep::Try(bundle)),
            Err(message) => Err(message),
        }
    }

    /// Take note of whether a bundle could be taken.
    pub fn note_attempt(&mut self, configs: &TextMap<DevPortConfig>, bundle: &TextMap<u16>, taken: bool) -> (noted: Result<
        (),
        String,
    >)
        requires
            old(self).well_formed(*configs),
            old(self).at < old(self).groups@.len(),
            old(self).groups@[old(self).at as int].root matches Some(root) ==> old(self).refused < candidates(
                configs@[root@]->Dynamic_0,
            ).len(),
        ensures
            final(self).well_formed(*configs),
            final(self).groups@ == old(self).groups@,
            final(self).values@ == old(self).values@,
            noted is Err <==> !taken && old(self).groups@[old(self).at as int].root is None,
            noted matches Err(message) ==> message@
                == "configured static service ports are already allocated or listening: "@ + joined(
                named_ports(bundle.keys(), bundle@),
                ", "@,
            ),
            taken ==> final(self).at == old(self).at + 1 && final(self).refused == 0,
            !taken ==> final(self).at == old(self).at,
            noted is Ok && !taken ==> final(self).refused == old(self).refused + 1,
    {
        let count: usize = self.groups.len();
        if taken && self.at < count {
            self.at = self.at + 1;
            self.refused = 0;
            return Ok(());
        }
        if self.groups[self.at].root.is_none() {
            return Err(
                concat2(
                    "configured static service ports are already allocated or listening: ",
                    &format_named_ports(bundle),
                ),
            );
        }
        proof {
            let root = self.groups@[self.at as int].root->0@;
            chains_end(*configs, root);
        }
        self.refused = self.refused + 1;
        Ok(())
    }
}

/// The first name that no port has is told of, and none is where each is known.
pub proof fn the_first_unknown_name_is_told(configs: Map<Seq<char>, DevPortConfig>, names: Seq<Seq<char>>)
    ensures
        first_unknown(configs, names) is None <==> forall|i: int| 0 <= i < names.len() ==> configs.contains_key(#[trigger] names[i]),
        first_unknown(configs, names) matches Some(name) ==> exists|i: int|
            0 <= i < names.len() && (#[trigger] names[i]) == name && !configs.contains_key(name) && forall|j: int|
                0 <= j < i ==> configs.contains_key(#[trigger] names[j]),
    decreases names.len(),
{
    if names.len() > 0 {
        let front = names.drop_last();
        the_first_unknown_name_is_told(configs, front);
        assert(forall|i: int| 0 <= i < front.len() ==> #[trigger] front[i] == names[i]);
        assert(names[names.len() - 1] == names.last());
        match first_unknown(configs, front) {
            Some(name) => {
                let i = choose|i: int|
                    0 <= i < front.len() && (#[trigger] front[i]) == name && !configs.contains_key(name) && forall|j: int|
                        0 <= j < i ==> configs.contains_key(#[trigger] front[j]);
                assert(names[i] == name);
                assert forall|j: int| 0 <= j < i implies configs.contains_key(#[trigger] names[j]) by {
                    assert(front[j] == names[j]);
                }
            },
            None => {
                assert forall|i: int| 0 <= i < front.len() implies configs.contains_key(#[trigger] names[i]) by {
                    assert(front[i] == names[i]);
                }
            },
        }
    }
}

/// A name is searched for in the group of its root, and in no other.
pub proof fn names_are_searched_with_their_root(
    configs: Map<Seq<char>, DevPortConfig>,
    names: Seq<Seq<char>>,
    roots: Seq<Seq<char>>,
    root: Option<Seq<char>>,
    name: Seq<char>,
)
    ensures
        (exists|i: int|
            0 <= i < port_groups(configs, names, roots).len() && (#[trigger] port_groups(configs, names, roots)[i]).0
                == root && port_groups(configs, names, roots)[i].1.contains(name)) <==> names.contains(name)
            && root_of(configs, name, Set::empty()) == Ok::<Option<Seq<char>>, Seq<char>>(root) && (root is None
            || roots.contains(root->0)),
    decreases roots.len(),
{
    let groups = port_groups(configs, names, roots);
    assert forall|r: Option<Seq<char>>| #[trigger] moving_with(configs, names, r).contains(name) <==> names.contains(name)
        && root_of(configs, name, Set::empty()) == Ok::<Option<Seq<char>>, Seq<char>>(r) by {
        let found = moving_with(configs, names, r);
        let picks = |n: Seq<char>| root_of(configs, n, Set::empty()) == Ok::<Option<Seq<char>>, Seq<char>>(r);
        assert(found == names.filter(picks));
        if found.contains(name) {
            names.lemma_filter_contains_rev(picks, name);
            let i = choose|i: int| 0 <= i < found.len() && found[i] == name;
            names.lemma_filter_pred(picks, i);
        }
        if names.contains(name) && picks(name) {
            let i = choose|i: int| 0 <= i < names.len() && names[i] == name;
            names.lemma_filter_contains(picks, i);
        }
    }
    if roots.len() == 0 {
        let still = moving_with(configs, names, None);
        if still.contains(name) {
            assert(groups[0] == (None::<Seq<char>>, still));
        }
    } else {
        let front = roots.drop_last();
        let before = port_groups(configs, names, front);
        let moving = moving_with(configs, names, Some(roots.last()));
        names_are_searched_with_their_root(configs, names, front, root, name);
        assert(roots =~= front.push(roots.last()));
        if exists|i: int| 0 <= i < before.len() && (#[trigger] before[i]).0 == root && before[i].1.contains(name) {
            let i = choose|i: int| 0 <= i < before.len() && (#[trigger] before[i]).0 == root && before[i].1.contains(name);
            assert(groups[i] == before[i]);
            if root is Some {
                let k = choose|k: int| 0 <= k < front.len() && front[k] == root->0;
                assert(roots[k] == root->0);
            }
        }
        if exists|i: int| 0 <= i < groups.len() && (#[trigger] groups[i]).0 == root && groups[i].1.contains(name) {
            let i = choose|i: int| 0 <= i < groups.len() && (#[trigger] groups[i]).0 == root && groups[i].1.contains(name);
            if i < before.len() {
                assert(before[i] == groups[i]);
            } else {
                assert(roots[roots.len() - 1] == root->0);
            }
        }
        if root is Some && roots.contains(root->0) && moving_with(configs, names, root).contains(name) {
            let k = choose|k: int| 0 <= k < roots.len() && roots[k] == root->0;
            if k < front.len() {
                assert(front[k] == root->0);
            } else {
                assert(groups[before.len() as int] == (Some(roots.last()), moving));
            }
        }
    }
}

/// The preferred port is tried first, then the ports of the range as they rise.
pub proof fn the_preferred_port_is_tried_first(config: DynamicDevPortConfig, at: int)
    requires
        is_range(config),
    ensures
        candidates(config).len() > 0,
        config.preferred is Some ==> candidates(config)[0] == config.preferred->0,
        config.preferred is None ==> candidates(config)[0] == config.range[0],
        1 < at < candidates(config).len() ==> candidates(config)[at] == candidates(config)[at - 1] + 1,
        candidates(config).last() == config.range[1],
{
}

/// A search tries the next candidate of a group that has not been refused, ends only
/// when no group is left, and gives up only when all candidates of one were refused.
pub proof fn searches_try_each_candidate(
    configs: TextMap<DevPortConfig>,
    sources: PortSources,
    before: PortSearch,
    after: PortSearch,
    step: Result<SearchStep, String>,
    root: Seq<char>,
)
    requires
        is_next_step(configs, sources, before, after, step),
        before.at < before.groups@.len(),
        before.groups@[before.at as int].root is Some,
        before.groups@[before.at as int].root->0@ == root,
    ensures
        !(step matches Ok(SearchStep::Done(_))),
        before.refused >= candidates(configs@[root]->Dynamic_0).len() ==> step is Err,
        before.refused < candidates(configs@[root]->Dynamic_0).len() ==> after.values@.contains_key(root)
            && after.values@[root] == candidates(configs@[root]->Dynamic_0)[before.refused as int] as u16,
        forall|other: Seq<char>|
            other != root && before.values@.contains_key(other) ==> #[trigger] after.values@.contains_key(other)
                && after.values@[other] == before.values@[other],
{
}

/// A search begins where the ports are sound and each name is that of a port; and
/// only there.
pub proof fn searches_that_can_begin(configs: TextMap<DevPortConfig>, names: Seq<Seq<char>>)
    ensures
        search_fault(configs, names) is None <==> ports_fault(configs) is None && forall|i: int|
            0 <= i < names.len() ==> configs@.contains_key(#[trigger] names[i]),
{
    the_first_unknown_name_is_told(configs@, names);
}

/// No group is searched for without a name.
pub proof fn groups_have_names(
    configs: Map<Seq<char>, DevPortConfig>,
    names: Seq<Seq<char>>,
    roots: Seq<Seq<char>>,
    at: int,
)
    requires
        0 <= at < port_groups(configs, names, roots).len(),
    ensures
        port_groups(configs, names, roots)[at].1.len() > 0,
    decreases roots.len(),
{
    if roots.len() > 0 {
        let before = port_groups(configs, names, roots.drop_last());
        if at < before.len() {
            groups_have_names(configs, names, roots.drop_last(), at);
            assert(port_groups(configs, names, roots)[at] == before[at]);
        }
    }
}

} // verus!

//! Named project-address filtering for `aster affected` primary projects.
use vstd::prelude::*;
use crate::address::{is_selector, meaning_selects, selector_complaint, selector_meaning, with_slashes, ProjectSelector, SelectorError};
use crate::collections::TextSet;
use crate::config::workspace::AffectedWorkspaceConfig;
use crate::discovery::scanner::{project_address, DiscoveredProject};
use crate::graph::builder::project_addresses;
use crate::text::{concat2, concat4, concat5, join_texts, joined, texts};

verus! {

/// The two lists of selectors of a lane.
#[derive(Debug, Clone, Copy, PartialEq, Eq, Structural)]
pub enum LaneList {
    Includes,
    Excludes,
}

/// Why a lane selects nothing.
#[derive(Debug)]
pub enum LaneError {
    /// No lane has the name; these lanes are configured
    Unknown { lane: String, known: Vec<String> },
    /// A string is no selector
    InvalidSelector { selector: String, lane: String, list: LaneList, error: SelectorError },
    /// A selector matches no project
    NoProject { selector: String, lane: String, list: LaneList },
}

/// The word for a list in messages.
pub open spec fn list_word(list: LaneList) -> Seq<char> {
    match list {
        LaneList::Includes => "include"@,
        LaneList::Excludes => "exclude"@,
    }
}

impl LaneError {
    /// The message for a reader.
    pub open spec fn message(&self) -> Seq<char> {
        match self {
            LaneError::Unknown { lane, known } => if known@.len() == 0 {
                "unknown affected lane '"@ + lane@ + "'; no lanes are configured"@
            } else {
                "unknown affected lane '"@ + lane@ + "'; configured lanes: "@ + joined(texts(known@), ", "@)
            },
            LaneError::InvalidSelector { selector, lane, list, error } => "invalid selector '"@ + selector@
                + "' in affected lane '"@ + lane@ + "' "@ + list_word(*list) + ": "@ + error.message(),
            LaneError::NoProject { selector, lane, list } => "selector '"@ + selector@ + "' in affected lane '"@
                + lane@ + "' "@ + list_word(*list) + " matches no projects"@,
        }
    }

    /// The message for a reader.
    pub fn to_string(&self) -> (message: String)
        ensures
            message@ == self.message(),
    {
        match self {
            LaneError::Unknown { lane, known } => {
                if known.len() == 0 {
                    let text = concat2("unknown affected lane '", lane);
                    concat2(&text, "'; no lanes are configured")
                } else {
                    concat4("unknown affected lane '", lane, "'; configured lanes: ", &join_texts(known, ", "))
                }
            },
            LaneError::InvalidSelector { selector, lane, list, error } => {
                let word = match list {
                    LaneList::Includes => "include",
                    LaneList::Excludes => "exclude",
                };
                let front = concat5("invalid selector '", selector, "' in affected lane '", lane, "' ");
                concat4(&front, word, ": ", &error.to_string())
            },
            LaneError::NoProject { selector, lane, list } => {
                let word = match list {
                    LaneList::Includes => "include",
                    LaneList::Excludes => "exclude",
                };
                let front = concat5("selector '", selector, "' in affected lane '", lane, "' ");
                concat2(&concat2(&front, word), " matches no projects")
            },
        }
    }
}

/// The string is a selector and matches the address.
pub open spec fn selects(selector: Seq<char>, address: Seq<char>) -> bool {
    meaning_selects(selector_meaning(selector), with_slashes(address))
}

/// Some selector of the list matches the address.
pub open spec fn any_selects(selectors: Seq<Seq<char>>, address: Seq<char>) -> bool {
    exists|i: int| 0 <= i < selectors.len() && selects(#[trigger] selectors[i], address)
}

/// The string is a selector and matches one of the projects.
pub open spec fn usable(selector: Seq<char>, addresses: Seq<Seq<char>>) -> bool {
    is_selector(selector) && exists|i: int| 0 <= i < addresses.len() && selects(selector, #[trigger] addresses[i])
}

/// Every string of the list is a selector that matches one of the projects.
pub open spec fn all_usable(selectors: Seq<Seq<char>>, addresses: Seq<Seq<char>>) -> bool {
    forall|i: int| 0 <= i < selectors.len() ==> usable(#[trigger] selectors[i], addresses)
}

/// The error is about the first string of the list that is no selector or
/// matches no project.
pub open spec fn blames(
    error: LaneError,
    lane_name: Seq<char>,
    wanted: LaneList,
    selectors: Seq<Seq<char>>,
    addresses: Seq<Seq<char>>,
) -> bool {
    exists|at: int|
        {
            &&& 0 <= at < selectors.len()
            &&& !usable(#[trigger] selectors[at], addresses)
            &&& forall|i: int| 0 <= i < at ==> usable(#[trigger] selectors[i], addresses)
            &&& match error {
                LaneError::InvalidSelector { selector, lane, list, error } => !is_selector(selectors[at])
                    && selector@ == selectors[at] && lane@ == lane_name && list == wanted && error.message()
                    == selector_complaint(selectors[at]),
                LaneError::NoProject { selector, lane, list } => is_selector(selectors[at]) && selector@
                    == selectors[at] && lane@ == lane_name && list == wanted,
                LaneError::Unknown { .. } => false,
            }
        }
}

/// The selectors of a list match what its strings say.
spec fn reads_as(parsed: Seq<ProjectSelector>, selectors: Seq<Seq<char>>) -> bool {
    &&& parsed.len() == selectors.len()
    &&& forall|i: int, address: Seq<char>|
        0 <= i < parsed.len() ==> #[trigger] parsed[i].selects(address) == meaning_selects(
            selector_meaning(selectors[i]),
            address,
        )
}

fn parse_selectors(
    values: &Vec<String>,
    lane_name: &str,
    list: LaneList,
    addresses: &Vec<String>,
) -> (parsed: Result<Vec<ProjectSelector>, LaneError>)
    ensures
        match parsed {
            Ok(selectors) => all_usable(texts(values@), texts(addresses@)) && reads_as(selectors@, texts(values@)),
            Err(error) => blames(error, lane_name@, list, texts(values@), texts(addresses@)),
        },
{
    let ghost all = texts(values@);
    let ghost known = texts(addresses@);
    let mut selectors: Vec<ProjectSelector> = Vec::new();
    let mut i: usize = 0;
    while i < values.len()
        invariant
            i <= values@.len(),
            all == texts(values@),
            known == texts(addresses@),
            selectors@.len() == i,
            forall|k: int| 0 <= k < i ==> usable(#[trigger] all[k], known),
            forall|k: int, address: Seq<char>|
                0 <= k < i ==> #[trigger] selectors@[k].selects(address) == meaning_selects(
                    selector_meaning(all[k]),
                    address,
                ),
        decreases values@.len() - i,
    {
        let value = &values[i];
        assert(all[i as int] == value@);
        match ProjectSelector::parse(value) {
            Err(error) => {
                assert(!usable(all[i as int], known));
                return Err(
                    LaneError::InvalidSelector {
                        selector: value.clone(),
                        lane: lane_name.to_owned(),
                        list,
                        error,
                    },
                );
            },
            Ok(selector) => {
                let mut found = false;
                let mut j: usize = 0;
                while j < addresses.len() && !found
                    invariant
                        j <= addresses@.len(),
                        known == texts(addresses@),
                        forall|address: Seq<char>| #[trigger]
                            selector.selects(address) == meaning_selects(selector_meaning(value@), address),
                        found ==> exists|k: int| 0 <= k < known.len() && selects(value@, #[trigger] known[k]),
                        !found ==> forall|k: int| 0 <= k < j ==> !selects(value@, #[trigger] known[k]),
                    decreases addresses@.len() - j, (if found {
                        0int
                    } else {
                        1int
                    }),
                {
                    assert(known[j as int] == addresses@[j as int]@);
                    if selector.matches(&addresses[j]) {
                        assert(selects(value@, known[j as int]));
                        found = true;
                    } else {
                        j += 1;
                    }
                }
                if !found {
                    assert(!usable(all[i as int], known));
                    return Err(
                        LaneError::NoProject { selector: value.clone(), lane: lane_name.to_owned(), list },
                    );
                }
                selectors.push(selector);
            },
        }
        i += 1;
    }
    Ok(selectors)
}

fn some_matches(selectors: &Vec<ProjectSelector>, address: &str, Ghost(values): Ghost<Seq<Seq<char>>>) -> (found: bool)
    requires
        reads_as(selectors@, values),
    ensures
        found == any_selects(values, address@),
{
    let mut i: usize = 0;
    while i < selectors.len()
        invariant
            i <= selectors@.len(),
            reads_as(selectors@, values),
            forall|k: int| 0 <= k < i ==> !selects(#[trigger] values[k], address@),
        decreases selectors@.len() - i,
    {
        if selectors[i].matches(address) {
            assert(selectors@[i as int].selects(with_slashes(address@)));
            assert(selects(values[i as int], address@));
            return true;
        }
        assert(!selectors@[i as int].selects(with_slashes(address@)));
        i += 1;
    }
    false
}

/// The address belongs to a lane: it is selected, or nothing is, and it is not excluded.
pub open spec fn in_lane(includes: Seq<Seq<char>>, excludes: Seq<Seq<char>>, address: Seq<char>) -> bool {
    (includes.len() == 0 || any_selects(includes, address)) && !any_selects(excludes, address)
}

/// Apply a configured lane to affected project addresses.
///
/// Every configured selector must match at least one discovered project. A lane
/// that selects nothing means all affected projects, and exclusions always win.
pub fn select_affected_lane(
    lane_name: &str,
    config: &AffectedWorkspaceConfig,
    affected: &TextSet,
    projects: &Vec<DiscoveredProject>,
) -> (selected: Result<TextSet, LaneError>)
    ensures
        !config.lanes@.contains_key(lane_name@) ==> {
            &&& selected is Err
            &&& selected->Err_0 is Unknown
            &&& selected->Err_0->Unknown_lane@ == lane_name@
            &&& texts(selected->Err_0->known@) == config.lanes.keys()
        },
        config.lanes@.contains_key(lane_name@) ==> {
            let includes = texts(config.lanes@[lane_name@].includes@);
            let excludes = texts(config.lanes@[lane_name@].excludes@);
            let addresses = project_addresses(projects@);
            &&& selected is Ok <==> all_usable(includes, addresses) && all_usable(excludes, addresses)
            &&& selected matches Ok(found) ==> found@ == affected@.filter(
                |address: Seq<char>| in_lane(includes, excludes, address),
            )
            &&& selected matches Err(error) ==> if all_usable(includes, addresses) {
                blames(error, lane_name@, LaneList::Excludes, excludes, addresses)
            } else {
                blames(error, lane_name@, LaneList::Includes, includes, addresses)
            }
        },
{
    let lane = match config.lanes.get(lane_name) {
        Some(lane) => lane,
        None => {
            let mut known: Vec<String> = Vec::new();
            let count = config.lanes.len();
            let mut i: usize = 0;
            while i < count
                invariant
                    i <= count,
                    count == config.lanes.keys().len(),
                    known@.len() == i,
                    forall|k: int| 0 <= k < i ==> (#[trigger] known@[k])@ == config.lanes.keys()[k],
                decreases count - i,
            {
                known.push(config.lanes.key_at(i).clone());
                i += 1;
            }
            assert(texts(known@) =~= config.lanes.keys());
            return Err(LaneError::Unknown { lane: lane_name.to_owned(), known });
        },
    };
    let mut addresses: Vec<String> = Vec::new();
    let mut i: usize = 0;
    while i < projects.len()
        invariant
            i <= projects@.len(),
            addresses@.len() == i,
            forall|k: int| 0 <= k < i ==> (#[trigger] addresses@[k])@ == project_addresses(projects@)[k],
        decreases projects@.len() - i,
    {
        addresses.push(project_address(&projects[i].relative_path));
        i += 1;
    }
    assert(texts(addresses@) =~= project_addresses(projects@));
    let ghost known = project_addresses(projects@);
    let ghost wanted = texts(lane.includes@);
    let ghost unwanted = texts(lane.excludes@);
    let includes = match parse_selectors(&lane.includes, lane_name, LaneList::Includes, &addresses) {
        Ok(selectors) => selectors,
        Err(error) => {
            assert(!all_usable(wanted, known));
            return Err(error);
        },
    };
    let excludes = match parse_selectors(&lane.excludes, lane_name, LaneList::Excludes, &addresses) {
        Ok(selectors) => selectors,
        Err(error) => {
            assert(!all_usable(unwanted, known));
            return Err(error);
        },
    };
    let ghost all = affected.items();
    let count = affected.len();
    let mut selected = TextSet::new();
    let mut j: usize = 0;
    while j < count
        invariant
            j <= count,
            count == affected.items().len(),
            all == affected.items(),
            reads_as(includes@, wanted),
            reads_as(excludes@, unwanted),
            forall|address: Seq<char>| #[trigger]
                selected@.contains(address) <==> exists|k: int|
                    0 <= k < j && #[trigger] all[k] == address && in_lane(wanted, unwanted, address),
        decreases count - j,
    {
        let ghost before = selected@;
        let address = affected.item_at(j);
        let kept = (includes.len() == 0 || some_matches(&includes, address, Ghost(wanted))) && !some_matches(
            &excludes,
            address,
            Ghost(unwanted),
        );
        if kept {
            let _ = selected.insert(address.clone());
        }
        proof {
            assert forall|x: Seq<char>| #[trigger]
                selected@.contains(x) <==> exists|k: int|
                    0 <= k < j + 1 && #[trigger] all[k] == x && in_lane(wanted, unwanted, x) by {
                assert(before.contains(x) <==> exists|k: int|
                    0 <= k < j && #[trigger] all[k] == x && in_lane(wanted, unwanted, x));
                if selected@.contains(x) && !before.contains(x) {
                    assert(all[j as int] == x);
                }
            }
        }
        j += 1;
    }
    proof {
        let kept = affected@.filter(|address: Seq<char>| in_lane(wanted, unwanted, address));
        assert forall|x: Seq<char>| selected@.contains(x) <==> kept.contains(x) by {
            if kept.contains(x) {
                let k = choose|k: int| 0 <= k < all.len() && all[k] == x;
                assert(all[k] == x);
            }
        }
        assert(selected@ =~= kept);
    }
    Ok(selected)
}

/// What a lane leaves out is never in it; what it names is, unless it leaves it out;
/// and a lane that names nothing has all the rest.
pub proof fn lanes_have_what_they_name(includes: Seq<Seq<char>>, excludes: Seq<Seq<char>>, address: Seq<char>, at: int)
    ensures
        0 <= at < excludes.len() && selects(excludes[at], address) ==> !in_lane(includes, excludes, address),
        0 <= at < includes.len() && selects(includes[at], address) && (forall|i: int|
            0 <= i < excludes.len() ==> !selects(#[trigger] excludes[i], address)) ==> in_lane(includes, excludes, address),
        includes.len() > 0 && (forall|i: int| 0 <= i < includes.len() ==> !selects(#[trigger] includes[i], address))
            ==> !in_lane(includes, excludes, address),
        includes.len() == 0 && excludes.len() == 0 ==> in_lane(includes, excludes, address),
{
}

/// A selector that matches no project cannot be used, and neither can a string that is
/// none.
pub proof fn usable_selectors_match(selector: Seq<char>, addresses: Seq<Seq<char>>, at: int)
    ensures
        !is_selector(selector) ==> !usable(selector, addresses),
        is_selector(selector) && 0 <= at < addresses.len() && selects(selector, addresses[at]) ==> usable(
            selector,
            addresses,
        ),
        (forall|i: int| 0 <= i < addresses.len() ==> !selects(selector, #[trigger] addresses[i])) ==> !usable(
            selector,
            addresses,
        ),
{
}

} // verus!

//! Sets of strings and maps keyed by strings, kept in ascending order.
use vstd::prelude::*;
use crate::text::{same_text, text_less, text_lt, text_lt_asymmetric, text_lt_total, text_lt_transitive, texts};

verus! {

/// Each string comes before the next in the lexicographic order.
pub open spec fn ascending(items: Seq<Seq<char>>) -> bool {
    forall|i: int, j: int| 0 <= i < j < items.len() ==> text_lt(#[trigger] items[i], #[trigger] items[j])
}

/// Strings in ascending order are all different.
pub proof fn ascending_distinct(items: Seq<Seq<char>>)
    requires
        ascending(items),
    ensures
        items.no_duplicates(),
{
    assert forall|i: int, j: int| 0 <= i < items.len() && 0 <= j < items.len() && i != j implies items[i]
        != items[j] by {
        if i < j {
            text_lt_asymmetric(items[i], items[j]);
        } else {
            text_lt_asymmetric(items[j], items[i]);
        }
    }
}

proof fn ascending_insert(items: Seq<Seq<char>>, at: int, item: Seq<char>)
    requires
        ascending(items),
        0 <= at <= items.len(),
        forall|j: int| 0 <= j < at ==> text_lt(items[j], item),
        at < items.len() ==> text_lt(item, items[at]),
    ensures
        ascending(items.insert(at, item)),
{
    let result = items.insert(at, item);
    assert forall|i: int, j: int| 0 <= i < j < result.len() implies text_lt(#[trigger] result[i], #[trigger] result[j]) by {
        if i < at {
            assert(result[i] == items[i]);
            if j == at {
            } else if j < at {
                assert(result[j] == items[j]);
            } else {
                assert(result[j] == items[j - 1]);
            }
        } else {
            assert(result[j] == items[j - 1]);
            if i == at {
                if j - 1 > at {
                    text_lt_transitive(item, items[at], items[j - 1]);
                }
            } else {
                assert(result[i] == items[i - 1]);
            }
        }
    }
}

/// A set of strings.
#[derive(Debug, PartialEq)]
pub struct TextSet {
    items: Vec<String>,
}

impl View for TextSet {
    type V = Set<Seq<char>>;

    open spec fn view(&self) -> Set<Seq<char>> {
        self.items().to_set()
    }
}

impl TextSet {
    /// The members in ascending order.
    pub closed spec fn items(&self) -> Seq<Seq<char>> {
        texts(self.items@)
    }

    #[verifier::type_invariant]
    spec fn ordered(&self) -> bool {
        ascending(texts(self.items@))
    }

    /// The empty set.
    pub fn new() -> (set: TextSet)
        ensures
            set@ == Set::<Seq<char>>::empty(),
            set.items() == Seq::<Seq<char>>::empty(),
    {
        let set = TextSet { items: Vec::new() };
        assert(set.items() =~= Seq::<Seq<char>>::empty());
        assert(set@ =~= Set::<Seq<char>>::empty());
        set
    }

    /// The number of members.
    pub fn len(&self) -> (count: usize)
        ensures
            count == self@.len(),
            count == self.items().len(),
            self@.finite(),
            ascending(self.items()),
    {
        proof {
            use_type_invariant(self);
            ascending_distinct(self.items());
            self.items().unique_seq_to_set();
        }
        self.items.len()
    }

    /// Whether the set has no member.
    pub fn is_empty(&self) -> (empty: bool)
        ensures
            empty == (self@ == Set::<Seq<char>>::empty()),
            empty == (self.items().len() == 0),
    {
        let empty = self.items.len() == 0;
        proof {
            if empty {
                assert(self@ =~= Set::<Seq<char>>::empty());
            } else {
                assert(self.items()[0] == self.items()[0]);
                assert(self@.contains(self.items()[0]));
            }
        }
        empty
    }

    /// The member at a place in ascending order.
    pub fn item_at(&self, at: usize) -> (item: &String)
        requires
            at < self.items().len(),
        ensures
            item@ == self.items()[at as int],
            self@.contains(item@),
    {
        proof {
            assert(self.items()[at as int] == self.items@[at as int]@);
        }
        &self.items[at]
    }

    fn position(&self, item: &str) -> (at: usize)
        ensures
            at <= self.items@.len(),
            forall|j: int| 0 <= j < at ==> text_lt(self.items()[j], item@),
            at < self.items@.len() ==> !text_lt(self.items()[at as int], item@),
            ascending(self.items()),
    {
        proof {
            use_type_invariant(self);
        }
        let mut at: usize = 0;
        while at < self.items.len() && text_less(&self.items[at], item)
            invariant
                at <= self.items@.len(),
                forall|j: int| 0 <= j < at ==> text_lt(self.items()[j], item@),
            decreases self.items@.len() - at,
        {
            at += 1;
        }
        at
    }

    /// Whether `item` is a member.
    pub fn contains(&self, item: &str) -> (found: bool)
        ensures
            found == self@.contains(item@),
    {
        let at = self.position(item);
        let found = at < self.items.len() && same_text(&self.items[at], item);
        proof {
            if found {
                assert(self.items()[at as int] == item@);
            } else if self.items().contains(item@) {
                let j = choose|j: int| 0 <= j < self.items().len() && self.items()[j] == item@;
                if j < at {
                    text_lt_asymmetric(self.items()[j], item@);
                } else if j > at {
                    assert(text_lt(self.items()[at as int], self.items()[j]));
                }
            }
        }
        found
    }

    /// Adds a member; says whether it is new.
    pub fn insert(&mut self, item: String) -> (added: bool)
        ensures
            final(self)@ == old(self)@.insert(item@),
            added == !old(self)@.contains(item@),
    {
        if self.contains(&item) {
            assert(self@ =~= self@.insert(item@));
            return false;
        }
        let at = self.position(&item);
        let ghost old_items = self.items();
        proof {
            use_type_invariant(&*self);
        }
        let mut items: Vec<String> = Vec::new();
        std::mem::swap(&mut items, &mut self.items);
        proof {
            if at < old_items.len() {
                text_lt_total(old_items[at as int], item@);
                assert(old_items.contains(old_items[at as int]));
            }
            ascending_insert(old_items, at as int, item@);
        }
        let ghost text = item@;
        items.insert(at, item);
        assert(texts(items@) =~= old_items.insert(at as int, text));
        self.items = items;
        assert(self@ =~= old(self)@.insert(text)) by {
            let result = old_items.insert(at as int, text);
            assert forall|x: Seq<char>| result.contains(x) <==> (old_items.contains(x) || x == text) by {
                if result.contains(x) {
                    let j = choose|j: int| 0 <= j < result.len() && result[j] == x;
                    if j < at {
                        assert(old_items[j] == x);
                    } else if j > at {
                        assert(old_items[j - 1] == x);
                    }
                }
                if old_items.contains(x) {
                    let j = choose|j: int| 0 <= j < old_items.len() && old_items[j] == x;
                    if j < at {
                        assert(result[j] == x);
                    } else {
                        assert(result[j + 1] == x);
                    }
                }
                if x == text {
                    assert(result[at as int] == x);
                }
            }
        }
        true
    }

    /// Takes `item` out of the set; says whether it was a member.
    pub fn remove(&mut self, item: &str) -> (removed: bool)
        ensures
            final(self)@ == old(self)@.remove(item@),
            removed == old(self)@.contains(item@),
    {
        let at = self.position(item);
        let ghost before = self.items();
        proof {
            use_type_invariant(&*self);
            ascending_distinct(before);
        }
        let found = at < self.items.len() && same_text(&self.items[at], item);
        if !found {
            proof {
                if before.contains(item@) {
                    let j = choose|j: int| 0 <= j < before.len() && before[j] == item@;
                    if j < at {
                        text_lt_asymmetric(before[j], item@);
                    } else if j > at {
                        assert(text_lt(before[at as int], before[j]));
                    }
                }
                assert(self@ =~= self@.remove(item@));
            }
            return false;
        }
        let mut items: Vec<String> = Vec::new();
        std::mem::swap(&mut items, &mut self.items);
        items.remove(at);
        let ghost result = before.remove(at as int);
        proof {
            assert(before[at as int] == item@);
            assert(texts(items@) =~= result);
            assert forall|i: int, j: int| 0 <= i < j < result.len() implies text_lt(
                #[trigger] result[i],
                #[trigger] result[j],
            ) by {
                let a = if i < at { i } else { i + 1 };
                let b = if j < at { j } else { j + 1 };
                assert(result[i] == before[a]);
                assert(result[j] == before[b]);
            }
        }
        self.items = items;
        assert(self@ =~= old(self)@.remove(item@)) by {
            assert forall|x: Seq<char>| result.contains(x) <==> (before.contains(x) && x != item@) by {
                if result.contains(x) {
                    let j = choose|j: int| 0 <= j < result.len() && result[j] == x;
                    let b = if j < at { j } else { j + 1 };
                    assert(before[b] == x);
                }
                if before.contains(x) && x != item@ {
                    let j = choose|j: int| 0 <= j < before.len() && before[j] == x;
                    let b = if j < at { j } else { j - 1 };
                    assert(result[b] == x);
                }
            }
        }
        true
    }

    /// The members in ascending order, as a list.
    pub fn to_vec(&self) -> (list: Vec<String>)
        ensures
            texts(list@) == self.items(),
            ascending(texts(list@)),
            texts(list@).to_set() == self@,
    {
        proof {
            use_type_invariant(self);
        }
        self.items.clone()
    }
}

impl Clone for TextSet {
    fn clone(&self) -> (set: TextSet)
        ensures
            set@ == self@,
            set.items() == self.items(),
    {
        proof {
            use_type_invariant(self);
        }
        TextSet { items: self.items.clone() }
    }
}

/// The set of the strings of a list.
pub fn set_of(list: &Vec<String>) -> (set: TextSet)
    ensures
        set@ == texts(list@).to_set(),
{
    let mut set = TextSet::new();
    let mut i: usize = 0;
    assert(texts(list@).take(0).to_set() =~= Set::<Seq<char>>::empty());
    while i < list.len()
        invariant
            i <= list@.len(),
            set@ == texts(list@).take(i as int).to_set(),
        decreases list@.len() - i,
    {
        let ghost front = texts(list@).take(i as int);
        set.insert(list[i].clone());
        assert(texts(list@).take(i + 1) =~= front.push(list@[i as int]@));
        assert(front.push(list@[i as int]@).to_set() =~= front.to_set().insert(list@[i as int]@)) by {
            assert forall|x: Seq<char>| front.push(list@[i as int]@).contains(x) <==> (front.contains(x) || x
                == list@[i as int]@) by {
                if front.contains(x) {
                    let j = choose|j: int| 0 <= j < front.len() && front[j] == x;
                    assert(front.push(list@[i as int]@)[j] == x);
                }
                assert(front.push(list@[i as int]@)[front.len() as int] == list@[i as int]@);
            }
        }
        i += 1;
    }
    assert(texts(list@).take(list@.len() as int) =~= texts(list@));
    set
}

/// No string of the list comes before an earlier one.
pub open spec fn sorted(items: Seq<Seq<char>>) -> bool {
    forall|i: int, j: int| 0 <= i < j < items.len() ==> !text_lt(#[trigger] items[j], #[trigger] items[i])
}

/// The first string does not come after the second.
pub open spec fn text_le() -> spec_fn(Seq<char>, Seq<char>) -> bool {
    |a: Seq<char>, b: Seq<char>| !text_lt(b, a)
}

/// The strings of a list in order, each as often as before.
pub open spec fn in_order(items: Seq<Seq<char>>) -> Seq<Seq<char>> {
    items.sort_by(text_le())
}

proof fn text_le_total()
    ensures
        vstd::relations::total_ordering(text_le()),
{
    let le = text_le();
    assert forall|a: Seq<char>| #[trigger] le(a, a) by {
        if text_lt(a, a) {
            text_lt_asymmetric(a, a);
        }
    }
    assert forall|a: Seq<char>, b: Seq<char>| #[trigger] le(a, b) && #[trigger] le(b, a) implies a == b by {
        text_lt_total(a, b);
    }
    assert forall|a: Seq<char>, b: Seq<char>, c: Seq<char>| #[trigger] le(a, b) && #[trigger] le(b, c) implies le(
        a,
        c,
    ) by {
        if text_lt(c, a) {
            text_lt_total(a, b);
            if a != b {
                text_lt_transitive(c, a, b);
            }
        }
    }
    assert forall|a: Seq<char>, b: Seq<char>| #[trigger] le(a, b) || #[trigger] le(b, a) by {
        if text_lt(b, a) && text_lt(a, b) {
            text_lt_asymmetric(a, b);
        }
    }
}

/// Putting strings in order keeps each as often as before, and puts none before
/// a smaller one.
pub proof fn in_order_keeps(items: Seq<Seq<char>>)
    ensures
        in_order(items).to_multiset() == items.to_multiset(),
        sorted(in_order(items)),
{
    text_le_total();
    items.lemma_sort_by_ensures(text_le());
    let le = text_le();
    let result = in_order(items);
    assert forall|i: int, j: int| 0 <= i < j < result.len() implies !text_lt(
        #[trigger] result[j],
        #[trigger] result[i],
    ) by {
        assert(le(result[i], result[j]));
    }
}

/// There is one way to put strings in order.
pub proof fn sorted_is_in_order(items: Seq<Seq<char>>, result: Seq<Seq<char>>)
    requires
        sorted(result),
        result.to_multiset() == items.to_multiset(),
    ensures
        result == in_order(items),
{
    text_le_total();
    items.lemma_sort_by_ensures(text_le());
    let le = text_le();
    assert(vstd::relations::sorted_by(result, le)) by {
        assert forall|i: int, j: int| 0 <= i < j < result.len() implies #[trigger] le(result[i], result[j]) by {
            assert(!text_lt(result[j], result[i]));
        }
    }
    vstd::seq_lib::lemma_sorted_unique(result, in_order(items), text_le());
}

/// The order in which strings are listed does not matter once they are put in order.
pub proof fn in_order_ignores_order(one: Seq<Seq<char>>, other: Seq<Seq<char>>)
    requires
        one.to_multiset() == other.to_multiset(),
    ensures
        in_order(one) == in_order(other),
{
    text_le_total();
    one.lemma_sort_by_ensures(text_le());
    other.lemma_sort_by_ensures(text_le());
    vstd::seq_lib::lemma_sorted_unique(in_order(one), in_order(other), text_le());
}

/// The members of a set in ascending order.
pub open spec fn listed(set: Set<Seq<char>>) -> Seq<Seq<char>> {
    choose|items: Seq<Seq<char>>| ascending(items) && items.to_set() == set
}

/// There is one way to list a set in ascending order.
pub proof fn ascending_is_listed(items: Seq<Seq<char>>)
    requires
        ascending(items),
    ensures
        listed(items.to_set()) == items,
{
    let other = listed(items.to_set());
    assert(ascending(other) && other.to_set() == items.to_set());
    ascending_unique(items, other);
}

proof fn members_once(set: Set<Seq<char>>)
    requires
        set.finite(),
    ensures
        set.to_seq().no_duplicates(),
    decreases set.len(),
{
    if set.len() > 0 {
        let first = set.choose();
        let rest = set.remove(first);
        members_once(rest);
        rest.lemma_to_seq_to_set_id();
        let items = set.to_seq();
        assert(items == Seq::<Seq<char>>::empty().push(first) + rest.to_seq());
        assert forall|i: int, j: int| 0 <= i < items.len() && 0 <= j < items.len() && i != j implies items[i]
            != items[j] by {
            if i > 0 {
                assert(items[i] == rest.to_seq()[i - 1]);
                assert(rest.to_seq().to_set().contains(items[i]));
            }
            if j > 0 {
                assert(items[j] == rest.to_seq()[j - 1]);
                assert(rest.to_seq().to_set().contains(items[j]));
            }
        }
    }
}

/// The members of every finite set can be listed.
pub proof fn finite_sets_are_listed(set: Set<Seq<char>>)
    requires
        set.finite(),
    ensures
        ascending(listed(set)),
        listed(set).to_set() == set,
{
    let members = set.to_seq();
    let items = in_order(members);
    members_once(set);
    set.lemma_to_seq_to_set_id();
    text_le_total();
    members.lemma_sort_by_ensures(text_le());
    members.lemma_multiset_has_no_duplicates();
    items.lemma_multiset_has_no_duplicates_conv();
    members.to_multiset_ensures();
    items.to_multiset_ensures();
    let le = text_le();
    assert forall|i: int, j: int| 0 <= i < j < items.len() implies text_lt(#[trigger] items[i], #[trigger] items[j]) by {
        assert(le(items[i], items[j]));
        assert(items[i] != items[j]);
        text_lt_total(items[i], items[j]);
    }
    assert(items.to_set() =~= set) by {
        assert forall|item: Seq<char>| items.to_set().contains(item) <==> set.contains(item) by {
            assert(items.contains(item) <==> items.to_multiset().count(item) > 0);
            assert(members.contains(item) <==> members.to_multiset().count(item) > 0);
            assert(members.to_set().contains(item) <==> set.contains(item));
        }
    }
}

proof fn ascending_unique(one: Seq<Seq<char>>, other: Seq<Seq<char>>)
    requires
        ascending(one),
        ascending(other),
        one.to_set() == other.to_set(),
    ensures
        one == other,
    decreases one.len(),
{
    if one.len() == 0 {
        if other.len() > 0 {
            assert(other.to_set().contains(other[0]));
            assert(one.contains(other[0]));
        }
        assert(one =~= other);
    } else {
        assert(one.to_set().contains(one.last()));
        assert(other.contains(one.last()));
        let i = choose|i: int| 0 <= i < other.len() && other[i] == one.last();
        assert(other.to_set().contains(other.last()));
        assert(one.contains(other.last()));
        let j = choose|j: int| 0 <= j < one.len() && one[j] == other.last();
        if one.last() != other.last() {
            assert(text_lt(other[i], other.last()));
            assert(text_lt(one[j], one.last()));
            text_lt_asymmetric(one.last(), other.last());
        }
        let fewer = one.drop_last();
        let rest = other.drop_last();
        ascending_distinct(one);
        ascending_distinct(other);
        assert forall|item: Seq<char>| fewer.to_set().contains(item) <==> rest.to_set().contains(item) by {
            if fewer.contains(item) {
                let k = choose|k: int| 0 <= k < fewer.len() && fewer[k] == item;
                assert(one[k] == item);
                assert(one.to_set().contains(item));
                assert(other.contains(item));
                let m = choose|m: int| 0 <= m < other.len() && other[m] == item;
                assert(m < other.len() - 1);
                assert(rest[m] == item);
            }
            if rest.contains(item) {
                let k = choose|k: int| 0 <= k < rest.len() && rest[k] == item;
                assert(other[k] == item);
                assert(other.to_set().contains(item));
                assert(one.contains(item));
                let m = choose|m: int| 0 <= m < one.len() && one[m] == item;
                assert(m < one.len() - 1);
                assert(fewer[m] == item);
            }
        }
        assert(fewer.to_set() =~= rest.to_set());
        ascending_unique(fewer, rest);
        assert(one =~= fewer.push(one.last()));
        assert(other =~= rest.push(other.last()));
    }
}

/// The strings of a list in order, each as often as before.
pub fn sort_texts(list: &Vec<String>) -> (result: Vec<String>)
    ensures
        texts(result@) == in_order(texts(list@)),
        sorted(texts(result@)),
        texts(result@).to_multiset() == texts(list@).to_multiset(),
{
    let mut result: Vec<String> = Vec::new();
    let mut i: usize = 0;
    assert(texts(result@) =~= texts(list@).take(0));
    while i < list.len()
        invariant
            i <= list@.len(),
            sorted(texts(result@)),
            texts(result@).to_multiset() == texts(list@).take(i as int).to_multiset(),
        decreases list@.len() - i,
    {
        let ghost before = texts(result@);
        let ghost item = list@[i as int]@;
        let mut at: usize = 0;
        while at < result.len() && !text_less(&list[i], &result[at])
            invariant
                at <= result@.len(),
                i < list@.len(),
                before == texts(result@),
                item == list@[i as int]@,
                forall|k: int| 0 <= k < at ==> !text_lt(item, #[trigger] before[k]),
            decreases result@.len() - at,
        {
            assert(before[at as int] == result@[at as int]@);
            at += 1;
        }
        result.insert(at, list[i].clone());
        proof {
            let now = texts(result@);
            assert(now =~= before.insert(at as int, item));
            if at < before.len() {
                assert(before[at as int] == result@[at + 1]@);
                assert(text_lt(item, before[at as int]));
            }
            assert forall|a: int, b: int| 0 <= a < b < now.len() implies !text_lt(#[trigger] now[b], #[trigger] now[a]) by {
                if b < at {
                    assert(now[a] == before[a] && now[b] == before[b]);
                } else if b == at {
                    assert(now[a] == before[a]);
                } else {
                    assert(now[b] == before[b - 1]);
                    if a < at {
                        assert(now[a] == before[a]);
                    } else if a > at {
                        assert(now[a] == before[a - 1]);
                    } else if text_lt(before[b - 1], item) {
                        text_lt_transitive(before[b - 1], item, before[at as int]);
                        if b - 1 == at {
                            text_lt_asymmetric(before[b - 1], before[at as int]);
                        }
                    }
                }
            }
            before.to_multiset_ensures();
            vstd::seq_lib::to_multiset_insert(before, at as int, item);
            let front = texts(list@).take(i as int);
            assert(texts(list@).take(i + 1) =~= front.push(item));
            front.to_multiset_ensures();
            assert(front.push(item).to_multiset() =~= front.to_multiset().insert(item));
        }
        i += 1;
    }
    assert(texts(list@).take(list@.len() as int) =~= texts(list@));
    proof {
        sorted_is_in_order(texts(list@), texts(result@));
    }
    result
}

/// A map from strings to values.
#[derive(Debug, PartialEq)]
pub struct TextMap<V> {
    keys: Vec<String>,
    values: Vec<V>,
}

impl<V> View for TextMap<V> {
    type V = Map<Seq<char>, V>;

    open spec fn view(&self) -> Map<Seq<char>, V> {
        Map::new(
            |key: Seq<char>| self.keys().contains(key),
            |key: Seq<char>| self.values()[self.keys().index_of(key)],
        )
    }
}

impl<V> TextMap<V> {
    /// The keys in ascending order.
    pub closed spec fn keys(&self) -> Seq<Seq<char>> {
        texts(self.keys@)
    }

    /// The values in the order of their keys.
    pub closed spec fn values(&self) -> Seq<V> {
        self.values@
    }

    #[verifier::type_invariant]
    spec fn ordered(&self) -> bool {
        &&& ascending(texts(self.keys@))
        &&& self.keys@.len() == self.values@.len()
    }

    /// The empty map.
    pub fn new() -> (map: TextMap<V>)
        ensures
            map@ == Map::<Seq<char>, V>::empty(),
            map.keys() == Seq::<Seq<char>>::empty(),
    {
        let map = TextMap { keys: Vec::new(), values: Vec::new() };
        assert(map.keys() =~= Seq::<Seq<char>>::empty());
        assert(map@ =~= Map::<Seq<char>, V>::empty());
        map
    }

    /// The number of keys.
    pub fn len(&self) -> (count: usize)
        ensures
            count == self.keys().len(),
            count == self@.dom().len(),
            self@.dom().finite(),
            ascending(self.keys()),
            self@.dom() == self.keys().to_set(),
    {
        proof {
            use_type_invariant(self);
            ascending_distinct(self.keys());
            self.keys().unique_seq_to_set();
            assert(self@.dom() =~= self.keys().to_set());
        }
        self.keys.len()
    }

    /// Whether the map has no key.
    pub fn is_empty(&self) -> (empty: bool)
        ensures
            empty == (self.keys().len() == 0),
            empty == (self@ == Map::<Seq<char>, V>::empty()),
    {
        let empty = self.keys.len() == 0;
        proof {
            if empty {
                assert(self@ =~= Map::<Seq<char>, V>::empty());
            } else {
                assert(self.keys()[0] == self.keys()[0]);
                assert(self@.contains_key(self.keys()[0]));
            }
        }
        empty
    }

    /// The key at a place in ascending order.
    pub fn key_at(&self, at: usize) -> (key: &String)
        requires
            at < self.keys().len(),
        ensures
            key@ == self.keys()[at as int],
            self@.contains_key(key@),
    {
        assert(self.keys()[at as int] == self.keys@[at as int]@);
        &self.keys[at]
    }

    /// The value of the key at a place in ascending order.
    pub fn value_at(&self, at: usize) -> (value: &V)
        requires
            at < self.keys().len(),
        ensures
            *value == self@[self.keys()[at as int]],
            *value == self.values()[at as int],
    {
        proof {
            use_type_invariant(self);
            ascending_distinct(self.keys());
            assert(self.keys().contains(self.keys()[at as int]));
        }
        &self.values[at]
    }

    fn position(&self, key: &str) -> (at: usize)
        ensures
            at <= self.keys@.len(),
            self.keys@.len() == self.values@.len(),
            forall|j: int| 0 <= j < at ==> text_lt(self.keys()[j], key@),
            at < self.keys@.len() ==> !text_lt(self.keys()[at as int], key@),
            ascending(self.keys()),
    {
        proof {
            use_type_invariant(self);
        }
        let mut at: usize = 0;
        while at < self.keys.len() && text_less(&self.keys[at], key)
            invariant
                at <= self.keys@.len(),
                forall|j: int| 0 <= j < at ==> text_lt(self.keys()[j], key@),
            decreases self.keys@.len() - at,
        {
            at += 1;
        }
        at
    }

    fn find(&self, key: &str) -> (found: Option<usize>)
        ensures
            found is Some <==> self@.contains_key(key@),
            self.keys@.len() == self.values@.len(),
            ascending(self.keys()),
            found matches Some(at) ==> at < self.keys@.len() && self.keys()[at as int] == key@
                && self@[key@] == self.values@[at as int],
    {
        let at = self.position(key);
        let found = at < self.keys.len() && same_text(&self.keys[at], key);
        proof {
            ascending_distinct(self.keys());
            if found {
                assert(self.keys()[at as int] == key@);
            } else if self.keys().contains(key@) {
                let j = choose|j: int| 0 <= j < self.keys().len() && self.keys()[j] == key@;
                if j < at {
                    text_lt_asymmetric(self.keys()[j], key@);
                } else if j > at {
                    assert(text_lt(self.keys()[at as int], self.keys()[j]));
                }
            }
        }
        if found {
            Some(at)
        } else {
            None
        }
    }

    /// Whether `key` has a value.
    pub fn contains_key(&self, key: &str) -> (found: bool)
        ensures
            found == self@.contains_key(key@),
    {
        self.find(key).is_some()
    }

    /// The value of `key`.
    pub fn get(&self, key: &str) -> (value: Option<&V>)
        ensures
            value is Some <==> self@.contains_key(key@),
            value matches Some(v) ==> *v == self@[key@],
    {
        match self.find(key) {
            Some(at) => Some(&self.values[at]),
            None => None,
        }
    }

    /// Gives `key` a value, in place of the one it may have.
    pub fn insert(&mut self, key: String, value: V)
        ensures
            final(self)@ == old(self)@.insert(key@, value),
    {
        proof {
            use_type_invariant(&*self);
            ascending_distinct(self.keys());
        }
        let ghost old_keys = self.keys();
        let ghost old_values = self.values();
        let found = self.find(&key);
        let at = self.position(&key);
        let mut taken = TextMap { keys: Vec::new(), values: Vec::new() };
        std::mem::swap(&mut taken, self);
        let TextMap { keys: mut keys, values: mut values } = taken;
        let ghost text = key@;
        match found {
            Some(at) => {
                values.set(at, value);
                *self = TextMap { keys, values };
                proof {
                    assert(self.keys() == old_keys);
                    assert(self@ =~= old(self)@.insert(text, value));
                }
            },
            None => {
                proof {
                    if at < old_keys.len() {
                        text_lt_total(old_keys[at as int], text);
                        assert(old_keys.contains(old_keys[at as int]));
                    }
                    ascending_insert(old_keys, at as int, text);
                }
                keys.insert(at, key);
                values.insert(at, value);
                assert(texts(keys@) =~= old_keys.insert(at as int, text));
                *self = TextMap { keys, values };
                proof {
                    let result = old_keys.insert(at as int, text);
                    ascending_distinct(result);
                    assert(result[at as int] == text);
                    assert(result.contains(text));
                    assert(result.index_of(text) == at);
                    let before = old(self)@;
                    let after = self@;
                    assert forall|x: Seq<char>| x != text implies (#[trigger] after.contains_key(x)
                        == before.contains_key(x)) && (after.contains_key(x) ==> after[x] == before[x]) by {
                        if result.contains(x) {
                            let j = choose|j: int| 0 <= j < result.len() && result[j] == x;
                            if j < at {
                                assert(old_keys[j] == x);
                            } else {
                                assert(old_keys[j - 1] == x);
                            }
                        }
                        if old_keys.contains(x) {
                            let j = choose|j: int| 0 <= j < old_keys.len() && old_keys[j] == x;
                            assert(old_keys.index_of(x) == j);
                            if j < at {
                                assert(result[j] == x);
                                assert(result.index_of(x) == j);
                            } else {
                                assert(result[j + 1] == x);
                                assert(result.index_of(x) == j + 1);
                            }
                        }
                    }
                    assert(after.dom() =~= before.insert(text, value).dom());
                    assert(after =~= before.insert(text, value));
                }
            },
        }
    }

    /// Takes the value of `key` out.
    pub fn remove(&mut self, key: &str) -> (value: Option<V>)
        ensures
            final(self)@ == old(self)@.remove(key@),
            value is Some <==> old(self)@.contains_key(key@),
            value matches Some(v) ==> v == old(self)@[key@],
    {
        proof {
            use_type_invariant(&*self);
            ascending_distinct(self.keys());
        }
        let ghost old_keys = self.keys();
        match self.find(key) {
            None => {
                assert(self@ =~= self@.remove(key@));
                None
            },
            Some(at) => {
                let mut taken = TextMap { keys: Vec::new(), values: Vec::new() };
                std::mem::swap(&mut taken, self);
                let TextMap { keys: mut keys, values: mut values } = taken;
                keys.remove(at);
                let value = values.remove(at);
                let ghost result = old_keys.remove(at as int);
                assert(texts(keys@) =~= result);
                assert forall|i: int, j: int| 0 <= i < j < result.len() implies text_lt(
                    #[trigger] result[i],
                    #[trigger] result[j],
                ) by {
                    let a = if i < at { i } else { i + 1 };
                    let b = if j < at { j } else { j + 1 };
                    assert(result[i] == old_keys[a]);
                    assert(result[j] == old_keys[b]);
                }
                *self = TextMap { keys, values };
                proof {
                    ascending_distinct(result);
                    let before = old(self)@;
                    let after = self@;
                    assert forall|x: Seq<char>| (#[trigger] after.contains_key(x) == (before.contains_key(x) && x
                        != key@)) && (after.contains_key(x) ==> after[x] == before[x]) by {
                        if result.contains(x) {
                            let j = choose|j: int| 0 <= j < result.len() && result[j] == x;
                            let b = if j < at { j } else { j + 1 };
                            assert(old_keys[b] == x);
                            assert(result.index_of(x) == j);
                            assert(old_keys.index_of(x) == b);
                        }
                        if old_keys.contains(x) && x != key@ {
                            let j = choose|j: int| 0 <= j < old_keys.len() && old_keys[j] == x;
                            let b = if j < at { j } else { j - 1 };
                            assert(result[b] == x);
                        }
                    }
                    assert(after.dom() =~= before.remove(key@).dom());
                    assert(after =~= before.remove(key@));
                }
                Some(value)
            },
        }
    }
}

impl Clone for TextMap<String> {
    fn clone(&self) -> (map: TextMap<String>)
        ensures
            map@ == self@,
            map.keys() == self.keys(),
    {
        proof {
            use_type_invariant(self);
        }
        let keys = self.keys.clone();
        let values = self.values.clone();
        assert(texts(keys@) =~= texts(self.keys@));
        assert(values@ =~= self.values@);
        TextMap { keys, values }
    }
}

/// The values of a map as strings of characters.
pub open spec fn value_texts(map: Map<Seq<char>, String>) -> Map<Seq<char>, Seq<char>> {
    Map::new(|key: Seq<char>| map.dom().contains(key), |key: Seq<char>| map[key]@)
}

} // verus!

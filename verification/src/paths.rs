//! Slash-separated paths.
use vstd::prelude::*;
use crate::text::{
    chars_of, concat2, concat3, join_texts, joined, same_text, split_in_turn, split_of_one_part, split_on,
    split_on_nonempty, split_text, texts,
};

verus! {

/// `path` begins with a slash.
pub open spec fn is_absolute(path: Seq<char>) -> bool {
    path.len() > 0 && path[0] == '/'
}

/// `path` seen from the directory `base`: an absolute path replaces the base.
pub open spec fn path_join(base: Seq<char>, path: Seq<char>) -> Seq<char> {
    if is_absolute(path) || base.len() == 0 {
        path
    } else if base.last() == '/' {
        base + path
    } else {
        base + "/"@ + path
    }
}

/// `path` seen from the directory `base`: an absolute path replaces the base.
pub fn join_path(base: &str, path: &str) -> (result: String)
    ensures
        result@ == path_join(base@, path@),
{
    let base_chars = chars_of(base);
    let path_chars = chars_of(path);
    if path_chars.len() > 0 && path_chars[0] == '/' {
        path.to_owned()
    } else if base_chars.len() == 0 {
        path.to_owned()
    } else if base_chars[base_chars.len() - 1] == '/' {
        concat2(base, path)
    } else {
        concat3(base, "/", path)
    }
}

/// A part between slashes that names the directory it stands in.
pub open spec fn is_current(part: Seq<char>) -> bool {
    part.len() == 0 || part == "."@
}

/// The parts of a path with `..` taken as leaving the directory before it; at
/// the top `..` leaves nothing.
pub open spec fn resolved_parts(parts: Seq<Seq<char>>) -> Seq<Seq<char>>
    decreases parts.len(),
{
    if parts.len() == 0 {
        Seq::empty()
    } else {
        let front = resolved_parts(parts.drop_last());
        if is_current(parts.last()) {
            front
        } else if parts.last() == ".."@ {
            if front.len() == 0 {
                front
            } else {
                front.drop_last()
            }
        } else {
            front.push(parts.last())
        }
    }
}

/// The path without a root, `.` and `..`.
pub open spec fn normalized(path: Seq<char>) -> Seq<char> {
    joined(resolved_parts(split_on(path, '/')), "/"@)
}

/// Normalize a path by resolving .. components
pub fn normalize_path(path: &str) -> (result: String)
    ensures
        result@ == normalized(path@),
{
    let parts = split_text(path, '/');
    let mut kept: Vec<String> = Vec::new();
    let mut i: usize = 0;
    assert(texts(parts@).take(0) =~= Seq::<Seq<char>>::empty());
    assert(texts(kept@) =~= Seq::<Seq<char>>::empty());
    while i < parts.len()
        invariant
            i <= parts@.len(),
            texts(kept@) == resolved_parts(texts(parts@).take(i as int)),
        decreases parts@.len() - i,
    {
        let ghost before = texts(kept@);
        assert(texts(parts@).take(i + 1).drop_last() =~= texts(parts@).take(i as int));
        assert(texts(parts@).take(i + 1).last() == parts@[i as int]@);
        let part = parts[i].as_str();
        if part.is_empty() || same_text(part, ".") {
        } else if same_text(part, "..") {
            if kept.len() > 0 {
                kept.pop();
                assert(texts(kept@) =~= before.drop_last());
            }
        } else {
            kept.push(part.to_owned());
            assert(texts(kept@) =~= before.push(part@));
        }
        i += 1;
    }
    assert(texts(parts@).take(parts@.len() as int) =~= texts(parts@));
    join_texts(&kept, "/")
}

/// The parts of a path that name directories and files, and a `.` only where
/// the path begins with it.
pub open spec fn path_parts(path: Seq<char>) -> Seq<Seq<char>> {
    let named = split_on(path, '/').filter(|part: Seq<char>| !is_current(part));
    if split_on(path, '/')[0] == "."@ {
        seq!["."@] + named
    } else {
        named
    }
}

/// The parts of a path that name directories and files, and a `.` only where
/// the path begins with it.
pub fn parts_of(path: &str) -> (parts: Vec<String>)
    ensures
        texts(parts@) == path_parts(path@),
{
    let pieces = split_text(path, '/');
    let mut parts: Vec<String> = Vec::new();
    let ghost keep = |part: Seq<char>| !is_current(part);
    proof {
        split_on_nonempty(path@, '/');
        assert(texts(pieces@)[0] == pieces@[0]@);
    }
    if same_text(&pieces[0], ".") {
        parts.push(".".to_owned());
        assert(texts(parts@) =~= seq!["."@]);
    }
    let ghost head = texts(parts@);
    let mut i: usize = 0;
    assert(texts(pieces@).take(0) =~= Seq::<Seq<char>>::empty());
    proof {
        reveal(Seq::filter);
        assert(head + Seq::<Seq<char>>::empty() =~= head);
    }
    while i < pieces.len()
        invariant
            i <= pieces@.len(),
            keep == (|part: Seq<char>| !is_current(part)),
            texts(parts@) == head + texts(pieces@).take(i as int).filter(keep),
        decreases pieces@.len() - i,
    {
        let ghost before = texts(parts@);
        proof {
            reveal(Seq::filter);
            assert(texts(pieces@).take(i + 1).drop_last() =~= texts(pieces@).take(i as int));
            assert(texts(pieces@).take(i + 1).last() == pieces@[i as int]@);
        }
        let piece = pieces[i].as_str();
        if !(piece.is_empty() || same_text(piece, ".")) {
            parts.push(piece.to_owned());
            assert(texts(parts@) =~= before.push(piece@));
            assert(before.push(piece@) =~= head + texts(pieces@).take(i as int).filter(keep).push(piece@));
        }
        i += 1;
    }
    assert(texts(pieces@).take(pieces@.len() as int) =~= texts(pieces@));
    assert(texts(parts@) =~= path_parts(path@));
    parts
}

/// `path` lies at or under `base`, part by part.
pub open spec fn path_under(path: Seq<char>, base: Seq<char>) -> bool {
    is_absolute(path) == is_absolute(base) && path_parts(base).is_prefix_of(path_parts(path))
}

/// The empty path lies under itself and has no parts.
pub proof fn empty_path_is_its_own(path: Seq<char>)
    requires
        path.len() == 0,
    ensures
        path_parts(path) == Seq::<Seq<char>>::empty(),
        path_under(path, path),
        path_under(Seq::empty(), path),
{
    reveal_strlit(".");
    reveal(Seq::filter);
    assert(path =~= Seq::<char>::empty());
    let parts = split_on(path, '/');
    assert(parts.len() == 1 && parts[0].len() == 0);
    let keep = |part: Seq<char>| !is_current(part);
    if parts.filter(keep).len() > 0 {
        parts.lemma_filter_pred(keep, 0);
        parts.lemma_filter_contains_rev(keep, parts.filter(keep)[0]);
    }
    assert(parts.filter(keep) =~= Seq::<Seq<char>>::empty());
    assert("."@.len() == 1);
}

/// Whether a path begins with a slash.
pub fn absolute(path: &str) -> (found: bool)
    ensures
        found == is_absolute(path@),
{
    let chars = chars_of(path);
    chars.len() > 0 && chars[0] == '/'
}

/// Whether `path` lies at or under `base`, part by part.
pub fn under_path(path: &str, base: &str) -> (found: bool)
    ensures
        found == path_under(path@, base@),
{
    if absolute(path) != absolute(base) {
        return false;
    }
    let outer = parts_of(base);
    let inner = parts_of(path);
    proof {
        assert(texts(outer@).len() == outer@.len());
        assert(texts(inner@).len() == inner@.len());
    }
    if outer.len() > inner.len() {
        return false;
    }
    let mut i: usize = 0;
    while i < outer.len()
        invariant
            i <= outer@.len() <= inner@.len(),
            texts(outer@) == path_parts(base@),
            texts(inner@) == path_parts(path@),
            forall|j: int| 0 <= j < i ==> outer@[j]@ == inner@[j]@,
        decreases outer@.len() - i,
    {
        if !same_text(&outer[i], &inner[i]) {
            assert(texts(outer@)[i as int] != texts(inner@).subrange(0, texts(outer@).len() as int)[i as int]);
            return false;
        }
        i += 1;
    }
    assert(texts(outer@) =~= texts(inner@).subrange(0, texts(outer@).len() as int));
    true
}

/// The paths name the same file, part by part.
pub open spec fn same_path(path: Seq<char>, other: Seq<char>) -> bool {
    is_absolute(path) == is_absolute(other) && path_parts(path) == path_parts(other)
}

/// Whether two paths name the same file, part by part.
pub fn is_same_path(path: &str, other: &str) -> (same: bool)
    ensures
        same == same_path(path@, other@),
{
    let same = under_path(path, other) && under_path(other, path);
    proof {
        let one = path_parts(path@);
        let two = path_parts(other@);
        if same {
            assert(one.len() == two.len());
            assert(two.subrange(0, two.len() as int) =~= two);
        }
        assert(one.subrange(0, one.len() as int) =~= one);
    }
    same
}

/// What is left of a path under `base`.
pub open spec fn path_rest(path: Seq<char>, base: Seq<char>) -> Seq<char> {
    joined(path_parts(path).skip(path_parts(base).len() as int), "/"@)
}

/// What is left of a path that lies at or under `base`.
pub fn strip_path(path: &str, base: &str) -> (rest: Option<String>)
    ensures
        rest is Some <==> path_under(path@, base@),
        rest matches Some(found) ==> found@ == path_rest(path@, base@),
{
    if !under_path(path, base) {
        return None;
    }
    let skipped: usize = parts_of(base).len();
    let parts = parts_of(path);
    proof {
        assert(texts(parts@).len() == parts@.len());
    }
    let mut left: Vec<String> = Vec::new();
    let mut i: usize = skipped;
    while i < parts.len()
        invariant
            skipped <= i <= parts@.len(),
            left@ == parts@.subrange(skipped as int, i as int),
        decreases parts@.len() - i,
    {
        left.push(parts[i].clone());
        i += 1;
    }
    assert(texts(left@) =~= texts(parts@).skip(skipped as int));
    Some(join_texts(&left, "/"))
}

proof fn parts_in_turn(one: Seq<char>, two: Seq<char>)
    ensures
        path_parts(one + "/"@ + two) == path_parts(one) + split_on(two, '/').filter(|part: Seq<char>| !is_current(part)),
{
    reveal_strlit("/");
    let named = |part: Seq<char>| !is_current(part);
    assert(one + "/"@ + two =~= one + seq!['/'] + two);
    split_in_turn(one, two, '/');
    split_on_nonempty(one, '/');
    split_on_nonempty(two, '/');
    let front = split_on(one, '/');
    let back = split_on(two, '/');
    let all = split_on(one + "/"@ + two, '/');
    assert(all == front + back);
    Seq::filter_distributes_over_add(front, back, named);
    assert(all.filter(named) == front.filter(named) + back.filter(named));
    assert(all[0] == front[0]);
    assert(path_parts(one + "/"@ + two) =~= path_parts(one) + back.filter(named));
}

/// What is seen from a directory lies under it.
pub proof fn joined_paths_lie_under_their_base(base: Seq<char>, path: Seq<char>)
    requires
        !is_absolute(path),
    ensures
        path_under(path_join(base, path), base),
{
    reveal_strlit("/");
    if base.len() == 0 {
        empty_path_is_its_own(base);
        assert(path_parts(base).is_prefix_of(path_parts(path)));
    } else if base.last() == '/' {
        let front = base.drop_last();
        let none = Seq::<char>::empty();
        assert(base =~= front + "/"@ + none);
        assert(base + path =~= front + "/"@ + path);
        parts_in_turn(front, none);
        parts_in_turn(front, path);
        let named = |part: Seq<char>| !is_current(part);
        assert(split_on(none, '/') =~= seq![none]);
        assert(seq![none].filter(named) =~= Seq::<Seq<char>>::empty()) by {
            reveal(Seq::filter);
            assert(seq![none].drop_last() =~= Seq::<Seq<char>>::empty());
            assert(seq![none].drop_last().filter(named) =~= Seq::<Seq<char>>::empty());
            assert(seq![none].last() == none);
            assert(!named(none));
        }
        assert(path_parts(base) =~= path_parts(front));
        assert(path_parts(base) =~= path_parts(base + path).take(path_parts(base).len() as int));
    } else {
        parts_in_turn(base, path);
        assert(path_parts(base) =~= path_parts(base + "/"@ + path).take(path_parts(base).len() as int));
    }
}

/// Names in one directory lie apart, also where one begins like the other.
pub proof fn siblings_lie_apart(directory: Seq<char>, one: Seq<char>, two: Seq<char>)
    requires
        one != two,
        !one.contains('/'),
        !two.contains('/'),
        !is_current(one),
        !is_current(two),
    ensures
        !path_under(directory + "/"@ + one, directory + "/"@ + two),
{
    let named = |part: Seq<char>| !is_current(part);
    parts_in_turn(directory, one);
    parts_in_turn(directory, two);
    split_of_one_part(one, '/');
    split_of_one_part(two, '/');
    assert(seq![one].filter(named) =~= seq![one]) by {
        reveal(Seq::filter);
        assert(seq![one].drop_last() =~= Seq::<Seq<char>>::empty());
        assert(seq![one].drop_last().filter(named) =~= Seq::<Seq<char>>::empty());
    }
    assert(seq![two].filter(named) =~= seq![two]) by {
        reveal(Seq::filter);
        assert(seq![two].drop_last() =~= Seq::<Seq<char>>::empty());
        assert(seq![two].drop_last().filter(named) =~= Seq::<Seq<char>>::empty());
    }
    let at = path_parts(directory).len() as int;
    let first = path_parts(directory + "/"@ + one);
    let second = path_parts(directory + "/"@ + two);
    assert(first[at] == one && second[at] == two);
    if second.is_prefix_of(first) {
        assert(first.take(second.len() as int)[at] == second[at]);
    }
}

/// What lies under a path lies under whatever that path lies under, and two paths
/// that lie under each other have the same parts.
pub proof fn lying_under_is_an_order(one: Seq<char>, two: Seq<char>, three: Seq<char>)
    ensures
        path_under(one, one),
        path_under(one, two) && path_under(two, three) ==> path_under(one, three),
        path_under(one, two) && path_under(two, one) ==> path_parts(one) == path_parts(two),
{
    let first = path_parts(one);
    let second = path_parts(two);
    let third = path_parts(three);
    assert(first.take(first.len() as int) =~= first);
    if path_under(one, two) && path_under(two, three) {
        assert(first.take(third.len() as int) =~= first.take(second.len() as int).take(third.len() as int));
    }
    if path_under(one, two) && path_under(two, one) {
        assert(first =~= second);
    }
}

/// Entering a directory and leaving it again changes nothing, and neither does the
/// directory itself.
pub proof fn leaving_undoes_entering(parts: Seq<Seq<char>>, name: Seq<char>)
    ensures
        !is_current(name) && name != ".."@ ==> resolved_parts(parts.push(name)) == resolved_parts(parts).push(name)
            && resolved_parts(parts.push(name).push(".."@)) == resolved_parts(parts),
        is_current(name) ==> resolved_parts(parts.push(name)) == resolved_parts(parts),
        resolved_parts(seq![".."@]) == Seq::<Seq<char>>::empty(),
{
    reveal_strlit(".");
    reveal_strlit("..");
    assert(parts.push(name).drop_last() =~= parts);
    assert(parts.push(name).push(".."@).drop_last() =~= parts.push(name));
    assert(".."@.len() == 2);
    assert(!is_current(".."@));
    assert(parts.push(name).push(".."@).last() == ".."@);
    if !is_current(name) && name != ".."@ {
        assert(parts.push(name).last() == name);
        assert(resolved_parts(parts.push(name)) == resolved_parts(parts).push(name));
        assert(resolved_parts(parts.push(name).push(".."@)) == resolved_parts(parts.push(name)).drop_last());
    }
    assert(seq![".."@].drop_last() =~= Seq::<Seq<char>>::empty());
    assert(seq![".."@].last() == ".."@);
    assert(resolved_parts(seq![".."@].drop_last()) =~= Seq::<Seq<char>>::empty());
    assert(resolved_parts(parts).push(name).drop_last() =~= resolved_parts(parts));
}

/// A resolved path holds no `.`, no `..` and nothing empty, and no more than the
/// parts it came from.
pub proof fn resolved_paths_hold_names(parts: Seq<Seq<char>>)
    ensures
        resolved_parts(parts).len() <= parts.len(),
        forall|i: int|
            0 <= i < resolved_parts(parts).len() ==> !is_current(#[trigger] resolved_parts(parts)[i]) && resolved_parts(
                parts,
            )[i] != ".."@ && parts.contains(resolved_parts(parts)[i]),
    decreases parts.len(),
{
    if parts.len() > 0 {
        let front = parts.drop_last();
        let before = resolved_parts(front);
        let all = resolved_parts(parts);
        resolved_paths_hold_names(front);
        assert forall|i: int| 0 <= i < all.len() implies !is_current(#[trigger] all[i]) && all[i] != ".."@ && parts.contains(
            all[i],
        ) by {
            if i < before.len() {
                assert(all[i] == before[i]);
                let k = choose|k: int| 0 <= k < front.len() && front[k] == before[i];
                assert(parts[k] == before[i]);
            } else {
                assert(parts[parts.len() - 1] == all[i]);
            }
        }
    }
}

/// What is left of a path under a base is what was joined to it: names of
/// directories are given back as they are.
pub proof fn joined_names_are_left(base: Seq<char>, names: Seq<Seq<char>>)
    requires
        base.len() > 0,
        base.last() != '/',
        names.len() > 0,
        forall|i: int| 0 <= i < names.len() ==> !is_current(#[trigger] names[i]) && !names[i].contains('/'),
    ensures
        path_rest(base + "/"@ + joined(names, "/"@), base) == joined(names, "/"@),
{
    reveal_strlit("/");
    let rest = joined(names, "/"@);
    let named = |part: Seq<char>| !is_current(part);
    assert("/"@ =~= seq!['/']);
    crate::text::join_then_split(names, '/');
    parts_in_turn(base, rest);
    all_names_stay(names, named);
    let all = path_parts(base + "/"@ + rest);
    assert(all.skip(path_parts(base).len() as int) =~= names);
}

proof fn all_names_stay(names: Seq<Seq<char>>, named: spec_fn(Seq<char>) -> bool)
    requires
        forall|i: int| 0 <= i < names.len() ==> named(#[trigger] names[i]),
    ensures
        names.filter(named) == names,
    decreases names.len(),
{
    reveal(Seq::filter);
    if names.len() > 0 {
        let front = names.drop_last();
        assert forall|i: int| 0 <= i < front.len() implies named(#[trigger] front[i]) by {
            assert(front[i] == names[i]);
        }
        all_names_stay(front, named);
        assert(names.last() == names[names.len() - 1]);
        assert(names =~= front.push(names.last()));
    } else {
        assert(names.filter(named) =~= names);
    }
}

/// A path is the same with a slash or a `.` behind it, and names in one directory are
/// different paths.
pub proof fn equal_paths(directory: Seq<char>, one: Seq<char>, two: Seq<char>)
    requires
        one != two,
        !one.contains('/'),
        !two.contains('/'),
        !is_current(one),
        !is_current(two),
    ensures
        same_path(directory, directory),
        !same_path(directory + "/"@ + one, directory + "/"@ + two),
        directory.len() > 0 ==> same_path(directory + "/"@, directory),
{
    reveal_strlit("/");
    siblings_lie_apart(directory, one, two);
    let first = path_parts(directory + "/"@ + one);
    let second = path_parts(directory + "/"@ + two);
    if first == second {
        assert(first.take(second.len() as int) =~= second);
        assert(second.is_prefix_of(first));
        if directory.len() > 0 {
            assert((directory + "/"@ + one)[0] == directory[0]);
            assert((directory + "/"@ + two)[0] == directory[0]);
        } else {
            assert((directory + "/"@ + one)[0] == '/');
            assert((directory + "/"@ + two)[0] == '/');
        }
    }
    let none = Seq::<char>::empty();
    let named = |part: Seq<char>| !is_current(part);
    parts_in_turn(directory, none);
    assert(directory + "/"@ =~= directory + "/"@ + none);
    assert(split_on(none, '/') =~= seq![none]);
    assert(seq![none].filter(named) =~= Seq::<Seq<char>>::empty()) by {
        reveal(Seq::filter);
        assert(seq![none].drop_last() =~= Seq::<Seq<char>>::empty());
        assert(seq![none].drop_last().filter(named) =~= Seq::<Seq<char>>::empty());
        assert(seq![none].last() == none);
        assert(!named(none));
    }
    assert(path_parts(directory + "/"@) =~= path_parts(directory));
}

} // verus!

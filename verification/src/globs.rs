//! Sets of glob patterns, as `globset` keeps them.
use globset::{Glob, GlobSet, GlobSetBuilder};
use vstd::prelude::*;
use crate::text::texts;

verus! {

/// `globset`'s compiled set of patterns.
#[verifier::external_type_specification]
#[verifier::external_body]
pub struct ExGlobSet(globset::GlobSet);

/// `globset`'s set of patterns that is being put together.
#[verifier::external_type_specification]
#[verifier::external_body]
pub struct ExGlobSetBuilder(globset::GlobSetBuilder);

/// `globset`'s error.
#[verifier::external_type_specification]
#[verifier::external_body]
pub struct ExGlobError(globset::Error);

/// `globset` accepts the string as a pattern.
pub uninterp spec fn is_glob(pattern: Seq<char>) -> bool;

/// `globset` compiles the patterns to a set.
pub uninterp spec fn globs_compile(patterns: Seq<Seq<char>>) -> bool;

/// A pattern matches a path.
pub uninterp spec fn glob_matches(pattern: Seq<char>, path: Seq<char>) -> bool;

/// The patterns that were added to a set that is being put together.
pub uninterp spec fn builder_globs(builder: GlobSetBuilder) -> Seq<Seq<char>>;

/// The patterns of a compiled set.
pub uninterp spec fn set_globs(set: GlobSet) -> Seq<Seq<char>>;

/// Some pattern of the list matches the path.
pub open spec fn any_glob_matches(patterns: Seq<Seq<char>>, path: Seq<char>) -> bool {
    exists|i: int| 0 <= i < patterns.len() && glob_matches(#[trigger] patterns[i], path)
}

/// `Glob::new` parses a pattern; whether it succeeds depends on the pattern alone.
#[verifier::external_body]
pub(crate) fn check_glob(pattern: &str) -> (checked: Result<(), globset::Error>)
    ensures
        checked is Ok <==> is_glob(pattern@),
{
    Glob::new(pattern).map(|_| ())
}

/// `GlobSetBuilder::new` begins without patterns.
#[verifier::external_body]
pub(crate) fn new_builder() -> (builder: GlobSetBuilder)
    ensures
        builder_globs(builder) == Seq::<Seq<char>>::empty(),
{
    GlobSetBuilder::new()
}

/// `GlobSetBuilder::add` appends a pattern that `Glob::new` accepts; any
/// other is refused and leaves the patterns as they were.
#[verifier::external_body]
pub(crate) fn add_glob(builder: &mut GlobSetBuilder, pattern: &str) -> (added: Result<(), globset::Error>)
    ensures
        added is Ok <==> is_glob(pattern@),
        added is Ok ==> builder_globs(*final(builder)) == builder_globs(*old(builder)).push(pattern@),
        added is Err ==> builder_globs(*final(builder)) == builder_globs(*old(builder)),
{
    builder.add(Glob::new(pattern)?);
    Ok(())
}

/// `GlobSetBuilder::build` compiles the patterns that were added; whether it
/// succeeds depends on them alone.
#[verifier::external_body]
pub(crate) fn build_set(builder: &GlobSetBuilder) -> (set: Result<GlobSet, globset::Error>)
    ensures
        set is Ok <==> globs_compile(builder_globs(*builder)),
        set is Ok ==> set_globs(set->Ok_0) == builder_globs(*builder),
{
    builder.build()
}

/// `GlobSet::is_match` says whether any pattern of the set matches the path.
#[verifier::external_body]
pub(crate) fn set_matches(set: &GlobSet, path: &str) -> (matched: bool)
    ensures
        matched == (exists|i: int|
            0 <= i < set_globs(*set).len() && glob_matches(#[trigger] set_globs(*set)[i], path@)),
{
    set.is_match(path)
}

/// Adds the patterns of a list one after another, until one is refused; says which.
pub fn add_globs(builder: &mut GlobSetBuilder, patterns: &Vec<String>) -> (refused: Option<usize>)
    ensures
        match refused {
            None => {
                &&& forall|i: int| 0 <= i < patterns@.len() ==> is_glob((#[trigger] patterns@[i])@)
                &&& builder_globs(*final(builder)) == builder_globs(*old(builder)) + texts(patterns@)
            },
            Some(at) => {
                &&& at < patterns@.len()
                &&& !is_glob(patterns@[at as int]@)
                &&& forall|i: int| 0 <= i < at ==> is_glob((#[trigger] patterns@[i])@)
            },
        },
{
    let ghost before = builder_globs(*builder);
    let ghost all = texts(patterns@);
    let mut i: usize = 0;
    assert(before + all.take(0) =~= before);
    while i < patterns.len()
        invariant
            i <= patterns@.len(),
            all == texts(patterns@),
            forall|k: int| 0 <= k < i ==> is_glob((#[trigger] patterns@[k])@),
            builder_globs(*builder) == before + all.take(i as int),
        decreases patterns@.len() - i,
    {
        match add_glob(builder, &patterns[i]) {
            Ok(_) => {},
            Err(_) => return Some(i),
        }
        assert(all.take(i + 1) =~= all.take(i as int).push(patterns@[i as int]@));
        assert((before + all.take(i as int)).push(patterns@[i as int]@) =~= before + all.take(i + 1));
        i += 1;
    }
    assert(all.take(all.len() as int) =~= all);
    None
}

/// The strings of a list that are patterns, in order.
pub open spec fn valid_globs(patterns: Seq<Seq<char>>) -> Seq<Seq<char>> {
    patterns.filter(|pattern: Seq<char>| is_glob(pattern))
}

/// Adds those strings of a list that are patterns; says whether there was one.
pub fn add_valid_globs(builder: &mut GlobSetBuilder, patterns: &Vec<String>) -> (any: bool)
    ensures
        builder_globs(*final(builder)) == builder_globs(*old(builder)) + valid_globs(texts(patterns@)),
        any == (valid_globs(texts(patterns@)).len() > 0),
{
    let ghost before = builder_globs(*builder);
    let ghost all = texts(patterns@);
    let ghost valid = |pattern: Seq<char>| is_glob(pattern);
    let mut any = false;
    let mut i: usize = 0;
    proof {
        reveal(Seq::filter);
        assert(all.take(0) =~= Seq::<Seq<char>>::empty());
        assert(before + all.take(0).filter(valid) =~= before);
    }
    while i < patterns.len()
        invariant
            i <= patterns@.len(),
            all == texts(patterns@),
            valid == (|pattern: Seq<char>| is_glob(pattern)),
            builder_globs(*builder) == before + all.take(i as int).filter(valid),
            any == (all.take(i as int).filter(valid).len() > 0),
        decreases patterns@.len() - i,
    {
        let ghost front = all.take(i as int).filter(valid);
        proof {
            reveal(Seq::filter);
            assert(all.take(i + 1).drop_last() =~= all.take(i as int));
            assert(all.take(i + 1).last() == patterns@[i as int]@);
        }
        if add_glob(builder, &patterns[i]).is_ok() {
            any = true;
            assert((before + front).push(patterns@[i as int]@) =~= before + front.push(patterns@[i as int]@));
        }
        i += 1;
    }
    assert(all.take(all.len() as int) =~= all);
    any
}

} // verus!

//! Workspace-configured filtering for Git changes used by `aster affected`.
use globset::GlobSet;
use vstd::prelude::*;
use crate::collections::TextSet;
use crate::config::workspace::AffectedWorkspaceConfig;
use crate::globs::{add_globs, any_glob_matches, build_set, globs_compile, is_glob, new_builder, set_globs, set_matches};
use crate::text::{concat2, texts};

verus! {

/// Compiled workspace-relative patterns excluded from affected analysis.
pub struct AffectedIgnore {
    pub patterns: GlobSet,
}

/// Why the patterns could not be compiled.
#[derive(Debug, Clone, PartialEq, Eq)]
pub enum IgnoreError {
    /// The string is no pattern
    InvalidPattern(String),
    /// The patterns do not compile together
    TooComplex,
}

impl IgnoreError {
    /// The message for a reader.
    pub fn to_string(&self) -> (message: String)
        ensures
            message@ == (match self {
                IgnoreError::InvalidPattern(pattern) => "invalid affected.ignore pattern: "@ + pattern@,
                IgnoreError::TooComplex => "failed to build affected.ignore glob set"@,
            }),
    {
        match self {
            IgnoreError::InvalidPattern(pattern) => concat2("invalid affected.ignore pattern: ", pattern),
            IgnoreError::TooComplex => "failed to build affected.ignore glob set".to_owned(),
        }
    }
}

impl AffectedIgnore {
    /// Compiles the configured patterns.
    pub fn build(config: &AffectedWorkspaceConfig) -> (ignore: Result<AffectedIgnore, IgnoreError>)
        ensures
            match ignore {
                Ok(built) => {
                    &&& forall|i: int| 0 <= i < config.ignore@.len() ==> is_glob((#[trigger] config.ignore@[i])@)
                    &&& globs_compile(texts(config.ignore@))
                    &&& set_globs(built.patterns) == texts(config.ignore@)
                },
                Err(IgnoreError::InvalidPattern(pattern)) => exists|i: int|
                    0 <= i < config.ignore@.len() && pattern@ == (#[trigger] config.ignore@[i])@ && !is_glob(pattern@)
                        && forall|j: int| 0 <= j < i ==> is_glob((#[trigger] config.ignore@[j])@),
                Err(IgnoreError::TooComplex) => {
                    &&& forall|i: int| 0 <= i < config.ignore@.len() ==> is_glob((#[trigger] config.ignore@[i])@)
                    &&& !globs_compile(texts(config.ignore@))
                },
            },
    {
        let mut builder = new_builder();
        if let Some(at) = add_globs(&mut builder, &config.ignore) {
            return Err(IgnoreError::InvalidPattern(config.ignore[at].clone()));
        }
        assert(Seq::<Seq<char>>::empty() + texts(config.ignore@) =~= texts(config.ignore@));
        match build_set(&builder) {
            Ok(patterns) => Ok(AffectedIgnore { patterns }),
            Err(_) => Err(IgnoreError::TooComplex),
        }
    }

    /// Whether a path is kept out of the analysis.
    pub fn is_ignored(&self, path: &str) -> (ignored: bool)
        ensures
            ignored == any_glob_matches(set_globs(self.patterns), path@),
    {
        set_matches(&self.patterns, path)
    }

    /// The paths that take part in the analysis.
    pub fn filter(&self, paths: &TextSet) -> (kept: TextSet)
        ensures
            kept@ == paths@.filter(|path: Seq<char>| !any_glob_matches(set_globs(self.patterns), path)),
    {
        let ghost globs = set_globs(self.patterns);
        let ghost all = paths.items();
        let count = paths.len();
        let mut kept = TextSet::new();
        let mut i: usize = 0;
        while i < count
            invariant
                i <= count,
                count == paths.items().len(),
                all == paths.items(),
                globs == set_globs(self.patterns),
                forall|path: Seq<char>| #[trigger]
                    kept@.contains(path) <==> exists|k: int|
                        0 <= k < i && #[trigger] all[k] == path && !any_glob_matches(globs, path),
            decreases count - i,
        {
            let ghost before = kept@;
            let item = paths.item_at(i);
            if !self.is_ignored(item) {
                let _ = kept.insert(item.clone());
            }
            proof {
                assert forall|path: Seq<char>| #[trigger]
                    kept@.contains(path) <==> exists|k: int|
                        0 <= k < i + 1 && #[trigger] all[k] == path && !any_glob_matches(globs, path) by {
                    assert(before.contains(path) <==> exists|k: int|
                        0 <= k < i && #[trigger] all[k] == path && !any_glob_matches(globs, path));
                    if kept@.contains(path) && !before.contains(path) {
                        assert(all[i as int] == path);
                    }
                }
            }
            i += 1;
        }
        proof {
            let wanted = paths@.filter(|path: Seq<char>| !any_glob_matches(globs, path));
            assert forall|path: Seq<char>| kept@.contains(path) <==> wanted.contains(path) by {
                if wanted.contains(path) {
                    let k = choose|k: int| 0 <= k < all.len() && all[k] == path;
                    assert(all[k] == path);
                }
            }
            assert(kept@ =~= wanted);
        }
        kept
    }
}

} // verus!

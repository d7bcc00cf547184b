//! Shared matcher for target input globs.
//!
//! Combines plugin-declared source globs + config files with the patterns that
//! the user adds and leaves out into a single compiled matcher. Used by the
//! cache hasher to pick files to hash, and by the watcher to determine which
//! target owns a changed path.
use globset::GlobSet;
use vstd::prelude::*;
use crate::config::project::CacheConfig;
use crate::globs::{add_valid_globs, any_glob_matches, build_set, glob_matches, globs_compile, is_glob, new_builder, set_globs, set_matches, valid_globs};
use crate::paths::{path_rest, path_under, strip_path};
use crate::plugins::CacheInputs;
use crate::text::texts;

verus! {

/// Compiled pattern sets for a target, rooted at the project directory.
pub struct TargetInputMatcher {
    pub project_root: String,
    /// What the target reads
    pub wanted: GlobSet,
    /// What it leaves out
    pub unwanted: GlobSet,
    pub has_patterns: bool,
}

/// Why a matcher could not be compiled.
#[derive(Debug, Clone, Copy, PartialEq, Eq)]
pub enum MatcherError {
    Wanted,
    Unwanted,
}

impl MatcherError {
    /// The message for a reader.
    pub fn to_string(&self) -> (message: String)
        ensures
            message@ == (match self {
                MatcherError::Wanted => "Failed to build include globset"@,
                MatcherError::Unwanted => "Failed to build exclude globset"@,
            }),
    {
        match self {
            MatcherError::Wanted => "Failed to build include globset".to_owned(),
            MatcherError::Unwanted => "Failed to build exclude globset".to_owned(),
        }
    }
}

/// The valid patterns of what a target reads: the plugin's sources and config
/// files, then the user's additions.
pub open spec fn wanted_globs(plugin_inputs: CacheInputs, user_config: Option<&CacheConfig>) -> Seq<Seq<char>> {
    valid_globs(texts(plugin_inputs.source_globs@)) + valid_globs(texts(plugin_inputs.config_files@)) + (
    match user_config {
        Some(config) => valid_globs(texts(config.include_globs@)),
        None => Seq::empty(),
    })
}

/// The valid patterns of what the user leaves out.
pub open spec fn unwanted_globs(user_config: Option<&CacheConfig>) -> Seq<Seq<char>> {
    match user_config {
        Some(config) => valid_globs(texts(config.exclude_globs@)),
        None => Seq::empty(),
    }
}

/// Some wanted pattern matches the path, and no unwanted one does.
pub open spec fn is_input(wanted: Seq<Seq<char>>, unwanted: Seq<Seq<char>>, path: Seq<char>) -> bool {
    any_glob_matches(wanted, path) && !any_glob_matches(unwanted, path)
}

impl TargetInputMatcher {
    /// The flag says whether there are patterns at all.
    pub open spec fn well_formed(&self) -> bool {
        self.has_patterns == (set_globs(self.wanted).len() > 0)
    }

    /// Build a matcher from a plugin's cache inputs plus optional user
    /// overrides. Strings that are no patterns are passed over.
    pub fn build(
        project_root: &str,
        plugin_inputs: &CacheInputs,
        user_config: Option<&CacheConfig>,
    ) -> (matcher: Result<TargetInputMatcher, MatcherError>)
        ensures
            match matcher {
                Ok(built) => {
                    &&& built.well_formed()
                    &&& built.project_root@ == project_root@
                    &&& set_globs(built.wanted) == wanted_globs(*plugin_inputs, user_config)
                    &&& set_globs(built.unwanted) == unwanted_globs(user_config)
                    &&& globs_compile(wanted_globs(*plugin_inputs, user_config))
                    &&& globs_compile(unwanted_globs(user_config))
                },
                Err(MatcherError::Wanted) => !globs_compile(wanted_globs(*plugin_inputs, user_config)),
                Err(MatcherError::Unwanted) => globs_compile(wanted_globs(*plugin_inputs, user_config))
                    && !globs_compile(unwanted_globs(user_config)),
            },
    {
        let mut builder = new_builder();
        let ghost sources = valid_globs(texts(plugin_inputs.source_globs@));
        let ghost files = valid_globs(texts(plugin_inputs.config_files@));
        let any_source = add_valid_globs(&mut builder, &plugin_inputs.source_globs);
        assert(Seq::<Seq<char>>::empty() + sources =~= sources);
        let any_file = add_valid_globs(&mut builder, &plugin_inputs.config_files);
        let any_more = match user_config {
            Some(config) => add_valid_globs(&mut builder, &config.include_globs),
            None => {
                assert(sources + files + Seq::<Seq<char>>::empty() =~= sources + files);
                false
            },
        };
        let wanted = match build_set(&builder) {
            Ok(set) => set,
            Err(_) => return Err(MatcherError::Wanted),
        };
        let mut other = new_builder();
        if let Some(config) = user_config {
            let _ = add_valid_globs(&mut other, &config.exclude_globs);
            assert(Seq::<Seq<char>>::empty() + unwanted_globs(user_config) =~= unwanted_globs(user_config));
        }
        let unwanted = match build_set(&other) {
            Ok(set) => set,
            Err(_) => return Err(MatcherError::Unwanted),
        };
        Ok(
            TargetInputMatcher {
                project_root: project_root.to_owned(),
                wanted,
                unwanted,
                has_patterns: any_source || any_file || any_more,
            },
        )
    }

    /// Project root this matcher is bound to.
    pub fn project_root(&self) -> (root: &str)
        ensures
            root@ == self.project_root@,
    {
        self.project_root.as_str()
    }

    /// True if the matcher has any wanted patterns.
    ///
    /// When false, callers know the target declared no inputs and must
    /// decide a fallback (cache: skip; watch: watch whole project dir).
    pub fn has_patterns(&self) -> (any: bool)
        requires
            self.well_formed(),
        ensures
            any == (set_globs(self.wanted).len() > 0),
    {
        self.has_patterns
    }

    /// Check a project-relative path against the matcher.
    pub fn matches_relative(&self, rel_path: &str) -> (matched: bool)
        requires
            self.well_formed(),
        ensures
            matched == is_input(set_globs(self.wanted), set_globs(self.unwanted), rel_path@),
    {
        self.has_patterns && !set_matches(&self.unwanted, rel_path) && set_matches(&self.wanted, rel_path)
    }

    /// Check an absolute path by stripping project_root first.
    ///
    /// Returns false if the path is outside the project.
    pub fn owns(&self, abs_path: &str) -> (owned: bool)
        requires
            self.well_formed(),
        ensures
            owned == (path_under(abs_path@, self.project_root@) && is_input(
                set_globs(self.wanted),
                set_globs(self.unwanted),
                path_rest(abs_path@, self.project_root@),
            )),
    {
        match strip_path(abs_path, &self.project_root) {
            Some(rest) => self.matches_relative(&rest),
            None => false,
        }
    }
}

/// What the user leaves out is no input, whatever else matches it; and what
/// the user adds only extends the inputs.
pub proof fn exclusion_wins(
    wanted: Seq<Seq<char>>,
    more: Seq<Seq<char>>,
    unwanted: Seq<Seq<char>>,
    path: Seq<char>,
)
    ensures
        any_glob_matches(unwanted, path) ==> !is_input(wanted, unwanted, path),
        is_input(wanted, unwanted, path) ==> is_input(wanted + more, unwanted, path),
{
    if any_glob_matches(wanted, path) {
        let i = choose|i: int| 0 <= i < wanted.len() && crate::globs::glob_matches(#[trigger] wanted[i], path);
        assert((wanted + more)[i] == wanted[i]);
    }
}

/// A target reads what a pattern of its plugin or one that the user adds matches,
/// unless one that the user leaves out matches it.
pub proof fn inputs_are_wanted_and_not_left_out(inputs: CacheInputs, user_config: Option<&CacheConfig>, pattern: Seq<char>)
    requires
        is_glob(pattern),
    ensures
        wanted_globs(inputs, user_config).contains(pattern) <==> {
            ||| texts(inputs.source_globs@).contains(pattern)
            ||| texts(inputs.config_files@).contains(pattern)
            ||| user_config is Some && texts(user_config->0.include_globs@).contains(pattern)
        },
        unwanted_globs(user_config).contains(pattern) <==> user_config is Some && texts(
            user_config->0.exclude_globs@,
        ).contains(pattern),
{
    let sources = texts(inputs.source_globs@);
    let configs = texts(inputs.config_files@);
    valid_patterns_stay(sources, pattern);
    valid_patterns_stay(configs, pattern);
    let first = valid_globs(sources);
    let second = valid_globs(configs);
    let third = match user_config {
        Some(config) => valid_globs(texts(config.include_globs@)),
        None => Seq::empty(),
    };
    if let Some(config) = user_config {
        valid_patterns_stay(texts(config.include_globs@), pattern);
        valid_patterns_stay(texts(config.exclude_globs@), pattern);
    }
    let all = wanted_globs(inputs, user_config);
    assert(all == first + second + third);
    if first.contains(pattern) {
        let i = choose|i: int| 0 <= i < first.len() && first[i] == pattern;
        assert(all[i] == pattern);
    }
    if second.contains(pattern) {
        let i = choose|i: int| 0 <= i < second.len() && second[i] == pattern;
        assert(all[first.len() + i] == pattern);
    }
    if third.contains(pattern) {
        let i = choose|i: int| 0 <= i < third.len() && third[i] == pattern;
        assert(all[first.len() + second.len() + i] == pattern);
    }
    if all.contains(pattern) {
        let i = choose|i: int| 0 <= i < all.len() && all[i] == pattern;
        if i < first.len() {
            assert(first[i] == pattern);
        } else if i < first.len() + second.len() {
            assert(second[i - first.len()] == pattern);
        } else {
            assert(third[i - first.len() - second.len()] == pattern);
        }
    }
}

proof fn valid_patterns_stay(patterns: Seq<Seq<char>>, pattern: Seq<char>)
    requires
        is_glob(pattern),
    ensures
        valid_globs(patterns).contains(pattern) <==> patterns.contains(pattern),
{
    let valid = |pattern: Seq<char>| is_glob(pattern);
    if patterns.contains(pattern) {
        let i = choose|i: int| 0 <= i < patterns.len() && patterns[i] == pattern;
        patterns.lemma_filter_contains(valid, i);
    }
    if valid_globs(patterns).contains(pattern) {
        patterns.lemma_filter_contains_rev(valid, pattern);
    }
}

/// A file is read where a wanted pattern matches it and no unwanted one does.
pub proof fn inputs_match(wanted: Seq<Seq<char>>, unwanted: Seq<Seq<char>>, path: Seq<char>, at: int)
    requires
        0 <= at < wanted.len(),
        glob_matches(wanted[at], path),
        forall|i: int| 0 <= i < unwanted.len() ==> !glob_matches(#[trigger] unwanted[i], path),
    ensures
        is_input(wanted, unwanted, path),
{
}

} // verus!

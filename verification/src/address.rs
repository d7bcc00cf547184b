//! Addresses of projects and targets.
use vstd::prelude::*;
use crate::text::{chars_of, concat2, concat3, contains_char, contains_text, ends_with, has_text, occurs_at, same_text, split_first, split_once, starts_with, strip_prefix, text_of, text_option};

verus! {

/// A Bazel-style address for referencing projects and targets.
///
/// Format: `//path/to/project:target` or `//path/to/project`
/// Recursive globs: `//path/...` matches all projects under path
#[derive(Debug, Clone, PartialEq, Eq)]
pub struct Address {
    /// Path component (relative to workspace root)
    pub path: String,
    /// Optional target name after the colon
    pub target: Option<String>,
}

/// Why a string is no address.
#[derive(Debug, Clone, PartialEq, Eq)]
pub enum AddressError {
    /// The string does not begin with //
    MissingPrefix(String),
    /// Nothing stands behind the colon
    EmptyTarget(String),
}

impl AddressError {
    /// The message for a reader.
    pub open spec fn message(&self) -> Seq<char> {
        match self {
            AddressError::MissingPrefix(text) => "Address must start with //: got '"@ + text@ + "'"@,
            AddressError::EmptyTarget(text) => "Target name cannot be empty after colon: got '"@ + text@ + "'"@,
        }
    }

    /// The message for a reader.
    pub fn to_string(&self) -> (message: String)
        ensures
            message@ == self.message(),
    {
        match self {
            AddressError::MissingPrefix(text) => concat3("Address must start with //: got '", text, "'"),
            AddressError::EmptyTarget(text) => concat3("Target name cannot be empty after colon: got '", text, "'"),
        }
    }
}

/// The path and target that an address names.
pub open spec fn address_parts(s: Seq<char>) -> Option<(Seq<char>, Option<Seq<char>>)> {
    if !"//"@.is_prefix_of(s) {
        None
    } else {
        let rest = s.skip(2);
        match split_first(rest, ':') {
            None => Some((rest, None)),
            Some((path, target)) => if target.len() == 0 {
                None
            } else {
                Some((path, Some(target)))
            },
        }
    }
}

impl View for Address {
    type V = (Seq<char>, Option<Seq<char>>);

    open spec fn view(&self) -> (Seq<char>, Option<Seq<char>>) {
        (self.path@, text_option(self.target))
    }
}

/// The text of an address.
pub open spec fn address_text(address: (Seq<char>, Option<Seq<char>>)) -> Seq<char> {
    match address.1 {
        Some(target) => "//"@ + address.0 + ":"@ + target,
        None => "//"@ + address.0,
    }
}

impl Address {
    /// Parse an address string into an Address struct.
    ///
    /// Valid formats:
    /// - `//services/api` - path only
    /// - `//services/api:build` - path with target
    /// - `//services/...` - recursive glob
    /// - `//...` - root recursive glob
    pub fn parse(s: &str) -> (address: Result<Address, AddressError>)
        ensures
            address is Ok <==> address_parts(s@) is Some,
            address matches Ok(found) ==> address_parts(s@) == Some(found@),
            address matches Err(AddressError::MissingPrefix(text)) ==> text@ == s@ && !"//"@.is_prefix_of(s@),
            address matches Err(AddressError::EmptyTarget(text)) ==> text@ == s@ && "//"@.is_prefix_of(s@),
    {
        proof {
            reveal_strlit("//");
        }
        let rest = match strip_prefix(s, "//") {
            Some(rest) => rest,
            None => return Err(AddressError::MissingPrefix(s.to_owned())),
        };
        match split_once(&rest, ':') {
            None => Ok(Address { path: rest, target: None }),
            Some((path, target)) => {
                if target.as_str().is_empty() {
                    Err(AddressError::EmptyTarget(s.to_owned()))
                } else {
                    Ok(Address { path, target: Some(target) })
                }
            },
        }
    }

    /// Returns true if this address is a recursive glob pattern.
    ///
    /// Matches addresses like `//services/...` or `//...`
    pub fn is_recursive(&self) -> (recursive: bool)
        ensures
            recursive == ("/..."@.is_suffix_of(self.path@) || self.path@ == "..."@),
    {
        ends_with(&self.path, "/...") || same_text(&self.path, "...")
    }

    /// The text of the address.
    pub fn to_string(&self) -> (text: String)
        ensures
            text@ == address_text(self@),
    {
        let path = concat2("//", &self.path);
        match &self.target {
            Some(target) => concat3(&path, ":", target),
            None => path,
        }
    }
}

/// What stands before and behind the first `c` makes up the string with it.
proof fn split_first_joins(s: Seq<char>, c: char)
    ensures
        split_first(s, c) matches Some((front, back)) ==> front + seq![c] + back == s && !front.contains(c),
        split_first(s, c) is None <==> !s.contains(c),
    decreases s.len(),
{
    if s.len() > 0 {
        let rest = s.skip(1);
        split_first_joins(rest, c);
        assert(s =~= seq![s[0]] + rest);
        if s[0] == c {
            assert(Seq::<char>::empty() + seq![c] + s.skip(1) =~= s);
            assert(s.contains(c));
        } else {
            if s.contains(c) {
                let i = choose|i: int| 0 <= i < s.len() && s[i] == c;
                assert(rest[i - 1] == c);
            }
            if rest.contains(c) {
                let i = choose|i: int| 0 <= i < rest.len() && rest[i] == c;
                assert(s[i + 1] == c);
            }
            if let Some((front, back)) = split_first(rest, c) {
                assert(seq![s[0]] + front + seq![c] + back =~= s);
                if (seq![s[0]] + front).contains(c) {
                    let whole = seq![s[0]] + front;
                    let i = choose|i: int| 0 <= i < whole.len() && whole[i] == c;
                    assert(front[i - 1] == c);
                }
            }
        }
    }
}

/// The text of a parsed address is the string that was parsed.
pub proof fn address_text_of_parsed(s: Seq<char>)
    requires
        address_parts(s) is Some,
    ensures
        address_text(address_parts(s)->0) == s,
{
    reveal_strlit("//");
    reveal_strlit(":");
    let rest = s.skip(2);
    split_first_joins(rest, ':');
    assert(s =~= "//"@ + rest) by {
        assert(s.subrange(0, 2) == "//"@);
        assert forall|i: int| 0 <= i < 2 implies s[i] == "//"@[i] by {
            assert(s.subrange(0, 2)[i] == s[i]);
        }
    }
    if let Some((path, target)) = split_first(rest, ':') {
        assert(seq![':'] =~= ":"@);
        assert("//"@ + path + ":"@ + target =~= "//"@ + (path + seq![':'] + target));
    }
}

/// Parsing the text of an address gives the address back.
pub proof fn address_of_text(path: Seq<char>, target: Option<Seq<char>>)
    requires
        !path.contains(':'),
        target matches Some(name) ==> name.len() > 0,
    ensures
        address_parts(address_text((path, target))) == Some((path, target)),
{
    reveal_strlit("//");
    reveal_strlit(":");
    let s = address_text((path, target));
    assert(s.subrange(0, 2) =~= "//"@);
    let rest = s.skip(2);
    match target {
        None => {
            assert(rest =~= path);
            split_first_joins(rest, ':');
        },
        Some(name) => {
            assert(rest =~= path + ":"@ + name);
            let at = path.len() as int;
            assert(rest[at] == ':');
            assert forall|j: int| 0 <= j < at implies rest[j] != ':' by {
                assert(path.contains(path[j]));
            }
            crate::text::split_first_at(rest, ':', at);
            assert(rest.take(at) =~= path);
            assert(rest.skip(at + 1) =~= name);
        },
    }
}

/// A reusable selector for project addresses.
///
/// Supported forms are exact addresses (`//services/api`), recursive prefixes
/// (`//services/...`), and the workspace-wide selector (`//...`).
#[derive(Debug, Clone, PartialEq, Eq)]
pub enum ProjectSelector {
    All,
    Recursive(String),
    Exact(String),
}

/// Why a string is no project selector.
#[derive(Debug, Clone, PartialEq, Eq)]
pub enum SelectorError {
    MissingPrefix(String),
    HasTarget(String),
    InvalidRecursive(String),
    Invalid(String),
}

impl SelectorError {
    /// The message for a reader.
    pub open spec fn message(&self) -> Seq<char> {
        match self {
            SelectorError::MissingPrefix(text) => "project selector must start with '//': '"@ + text@ + "'"@,
            SelectorError::HasTarget(text) => "project selector must not include a target: '"@ + text@ + "'"@,
            SelectorError::InvalidRecursive(text) => "invalid recursive project selector: '"@ + text@ + "'"@,
            SelectorError::Invalid(text) => "invalid project selector: '"@ + text@ + "'"@,
        }
    }

    /// The message for a reader.
    pub fn to_string(&self) -> (message: String)
        ensures
            message@ == self.message(),
    {
        match self {
            SelectorError::MissingPrefix(text) => concat3("project selector must start with '//': '", text, "'"),
            SelectorError::HasTarget(text) => concat3("project selector must not include a target: '", text, "'"),
            SelectorError::InvalidRecursive(text) => concat3("invalid recursive project selector: '", text, "'"),
            SelectorError::Invalid(text) => concat3("invalid project selector: '", text, "'"),
        }
    }
}

/// What a selector string says: the workspace, a prefix with all under it, one
/// address, or which rule it breaks.
pub enum SelectorMeaning {
    All,
    Recursive(Seq<char>),
    Exact(Seq<char>),
    MissingPrefix,
    HasTarget,
    InvalidRecursive,
    Invalid,
}

/// What a selector string says.
pub open spec fn selector_meaning(selector: Seq<char>) -> SelectorMeaning {
    if selector == "//..."@ {
        SelectorMeaning::All
    } else if !"//"@.is_prefix_of(selector) {
        SelectorMeaning::MissingPrefix
    } else if selector.contains(':') {
        SelectorMeaning::HasTarget
    } else if "/..."@.is_suffix_of(selector) {
        let prefix = selector.take(selector.len() - 4);
        if prefix == "//"@ || contains_text(prefix, "..."@) {
            SelectorMeaning::InvalidRecursive
        } else {
            SelectorMeaning::Recursive(prefix)
        }
    } else if contains_text(selector, "..."@) || "/"@.is_suffix_of(selector) {
        SelectorMeaning::Invalid
    } else {
        SelectorMeaning::Exact(selector)
    }
}

/// The selector string is valid and matches an address with slashes.
pub open spec fn meaning_selects(meaning: SelectorMeaning, address: Seq<char>) -> bool {
    match meaning {
        SelectorMeaning::All => true,
        SelectorMeaning::Recursive(prefix) => address == prefix || (prefix + "/"@).is_prefix_of(address),
        SelectorMeaning::Exact(exact) => address == exact,
        _ => false,
    }
}

/// What is said of a selector string that breaks a rule.
pub open spec fn selector_complaint(selector: Seq<char>) -> Seq<char> {
    match selector_meaning(selector) {
        SelectorMeaning::MissingPrefix => "project selector must start with '//': '"@ + selector + "'"@,
        SelectorMeaning::HasTarget => "project selector must not include a target: '"@ + selector + "'"@,
        SelectorMeaning::InvalidRecursive => "invalid recursive project selector: '"@ + selector + "'"@,
        _ => "invalid project selector: '"@ + selector + "'"@,
    }
}

/// The selector string breaks no rule.
pub open spec fn is_selector(selector: Seq<char>) -> bool {
    selector_meaning(selector) is All || selector_meaning(selector) is Recursive || selector_meaning(selector) is Exact
}

/// An address with slashes in place of backslashes.
pub open spec fn with_slashes(address: Seq<char>) -> Seq<char> {
    address.map_values(
        |c: char|
            if c == '\\' {
                '/'
            } else {
                c
            },
    )
}

fn use_slashes(address: &str) -> (text: String)
    ensures
        text@ == with_slashes(address@),
{
    let chars = chars_of(address);
    let mut text = String::new();
    let mut i: usize = 0;
    while i < chars.len()
        invariant
            chars@ == address@,
            i <= chars@.len(),
            text@ == with_slashes(address@).take(i as int),
        decreases chars@.len() - i,
    {
        let c = if chars[i] == '\\' {
            '/'
        } else {
            chars[i]
        };
        text.push(c);
        assert(with_slashes(address@).take(i + 1) =~= with_slashes(address@).take(i as int).push(c));
        i += 1;
    }
    assert(with_slashes(address@).take(address@.len() as int) =~= with_slashes(address@));
    text
}

impl ProjectSelector {
    /// The selector matches an address with slashes.
    pub open spec fn selects(&self, address: Seq<char>) -> bool {
        match self {
            ProjectSelector::All => true,
            ProjectSelector::Recursive(prefix) => address == prefix@ || (prefix@ + "/"@).is_prefix_of(address),
            ProjectSelector::Exact(exact) => address == exact@,
        }
    }

    /// Parse a selector string.
    pub fn parse(selector: &str) -> (parsed: Result<ProjectSelector, SelectorError>)
        ensures
            match selector_meaning(selector@) {
                SelectorMeaning::All => parsed == Ok::<ProjectSelector, SelectorError>(ProjectSelector::All),
                SelectorMeaning::Recursive(prefix) => parsed is Ok && parsed->Ok_0 is Recursive
                    && parsed->Ok_0->Recursive_0@ == prefix,
                SelectorMeaning::Exact(address) => parsed is Ok && parsed->Ok_0 is Exact && parsed->Ok_0->Exact_0@
                    == address,
                SelectorMeaning::MissingPrefix => parsed is Err && parsed->Err_0 is MissingPrefix
                    && parsed->Err_0->MissingPrefix_0@ == selector@,
                SelectorMeaning::HasTarget => parsed is Err && parsed->Err_0 is HasTarget
                    && parsed->Err_0->HasTarget_0@ == selector@,
                SelectorMeaning::InvalidRecursive => parsed is Err && parsed->Err_0 is InvalidRecursive
                    && parsed->Err_0->InvalidRecursive_0@ == selector@,
                SelectorMeaning::Invalid => parsed is Err && parsed->Err_0 is Invalid && parsed->Err_0->Invalid_0@
                    == selector@,
            },
            parsed is Ok <==> is_selector(selector@),
            parsed matches Err(error) ==> error.message() == selector_complaint(selector@),
            parsed matches Ok(found) ==> forall|address: Seq<char>| #[trigger]
                found.selects(address) == meaning_selects(selector_meaning(selector@), address),
    {
        if same_text(selector, "//...") {
            return Ok(ProjectSelector::All);
        }
        if !starts_with(selector, "//") {
            return Err(SelectorError::MissingPrefix(selector.to_owned()));
        }
        if contains_char(selector, ':') {
            return Err(SelectorError::HasTarget(selector.to_owned()));
        }
        if ends_with(selector, "/...") {
            proof {
                reveal_strlit("/...");
            }
            let chars = chars_of(selector);
            let prefix = text_of(&chars, 0, chars.len() - 4);
            assert(prefix@ =~= selector@.take(selector@.len() - 4));
            if same_text(&prefix, "//") || has_text(&prefix, "...") {
                return Err(SelectorError::InvalidRecursive(selector.to_owned()));
            }
            return Ok(ProjectSelector::Recursive(prefix));
        }
        if has_text(selector, "...") || ends_with(selector, "/") {
            return Err(SelectorError::Invalid(selector.to_owned()));
        }
        Ok(ProjectSelector::Exact(selector.to_owned()))
    }

    /// Whether the selector matches a project's address. Addresses are
    /// slash-delimited on every platform, while paths may use the host's
    /// separator.
    pub fn matches(&self, project_address: &str) -> (matched: bool)
        ensures
            matched == self.selects(with_slashes(project_address@)),
    {
        let address = use_slashes(project_address);
        match self {
            ProjectSelector::All => true,
            ProjectSelector::Recursive(prefix) => same_text(&address, prefix) || starts_with(
                &address,
                &concat2(prefix, "/"),
            ),
            ProjectSelector::Exact(exact) => same_text(&address, exact),
        }
    }
}

/// A recursive selector matches its own project and those under it, and no
/// sibling whose name merely begins the same.
pub proof fn recursive_selector_keeps_to_its_directory(prefix: String, rest: Seq<char>)
    ensures
        ProjectSelector::Recursive(prefix).selects(prefix@),
        ProjectSelector::Recursive(prefix).selects(prefix@ + "/"@ + rest),
        rest.len() > 0 && rest[0] != '/' ==> !ProjectSelector::Recursive(prefix).selects(prefix@ + rest),
{
    reveal_strlit("/");
    let inside = prefix@ + "/"@ + rest;
    let marker = prefix@ + "/"@;
    assert(inside.subrange(0, marker.len() as int) =~= marker);
    let beside = prefix@ + rest;
    if rest.len() > 0 && rest[0] != '/' {
        assert(beside.len() != prefix@.len());
        if marker.is_prefix_of(beside) {
            assert(beside.subrange(0, marker.len() as int)[prefix@.len() as int] == rest[0]);
        }
    }
}

/// The string of a project selects that project alone; with `/...` behind it, the
/// project and all under it; and `//...` selects everything.
pub proof fn selectors_select(project: Seq<char>, address: Seq<char>)
    requires
        "//"@.is_prefix_of(project),
        project.len() > 2,
        !project.contains(':'),
        !contains_text(project, "..."@),
        !"/"@.is_suffix_of(project),
    ensures
        meaning_selects(selector_meaning(project), address) <==> address == project,
        meaning_selects(selector_meaning(project + "/..."@), address) <==> address == project || (project
            + "/"@).is_prefix_of(address),
        meaning_selects(selector_meaning("//..."@), address),
{
    reveal_strlit("//");
    reveal_strlit("//...");
    reveal_strlit("/...");
    reveal_strlit("...");
    reveal_strlit("/");
    if "/..."@.is_suffix_of(project) {
        let at = project.len() - 3;
        assert(project.skip(project.len() - 4) =~= "/..."@);
        assert forall|i: int| 0 <= i < 3 implies project[at + i] == "..."@[i] by {
            assert(project.skip(project.len() - 4)[i + 1] == project[at + i]);
            assert("/..."@[i + 1] == "..."@[i]);
        }
        assert(project.subrange(at, at + 3) =~= "..."@);
        assert(occurs_at(project, "..."@, at));
    }
    if project == "//..."@ {
        assert(project.subrange(2, 5) =~= "..."@);
        assert(occurs_at(project, "..."@, 2));
    }
    let recursive = project + "/..."@;
    assert(recursive.len() > 5);
    assert("//"@ =~= project.take(2));
    assert("//"@ =~= recursive.take(2));
    assert("//"@.is_prefix_of(recursive));
    assert forall|i: int| 0 <= i < recursive.len() implies recursive[i] != ':' by {
        if i < project.len() {
            assert(project.contains(project[i]));
        }
    }
    assert("/..."@ =~= recursive.skip(recursive.len() - 4));
    assert("/..."@.is_suffix_of(recursive));
    assert(recursive.take(recursive.len() - 4) =~= project);
}

/// Backslashes become slashes, and nothing else is changed.
pub proof fn only_backslashes_are_turned(address: Seq<char>, at: int)
    requires
        0 <= at < address.len(),
    ensures
        with_slashes(address).len() == address.len(),
        address[at] == '\\' ==> with_slashes(address)[at] == '/',
        address[at] != '\\' ==> with_slashes(address)[at] == address[at],
{
}

} // verus!

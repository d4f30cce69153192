//! File selection using allowlist, denylist and protected directories.
use vstd::prelude::*;
use crate::config::Config;
use crate::error::PromrailError;
use crate::ext::{glob_list_error, glob_list_is_match, glob_list_valid, glob_set_matches, regex_match, regex_outcome};
use crate::paths::{components, file_name, file_name_of, path_components};
use crate::text::{chars_of, contains, contains_sub, is_prefix, owned, slice_of, starts_with, str_eq, string_of, views};
use crate::review::models::copy_strings;

verus! {

/// A file selector: glob patterns that admit and refuse files, and the
/// directories that are protected. Every pattern is a valid glob.
pub struct FileSelector {
    allowlist: Vec<String>,
    denylist: Vec<String>,
    protected_dirs: Vec<String>,
}

/// The most characters of patterns, all told, that a configuration may give
/// one list; the selector adds a few patterns of its own to the allowlist.
pub const GLOB_PATTERN_LIMIT: usize = 0x0080_0000;

/// The most characters of patterns, all told, that are handed to `globset`
/// as one set: the set holds the patterns' literal parts in `aho-corasick`
/// automata, built with `unwrap`, which fail (and so panic) only when their
/// states outgrow 32-bit identifiers, far beyond what this many characters
/// (at most four bytes each) can make.
pub const GLOB_SET_LIMIT: usize = 0x0100_0000;

/// How many characters the patterns hold together.
pub open spec fn pattern_bytes(patterns: Seq<Seq<char>>) -> nat
    decreases patterns.len(),
{
    if patterns.len() == 0 {
        0
    } else {
        pattern_bytes(patterns.drop_last()) + patterns.last().len()
    }
}

/// The characters of two lists of patterns add up.
pub proof fn lemma_pattern_bytes_concat(a: Seq<Seq<char>>, b: Seq<Seq<char>>)
    ensures
        pattern_bytes(a + b) == pattern_bytes(a) + pattern_bytes(b),
    decreases b.len(),
{
    if b.len() == 0 {
        assert(a + b =~= a);
    } else {
        lemma_pattern_bytes_concat(a, b.drop_last());
        assert((a + b).drop_last() =~= a + b.drop_last());
    }
}

/// A configuration's list of patterns is within the limit.
pub open spec fn bounded_patterns(patterns: Seq<String>) -> bool {
    pattern_bytes(views(patterns)) < GLOB_PATTERN_LIMIT
}

/// The patterns, within the set limit, build one `globset` set.
pub open spec fn patterns_valid(patterns: Seq<Seq<char>>) -> bool {
    &&& pattern_bytes(patterns) < GLOB_SET_LIMIT
    &&& glob_list_valid(patterns)
}

/// The patterns, within the set limit, build one `globset` set.
pub open spec fn all_valid(patterns: Seq<String>) -> bool {
    patterns_valid(views(patterns))
}

/// Some pattern of a glob set matches `path`.
pub open spec fn set_matches(patterns: Seq<String>, path: Seq<char>) -> bool {
    exists|i: int| 0 <= i < patterns.len() && glob_set_matches(#[trigger] patterns[i]@, path)
}

/// Some pattern of a valid glob set matches `path`.
fn any_set_match(patterns: &Vec<String>, path: &str) -> (r: bool)
    requires
        all_valid(patterns@),
    ensures
        r == set_matches(patterns@, path@),
{
    glob_list_is_match(patterns, path)
}

/// The message of `globset` when the patterns do not build one set.
fn first_invalid(patterns: &Vec<String>) -> (r: Option<String>)
    requires
        pattern_bytes(views(patterns@)) < GLOB_SET_LIMIT,
    ensures
        r is None <==> all_valid(patterns@),
{
    glob_list_error(patterns)
}

/// The allowlist a configuration's allowlist gives: the default YAML and
/// README patterns when it is empty, otherwise it with the README patterns
/// added.
pub open spec fn effective_allowlist(allowlist: Seq<Seq<char>>) -> Seq<Seq<char>> {
    if allowlist.len() == 0 {
        seq!["**/*.yaml"@, "**/*.yml"@, "**/README.md"@, "**/README*"@]
    } else {
        allowlist + seq!["**/README.md"@, "**/README*"@]
    }
}

/// A path lies under a directory: the directory's components begin it.
pub open spec fn path_under(path: Seq<char>, dir: Seq<char>) -> bool {
    path_components(dir).len() <= path_components(path).len() && path_components(path).take(
        path_components(dir).len() as int,
    ) == path_components(dir)
}

/// Whether the components of `dir` begin those of `path`.
pub fn is_under(path: &str, dir: &str) -> (r: bool)
    ensures
        r == path_under(path@, dir@),
{
    let p = components(path);
    let d = components(dir);
    if d.len() > p.len() {
        return false;
    }
    let mut i: usize = 0;
    while i < d.len()
        invariant
            i <= d@.len(),
            d@.len() <= p@.len(),
            views(p@) == path_components(path@),
            views(d@) == path_components(dir@),
            forall|k: int| 0 <= k < i ==> #[trigger] views(p@)[k] == views(d@)[k],
        decreases d@.len() - i,
    {
        assert(views(p@)[i as int] == p@[i as int]@);
        assert(views(d@)[i as int] == d@[i as int]@);
        if !str_eq(p[i].as_str(), d[i].as_str()) {
            assert(views(p@).take(d@.len() as int)[i as int] != views(d@)[i as int]);
            return false;
        }
        i += 1;
    }
    assert(views(p@).take(d@.len() as int) =~= views(d@));
    true
}

/// A path is protected by a directory it lies under or a component named
/// like one.
pub open spec fn protected_by(path: Seq<char>, dirs: Seq<Seq<char>>) -> bool {
    exists|i: int|
        0 <= i < dirs.len() && (path_under(path, #[trigger] dirs[i]) || path_components(path).contains(
            dirs[i],
        ))
}

/// Internal metadata of promrail: anything under `.promrail` and the
/// snapshot file.
pub open spec fn internal_metadata(path: Seq<char>) -> bool {
    path_under(path, ".promrail"@) || file_name_of(path) == Some(".promotion-snapshots.yaml"@)
}

impl FileSelector {
    /// The selector is well formed: its patterns are valid globs.
    pub closed spec fn wf(self) -> bool {
        all_valid(self.allowlist@) && all_valid(self.denylist@)
    }

    /// The allowlist patterns.
    pub closed spec fn allow(self) -> Seq<Seq<char>> {
        views(self.allowlist@)
    }

    /// The denylist patterns.
    pub closed spec fn deny(self) -> Seq<Seq<char>> {
        views(self.denylist@)
    }

    /// The protected directories.
    pub closed spec fn protected(self) -> Seq<Seq<char>> {
        views(self.protected_dirs@)
    }

    /// A path matches the allowlist (an empty allowlist admits everything).
    pub closed spec fn allows(self, path: Seq<char>) -> bool {
        self.allowlist@.len() == 0 || set_matches(self.allowlist@, path)
    }

    /// A path matches the denylist (an empty denylist refuses nothing).
    pub closed spec fn denies(self, path: Seq<char>) -> bool {
        self.denylist@.len() > 0 && set_matches(self.denylist@, path)
    }

    /// A path is promoted: it is not internal metadata, it is allowed and
    /// not denied, and it is not protected unless protected files are
    /// included.
    pub open spec fn promotes(self, path: Seq<char>, include_protected: bool) -> bool {
        &&& !internal_metadata(path)
        &&& (include_protected || !protected_by(path, self.protected()))
        &&& !self.denies(path)
        &&& self.allows(path)
    }

    /// A selector from patterns: each list must build one glob set, the
    /// allowlist's error coming first.
    pub fn from_patterns(allowlist: Vec<String>, denylist: Vec<String>, protected_dirs: Vec<String>) -> (r: Result<Self, PromrailError>)
        requires
            pattern_bytes(views(allowlist@)) < GLOB_SET_LIMIT,
            pattern_bytes(views(denylist@)) < GLOB_SET_LIMIT,
        ensures
            r is Ok <==> all_valid(allowlist@) && all_valid(denylist@),
            match r {
                Ok(s) => s.wf() && s.allow() == views(allowlist@) && s.deny() == views(denylist@)
                    && s.protected() == views(protected_dirs@),
                Err(e) => e is Glob && !(all_valid(allowlist@) && all_valid(denylist@)),
            },
    {
        if let Some(msg) = first_invalid(&allowlist) {
            return Err(PromrailError::Glob(msg));
        }
        if let Some(msg) = first_invalid(&denylist) {
            return Err(PromrailError::Glob(msg));
        }
        Ok(FileSelector { allowlist, denylist, protected_dirs })
    }

    /// Create a new file selector from configuration.
    pub fn from_config(config: &Config) -> (r: Result<Self, PromrailError>)
        requires
            bounded_patterns(config.allowlist@),
            bounded_patterns(config.denylist@),
        ensures
            r is Ok <==> patterns_valid(effective_allowlist(views(config.allowlist@)))
                && patterns_valid(views(config.denylist@)),
            match r {
                Ok(s) => s.wf() && s.allow() == effective_allowlist(views(config.allowlist@))
                    && s.deny() == views(config.denylist@) && s.protected() == views(
                    config.protected_dirs@,
                ),
                Err(e) => e is Glob,
            },
    {
        let mut allow = copy_strings(&config.allowlist);
        let ghost a0 = views(allow@);
        if allow.len() == 0 {
            allow.push(owned("**/*.yaml"));
            allow.push(owned("**/*.yml"));
            allow.push(owned("**/README.md"));
            allow.push(owned("**/README*"));
        } else {
            allow.push(owned("**/README.md"));
            allow.push(owned("**/README*"));
        }
        assert(views(allow@) =~= effective_allowlist(views(config.allowlist@)));
        proof {
            reveal_strlit("**/*.yaml");
            reveal_strlit("**/*.yml");
            reveal_strlit("**/README.md");
            reveal_strlit("**/README*");
            let extra: Seq<Seq<char>> = if config.allowlist@.len() == 0 {
                seq!["**/*.yaml"@, "**/*.yml"@, "**/README.md"@, "**/README*"@]
            } else {
                seq!["**/README.md"@, "**/README*"@]
            };
            assert(views(allow@) =~= views(config.allowlist@) + extra);
            lemma_pattern_bytes_concat(views(config.allowlist@), extra);
            reveal_with_fuel(pattern_bytes, 5);
            assert(pattern_bytes(extra) < 64);
        }
        let deny = copy_strings(&config.denylist);
        let protected = copy_strings(&config.protected_dirs);
        Self::from_patterns(allow, deny, protected)
    }

    /// Check if a path matches the allowlist patterns.
    pub fn matches_allowlist(&self, path: &str) -> (r: bool)
        requires
            self.wf(),
        ensures
            r == self.allows(path@),
    {
        if self.allowlist.len() == 0 {
            return true;
        }
        any_set_match(&self.allowlist, path)
    }

    /// Check if a path matches the denylist patterns.
    pub fn matches_denylist(&self, path: &str) -> (r: bool)
        requires
            self.wf(),
        ensures
            r == self.denies(path@),
    {
        if self.denylist.len() == 0 {
            return false;
        }
        any_set_match(&self.denylist, path)
    }

    /// Check if a path is in a protected directory.
    pub fn is_protected(&self, path: &str) -> (r: bool)
        ensures
            r == protected_by(path@, self.protected()),
    {
        let comps = components(path);
        let mut i: usize = 0;
        while i < self.protected_dirs.len()
            invariant
                i <= self.protected_dirs@.len(),
                views(comps@) == path_components(path@),
                forall|j: int|
                    0 <= j < i ==> !(path_under(path@, #[trigger] self.protected()[j])
                        || path_components(path@).contains(self.protected()[j])),
            decreases self.protected_dirs@.len() - i,
        {
            let dir = self.protected_dirs[i].as_str();
            assert(self.protected()[i as int] == dir@);
            if is_under(path, dir) || crate::text::contains_string(&comps, dir) {
                return true;
            }
            i += 1;
        }
        false
    }

    /// Whether a path is internal metadata of promrail.
    pub fn is_internal_metadata(path: &str) -> (r: bool)
        ensures
            r == internal_metadata(path@),
    {
        if is_under(path, ".promrail") {
            return true;
        }
        match file_name(path) {
            Some(n) => str_eq(n.as_str(), ".promotion-snapshots.yaml"),
            None => false,
        }
    }

    /// Check if a path should be promoted.
    pub fn should_promote(&self, path: &str, include_protected: bool) -> (r: bool)
        requires
            self.wf(),
        ensures
            r == self.promotes(path@, include_protected),
    {
        if Self::is_internal_metadata(path) {
            return false;
        }
        let protected_ok = include_protected || !self.is_protected(path);
        protected_ok && !self.matches_denylist(path) && self.matches_allowlist(path)
    }
}

/// `s` with every leading `./` removed.
pub open spec fn trim_dot_slash(s: Seq<char>) -> Seq<char>
    decreases s.len(),
{
    if s.len() >= 2 && s[0] == '.' && s[1] == '/' {
        trim_dot_slash(s.skip(2))
    } else {
        s
    }
}

/// A filter admits a path: `.*` admits all; otherwise the filter without
/// leading `./` is a regular expression that matches it, or, when it is not
/// one, a text that it contains.
pub open spec fn filter_admits(f: Seq<char>, path: Seq<char>) -> bool {
    f == ".*"@ || match regex_outcome(trim_dot_slash(f), path) {
        Some(b) => b,
        None => contains_sub(path, trim_dot_slash(f)),
    }
}

/// A path matches the filters: there are none, or the only one is `.*`,
/// or one of them admits it.
pub open spec fn filters_match(path: Seq<char>, filter: Seq<Seq<char>>) -> bool {
    ||| filter.len() == 0
    ||| (filter.len() == 1 && filter[0] == ".*"@)
    ||| exists|i: int| 0 <= i < filter.len() && filter_admits(#[trigger] filter[i], path)
}

/// `s` with every leading `./` removed.
fn trim_dot_slash_chars(s: &str) -> (r: Vec<char>)
    ensures
        r@ == trim_dot_slash(s@),
{
    let c = chars_of(s);
    let mut i: usize = 0;
    assert(c@.skip(0) =~= c@);
    while c.len() - i >= 2 && c[i] == '.' && c[i + 1] == '/'
        invariant
            i <= c@.len(),
            c@ == s@,
            trim_dot_slash(s@) == trim_dot_slash(c@.skip(i as int)),
        decreases c@.len() - i,
    {
        assert(c@.skip(i as int).skip(2) =~= c@.skip(i + 2));
        i += 2;
    }
    let r = slice_of(c.as_slice(), i, c.len());
    assert(r@ =~= c@.skip(i as int));
    r
}

impl FileSelector {
    /// Check if a path matches any of the filter patterns (regex or
    /// substring).
    pub fn matches_filter(path: &str, filter: &Vec<String>) -> (r: bool)
        ensures
            r == filters_match(path@, views(filter@)),
    {
        if filter.len() == 0 || (filter.len() == 1 && str_eq(filter[0].as_str(), ".*")) {
            return true;
        }
        let p = chars_of(path);
        let mut i: usize = 0;
        while i < filter.len()
            invariant
                i <= filter@.len(),
                p@ == path@,
                forall|j: int| 0 <= j < i ==> !filter_admits(#[trigger] views(filter@)[j], path@),
            decreases filter@.len() - i,
        {
            let f = filter[i].as_str();
            assert(views(filter@)[i as int] == f@);
            if str_eq(f, ".*") {
                assert(filter_admits(views(filter@)[i as int], path@));
                return true;
            }
            let trimmed_chars = trim_dot_slash_chars(f);
            let trimmed = string_of(trimmed_chars.as_slice());
            let hit = match regex_match(trimmed.as_str(), path) {
                Some(b) => b,
                None => contains(p.as_slice(), trimmed_chars.as_slice()),
            };
            if hit {
                assert(filter_admits(views(filter@)[i as int], path@));
                return true;
            }
            i += 1;
        }
        false
    }
}

} // verus!

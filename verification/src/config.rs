//! Persistent settings: ignore patterns, custom categories, the
//! recent-directories list and the default organization scheme.
//!
//! Custom categories are an ordered association list; when an extension is
//! claimed by several categories, the first entry wins.

use vstd::prelude::*;
use vstd::string::StringExecFns;

use crate::text::first_at;
use crate::text::first_char_index;
use crate::text::lemma_first_index;
use crate::text::split_and_trim;
use crate::text::split_commas;
use crate::text::str_eq;
use crate::text::trim_spec;
use vstd::string::StrSliceExecFns;

verus! {

/// The bound on the recent-directories list.
pub const RECENT_LIMIT: usize = 10;

pub struct TidyConfig {
    /// A path containing any of these substrings is skipped.
    pub ignore_patterns: Vec<String>,
    /// Category name paired with the extensions it claims; first match wins.
    pub custom_categories: Vec<(String, Vec<String>)>,
    /// Most recent first, deduplicated, at most `RECENT_LIMIT` entries.
    pub recent_directories: Vec<String>,
    /// One of `type`, `date`, `ext`.
    pub default_organization: String,
}

impl Default for TidyConfig {
    /// The settings written on first run: ignore `.git` and `node_modules`,
    /// no custom categories, no recent directories, organize by type.
    fn default() -> (r: Self)
        ensures
            r.ignore_patterns@.len() == 2,
            r.ignore_patterns@[0]@ == ".git"@,
            r.ignore_patterns@[1]@ == "node_modules"@,
            r.custom_categories@ =~= Seq::<(String, Vec<String>)>::empty(),
            r.recent_directories@ =~= Seq::<String>::empty(),
            r.default_organization@ == "type"@,
    {
        let mut ignore_patterns: Vec<String> = Vec::new();
        ignore_patterns.push(String::from_str(".git"));
        ignore_patterns.push(String::from_str("node_modules"));
        TidyConfig {
            ignore_patterns,
            custom_categories: Vec::new(),
            recent_directories: Vec::new(),
            default_organization: String::from_str("type"),
        }
    }
}

/// `s` with every string whose characters equal `x` removed, order kept.
pub open spec fn remove_matching(s: Seq<String>, x: Seq<char>) -> Seq<String>
    decreases s.len(),
{
    if s.len() == 0 {
        s
    } else if s.last()@ == x {
        remove_matching(s.drop_last(), x)
    } else {
        remove_matching(s.drop_last(), x) + seq![s.last()]
    }
}

/// Records `dir` as the most recently used directory: an existing entry for
/// it moves to the front rather than duplicating, and the list is cut back
/// to `RECENT_LIMIT` entries.
pub fn update_recent_directories(config: &mut TidyConfig, dir: &str)
    ensures
        final(config).recent_directories@.len() <= RECENT_LIMIT,
        final(config).recent_directories@.len() > 0,
        final(config).recent_directories@[0]@ == dir@,
        ({
            let kept = remove_matching(old(config).recent_directories@, dir@);
            &&& final(config).recent_directories@.len() == vstd::math::min(
                kept.len() as int + 1,
                RECENT_LIMIT as int,
            )
            &&& forall|i: int|
                1 <= i < final(config).recent_directories@.len()
                    ==> final(config).recent_directories@[i] == kept[i - 1]
        }),
        final(config).ignore_patterns == old(config).ignore_patterns,
        final(config).custom_categories == old(config).custom_categories,
        final(config).default_organization == old(config).default_organization,
{
    let ghost old_recent = config.recent_directories@;
    let mut out: Vec<String> = Vec::new();
    out.push(dir.to_owned());
    let n = config.recent_directories.len();
    let mut i: usize = 0;
    while i < n
        invariant
            n == old_recent.len(),
            config.recent_directories@ == old_recent,
            i <= n,
            out@.len() >= 1,
            out@[0]@ == dir@,
            out@.skip(1) =~= remove_matching(old_recent.take(i as int), dir@),
        decreases n - i,
    {
        let entry = &config.recent_directories[i];
        proof {
            assert(old_recent.take(i + 1).drop_last() =~= old_recent.take(i as int));
        }
        if !str_eq(entry.as_str(), dir) {
            out.push(entry.clone());
        }
        i += 1;
    }
    proof {
        assert(old_recent.take(n as int) =~= old_recent);
    }
    if out.len() > RECENT_LIMIT {
        out.truncate(RECENT_LIMIT);
    }
    config.recent_directories = out;
}

/// Appends a pattern to the ignore list.
pub fn add_ignore_pattern(config: &mut TidyConfig, pattern: &str)
    ensures
        final(config).ignore_patterns@.len() == old(config).ignore_patterns@.len() + 1,
        final(config).ignore_patterns@.drop_last() == old(config).ignore_patterns@,
        final(config).ignore_patterns@.last()@ == pattern@,
        final(config).custom_categories == old(config).custom_categories,
        final(config).recent_directories == old(config).recent_directories,
        final(config).default_organization == old(config).default_organization,
{
    config.ignore_patterns.push(pattern.to_owned());
    proof {
        assert(final(config).ignore_patterns@.drop_last() =~= old(config).ignore_patterns@);
    }
}

/// Removes every ignore pattern equal to `pattern`; reports whether any was
/// present.
pub fn remove_ignore_pattern(config: &mut TidyConfig, pattern: &str) -> (removed: bool)
    ensures
        final(config).ignore_patterns@ == remove_matching(old(config).ignore_patterns@, pattern@),
        removed == (final(config).ignore_patterns@.len() < old(config).ignore_patterns@.len()),
        final(config).custom_categories == old(config).custom_categories,
        final(config).recent_directories == old(config).recent_directories,
        final(config).default_organization == old(config).default_organization,
{
    let ghost old_patterns = config.ignore_patterns@;
    let mut out: Vec<String> = Vec::new();
    let n = config.ignore_patterns.len();
    let mut i: usize = 0;
    while i < n
        invariant
            n == old_patterns.len(),
            config.ignore_patterns@ == old_patterns,
            i <= n,
            out@ =~= remove_matching(old_patterns.take(i as int), pattern@),
            out@.len() <= i,
        decreases n - i,
    {
        let entry = &config.ignore_patterns[i];
        proof {
            assert(old_patterns.take(i + 1).drop_last() =~= old_patterns.take(i as int));
        }
        if !str_eq(entry.as_str(), pattern) {
            out.push(entry.clone());
        }
        i += 1;
    }
    proof {
        assert(old_patterns.take(n as int) =~= old_patterns);
    }
    let removed = out.len() < config.ignore_patterns.len();
    config.ignore_patterns = out;
    removed
}

/// Sets the default organization scheme when `scheme` is one of `type`,
/// `date`, `ext`; otherwise leaves the configuration untouched.
pub fn set_default_organization(config: &mut TidyConfig, scheme: &str) -> (accepted: bool)
    ensures
        accepted == (scheme@ == "type"@ || scheme@ == "date"@ || scheme@ == "ext"@),
        accepted ==> final(config).default_organization@ == scheme@,
        !accepted ==> final(config).default_organization == old(config).default_organization,
        final(config).ignore_patterns == old(config).ignore_patterns,
        final(config).custom_categories == old(config).custom_categories,
        final(config).recent_directories == old(config).recent_directories,
{
    if str_eq(scheme, "type") || str_eq(scheme, "date") || str_eq(scheme, "ext") {
        config.default_organization = scheme.to_owned();
        true
    } else {
        false
    }
}

/// `s` with every category entry named `x` removed, order kept.
pub open spec fn remove_category(s: Seq<(String, Vec<String>)>, x: Seq<char>) -> Seq<
    (String, Vec<String>),
>
    decreases s.len(),
{
    if s.len() == 0 {
        s
    } else if s.last().0@ == x {
        remove_category(s.drop_last(), x)
    } else {
        remove_category(s.drop_last(), x) + seq![s.last()]
    }
}

/// Adds a custom category, replacing any earlier entry of the same name.
pub fn add_custom_category(config: &mut TidyConfig, name: String, extensions: Vec<String>)
    ensures
        final(config).custom_categories@ == remove_category(
            old(config).custom_categories@,
            name@,
        ) + seq![(name, extensions)],
        final(config).ignore_patterns == old(config).ignore_patterns,
        final(config).recent_directories == old(config).recent_directories,
        final(config).default_organization == old(config).default_organization,
{
    let ghost old_cats = config.custom_categories@;
    let mut out: Vec<(String, Vec<String>)> = Vec::new();
    let n = config.custom_categories.len();
    let mut i: usize = 0;
    while i < n
        invariant
            n == old_cats.len(),
            config.custom_categories@ =~= old_cats.skip(i as int),
            i <= n,
            out@ =~= remove_category(old_cats.take(i as int), name@),
            config.ignore_patterns == old(config).ignore_patterns,
            config.recent_directories == old(config).recent_directories,
            config.default_organization == old(config).default_organization,
        decreases n - i,
    {
        let entry = config.custom_categories.remove(0);
        proof {
            assert(entry == old_cats[i as int]);
            assert(old_cats.skip(i as int).remove(0) =~= old_cats.skip(i + 1));
            assert(old_cats.take(i + 1).drop_last() =~= old_cats.take(i as int));
        }
        if !str_eq(entry.0.as_str(), name.as_str()) {
            out.push(entry);
        }
        i += 1;
    }
    proof {
        assert(old_cats.take(n as int) =~= old_cats);
    }
    out.push((name, extensions));
    config.custom_categories = out;
    proof {
        assert(final(config).custom_categories@ =~= remove_category(old_cats, name@) + seq![
            (name, extensions),
        ]);
    }
}

/// Parses a custom-category definition of the form `name:ext1,ext2`: the
/// name is everything before the first colon, taken as written, and the
/// extensions are the comma-separated pieces after it, each trimmed of ASCII
/// whitespace. A definition without a colon is rejected.
pub fn parse_category_spec(definition: &str) -> (r: Option<(String, Vec<String>)>)
    ensures
        match first_at(definition@, ':') {
            None => r is None,
            Some(p) => {
                &&& r matches Some((name, exts))
                &&& r matches Some((name, exts)) ==> {
                    let pieces = split_commas(definition@.subrange(
                        p + 1,
                        definition@.len() as int,
                    ));
                    &&& name@ == definition@.take(p)
                    &&& exts@.len() == pieces.len()
                    &&& forall|i: int|
                        0 <= i < exts@.len() ==> (#[trigger] exts@[i])@ == trim_spec(pieces[i])
                }
            },
        },
{
    let n = definition.unicode_len();
    let found = first_char_index(definition, ':');
    proof {
        lemma_first_index(definition@, ':', found);
    }
    match found {
        None => None,
        Some(p) => {
            let name = definition.substring_char(0, p).to_owned();
            let rest = definition.substring_char(p + 1, n);
            let exts = split_and_trim(rest);
            proof {
                assert(name@ =~= definition@.take(p as int));
            }
            Some((name, exts))
        },
    }
}

} // verus!

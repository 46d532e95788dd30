//! Scan records: one entry per regular file, the ignore-pattern filter, and
//! the merge step that turns per-file outcomes into an ordered result
//! collection plus an error count.

use vstd::prelude::*;

use crate::category::category_ok;
use crate::category::FileCategory;
use crate::config::TidyConfig;
use crate::text::contains_sub;
use crate::text::spec_contains;

verus! {

/// One scanned regular file: a snapshot of its path, size, modification
/// time, category and (when requested) content digest.
#[derive(Debug)]
pub struct FileInfo {
    pub path: String,
    pub size: u64,
    /// Seconds since the epoch, UTC.
    pub last_modified: u64,
    pub category: FileCategory,
    /// Present only when duplicate detection asked for content hashing.
    pub hash: Option<String>,
}

impl Clone for FileInfo {
    fn clone(&self) -> (r: Self)
        ensures
            r == *self,
    {
        FileInfo {
            path: self.path.clone(),
            size: self.size,
            last_modified: self.last_modified,
            category: self.category.clone(),
            hash: match &self.hash {
                Some(h) => Some(h.clone()),
                None => None,
            },
        }
    }
}

/// A path is ignored when any configured pattern occurs in it.
pub open spec fn spec_should_ignore(path: Seq<char>, patterns: Seq<String>) -> bool {
    exists|k: int| 0 <= k < patterns.len() && spec_contains(path, #[trigger] patterns[k]@)
}

/// Whether the ignore-pattern filter excludes `path` from a scan.
pub fn should_ignore(path: &str, patterns: &Vec<String>) -> (r: bool)
    ensures
        r == spec_should_ignore(path@, patterns@),
{
    let mut i: usize = 0;
    while i < patterns.len()
        invariant
            i <= patterns@.len(),
            forall|k: int| 0 <= k < i ==> !spec_contains(path@, #[trigger] patterns@[k]@),
        decreases patterns@.len() - i,
    {
        if contains_sub(path, patterns[i].as_str()) {
            return true;
        }
        i += 1;
    }
    false
}

/// Builds the record for one scanned file from its metadata snapshot,
/// classifying the path under the configuration.
pub fn make_file_info(
    path: String,
    size: u64,
    last_modified: u64,
    config: &TidyConfig,
    hash: Option<String>,
) -> (r: FileInfo)
    ensures
        r.path == path,
        r.size == size,
        r.last_modified == last_modified,
        r.hash == hash,
        category_ok(r.category, path@, config.custom_categories@),
{
    let category = crate::category::determine_category(path.as_str(), config);
    FileInfo { path, size, last_modified, category, hash }
}

/// The records among a sequence of per-file outcomes, in order.
pub open spec fn collected(s: Seq<Option<FileInfo>>) -> Seq<FileInfo>
    decreases s.len(),
{
    if s.len() == 0 {
        Seq::<FileInfo>::empty()
    } else {
        match s.last() {
            Some(info) => collected(s.drop_last()) + seq![info],
            None => collected(s.drop_last()),
        }
    }
}

/// How many outcomes in the sequence are failures.
pub open spec fn error_count(s: Seq<Option<FileInfo>>) -> int
    decreases s.len(),
{
    if s.len() == 0 {
        0
    } else {
        error_count(s.drop_last()) + (if s.last() is None {
            1int
        } else {
            0int
        })
    }
}

/// Merges per-file outcomes into the ordered result collection and the count
/// of files that failed: a failed file never aborts the scan of the others.
pub fn collect_scan(outcomes: &Vec<Option<FileInfo>>) -> (r: (Vec<FileInfo>, u64))
    ensures
        r.0@ == collected(outcomes@),
        r.1 == error_count(outcomes@),
{
    let mut records: Vec<FileInfo> = Vec::new();
    let mut errors: u64 = 0;
    let mut i: usize = 0;
    while i < outcomes.len()
        invariant
            i <= outcomes@.len(),
            records@ =~= collected(outcomes@.take(i as int)),
            errors == error_count(outcomes@.take(i as int)),
            errors <= i,
        decreases outcomes@.len() - i,
    {
        proof {
            assert(outcomes@.take(i + 1).drop_last() =~= outcomes@.take(i as int));
        }
        match &outcomes[i] {
            Some(info) => {
                records.push(info.clone());
            },
            None => {
                errors = errors + 1;
            },
        }
        i += 1;
    }
    proof {
        assert(outcomes@.take(outcomes@.len() as int) =~= outcomes@);
    }
    (records, errors)
}

/// An in-memory picture of a filesystem subtree, as the walker sees it: a
/// regular file, or a directory with its entries.
pub enum FsTree {
    File { name: String },
    Dir { name: String, entries: Vec<FsTree> },
}

/// The paths the walker yields for one entry under `prefix`: an ignored
/// entry is skipped with its whole subtree; a directory's contents appear
/// only in a recursive walk.
pub open spec fn walked_one(
    t: FsTree,
    prefix: Seq<char>,
    recursive: bool,
    patterns: Seq<String>,
) -> Seq<Seq<char>>
    decreases t,
{
    match t {
        FsTree::File { name } => {
            let p = prefix + seq!['/'] + name@;
            if spec_should_ignore(p, patterns) {
                Seq::<Seq<char>>::empty()
            } else {
                seq![p]
            }
        },
        FsTree::Dir { name, entries } => {
            let p = prefix + seq!['/'] + name@;
            if spec_should_ignore(p, patterns) {
                Seq::<Seq<char>>::empty()
            } else if recursive {
                walked_entries(entries@, p, recursive, patterns)
            } else {
                Seq::<Seq<char>>::empty()
            }
        },
    }
}

/// The paths the walker yields for a list of sibling entries, in order.
pub open spec fn walked_entries(
    es: Seq<FsTree>,
    prefix: Seq<char>,
    recursive: bool,
    patterns: Seq<String>,
) -> Seq<Seq<char>>
    decreases es, 0int,
{
    if es.len() == 0 {
        Seq::<Seq<char>>::empty()
    } else {
        walked_entries(es.drop_last(), prefix, recursive, patterns) + walked_one(
            es.last(),
            prefix,
            recursive,
            patterns,
        )
    }
}

/// The file paths a walk of `root` yields: the direct children of the root
/// always, deeper levels only when `recursive` is set, and nothing from an
/// ignored entry's subtree.
pub open spec fn spec_walk(
    root: FsTree,
    recursive: bool,
    patterns: Seq<String>,
) -> Seq<Seq<char>> {
    match root {
        FsTree::File { name } => {
            if spec_should_ignore(name@, patterns) {
                Seq::<Seq<char>>::empty()
            } else {
                seq![name@]
            }
        },
        FsTree::Dir { name, entries } => {
            if spec_should_ignore(name@, patterns) {
                Seq::<Seq<char>>::empty()
            } else {
                walked_entries(entries@, name@, recursive, patterns)
            }
        },
    }
}

fn walk_one(t: &FsTree, prefix: &str, recursive: bool, patterns: &Vec<String>) -> (r: Vec<String>)
    ensures
        r@.len() == walked_one(*t, prefix@, recursive, patterns@).len(),
        forall|i: int|
            0 <= i < r@.len() ==> (#[trigger] r@[i])@ == walked_one(
                *t,
                prefix@,
                recursive,
                patterns@,
            )[i],
    decreases *t,
{
    match t {
        FsTree::File { name } => {
            let mut p = prefix.to_owned();
            p.push('/');
            p.append(name.as_str());
            proof {
                assert(p@ =~= prefix@ + seq!['/'] + name@);
            }
            let mut r: Vec<String> = Vec::new();
            if !should_ignore(p.as_str(), patterns) {
                r.push(p);
            }
            r
        },
        FsTree::Dir { name, entries } => {
            let mut p = prefix.to_owned();
            p.push('/');
            p.append(name.as_str());
            proof {
                assert(p@ =~= prefix@ + seq!['/'] + name@);
            }
            let mut r: Vec<String> = Vec::new();
            if !should_ignore(p.as_str(), patterns) && recursive {
                let n = entries.len();
                let mut i: usize = 0;
                while i < n
                    invariant
                        n == entries@.len(),
                        i <= n,
                        t is Dir,
                        entries@ == t->Dir_entries@,
                        p@ == prefix@ + seq!['/'] + name@,
                        name@ == t->Dir_name@,
                        recursive,
                        !spec_should_ignore(p@, patterns@),
                        r@.len() == walked_entries(
                            entries@.take(i as int),
                            p@,
                            recursive,
                            patterns@,
                        ).len(),
                        forall|j: int|
                            0 <= j < r@.len() ==> (#[trigger] r@[j])@ == walked_entries(
                                entries@.take(i as int),
                                p@,
                                recursive,
                                patterns@,
                            )[j],
                    decreases n - i,
                {
                    proof {
                        assert(entries@.take(i + 1).drop_last() =~= entries@.take(i as int));
                        assert(decreases_to!(*t => entries@[i as int]));
                    }
                    let mut sub = walk_one(&entries[i], p.as_str(), recursive, patterns);
                    r.append(&mut sub);
                    i += 1;
                }
                proof {
                    assert(entries@.take(n as int) =~= entries@);
                }
            }
            r
        },
    }
}

/// Walks an in-memory subtree: yields the root's direct children always,
/// deeper files only when `recursive` is set, and skips every entry (with
/// its subtree) that the ignore patterns match.
pub fn walk_tree(root: &FsTree, recursive: bool, patterns: &Vec<String>) -> (r: Vec<String>)
    ensures
        r@.len() == spec_walk(*root, recursive, patterns@).len(),
        forall|i: int|
            0 <= i < r@.len() ==> (#[trigger] r@[i])@ == spec_walk(*root, recursive, patterns@)[i],
{
    match root {
        FsTree::File { name } => {
            let mut r: Vec<String> = Vec::new();
            if !should_ignore(name.as_str(), patterns) {
                r.push(name.clone());
            }
            r
        },
        FsTree::Dir { name, entries } => {
            let mut r: Vec<String> = Vec::new();
            if !should_ignore(name.as_str(), patterns) {
                let n = entries.len();
                let mut i: usize = 0;
                while i < n
                    invariant
                        n == entries@.len(),
                        i <= n,
                        root is Dir,
                        entries@ == root->Dir_entries@,
                        name@ == root->Dir_name@,
                        !spec_should_ignore(name@, patterns@),
                        r@.len() == walked_entries(
                            entries@.take(i as int),
                            name@,
                            recursive,
                            patterns@,
                        ).len(),
                        forall|j: int|
                            0 <= j < r@.len() ==> (#[trigger] r@[j])@ == walked_entries(
                                entries@.take(i as int),
                                name@,
                                recursive,
                                patterns@,
                            )[j],
                    decreases n - i,
                {
                    proof {
                        assert(entries@.take(i + 1).drop_last() =~= entries@.take(i as int));
                    }
                    let mut sub = walk_one(&entries[i], name.as_str(), recursive, patterns);
                    r.append(&mut sub);
                    i += 1;
                }
                proof {
                    assert(entries@.take(n as int) =~= entries@);
                }
            }
            r
        },
    }
}

} // verus!

//! Discovery of the files a run visits: the targets as given, or the
//! regular files found under them by a recursive walk.

use vstd::prelude::*;
use crate::config::Config;
use walkdir::WalkDir;

verus! {

/// One entry of a directory walk, as plain values: whether it is a
/// regular file, and its path.
pub struct FileEntry {
    pub is_file: bool,
    pub path: String,
}

/// Relies on `walkdir::WalkDir::new` and its iterator: a depth-first walk
/// of the tree rooted at `root`, skipping entries it cannot read. Each
/// entry read is handed back as the file type it was read with —
/// a regular file or not — and its path rendered as a string. Which
/// entries the walk yields depends on the filesystem, so nothing is
/// stated of the result.
#[verifier::external_body]
fn walk_entries(root: &str) -> Vec<FileEntry> {
    WalkDir::new(root)
        .into_iter()
        .filter_map(|entry| entry.ok())
        .map(
            |entry| FileEntry {
                is_file: entry.file_type().is_file(),
                path: entry.path().display().to_string(),
            },
        )
        .collect()
}

/// The paths of the regular files among `entries`, in order, duplicates
/// kept.
pub open spec fn regular_files_of(entries: Seq<FileEntry>) -> Seq<String> {
    entries.filter(|e: FileEntry| e.is_file).map_values(|e: FileEntry| e.path)
}

/// The files of a sequence of walks, concatenated in walk order: each
/// walk contributes the paths of its regular files, in its own order,
/// and nothing is deduplicated across walks.
pub open spec fn walked_files(walks: Seq<Seq<FileEntry>>) -> Seq<String>
    decreases walks.len(),
{
    if walks.len() == 0 {
        Seq::empty()
    } else {
        walked_files(walks.drop_last()) + regular_files_of(walks.last())
    }
}

/// One more entry contributes its path exactly when it is a regular
/// file.
proof fn lemma_regular_files_push(entries: Seq<FileEntry>, e: FileEntry)
    ensures
        e.is_file ==> regular_files_of(entries.push(e)) == regular_files_of(entries).push(e.path),
        !e.is_file ==> regular_files_of(entries.push(e)) == regular_files_of(entries),
{
    broadcast use vstd::prelude::Seq::lemma_push_map_commute;

    reveal(Seq::filter);
    let all = entries.push(e);
    assert(all.drop_last() =~= entries);
    assert(all.last() == e);
}

/// Keeps the paths of the regular files among `entries`, in order.
pub fn keep_regular_files(entries: &Vec<FileEntry>) -> (r: Vec<String>)
    ensures
        r@ == regular_files_of(entries@),
{
    let mut r: Vec<String> = Vec::new();
    let n = entries.len();
    let mut i: usize = 0;
    proof {
        assert(entries@.take(0) =~= Seq::<FileEntry>::empty());
        assert(regular_files_of(entries@.take(0)) =~= r@);
    }
    while i < n
        invariant
            n == entries@.len(),
            0 <= i <= n,
            r@ == regular_files_of(entries@.take(i as int)),
        decreases n - i,
    {
        proof {
            let prev = entries@.take(i as int);
            assert(entries@.take(i + 1) =~= prev.push(entries@[i as int]));
            lemma_regular_files_push(prev, entries@[i as int]);
        }
        if entries[i].is_file {
            r.push(entries[i].path.clone());
        }
        i = i + 1;
    }
    proof {
        assert(entries@.take(n as int) =~= entries@);
    }
    r
}

/// Walks every target root in order and keeps the paths of the regular
/// files found. The result is the concatenation, in target order, of
/// each target's walk filtered to its regular files: per-walk order is
/// preserved and nothing is deduplicated across targets. What each walk
/// yields depends on the filesystem, so the walks themselves are
/// existentially quantified; with no targets nothing is walked.
pub fn collect_files_recursively(targets: &Vec<String>) -> (r: Vec<String>)
    ensures
        targets@.len() == 0 ==> r@.len() == 0,
        exists|walks: Seq<Seq<FileEntry>>|
            walks.len() == targets@.len() && r@ == #[trigger] walked_files(walks),
{
    let mut files: Vec<String> = Vec::new();
    let ghost mut walks = Seq::<Seq<FileEntry>>::empty();
    let mut i: usize = 0;
    while i < targets.len()
        invariant
            0 <= i <= targets@.len(),
            walks.len() == i,
            files@ == walked_files(walks),
        decreases targets@.len() - i,
    {
        let entries = walk_entries(targets[i].as_str());
        let mut found = keep_regular_files(&entries);
        proof {
            assert(walks.push(entries@).drop_last() =~= walks);
            assert(walks.push(entries@).last() == entries@);
            walks = walks.push(entries@);
        }
        files.append(&mut found);
        i = i + 1;
    }
    proof {
        assert(walks.len() == targets@.len() && files@ == walked_files(walks));
    }
    files
}

/// The files a run scans, in order: the targets unchanged when the search
/// is not recursive, else the regular files discovered under them, walk
/// by walk.
pub fn plan_targets(config: &Config) -> (r: Vec<String>)
    ensures
        !config.recursive_search ==> r@ == config.target_files@,
        config.recursive_search ==> exists|walks: Seq<Seq<FileEntry>>|
            walks.len() == config.target_files@.len() && r@ == #[trigger] walked_files(walks),
        config.recursive_search && config.target_files@.len() == 0 ==> r@.len() == 0,
{
    if config.recursive_search {
        collect_files_recursively(&config.target_files)
    } else {
        let r = config.target_files.clone();
        proof {
            assert(r@ =~= config.target_files@);
        }
        r
    }
}

} // verus!

//! Selecting the data files among the entries that a directory walk met.

use vstd::prelude::*;
use vstd::string::StrSliceExecFns;
use crate::stack::reversed;

verus! {

/// One step of a recursive directory walk.
#[derive(Debug, Clone, PartialEq, Eq)]
pub enum WalkEntry {
    /// A regular file, by its path.
    File(String),
    /// Any other entry (a directory, a link), by its path.
    Other(String),
    /// An entry that could not be read, by the cause.
    Unreadable(String),
}

/// What a walk yields: the data files to decode and the causes of the
/// entries that were passed over.
#[derive(Debug, Clone, PartialEq, Eq)]
pub struct Discovery {
    pub paths: Vec<String>,
    pub skipped: Vec<String>,
}

/// A path names a data file when it ends in `.json`.
pub open spec fn is_json_path(path: Seq<char>) -> bool {
    &&& path.len() >= 5
    &&& path[path.len() - 5] == '.'
    &&& path[path.len() - 4] == 'j'
    &&& path[path.len() - 3] == 's'
    &&& path[path.len() - 2] == 'o'
    &&& path[path.len() - 1] == 'n'
}

/// The path of an entry, or the cause for an unreadable one.
pub open spec fn entry_text(entry: WalkEntry) -> String {
    match entry {
        WalkEntry::File(path) => path,
        WalkEntry::Other(path) => path,
        WalkEntry::Unreadable(cause) => cause,
    }
}

/// Picks the regular files that are data files.
pub open spec fn data_file_entry() -> spec_fn(WalkEntry) -> bool {
    |entry: WalkEntry| entry is File && is_json_path(entry_text(entry)@)
}

/// Picks the entries that could not be read.
pub open spec fn unreadable_entry() -> spec_fn(WalkEntry) -> bool {
    |entry: WalkEntry| entry is Unreadable
}

/// The paths of the data files among `entries`, in walk order.
pub open spec fn data_files(entries: Seq<WalkEntry>) -> Seq<String> {
    entries.filter(data_file_entry()).map_values(|entry: WalkEntry| entry_text(entry))
}

/// The causes of the unreadable entries among `entries`, in walk order.
pub open spec fn unreadable(entries: Seq<WalkEntry>) -> Seq<String> {
    entries.filter(unreadable_entry()).map_values(|entry: WalkEntry| entry_text(entry))
}

/// Whether a path ends in `.json`.
pub fn has_json_extension(path: &str) -> (yes: bool)
    ensures
        yes == is_json_path(path@),
{
    let n: usize = path.unicode_len();
    if n < 5 {
        return false;
    }
    path.get_char(n - 5) == '.' && path.get_char(n - 4) == 'j' && path.get_char(n - 3) == 's'
        && path.get_char(n - 2) == 'o' && path.get_char(n - 1) == 'n'
}

/// Goes through the entries of a walk: every regular file whose path ends in
/// `.json` is a data file, every unreadable entry is passed over and its
/// cause kept, everything else is ignored.
pub fn discover(entries: Vec<WalkEntry>) -> (found: Discovery)
    ensures
        found.paths@ == data_files(entries@),
        found.skipped@ == unreadable(entries@),
{
    let ghost all = entries@;
    let mut stack = reversed(entries);
    let mut paths: Vec<String> = Vec::new();
    let mut skipped: Vec<String> = Vec::new();
    proof {
        broadcast use vstd::seq_lib::group_filter_ensures;
        assert(all.subrange(0, 0) =~= Seq::empty());
        assert(all.subrange(0, 0).filter(data_file_entry()).len() == 0);
        assert(all.subrange(0, 0).filter(unreadable_entry()).len() == 0);
        assert(paths@ =~= data_files(all.subrange(0, 0)));
        assert(skipped@ =~= unreadable(all.subrange(0, 0)));
    }
    while stack.len() > 0
        invariant
            stack@.len() <= all.len(),
            forall|i: int| 0 <= i < stack@.len() ==> stack@[i] == all[all.len() - 1 - i],
            paths@ == data_files(all.subrange(0, all.len() - stack@.len())),
            skipped@ == unreadable(all.subrange(0, all.len() - stack@.len())),
        decreases stack.len(),
    {
        let ghost done = all.subrange(0, all.len() - stack@.len());
        let entry = stack.pop().unwrap();
        proof {
            let now = all.subrange(0, all.len() - stack@.len());
            assert(now =~= done.push(entry));
            done.lemma_filter_push(entry, data_file_entry());
            done.lemma_filter_push(entry, unreadable_entry());
        }
        match entry {
            WalkEntry::File(path) => {
                if has_json_extension(path.as_str()) {
                    paths.push(path);
                    assert(paths@ =~= data_files(done.push(entry)));
                }
            },
            WalkEntry::Other(_) => {},
            WalkEntry::Unreadable(cause) => {
                skipped.push(cause);
                assert(skipped@ =~= unreadable(done.push(entry)));
            },
        }
    }
    assert(all.subrange(0, all.len() as int) =~= all);
    Discovery { paths, skipped }
}

/// Discovery is exact: a path is selected if and only if it ends in `.json`
/// and a regular file of the walk bears it.
pub proof fn lemma_data_files_exact(entries: Seq<WalkEntry>, path: String)
    ensures
        data_files(entries).contains(path) <==> (entries.contains(WalkEntry::File(path))
            && is_json_path(path@)),
{
    let picked = entries.filter(data_file_entry());
    if data_files(entries).contains(path) {
        let i: int = choose|i: int| 0 <= i < picked.len() && data_files(entries)[i] == path;
        entries.lemma_filter_pred(data_file_entry(), i);
        assert(picked[i] == WalkEntry::File(path));
        assert(picked.contains(picked[i]));
        entries.lemma_filter_contains_rev(data_file_entry(), picked[i]);
    }
    if entries.contains(WalkEntry::File(path)) && is_json_path(path@) {
        let j: int = choose|j: int| 0 <= j < entries.len() && entries[j] == WalkEntry::File(path);
        entries.lemma_filter_contains(data_file_entry(), j);
        let k: int = choose|k: int| 0 <= k < picked.len() && picked[k] == entries[j];
        assert(data_files(entries)[k] == path);
    }
}

} // verus!

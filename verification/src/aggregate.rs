//! Merging the records of many data files, with a report for each file that
//! gave none, and the ordered listing made of them.

use vstd::prelude::*;
use crate::recency::{ranked, recency_order, same_ties, sort_by_recency};
use crate::record::Repository;
use crate::stack::reversed;

verus! {

/// Why a data file gave no records, with the cause in words.
#[derive(Debug, Clone, PartialEq, Eq)]
pub enum Failure {
    /// The file could not be read.
    Read(String),
    /// The file was read, but is not a JSON array of records.
    Decode(String),
}

/// What became of one data file: the records decoded from it, or the
/// failure to read or decode it.
#[derive(Debug, PartialEq, Eq)]
pub struct FileReport {
    pub path: String,
    pub outcome: Result<Vec<Repository>, Failure>,
}

/// A data file that contributed nothing, and why.
#[derive(Debug, Clone, PartialEq, Eq)]
pub struct Diagnostic {
    pub path: String,
    pub failure: Failure,
}

/// The records of all files that decoded, and a diagnostic for each that
/// did not.
#[derive(Debug, Clone, PartialEq, Eq)]
pub struct Aggregate {
    pub records: Vec<Repository>,
    pub diagnostics: Vec<Diagnostic>,
}

/// The records that one file contributes: all of them, or none.
pub open spec fn contribution(report: FileReport) -> Seq<Repository> {
    match report.outcome {
        Ok(records) => records@,
        Err(_) => Seq::empty(),
    }
}

/// The contributions of all files, one after the other in file order.
pub open spec fn gathered(files: Seq<FileReport>) -> Seq<Repository>
    decreases files.len(),
{
    if files.len() == 0 {
        Seq::empty()
    } else {
        gathered(files.drop_last()) + contribution(files.last())
    }
}

/// Picks the files that failed.
pub open spec fn failed_file() -> spec_fn(FileReport) -> bool {
    |report: FileReport| report.outcome is Err
}

/// The diagnostic for a failed file.
pub open spec fn diagnostic_of(report: FileReport) -> Diagnostic {
    Diagnostic { path: report.path, failure: report.outcome->Err_0 }
}

/// One diagnostic for each failed file, in file order.
pub open spec fn complaints(files: Seq<FileReport>) -> Seq<Diagnostic> {
    files.filter(failed_file()).map_values(|report: FileReport| diagnostic_of(report))
}

/// Merges the files' records in file order. A file that failed adds no
/// record and one diagnostic, and never stops the files after it.
pub fn aggregate(files: Vec<FileReport>) -> (merged: Aggregate)
    ensures
        merged.records@ == gathered(files@),
        merged.diagnostics@ == complaints(files@),
{
    let ghost all = files@;
    let mut stack = reversed(files);
    let mut records: Vec<Repository> = Vec::new();
    let mut diagnostics: Vec<Diagnostic> = Vec::new();
    proof {
        broadcast use vstd::seq_lib::group_filter_ensures;
        assert(all.subrange(0, 0) =~= Seq::empty());
        assert(all.subrange(0, 0).filter(failed_file()).len() == 0);
        assert(diagnostics@ =~= complaints(all.subrange(0, 0)));
    }
    while stack.len() > 0
        invariant
            stack@.len() <= all.len(),
            forall|i: int| 0 <= i < stack@.len() ==> stack@[i] == all[all.len() - 1 - i],
            records@ == gathered(all.subrange(0, all.len() - stack@.len())),
            diagnostics@ == complaints(all.subrange(0, all.len() - stack@.len())),
        decreases stack.len(),
    {
        let ghost done = all.subrange(0, all.len() - stack@.len());
        let report = stack.pop().unwrap();
        proof {
            let now = all.subrange(0, all.len() - stack@.len());
            assert(now =~= done.push(report));
            assert(now.drop_last() =~= done);
            done.lemma_filter_push(report, failed_file());
        }
        let FileReport { path, outcome } = report;
        match outcome {
            Ok(mut decoded) => {
                records.append(&mut decoded);
            },
            Err(failure) => {
                diagnostics.push(Diagnostic { path, failure });
                assert(diagnostics@ =~= complaints(done.push(report)));
            },
        }
    }
    assert(all.subrange(0, all.len() as int) =~= all);
    Aggregate { records, diagnostics }
}

/// The ordered listing of all records in `files`: merged, then put in
/// recency order. No file's failure reaches the caller but as a diagnostic.
pub fn ordered_listing(files: Vec<FileReport>) -> (listing: Aggregate)
    ensures
        listing.records@ == recency_order(gathered(files@)),
        listing.records@.to_multiset() == gathered(files@).to_multiset(),
        ranked(listing.records@),
        same_ties(listing.records@, gathered(files@)),
        listing.diagnostics@ == complaints(files@),
{
    let merged = aggregate(files);
    let Aggregate { records, diagnostics } = merged;
    Aggregate { records: sort_by_recency(records), diagnostics }
}

/// Files put one after the other contribute their records one after the
/// other.
pub proof fn lemma_gathered_concat(first: Seq<FileReport>, second: Seq<FileReport>)
    ensures
        gathered(first + second) == gathered(first) + gathered(second),
    decreases second.len(),
{
    if second.len() == 0 {
        assert(first + second =~= first);
        assert(gathered(first) + gathered(second) =~= gathered(first));
    } else {
        lemma_gathered_concat(first, second.drop_last());
        assert((first + second).drop_last() =~= first + second.drop_last());
        assert((first + second).last() == second.last());
        assert(gathered(first + second) =~= gathered(first) + gathered(second));
    }
}

/// A failed file contributes no record and leaves the contributions of the
/// files around it as they are.
pub proof fn lemma_failed_file_adds_nothing(files: Seq<FileReport>, at: int)
    requires
        0 <= at < files.len(),
        files[at].outcome is Err,
    ensures
        gathered(files) == gathered(files.remove(at)),
{
    let before = files.subrange(0, at);
    let here = files.subrange(at, at + 1);
    let after = files.subrange(at + 1, files.len() as int);
    assert(files =~= before + here + after);
    assert(files.remove(at) =~= before + after);
    lemma_gathered_concat(before + here, after);
    lemma_gathered_concat(before, here);
    lemma_gathered_concat(before, after);
    assert(here.drop_last() =~= Seq::empty());
    assert(gathered(here.drop_last()) =~= Seq::empty());
    assert(gathered(here) =~= Seq::empty());
    assert(gathered(before) + gathered(here) =~= gathered(before));
}

/// Nothing in, nothing out: no files give no records and no diagnostics.
pub proof fn lemma_no_files_no_records()
    ensures
        recency_order(gathered(Seq::empty())) == Seq::<Repository>::empty(),
        complaints(Seq::empty()) == Seq::<Diagnostic>::empty(),
{
    broadcast use vstd::seq_lib::group_filter_ensures;
    assert(Seq::<FileReport>::empty().filter(failed_file()).len() == 0);
    assert(complaints(Seq::empty()) =~= Seq::<Diagnostic>::empty());
}

} // verus!

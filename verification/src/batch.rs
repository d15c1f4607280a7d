//! Batch export bookkeeping: which files of a folder are projects to export,
//! and the report of how many were exported and which failed.

use vstd::prelude::*;

use crate::text::ends_with;

verus! {

/// The outcome of exporting a folder of projects.
#[derive(Debug, PartialEq)]
pub struct BatchReport {
    pub processed: usize,
    pub failed: usize,
    pub failed_paths: Vec<String>,
}

/// A report of nothing processed and nothing failed.
pub fn empty_report() -> (r: BatchReport)
    ensures
        r.processed == 0,
        r.failed == 0,
        r.failed_paths@.len() == 0,
{
    BatchReport { processed: 0, failed: 0, failed_paths: Vec::new() }
}

/// A project file to export: it ends with `.cadproj` and is not an autosave
/// companion (`.autosave.cadproj`).
pub open spec fn project_file_name(name: Seq<char>) -> bool {
    &&& ".cadproj"@.is_suffix_of(name)
    &&& !".autosave.cadproj"@.is_suffix_of(name)
}

/// Whether the file name names a project file to export.
pub fn is_project_file(name: &str) -> (b: bool)
    ensures
        b == project_file_name(name@),
{
    ends_with(name, ".cadproj") && !ends_with(name, ".autosave.cadproj")
}

/// A file is exported exactly when its name is some name followed by
/// `.cadproj`, unless that name ends with `.autosave`: every project file is
/// exported, a recovered one (`<name>.recovered.cadproj`) among them, and
/// only autosave companions and other files are skipped.
pub proof fn lemma_project_files_are_the_cadproj_files_but_autosaves(stem: Seq<char>, other: Seq<char>)
    ensures
        project_file_name(stem + ".cadproj"@) <==> !".autosave"@.is_suffix_of(stem),
        project_file_name(stem + ".recovered.cadproj"@),
        !".cadproj"@.is_suffix_of(other) ==> !project_file_name(other),
{
    reveal_strlit(".cadproj");
    reveal_strlit(".autosave");
    reveal_strlit(".autosave.cadproj");
    reveal_strlit(".recovered.cadproj");
    let c = ".cadproj"@;
    let a = ".autosave"@;
    let ac = ".autosave.cadproj"@;
    assert(ac =~= a + c);
    let n = stem + c;
    assert(n.subrange(n.len() - 8, n.len() as int) =~= c);
    if a.is_suffix_of(stem) {
        assert(n.subrange(n.len() - 17, n.len() as int) =~= stem.subrange(stem.len() - 9, stem.len() as int) + c);
    }
    if n.len() >= 17 && n.subrange(n.len() - 17, n.len() as int) == ac {
        assert(stem.subrange(stem.len() - 9, stem.len() as int) =~= n.subrange(n.len() - 17, n.len() as int).subrange(0, 9));
        assert(ac.subrange(0, 9) =~= a);
    }
    let r = stem + ".recovered.cadproj"@;
    assert(r.subrange(r.len() - 8, r.len() as int) =~= c);
    if r.len() >= 17 && r.subrange(r.len() - 17, r.len() as int) == ac {
        assert(r[r.len() - 17] == ac[0]);
        assert(r[r.len() - 16] == ac[1]);
    }
}

impl BatchReport {
    /// Records one project: counted as processed when it was exported,
    /// otherwise counted as failed with its path kept.
    pub fn record(&mut self, path: String, exported: bool)
        requires
            old(self).processed < usize::MAX,
            old(self).failed < usize::MAX,
        ensures
            exported ==> {
                &&& final(self).processed == old(self).processed + 1
                &&& final(self).failed == old(self).failed
                &&& final(self).failed_paths@ == old(self).failed_paths@
            },
            !exported ==> {
                &&& final(self).processed == old(self).processed
                &&& final(self).failed == old(self).failed + 1
                &&& final(self).failed_paths@ == old(self).failed_paths@.push(path)
            },
    {
        if exported {
            self.processed = self.processed + 1;
        } else {
            self.failed = self.failed + 1;
            self.failed_paths.push(path);
        }
    }
}

} // verus!

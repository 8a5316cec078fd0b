//! The decisions of one pass over an input folder: which entries are
//! processed, where a file goes, and the three counters of the summary.
use vstd::prelude::*;
use vstd::string::*;
use crate::classify::{course_of, match_course};
use crate::relocate::MoveNext;
use crate::rules::{rule_views, CourseRule, RuleModel};
use crate::type_folder::{file_type_folder, type_of_name, TypeFolder};

verus! {

/// What the caller saw of one member of the input folder.
pub enum DirEntry {
    /// The entry could not be read.
    Unreadable,
    /// A folder or anything else that is not a regular file.
    NotAFile,
    /// A regular file whose name is not valid text.
    UnnamedFile,
    /// A regular file with this name.
    File(String),
}

/// What to do with one entry.
pub enum EntryDecision {
    /// Not processed, and counted as skipped.
    Skip,
    /// Not processed and not counted.
    Ignore,
    /// Classified and placed under this file name.
    Process(String),
}

/// Names that start with a dot are hidden.
pub open spec fn is_hidden(name: Seq<char>) -> bool {
    name.len() > 0 && name[0] == '.'
}

/// Read errors, names that are not text, and hidden files are skipped;
/// what is not a regular file is ignored; every other file is processed.
pub fn screen_entry(entry: DirEntry) -> (r: EntryDecision)
    ensures
        match entry {
            DirEntry::Unreadable => r is Skip,
            DirEntry::NotAFile => r is Ignore,
            DirEntry::UnnamedFile => r is Skip,
            DirEntry::File(name) => if is_hidden(name@) {
                r is Skip
            } else {
                r matches EntryDecision::Process(n) && n@ == name@
            },
        },
{
    match entry {
        DirEntry::Unreadable => EntryDecision::Skip,
        DirEntry::NotAFile => EntryDecision::Ignore,
        DirEntry::UnnamedFile => EntryDecision::Skip,
        DirEntry::File(name) => {
            if name.as_str().unicode_len() > 0 && name.as_str().get_char(0) == '.' {
                EntryDecision::Skip
            } else {
                EntryDecision::Process(name)
            }
        },
    }
}

/// Where a file goes: `<category>/<type folder>/` under the output root.
pub struct FilePlan {
    pub category: String,
    pub folder: TypeFolder,
    /// Whether a rule matched; the category is `Unsorted` where none did.
    pub matched: bool,
}

/// The category a file is sorted into: its rule's, or `Unsorted`.
pub open spec fn category_of(rules: Seq<RuleModel>, filename: Seq<char>) -> Seq<char> {
    match course_of(rules, filename) {
        Some(c) => c,
        None => "Unsorted"@,
    }
}

/// Classifies a file name and finds its type folder.
pub fn plan_file(rules: &[CourseRule], filename: &str) -> (r: FilePlan)
    ensures
        r.category@ == category_of(rule_views(rules@), filename@),
        r.folder == type_of_name(filename@),
        r.matched == (course_of(rule_views(rules@), filename@) is Some),
{
    let folder = file_type_folder(filename);
    match match_course(rules, filename) {
        Some(category) => FilePlan { category, folder, matched: true },
        None => FilePlan { category: String::from_str("Unsorted"), folder, matched: false },
    }
}

/// Without rules every file goes to `Unsorted`.
pub proof fn law_no_rules_unsorted(filename: Seq<char>)
    ensures
        category_of(Seq::empty(), filename) == "Unsorted"@,
{
}

/// The counters of one pass.
pub struct ScanCounts {
    /// Files whose destination was computed and, outside preview, reached.
    pub processed: usize,
    /// Files that no rule matched.
    pub unmatched: usize,
    /// Entries skipped: read errors, names that are not text, hidden files.
    pub skipped: usize,
}

impl ScanCounts {
    pub fn new() -> (r: ScanCounts)
        ensures
            r.processed == 0,
            r.unmatched == 0,
            r.skipped == 0,
    {
        ScanCounts { processed: 0, unmatched: 0, skipped: 0 }
    }

    /// Counts a skipped entry.
    pub fn count_entry(&mut self, decision: &EntryDecision)
        requires
            old(self).skipped < usize::MAX,
        ensures
            final(self).skipped == old(self).skipped + if decision is Skip {
                1usize
            } else {
                0usize
            },
            final(self).processed == old(self).processed,
            final(self).unmatched == old(self).unmatched,
    {
        if let EntryDecision::Skip = decision {
            self.skipped = self.skipped + 1;
        }
    }

    /// Counts a file that no rule matched.
    pub fn count_plan(&mut self, plan: &FilePlan)
        requires
            old(self).unmatched < usize::MAX,
        ensures
            final(self).unmatched == old(self).unmatched + if plan.matched {
                0usize
            } else {
                1usize
            },
            final(self).processed == old(self).processed,
            final(self).skipped == old(self).skipped,
    {
        if !plan.matched {
            self.unmatched = self.unmatched + 1;
        }
    }

    /// Counts a file whose handling ended: planned or moved files count as
    /// processed, failed ones do not.
    pub fn count_outcome(&mut self, outcome: &MoveNext)
        requires
            old(self).processed < usize::MAX,
        ensures
            final(self).processed == old(self).processed + if outcome is Planned
                || outcome is Moved {
                1usize
            } else {
                0usize
            },
            final(self).unmatched == old(self).unmatched,
            final(self).skipped == old(self).skipped,
    {
        match outcome {
            MoveNext::Planned | MoveNext::Moved => {
                self.processed = self.processed + 1;
            },
            _ => {},
        }
    }
}

} // verus!

//! Scanning a tree of files that was read beforehand: which entries are
//! scanned, and in which order their diagnostics come.

use vstd::prelude::*;
use crate::defaults::covers_detectors;
use crate::linter::diagnostic_views;
use crate::linter::lint_source;
use crate::linter::Diagnostic;
use crate::model::detector_rules;
use crate::model::scan_of;
use crate::model::DetectorRules;
use crate::model::DiagnosticView;
use crate::model::ScanContext;
use crate::rules::RuleRegistry;
use crate::text::back_to;
use crate::text::chars_of;
use crate::text::eq_str;
use crate::text::after_last;
use crate::text::lemma_back_to_bounds;

verus! {

/// The name of the directory that holds build output, and is never
/// scanned.
pub const BUILD_DIR: &'static str = "target";

/// The extension of the files that are scanned.
pub const SOURCE_EXTENSION: &'static str = "rs";

/// An entry of a file tree, as it was read from disk.
pub enum Entry {
    /// A file: its name, the path under which it is reported, and its
    /// contents. The contents of a file that is no source file are not
    /// looked at and may be left empty.
    File { name: String, path: String, text: String },
    /// A directory: its name and its entries, in the order of the listing.
    Dir { name: String, entries: Vec<Entry> },
}

/// The extension of a file name: what follows its last `.`, unless that is
/// its first character; none in a name without `.`.
pub open spec fn extension_of(name: Seq<char>) -> Option<Seq<char>> {
    let j = back_to(name, '.', name.len() as int);
    if j <= 1 {
        None
    } else {
        Some(name.subrange(j, name.len() as int))
    }
}

/// `name` is the name of a source file.
pub open spec fn is_source_name(name: Seq<char>) -> bool {
    extension_of(name) == Some(SOURCE_EXTENSION@)
}

/// `name` is the name of the build directory.
pub open spec fn is_build_dir(name: Seq<char>) -> bool {
    name == BUILD_DIR@
}

/// The diagnostics of the tree `entry`: those of its source files, in the
/// order of the tree. Whatever is named like the build directory is left
/// out, with all that it holds.
pub open spec fn walk_of(rules: DetectorRules, entry: Entry) -> Seq<DiagnosticView>
    decreases entry, 0nat,
{
    match entry {
        Entry::File { name, path, text } => {
            if !is_build_dir(name@) && is_source_name(name@) {
                scan_of(ScanContext { path: path@, rules }, text@)
            } else {
                Seq::empty()
            }
        },
        Entry::Dir { name, entries } => {
            if is_build_dir(name@) {
                Seq::empty()
            } else {
                walk_entries(rules, entries@, entries@.len() as int)
            }
        },
    }
}

/// The diagnostics of the first `upto` of the entries.
pub open spec fn walk_entries(rules: DetectorRules, entries: Seq<Entry>, upto: int) -> Seq<
    DiagnosticView,
>
    decreases entries, upto,
{
    if upto <= 0 || upto > entries.len() {
        Seq::empty()
    } else {
        walk_entries(rules, entries, upto - 1) + walk_of(rules, entries[upto - 1])
    }
}

/// Is `name` the name of a source file?
pub fn has_source_extension(name: &str) -> (b: bool)
    ensures
        b == is_source_name(name@),
{
    let text = chars_of(name);
    let ext = after_last(text.as_slice(), '.');
    proof {
        lemma_back_to_bounds(text@, '.', text@.len() as int);
    }
    let dot = text.len() - ext.len();
    dot > 1 && eq_str(ext, SOURCE_EXTENSION)
}

/// Is `name` the name of the build directory?
pub fn is_build_dir_name(name: &str) -> (b: bool)
    ensures
        b == is_build_dir(name@),
{
    let text = chars_of(name);
    eq_str(text.as_slice(), BUILD_DIR)
}

/// Adds the diagnostics of the tree `entry` at the end of `acc`.
pub fn walk(entry: &Entry, registry: &RuleRegistry, acc: &mut Vec<Diagnostic>)
    requires
        covers_detectors(registry@),
    ensures
        diagnostic_views(final(acc)@) == diagnostic_views(old(acc)@) + walk_of(
            detector_rules(registry@),
            *entry,
        ),
    decreases entry, 0nat,
{
    match entry {
        Entry::File { name, path, text } => {
            if !is_build_dir_name(name.as_str()) && has_source_extension(name.as_str()) {
                let mut found = lint_source(text.as_str(), path.as_str(), registry);
                let ghost before = acc@;
                let ghost added = found@;
                acc.append(&mut found);
                proof {
                    assert(diagnostic_views(acc@) =~= diagnostic_views(before) + diagnostic_views(
                        added,
                    ));
                }
            } else {
                proof {
                    assert(diagnostic_views(acc@) + Seq::<DiagnosticView>::empty()
                        =~= diagnostic_views(acc@));
                }
            }
        },
        Entry::Dir { name, entries } => {
            if is_build_dir_name(name.as_str()) {
                proof {
                    assert(diagnostic_views(acc@) + Seq::<DiagnosticView>::empty()
                        =~= diagnostic_views(acc@));
                }
            } else {
                walk_dir(entries, registry, acc);
            }
        },
    }
}

/// Adds the diagnostics of the entries of a directory at the end of `acc`.
pub fn walk_dir(entries: &Vec<Entry>, registry: &RuleRegistry, acc: &mut Vec<Diagnostic>)
    requires
        covers_detectors(registry@),
    ensures
        diagnostic_views(final(acc)@) == diagnostic_views(old(acc)@) + walk_entries(
            detector_rules(registry@),
            entries@,
            entries@.len() as int,
        ),
    decreases entries, 1nat,
{
    let ghost rules = detector_rules(registry@);
    let mut k: usize = 0;
    proof {
        assert(diagnostic_views(acc@) + walk_entries(rules, entries@, 0) =~= diagnostic_views(
            acc@,
        ));
    }
    while k < entries.len()
        invariant
            0 <= k <= entries@.len(),
            covers_detectors(registry@),
            rules == detector_rules(registry@),
            diagnostic_views(acc@) == diagnostic_views(old(acc)@) + walk_entries(
                rules,
                entries@,
                k as int,
            ),
        decreases entries@.len() - k,
    {
        proof {
            assert(decreases_to!(*entries => entries[k as int]));
        }
        walk(&entries[k], registry, acc);
        proof {
            assert(diagnostic_views(acc@) =~= diagnostic_views(old(acc)@) + walk_entries(
                rules,
                entries@,
                k + 1,
            ));
        }
        k += 1;
    }
}

/// The diagnostics of the tree `root`, under the rules of `registry`: those
/// of its source files, in the order of the tree; the build directory is
/// left out.
pub fn lint_path(root: &Entry, registry: &RuleRegistry) -> (r: Vec<Diagnostic>)
    requires
        covers_detectors(registry@),
    ensures
        diagnostic_views(r@) == walk_of(detector_rules(registry@), *root),
{
    let mut diagnostics: Vec<Diagnostic> = Vec::new();
    walk(root, registry, &mut diagnostics);
    proof {
        assert(Seq::<DiagnosticView>::empty() + walk_of(detector_rules(registry@), *root)
            =~= walk_of(detector_rules(registry@), *root));
        assert(diagnostic_views(Seq::<Diagnostic>::empty()) =~= Seq::<DiagnosticView>::empty());
    }
    diagnostics
}

/// A directory named like the build directory gives no diagnostic,
/// whatever it holds.
pub proof fn lemma_build_dir_excluded(rules: DetectorRules, name: String, entries: Vec<Entry>)
    requires
        is_build_dir(name@),
    ensures
        walk_of(rules, Entry::Dir { name, entries }) == Seq::<DiagnosticView>::empty(),
{
}

/// The diagnostics of a directory are those of its entries, one entry after
/// the other; so what a build directory among them holds changes nothing.
pub proof fn lemma_walk_entries_step(rules: DetectorRules, entries: Seq<Entry>, k: int)
    requires
        0 <= k < entries.len(),
    ensures
        walk_entries(rules, entries, k + 1) == walk_entries(rules, entries, k) + walk_of(
            rules,
            entries[k],
        ),
{
}

/// The two trees are the same but for what lies in directories named like
/// the build directory: there they may differ in any way.
pub open spec fn same_outside_build_dirs(a: Entry, b: Entry) -> bool
    decreases a, 0nat,
{
    match a {
        Entry::File { name, path, text } => match b {
            Entry::File { name: other_name, path: other_path, text: other_text } => {
                &&& name@ == other_name@
                &&& path@ == other_path@
                &&& text@ == other_text@
            },
            Entry::Dir { .. } => false,
        },
        Entry::Dir { name, entries } => match b {
            Entry::File { .. } => false,
            Entry::Dir { name: other_name, entries: other_entries } => {
                &&& name@ == other_name@
                &&& (is_build_dir(name@) || same_entries_outside_build_dirs(
                    entries@,
                    other_entries@,
                    entries@.len() as int,
                ))
            },
        },
    }
}

/// The two lists are equally long, and the first `upto` entries of the one
/// are, each in its place, the same as those of the other but for what lies
/// in build directories.
pub open spec fn same_entries_outside_build_dirs(a: Seq<Entry>, b: Seq<Entry>, upto: int) -> bool
    decreases a, upto,
{
    &&& a.len() == b.len()
    &&& (upto <= 0 || upto > a.len() || (same_entries_outside_build_dirs(a, b, upto - 1)
        && same_outside_build_dirs(a[upto - 1], b[upto - 1])))
}

/// What lies in a build directory is excluded from the scan entirely: two
/// trees that differ only there, at whatever depth, and in whatever files,
/// give the same diagnostics.
pub proof fn lemma_build_dirs_do_not_count(rules: DetectorRules, a: Entry, b: Entry)
    requires
        same_outside_build_dirs(a, b),
    ensures
        walk_of(rules, a) == walk_of(rules, b),
    decreases a, 0nat,
{
    match a {
        Entry::File { .. } => {},
        Entry::Dir { name, entries } => match b {
            Entry::File { .. } => {},
            Entry::Dir { name: other_name, entries: other_entries } => {
                if !is_build_dir(name@) {
                    lemma_entries_do_not_count(
                        rules,
                        entries@,
                        other_entries@,
                        entries@.len() as int,
                    );
                }
            },
        },
    }
}

proof fn lemma_entries_do_not_count(rules: DetectorRules, a: Seq<Entry>, b: Seq<Entry>, upto: int)
    requires
        same_entries_outside_build_dirs(a, b, upto),
    ensures
        walk_entries(rules, a, upto) == walk_entries(rules, b, upto),
    decreases a, upto,
{
    if 0 < upto <= a.len() {
        lemma_entries_do_not_count(rules, a, b, upto - 1);
        lemma_build_dirs_do_not_count(rules, a[upto - 1], b[upto - 1]);
    }
}

} // verus!

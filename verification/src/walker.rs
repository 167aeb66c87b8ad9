//! The walk over every discovered directory: one rename pass per
//! directory, in discovery order, stopping at the first failing pass.

use vstd::prelude::*;
use crate::errors::{Error, ErrorView};
use crate::filetypes::FiletypeSet;
use crate::renamer::{
    FileEntry, FileEntryView, entry_views, exts_ok, ops_of, plan_pass, RenamePlan,
    first_missing_ext,
};

verus! {

/// Mathematical image of a [`DirListing`].
pub ghost struct DirListingView {
    /// Full path of the directory, used to perform the renames.
    pub path: Seq<char>,
    /// The directory's own name, from which the label is built.
    pub name: Seq<char>,
    /// The directory's immediate children.
    pub entries: Seq<FileEntryView>,
}

/// One discovered directory, as the unverified shell hands it to the
/// engine: its full path, its own name, and its immediate children.
#[derive(Debug)]
pub struct DirListing {
    /// Full path of the directory, used to perform the renames.
    pub path: String,
    /// The directory's own name, from which the label is built.
    pub name: String,
    /// The directory's immediate children.
    pub entries: Vec<FileEntry>,
}

impl View for DirListing {
    type V = DirListingView;

    open spec fn view(&self) -> DirListingView {
        DirListingView { path: self.path@, name: self.name@, entries: entry_views(self.entries@) }
    }
}

/// Views of a vector of listings.
pub open spec fn listing_views(s: Seq<DirListing>) -> Seq<DirListingView> {
    s.map_values(|d: DirListing| d@)
}

/// The plan of one directory within a walk.
#[derive(Debug)]
pub struct DirPass {
    /// Full path of the directory the plan belongs to.
    pub dir_path: String,
    /// The planned pass over that directory.
    pub plan: RenamePlan,
}

/// The outcome of planning a walk: the per-directory plans up to the
/// first failure, the total number of planned renames, and the first
/// error if one arose.
#[derive(Debug)]
pub struct WalkPlan {
    /// One plan per directory, in discovery order, up to the failure.
    pub passes: Vec<DirPass>,
    /// Planned renames summed over `passes`.
    pub planned: usize,
    /// The error of the first failing pass, if any.
    pub error: Option<Error>,
}

/// Whether every pass of the walk plans cleanly.
pub open spec fn walk_ok(dirs: Seq<DirListingView>) -> bool {
    forall|i: int| 0 <= i < dirs.len() ==> exts_ok((#[trigger] dirs[i]).entries)
}

/// Index of the first failing directory, or the number of directories
/// when every pass plans cleanly.
pub open spec fn first_failing(dirs: Seq<DirListingView>) -> int {
    if walk_ok(dirs) {
        dirs.len() as int
    } else {
        least_failing(dirs, 0)
    }
}

/// Least index at or after `i` whose pass fails, or `dirs.len()`.
pub open spec fn least_failing(dirs: Seq<DirListingView>, i: int) -> int
    decreases dirs.len() - i,
{
    if i < 0 || i >= dirs.len() {
        dirs.len() as int
    } else if !exts_ok(dirs[i].entries) {
        i
    } else {
        least_failing(dirs, i + 1)
    }
}

/// Sum of the planned renames of the first `upto` directories.
pub open spec fn planned_upto(dirs: Seq<DirListingView>, set: Seq<Seq<char>>, upto: int) -> nat
    decreases upto,
{
    if upto <= 0 {
        0
    } else {
        planned_upto(dirs, set, upto - 1) + ops_of(
            dirs[upto - 1].name,
            dirs[upto - 1].entries,
            set,
        ).len()
    }
}

/// Sum of the child counts of the first `upto` directories; the walk
/// requires the full sum to fit a machine word.
pub open spec fn entry_count_upto(dirs: Seq<DirListingView>, upto: int) -> nat
    decreases upto,
{
    if upto <= 0 {
        0
    } else {
        entry_count_upto(dirs, upto - 1) + dirs[upto - 1].entries.len()
    }
}

/// Plans a pass cannot rename more files than the directory has.
proof fn lemma_planned_le_entries(dirs: Seq<DirListingView>, set: Seq<Seq<char>>, upto: int)
    requires
        0 <= upto <= dirs.len(),
    ensures
        planned_upto(dirs, set, upto) <= entry_count_upto(dirs, upto),
    decreases upto,
{
    if upto > 0 {
        lemma_planned_le_entries(dirs, set, upto - 1);
        let d = dirs[upto - 1];
        assert(ops_of(d.name, d.entries, set).len() <= d.entries.len()) by {
            broadcast use vstd::seq_lib::group_filter_ensures;

            lemma_sort_len_le(d.entries, set);
        }
    }
}

/// A pass never plans more renames than the directory has children.
proof fn lemma_sort_len_le(entries: Seq<FileEntryView>, set: Seq<Seq<char>>)
    ensures
        forall|name: Seq<char>| #[trigger] ops_of(name, entries, set).len() <= entries.len(),
{
    broadcast use vstd::seq_lib::group_filter_ensures;

    crate::renamer::lemma_sort_by_mtime_props(entries.filter(crate::renamer::candidate_pred(set)));
}

/// Plans one pass per directory, in order, stopping at the first
/// directory whose pass fails; earlier plans are kept.  An empty walk
/// (no directory found) planned nothing and is not an error.
pub fn plan_walk(listings: &Vec<DirListing>, set: &FiletypeSet) -> (r: WalkPlan)
    requires
        entry_count_upto(listing_views(listings@), listings@.len() as int) <= usize::MAX,
    ensures
        ({
            let dirs = listing_views(listings@);
            let stop = first_failing(dirs);
            &&& r.passes@.len() == stop
            &&& r.planned == planned_upto(dirs, set@, stop)
            &&& (r.error is None <==> walk_ok(dirs))
            &&& (listings@.len() == 0 ==> r.planned == 0 && r.error is None
                && r.passes@.len() == 0)
            &&& forall|i: int|
                0 <= i < stop ==> {
                    &&& (#[trigger] r.passes@[i]).dir_path@ == dirs[i].path
                    &&& crate::renamer::op_views(r.passes@[i].plan.ops@) == ops_of(
                        dirs[i].name,
                        dirs[i].entries,
                        set@,
                    )
                    &&& r.passes@[i].plan.total == crate::renamer::candidates_of(
                        dirs[i].entries,
                        set@,
                    ).len()
                }
            &&& r.error matches Some(e) ==> {
                &&& stop < dirs.len()
                &&& !exts_ok(dirs[stop].entries)
                &&& e@ == ErrorView::Metadata(
                    dirs[stop].entries[first_missing_ext(dirs[stop].entries)].name,
                )
            }
        }),
{
    let ghost dirs = listing_views(listings@);
    let mut passes: Vec<DirPass> = Vec::new();
    let mut planned: usize = 0;
    let mut i: usize = 0;
    while i < listings.len()
        invariant
            i <= listings@.len(),
            dirs == listing_views(listings@),
            entry_count_upto(dirs, listings@.len() as int) <= usize::MAX,
            forall|j: int| 0 <= j < i ==> exts_ok((#[trigger] dirs[j]).entries),
            passes@.len() == i,
            planned == planned_upto(dirs, set@, i as int),
            planned <= entry_count_upto(dirs, i as int),
            forall|j: int|
                0 <= j < i ==> {
                    &&& (#[trigger] passes@[j]).dir_path@ == dirs[j].path
                    &&& crate::renamer::op_views(passes@[j].plan.ops@) == ops_of(
                        dirs[j].name,
                        dirs[j].entries,
                        set@,
                    )
                    &&& passes@[j].plan.total == crate::renamer::candidates_of(
                        dirs[j].entries,
                        set@,
                    ).len()
                },
        decreases listings@.len() - i,
    {
        let d = &listings[i];
        assert(d@ == dirs[i as int]);
        proof {
            lemma_entry_count_mono(dirs, i as int, listings@.len() as int);
            lemma_planned_le_entries(dirs, set@, i as int);
        }
        match plan_pass(d.name.as_str(), &d.entries, set) {
            Ok(plan) => {
                proof {
                    lemma_sort_len_le(dirs[i as int].entries, set@);
                    lemma_entry_count_mono(dirs, i + 1, listings@.len() as int);
                }
                assert(plan.ops@.len() == ops_of(
                    dirs[i as int].name,
                    dirs[i as int].entries,
                    set@,
                ).len()) by {
                    assert(crate::renamer::op_views(plan.ops@).len() == plan.ops@.len());
                }
                planned = planned + plan.ops.len();
                passes.push(DirPass { dir_path: d.path.clone(), plan });
                i += 1;
            },
            Err(e) => {
                proof {
                    lemma_least_failing_at(dirs, i as int);
                }
                return WalkPlan { passes, planned, error: Some(e) };
            },
        }
    }
    WalkPlan { passes, planned, error: None }
}

/// The child-count sum only grows with more directories.
proof fn lemma_entry_count_mono(dirs: Seq<DirListingView>, a: int, b: int)
    requires
        0 <= a <= b,
    ensures
        entry_count_upto(dirs, a) <= entry_count_upto(dirs, b),
    decreases b - a,
{
    if a < b {
        lemma_entry_count_mono(dirs, a, b - 1);
    }
}

/// A failing directory whose predecessors all pass is the least failing
/// one.
proof fn lemma_least_failing_at(dirs: Seq<DirListingView>, i: int)
    requires
        0 <= i < dirs.len(),
        !exts_ok(dirs[i].entries),
        forall|j: int| 0 <= j < i ==> exts_ok((#[trigger] dirs[j]).entries),
    ensures
        first_failing(dirs) == i,
{
    assert(!walk_ok(dirs));
    lemma_least_failing_from(dirs, 0, i);
}

/// Helper induction for [`lemma_least_failing_at`].
proof fn lemma_least_failing_from(dirs: Seq<DirListingView>, k: int, i: int)
    requires
        0 <= k <= i < dirs.len(),
        !exts_ok(dirs[i].entries),
        forall|j: int| k <= j < i ==> exts_ok((#[trigger] dirs[j]).entries),
    ensures
        least_failing(dirs, k) == i,
    decreases i - k,
{
    if k < i {
        lemma_least_failing_from(dirs, k + 1, i);
    }
}

} // verus!

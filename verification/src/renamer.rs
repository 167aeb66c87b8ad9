//! The per-directory rename pass: filter the directory's regular files
//! by recognised extension, order them by modification time, and assign
//! each file a new name built from the directory label and a zero-padded
//! sequential index.

use vstd::prelude::*;
use vstd::string::*;
use crate::errors::{Error, ErrorView};
use crate::filetypes::FiletypeSet;
use crate::padding::{spec_padding_width, padding_width};
use crate::text::{
    last_dot_index, lemma_last_dot_characterises, find_last_dot, underscored, replace_spaces,
    padded_dec, render_padded, str_starts_with,
};

verus! {

/// Mathematical image of a [`FileEntry`].
pub ghost struct FileEntryView {
    /// The file's name within its directory.
    pub name: Seq<char>,
    /// Last-modification time, as an opaque monotone stamp.
    pub mtime: u64,
    /// Whether the entry is a regular file.
    pub is_file: bool,
}

/// One immediate child of a directory, as the unverified shell hands it
/// to the engine: its name, its last-modification time and whether it
/// is a regular file.
#[derive(Debug)]
pub struct FileEntry {
    /// The file's name within its directory.
    pub name: String,
    /// Last-modification time, as an opaque monotone stamp.
    pub mtime: u64,
    /// Whether the entry is a regular file.
    pub is_file: bool,
}

impl View for FileEntry {
    type V = FileEntryView;

    open spec fn view(&self) -> FileEntryView {
        FileEntryView { name: self.name@, mtime: self.mtime, is_file: self.is_file }
    }
}

/// Views of a vector of entries.
pub open spec fn entry_views(s: Seq<FileEntry>) -> Seq<FileEntryView> {
    s.map_values(|e: FileEntry| e@)
}

/// Mathematical image of a [`RenameOp`].
pub ghost struct RenameOpView {
    /// Name the file bears before the pass.
    pub old_name: Seq<char>,
    /// Name the pass gives it.
    pub new_name: Seq<char>,
}

/// One planned rename inside a directory.
#[derive(Debug)]
pub struct RenameOp {
    /// Name the file bears before the pass.
    pub old_name: String,
    /// Name the pass gives it.
    pub new_name: String,
}

impl View for RenameOp {
    type V = RenameOpView;

    open spec fn view(&self) -> RenameOpView {
        RenameOpView { old_name: self.old_name@, new_name: self.new_name@ }
    }
}

/// Views of a vector of planned renames.
pub open spec fn op_views(s: Seq<RenameOp>) -> Seq<RenameOpView> {
    s.map_values(|o: RenameOp| o@)
}

/// Whether a name carries a usable extension: a dot that is neither the
/// first character nor absent.  The extension runs from the last dot to
/// the end of the name.
pub open spec fn has_usable_ext(name: Seq<char>) -> bool {
    last_dot_index(name) >= 1
}

/// The dot-prefixed extension of a name, from its last dot onward.
pub open spec fn ext_of(name: Seq<char>) -> Seq<char> {
    name.subrange(last_dot_index(name), name.len() as int)
}

/// Whether an entry takes part in a pass: a regular file whose
/// extension is a member of the recognised set.
pub open spec fn is_candidate(e: FileEntryView, set: Seq<Seq<char>>) -> bool {
    e.is_file && has_usable_ext(e.name) && set.contains(ext_of(e.name))
}

/// Whether every regular file among the entries has a usable extension;
/// a pass fails loudly on the first one that has not.
pub open spec fn exts_ok(entries: Seq<FileEntryView>) -> bool {
    forall|i: int|
        0 <= i < entries.len() && (#[trigger] entries[i]).is_file ==> has_usable_ext(
            entries[i].name,
        )
}

/// Index of the first regular file without a usable extension, or `-1`.
pub open spec fn first_missing_ext(entries: Seq<FileEntryView>) -> int
    decreases entries.len(),
{
    if entries.len() == 0 {
        -1
    } else if entries[0].is_file && !has_usable_ext(entries[0].name) {
        0
    } else {
        let r = first_missing_ext(entries.drop_first());
        if r == -1 {
            -1
        } else {
            r + 1
        }
    }
}

/// A position whose predecessors are all fine and which holds a regular
/// file without extension is the first missing one.
proof fn lemma_first_missing_at(entries: Seq<FileEntryView>, i: int)
    requires
        0 <= i < entries.len(),
        entries[i].is_file,
        !has_usable_ext(entries[i].name),
        forall|j: int|
            0 <= j < i && (#[trigger] entries[j]).is_file ==> has_usable_ext(entries[j].name),
    ensures
        first_missing_ext(entries) == i,
    decreases i,
{
    if i > 0 {
        lemma_first_missing_at(entries.drop_first(), i - 1);
    }
}

/// The candidate test, as a function value usable with `filter`.
pub open spec fn candidate_pred(set: Seq<Seq<char>>) -> spec_fn(FileEntryView) -> bool {
    |e: FileEntryView| is_candidate(e, set)
}

/// The directory's candidate files, in enumeration order.
pub open spec fn candidates_of(entries: Seq<FileEntryView>, set: Seq<Seq<char>>) -> Seq<
    FileEntryView,
> {
    entries.filter(candidate_pred(set))
}

/// Insertion of an entry into a modification-time-ordered sequence:
/// the entry goes behind every earlier-or-equal stamp, so equal stamps
/// keep their enumeration order.
pub open spec fn insert_by_mtime(e: FileEntryView, s: Seq<FileEntryView>) -> Seq<FileEntryView>
    decreases s.len(),
{
    if s.len() == 0 {
        seq![e]
    } else if s[0].mtime <= e.mtime {
        seq![s[0]] + insert_by_mtime(e, s.drop_first())
    } else {
        seq![e] + s
    }
}

/// The candidate files ordered ascending by modification time, oldest
/// first; ties keep their enumeration order.
pub open spec fn sort_by_mtime(s: Seq<FileEntryView>) -> Seq<FileEntryView>
    decreases s.len(),
{
    if s.len() == 0 {
        Seq::empty()
    } else {
        insert_by_mtime(s.last(), sort_by_mtime(s.drop_last()))
    }
}

/// Non-decreasing modification times.
pub open spec fn sorted_by_mtime(s: Seq<FileEntryView>) -> bool {
    forall|i: int, j: int| 0 <= i < j < s.len() ==> (#[trigger] s[i]).mtime <= (#[trigger] s[j]).mtime
}

/// The rename prefix of a directory: its name with spaces replaced by
/// underscores.
pub open spec fn label_of(dir_name: Seq<char>) -> Seq<char> {
    underscored(dir_name)
}

/// The labelled test: whether a file already bears the label prefix.
pub open spec fn labelled_pred(label: Seq<char>) -> spec_fn(FileEntryView) -> bool {
    |e: FileEntryView| label.is_prefix_of(e.name)
}

/// The complement of the labelled test.
pub open spec fn unlabelled_pred(label: Seq<char>) -> spec_fn(FileEntryView) -> bool {
    |e: FileEntryView| !label.is_prefix_of(e.name)
}

/// The sorted candidates already bearing the directory label.
pub open spec fn already_of(
    dir_name: Seq<char>,
    entries: Seq<FileEntryView>,
    set: Seq<Seq<char>>,
) -> Seq<FileEntryView> {
    sort_by_mtime(candidates_of(entries, set)).filter(labelled_pred(label_of(dir_name)))
}

/// The sorted candidates still to be renamed, oldest first.
pub open spec fn to_rename_of(
    dir_name: Seq<char>,
    entries: Seq<FileEntryView>,
    set: Seq<Seq<char>>,
) -> Seq<FileEntryView> {
    sort_by_mtime(candidates_of(entries, set)).filter(unlabelled_pred(label_of(dir_name)))
}

/// The new name of a file: label, underscore, zero-padded index,
/// underscore, original name.
pub open spec fn new_name_spec(
    label: Seq<char>,
    width: nat,
    index: nat,
    old_name: Seq<char>,
) -> Seq<char> {
    label + seq!['_'] + padded_dec(index, width) + seq!['_'] + old_name
}

/// The planned renames of a pass: the files still to be renamed, in
/// ascending modification-time order, with indices that continue the
/// count of files already bearing the label.
pub open spec fn ops_of(
    dir_name: Seq<char>,
    entries: Seq<FileEntryView>,
    set: Seq<Seq<char>>,
) -> Seq<RenameOpView> {
    let label = label_of(dir_name);
    let already = already_of(dir_name, entries, set).len();
    let total = candidates_of(entries, set).len();
    let width = spec_padding_width(total);
    Seq::new(
        to_rename_of(dir_name, entries, set).len(),
        |k: int|
            RenameOpView {
                old_name: to_rename_of(dir_name, entries, set)[k].name,
                new_name: new_name_spec(
                    label,
                    width,
                    (already + k) as nat,
                    to_rename_of(dir_name, entries, set)[k].name,
                ),
            },
    )
}

/// One step of filtering a prefix: taking one more element appends it
/// exactly when the predicate holds of it.
pub proof fn lemma_filter_step<A>(s: Seq<A>, pred: spec_fn(A) -> bool, i: int)
    requires
        0 <= i < s.len(),
    ensures
        s.subrange(0, i + 1).filter(pred) == s.subrange(0, i).filter(pred) + (if pred(s[i]) {
            seq![s[i]]
        } else {
            Seq::<A>::empty()
        }),
{
    reveal(Seq::filter);
    let pre = s.subrange(0, i + 1);
    assert(pre.drop_last() =~= s.subrange(0, i));
    assert(pre.last() == s[i]);
    if pred(s[i]) {
        assert(pre.filter(pred) =~= s.subrange(0, i).filter(pred) + seq![s[i]]);
    } else {
        assert(pre.filter(pred) =~= s.subrange(0, i).filter(pred) + Seq::<A>::empty());
    }
}

/// Every element of a filtered sequence is an element of the original.
pub proof fn lemma_filter_elem_of<A>(s: Seq<A>, pred: spec_fn(A) -> bool)
    ensures
        forall|i: int|
            0 <= i < s.filter(pred).len() ==> s.contains(#[trigger] s.filter(pred)[i]),
    decreases s.len(),
{
    reveal(Seq::filter);
    if s.len() > 0 {
        lemma_filter_elem_of(s.drop_last(), pred);
        let out = s.filter(pred);
        let sub = s.drop_last().filter(pred);
        assert forall|i: int| 0 <= i < out.len() implies s.contains(out[i]) by {
            if i < sub.len() {
                assert(s.drop_last().contains(sub[i]));
                let j = choose|j: int| 0 <= j < s.drop_last().len() && s.drop_last()[j] == sub[i];
                assert(s[j] == out[i]);
            } else {
                assert(out[i] == s.last());
                assert(s[s.len() - 1] == s.last());
            }
        }
    }
}

/// What inserting by modification time does: length, membership, and
/// order are all preserved.
pub proof fn lemma_insert_by_mtime_props(e: FileEntryView, s: Seq<FileEntryView>)
    ensures
        insert_by_mtime(e, s).len() == s.len() + 1,
        forall|x: FileEntryView| #![trigger insert_by_mtime(e, s).contains(x)]
            insert_by_mtime(e, s).contains(x) <==> (x == e || s.contains(x)),
        sorted_by_mtime(s) ==> sorted_by_mtime(insert_by_mtime(e, s)),
    decreases s.len(),
{
    let out = insert_by_mtime(e, s);
    if s.len() == 0 {
        assert(out =~= seq![e]);
        assert(out[0] == e);
        assert(out.contains(e));
        assert forall|x: FileEntryView| out.contains(x) implies (x == e || s.contains(x)) by {
            let j = choose|j: int| 0 <= j < out.len() && out[j] == x;
            assert(out[0] == e);
        }
    } else if s[0].mtime <= e.mtime {
        lemma_insert_by_mtime_props(e, s.drop_first());
        let rest = insert_by_mtime(e, s.drop_first());
        assert(out =~= seq![s[0]] + rest);
        assert forall|x: FileEntryView| out.contains(x) implies (x == e || s.contains(x)) by {
            let j = choose|j: int| 0 <= j < out.len() && out[j] == x;
            if j == 0 {
                assert(s[0] == x);
                assert(s.contains(x));
            } else {
                assert((seq![s[0]] + rest)[j] == rest[j - 1]);
                assert(rest[j - 1] == x);
                assert(rest.contains(x));
                if x != e {
                    assert(s.drop_first().contains(x));
                    let k = choose|k: int| 0 <= k < s.drop_first().len() && s.drop_first()[k] == x;
                    assert(s.drop_first()[k] == s[k + 1]);
                    assert(s.contains(x));
                }
            }
        }
        assert forall|x: FileEntryView| (x == e || s.contains(x)) implies out.contains(x) by {
            if x == e || s.drop_first().contains(x) {
                assert(rest.contains(x));
                let k = choose|k: int| 0 <= k < rest.len() && rest[k] == x;
                assert(out[k + 1] == x);
            } else {
                let j = choose|j: int| 0 <= j < s.len() && s[j] == x;
                if j == 0 {
                    assert(out[0] == x);
                } else {
                    assert(s.drop_first()[j - 1] == x);
                }
            }
        }
        if sorted_by_mtime(s) {
            assert(sorted_by_mtime(s.drop_first())) by {
                assert forall|i: int, j: int|
                    0 <= i < j < s.drop_first().len() implies (#[trigger] s.drop_first()[i]).mtime
                    <= (#[trigger] s.drop_first()[j]).mtime by {
                    assert(s[i + 1].mtime <= s[j + 1].mtime);
                }
            }
            assert forall|i: int, j: int| 0 <= i < j < out.len() implies (#[trigger] out[i]).mtime
                <= (#[trigger] out[j]).mtime by {
                if i == 0 {
                    assert(out[0] == s[0]);
                    assert(rest.contains(rest[j - 1]));
                    if rest[j - 1] == e {
                        assert(s[0].mtime <= e.mtime);
                    } else {
                        assert(s.drop_first().contains(rest[j - 1]));
                        let k = choose|k: int|
                            0 <= k < s.drop_first().len() && s.drop_first()[k] == rest[j - 1];
                        assert(s[0].mtime <= s[k + 1].mtime);
                    }
                } else {
                    assert(rest[i - 1].mtime <= rest[j - 1].mtime);
                }
            }
        }
    } else {
        assert(out =~= seq![e] + s);
        assert forall|x: FileEntryView| out.contains(x) implies (x == e || s.contains(x)) by {
            let j = choose|j: int| 0 <= j < out.len() && out[j] == x;
            if j > 0 {
                assert(s[j - 1] == x);
            }
        }
        assert forall|x: FileEntryView| (x == e || s.contains(x)) implies out.contains(x) by {
            if x == e {
                assert(out[0] == x);
            } else {
                let j = choose|j: int| 0 <= j < s.len() && s[j] == x;
                assert(out[j + 1] == x);
            }
        }
        if sorted_by_mtime(s) {
            assert forall|i: int, j: int| 0 <= i < j < out.len() implies (#[trigger] out[i]).mtime
                <= (#[trigger] out[j]).mtime by {
                if i == 0 {
                    if j > 0 {
                        assert(out[j] == s[j - 1]);
                        if j - 1 > 0 {
                            assert(s[0].mtime <= s[j - 1].mtime);
                        }
                        assert(e.mtime <= s[j - 1].mtime);
                    }
                } else {
                    assert(s[i - 1].mtime <= s[j - 1].mtime);
                }
            }
        }
    }
}

/// Sorting by modification time keeps length and membership and orders
/// the sequence.
pub proof fn lemma_sort_by_mtime_props(s: Seq<FileEntryView>)
    ensures
        sort_by_mtime(s).len() == s.len(),
        forall|x: FileEntryView| #![trigger sort_by_mtime(s).contains(x)]
            sort_by_mtime(s).contains(x) <==> s.contains(x),
        sorted_by_mtime(sort_by_mtime(s)),
    decreases s.len(),
{
    if s.len() > 0 {
        lemma_sort_by_mtime_props(s.drop_last());
        lemma_insert_by_mtime_props(s.last(), sort_by_mtime(s.drop_last()));
        assert forall|x: FileEntryView| sort_by_mtime(s).contains(x) implies s.contains(x) by {
            if x == s.last() {
                assert(s[s.len() - 1] == x);
            } else {
                assert(s.drop_last().contains(x));
                let j = choose|j: int| 0 <= j < s.drop_last().len() && s.drop_last()[j] == x;
                assert(s[j] == x);
            }
        }
        assert forall|x: FileEntryView| s.contains(x) implies sort_by_mtime(s).contains(x) by {
            let j = choose|j: int| 0 <= j < s.len() && s[j] == x;
            if j < s.len() - 1 {
                assert(s.drop_last()[j] == x);
                assert(s.drop_last().contains(x));
                assert(sort_by_mtime(s.drop_last()).contains(x));
            } else {
                assert(x == s.last());
            }
            assert(insert_by_mtime(s.last(), sort_by_mtime(s.drop_last())).contains(x));
            assert(sort_by_mtime(s) == insert_by_mtime(s.last(), sort_by_mtime(s.drop_last())));
        }
    }
}

/// Inserting at the first position whose stamp is strictly later is
/// exactly the ordered insertion.
proof fn lemma_insert_at_pos(e: FileEntryView, s: Seq<FileEntryView>, pos: int)
    requires
        0 <= pos <= s.len(),
        forall|k: int| 0 <= k < pos ==> (#[trigger] s[k]).mtime <= e.mtime,
        pos < s.len() ==> s[pos].mtime > e.mtime,
    ensures
        insert_by_mtime(e, s) == s.insert(pos, e),
    decreases pos,
{
    if pos == 0 {
        assert(insert_by_mtime(e, s) =~= s.insert(0, e));
    } else {
        assert(s[0].mtime <= e.mtime);
        lemma_insert_at_pos(e, s.drop_first(), pos - 1);
        assert(insert_by_mtime(e, s) =~= seq![s[0]] + s.drop_first().insert(pos - 1, e));
        assert(seq![s[0]] + s.drop_first().insert(pos - 1, e) =~= s.insert(pos, e));
    }
}

/// Copies an entry field by field.
fn copy_entry(e: &FileEntry) -> (r: FileEntry)
    ensures
        r@ == e@,
{
    FileEntry { name: e.name.clone(), mtime: e.mtime, is_file: e.is_file }
}

/// Inserts `e` into the modification-time-ordered `v`, behind every
/// entry with an earlier or equal stamp.
fn insert_sorted(v: &mut Vec<FileEntry>, e: FileEntry)
    requires
        sorted_by_mtime(entry_views(old(v)@)),
    ensures
        entry_views(final(v)@) == insert_by_mtime(e@, entry_views(old(v)@)),
        sorted_by_mtime(entry_views(final(v)@)),
{
    let ghost vs = entry_views(v@);
    proof {
        lemma_insert_by_mtime_props(e@, vs);
    }
    let n = v.len();
    let mut pos: usize = 0;
    if n > 0 && v[n - 1].mtime <= e.mtime {
        pos = n;
        assert forall|k: int| 0 <= k < n implies (#[trigger] vs[k]).mtime <= e@.mtime by {
            if k < n - 1 {
                assert(vs[k].mtime <= vs[n - 1].mtime);
            } else {
                assert(vs[n - 1].mtime == v@[n - 1].mtime);
            }
        }
    } else {
        pos = 0;
        while pos < n && v[pos].mtime <= e.mtime
            invariant
                pos <= n,
                n == v@.len(),
                vs == entry_views(v@),
                forall|k: int| 0 <= k < pos ==> (#[trigger] vs[k]).mtime <= e@.mtime,
            decreases n - pos,
        {
            assert(vs[pos as int].mtime == v@[pos as int].mtime);
            pos += 1;
        }
        assert(pos < n ==> vs[pos as int].mtime > e@.mtime);
    }
    proof {
        lemma_insert_at_pos(e@, vs, pos as int);
    }
    v.insert(pos, e);
    assert(entry_views(v@) =~= vs.insert(pos as int, e@));
}

/// Sorts the entries ascending by modification time; entries with equal
/// stamps keep their order.
fn sort_entries(v: &Vec<FileEntry>) -> (r: Vec<FileEntry>)
    ensures
        entry_views(r@) == sort_by_mtime(entry_views(v@)),
        sorted_by_mtime(entry_views(r@)),
{
    let ghost vs = entry_views(v@);
    let mut out: Vec<FileEntry> = Vec::new();
    let mut i: usize = 0;
    assert(entry_views(out@) =~= sort_by_mtime(vs.subrange(0, 0)));
    while i < v.len()
        invariant
            i <= v@.len(),
            vs == entry_views(v@),
            entry_views(out@) == sort_by_mtime(vs.subrange(0, i as int)),
            sorted_by_mtime(entry_views(out@)),
        decreases v@.len() - i,
    {
        let e = copy_entry(&v[i]);
        assert(e@ == vs[i as int]);
        insert_sorted(&mut out, e);
        i += 1;
        proof {
            let pre = vs.subrange(0, i as int);
            assert(pre.drop_last() =~= vs.subrange(0, i - 1));
            assert(pre.last() == vs[i - 1]);
        }
    }
    assert(vs.subrange(0, v@.len() as int) =~= vs);
    out
}

/// Splitting a sequence by a predicate and its complement preserves the
/// total length.
proof fn lemma_filter_complement_len<A>(s: Seq<A>, p: spec_fn(A) -> bool, q: spec_fn(A) -> bool)
    requires
        forall|x: A| #[trigger] q(x) == !p(x),
    ensures
        s.filter(p).len() + s.filter(q).len() == s.len(),
    decreases s.len(),
{
    reveal(Seq::filter);
    if s.len() > 0 {
        lemma_filter_complement_len(s.drop_last(), p, q);
    }
}

/// The plan of one directory pass: every rename to perform, oldest
/// file first, beside the counts the pass computed.
#[derive(Debug)]
pub struct RenamePlan {
    /// The renames, in the order they are to be performed.
    pub ops: Vec<RenameOp>,
    /// How many candidates already bore the label before the pass.
    pub already_count: usize,
    /// How many candidate files the directory holds in all.
    pub total: usize,
    /// The zero-padding width used for the indices.
    pub width: usize,
}

/// Plans one directory's pass: keeps the regular files whose extension
/// is recognised, orders them by modification time, and pairs each file
/// that does not yet bear the directory label with its new name.  Fails
/// on the first regular file without a usable extension.
pub fn plan_pass(dir_name: &str, entries: &Vec<FileEntry>, set: &FiletypeSet) -> (r: Result<
    RenamePlan,
    Error,
>)
    ensures
        r is Ok <==> exts_ok(entry_views(entries@)),
        r matches Ok(p) ==> {
            &&& p.already_count == already_of(dir_name@, entry_views(entries@), set@).len()
            &&& p.total == candidates_of(entry_views(entries@), set@).len()
            &&& p.width == spec_padding_width(p.total as nat)
            &&& op_views(p.ops@) == ops_of(dir_name@, entry_views(entries@), set@)
        },
        r matches Err(e) ==> {
            &&& first_missing_ext(entry_views(entries@)) >= 0
            &&& e@ == ErrorView::Metadata(
                entry_views(entries@)[first_missing_ext(entry_views(entries@))].name,
            )
        },
{
    let ghost evs = entry_views(entries@);
    let n = entries.len();
    let mut cands: Vec<FileEntry> = Vec::new();
    let mut i: usize = 0;
    assert(entry_views(cands@) =~= evs.subrange(0, 0).filter(candidate_pred(set@)));
    while i < n
        invariant
            i <= n,
            n == entries@.len(),
            evs == entry_views(entries@),
            forall|j: int|
                0 <= j < i && (#[trigger] evs[j]).is_file ==> has_usable_ext(evs[j].name),
            entry_views(cands@) == evs.subrange(0, i as int).filter(candidate_pred(set@)),
        decreases n - i,
    {
        let e = &entries[i];
        assert(e@ == evs[i as int]);
        proof {
            lemma_filter_step(evs, candidate_pred(set@), i as int);
        }
        if e.is_file {
            let dot = find_last_dot(e.name.as_str());
            proof {
                lemma_last_dot_characterises(e.name@);
            }
            match dot {
                Some(d) if d >= 1 => {
                    let len = e.name.as_str().unicode_len();
                    let ext = e.name.as_str().substring_char(d, len).to_owned();
                    assert(ext@ == ext_of(evs[i as int].name));
                    let ghost prev = cands@;
                    if set.contains(&ext) {
                        cands.push(copy_entry(e));
                        assert(entry_views(cands@) =~= entry_views(prev) + seq![evs[i as int]]);
                    } else {
                        assert(!is_candidate(evs[i as int], set@));
                        assert(entry_views(cands@) =~= entry_views(prev) + Seq::<
                            FileEntryView,
                        >::empty());
                    }
                },
                _ => {
                    assert(!has_usable_ext(evs[i as int].name));
                    proof {
                        lemma_first_missing_at(evs, i as int);
                    }
                    assert(!exts_ok(evs));
                    return Err(Error::Metadata(e.name.clone()));
                },
            }
        } else {
            assert(!is_candidate(evs[i as int], set@));
            let ghost prev = cands@;
            assert(entry_views(cands@) =~= entry_views(prev) + Seq::<FileEntryView>::empty());
        }
        i += 1;
    }
    assert(evs.subrange(0, n as int) =~= evs);
    assert(entry_views(cands@) == candidates_of(evs, set@));
    assert(exts_ok(evs));

    let sorted = sort_entries(&cands);
    proof {
        lemma_sort_by_mtime_props(entry_views(cands@));
    }
    let ghost svs = entry_views(sorted@);
    assert(svs == sort_by_mtime(candidates_of(evs, set@)));

    let label = replace_spaces(dir_name);
    assert(label@ == label_of(dir_name@));

    let mut to_rename: Vec<FileEntry> = Vec::new();
    let mut already_count: usize = 0;
    let mut i: usize = 0;
    assert(entry_views(to_rename@) =~= svs.subrange(0, 0).filter(
        unlabelled_pred(label_of(dir_name@)),
    ));
    assert(svs.subrange(0, 0).filter(labelled_pred(label_of(dir_name@))) =~= Seq::<
        FileEntryView,
    >::empty());
    while i < sorted.len()
        invariant
            i <= sorted@.len(),
            svs == entry_views(sorted@),
            label@ == label_of(dir_name@),
            already_count == svs.subrange(0, i as int).filter(
                labelled_pred(label_of(dir_name@)),
            ).len(),
            already_count <= i,
            entry_views(to_rename@) == svs.subrange(0, i as int).filter(
                unlabelled_pred(label_of(dir_name@)),
            ),
        decreases sorted@.len() - i,
    {
        let e = &sorted[i];
        assert(e@ == svs[i as int]);
        proof {
            lemma_filter_step(svs, labelled_pred(label_of(dir_name@)), i as int);
            lemma_filter_step(svs, unlabelled_pred(label_of(dir_name@)), i as int);
        }
        let ghost prev = to_rename@;
        if str_starts_with(e.name.as_str(), label.as_str()) {
            already_count += 1;
            assert(entry_views(to_rename@) =~= entry_views(prev) + Seq::<FileEntryView>::empty());
        } else {
            to_rename.push(copy_entry(e));
            assert(entry_views(to_rename@) =~= entry_views(prev) + seq![svs[i as int]]);
        }
        i += 1;
    }
    assert(svs.subrange(0, sorted@.len() as int) =~= svs);
    let ghost trs = entry_views(to_rename@);
    assert(trs == to_rename_of(dir_name@, evs, set@));
    assert(already_count == already_of(dir_name@, evs, set@).len());

    let total = sorted.len();
    assert(total == candidates_of(evs, set@).len());
    proof {
        lemma_filter_complement_len(
            svs,
            labelled_pred(label_of(dir_name@)),
            unlabelled_pred(label_of(dir_name@)),
        );
    }
    assert(already_count + to_rename@.len() == total);
    let width = padding_width(total);

    let mut ops: Vec<RenameOp> = Vec::new();
    let mut k: usize = 0;
    while k < to_rename.len()
        invariant
            k <= to_rename@.len(),
            trs == entry_views(to_rename@),
            trs == to_rename_of(dir_name@, evs, set@),
            label@ == label_of(dir_name@),
            width == spec_padding_width(candidates_of(evs, set@).len()),
            already_count == already_of(dir_name@, evs, set@).len(),
            already_count + to_rename@.len() <= usize::MAX,
            ops@.len() == k,
            forall|j: int|
                0 <= j < k ==> op_views(ops@)[j] == ops_of(dir_name@, evs, set@)[j],
        decreases to_rename@.len() - k,
    {
        let e = &to_rename[k];
        assert(e@ == trs[k as int]);
        let index = already_count + k;
        let pad = render_padded(index, width);
        let mut new_name = label.clone();
        proof {
            reveal_strlit("_");
        }
        new_name.append("_");
        new_name.append(pad.as_str());
        new_name.append("_");
        new_name.append(e.name.as_str());
        assert(new_name@ =~= new_name_spec(
            label_of(dir_name@),
            width as nat,
            index as nat,
            trs[k as int].name,
        ));
        let ghost prevops = ops@;
        ops.push(RenameOp { old_name: e.name.clone(), new_name });
        assert(op_views(ops@) =~= op_views(prevops) + seq![ops@[k as int]@]);
        k += 1;
    }
    assert(op_views(ops@) =~= ops_of(dir_name@, evs, set@));

    Ok(RenamePlan { ops, already_count, total, width })
}

} // verus!

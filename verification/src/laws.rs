//! General properties of the engine, stated and proved over the same
//! spec functions that the executable functions' contracts use.

use vstd::prelude::*;
use crate::renamer::{
    FileEntryView, RenameOpView, is_candidate, candidates_of, candidate_pred, sort_by_mtime,
    sorted_by_mtime, to_rename_of, already_of, ops_of, label_of, labelled_pred, unlabelled_pred,
    new_name_spec, has_usable_ext, ext_of, exts_ok, insert_by_mtime, lemma_filter_elem_of,
    lemma_insert_by_mtime_props, lemma_sort_by_mtime_props,
};
use crate::text::{last_dot_index, lemma_last_dot_characterises};

verus! {

/// Pairwise distinct modification times.
pub open spec fn distinct_mtimes(s: Seq<FileEntryView>) -> bool {
    forall|i: int, j: int|
        0 <= i < j < s.len() ==> (#[trigger] s[i]).mtime != (#[trigger] s[j]).mtime
}

/// Inserting an entry whose stamp differs from every present stamp
/// keeps the stamps pairwise distinct.
proof fn lemma_insert_keeps_distinct(e: FileEntryView, s: Seq<FileEntryView>)
    requires
        distinct_mtimes(s),
        forall|i: int| 0 <= i < s.len() ==> (#[trigger] s[i]).mtime != e.mtime,
    ensures
        distinct_mtimes(insert_by_mtime(e, s)),
    decreases s.len(),
{
    let out = insert_by_mtime(e, s);
    if s.len() == 0 {
        assert(out =~= seq![e]);
    } else if s[0].mtime <= e.mtime {
        assert(distinct_mtimes(s.drop_first())) by {
            assert forall|i: int, j: int|
                0 <= i < j < s.drop_first().len() implies (#[trigger] s.drop_first()[i]).mtime != (
            #[trigger] s.drop_first()[j]).mtime by {
                assert(s[i + 1].mtime != s[j + 1].mtime);
            }
        }
        assert(forall|i: int|
            0 <= i < s.drop_first().len() ==> (#[trigger] s.drop_first()[i]).mtime != e.mtime)
            by {
            assert forall|i: int|
                0 <= i < s.drop_first().len() implies (#[trigger] s.drop_first()[i]).mtime
                != e.mtime by {
                assert(s[i + 1].mtime != e.mtime);
            }
        }
        lemma_insert_keeps_distinct(e, s.drop_first());
        lemma_insert_by_mtime_props(e, s.drop_first());
        let rest = insert_by_mtime(e, s.drop_first());
        assert(out =~= seq![s[0]] + rest);
        assert forall|i: int, j: int| 0 <= i < j < out.len() implies (#[trigger] out[i]).mtime != (
        #[trigger] out[j]).mtime by {
            if i == 0 {
                assert(out[j] == rest[j - 1]);
                assert(rest.contains(rest[j - 1]));
                if rest[j - 1] == e {
                    assert(s[0].mtime != e.mtime);
                } else {
                    assert(s.drop_first().contains(rest[j - 1]));
                    let k = choose|k: int|
                        0 <= k < s.drop_first().len() && s.drop_first()[k] == rest[j - 1];
                    assert(s.drop_first()[k] == s[k + 1]);
                    assert(s[0].mtime != s[k + 1].mtime);
                }
            } else {
                assert(rest[i - 1].mtime != rest[j - 1].mtime);
            }
        }
    } else {
        assert(out =~= seq![e] + s);
        assert forall|i: int, j: int| 0 <= i < j < out.len() implies (#[trigger] out[i]).mtime != (
        #[trigger] out[j]).mtime by {
            if i == 0 {
                assert(out[j] == s[j - 1]);
                assert(s[j - 1].mtime != e.mtime);
            } else {
                assert(s[i - 1].mtime != s[j - 1].mtime);
            }
        }
    }
}

/// Sorting keeps the stamps pairwise distinct.
proof fn lemma_sort_keeps_distinct(s: Seq<FileEntryView>)
    requires
        distinct_mtimes(s),
    ensures
        distinct_mtimes(sort_by_mtime(s)),
    decreases s.len(),
{
    if s.len() > 0 {
        assert(distinct_mtimes(s.drop_last())) by {
            assert forall|i: int, j: int|
                0 <= i < j < s.drop_last().len() implies (#[trigger] s.drop_last()[i]).mtime != (
            #[trigger] s.drop_last()[j]).mtime by {
                assert(s[i].mtime != s[j].mtime);
            }
        }
        lemma_sort_keeps_distinct(s.drop_last());
        lemma_sort_by_mtime_props(s.drop_last());
        let sub = sort_by_mtime(s.drop_last());
        assert forall|i: int| 0 <= i < sub.len() implies (#[trigger] sub[i]).mtime
            != s.last().mtime by {
            assert(sub.contains(sub[i]));
            assert(s.drop_last().contains(sub[i]));
            let k = choose|k: int| 0 <= k < s.drop_last().len() && s.drop_last()[k] == sub[i];
            assert(s[k].mtime != s[s.len() - 1].mtime);
        }
        lemma_insert_keeps_distinct(s.last(), sub);
    }
}

/// Filtering keeps the order of stamps and their pairwise distinctness.
proof fn lemma_filter_keeps_order(s: Seq<FileEntryView>, pred: spec_fn(FileEntryView) -> bool)
    ensures
        sorted_by_mtime(s) ==> sorted_by_mtime(s.filter(pred)),
        distinct_mtimes(s) ==> distinct_mtimes(s.filter(pred)),
    decreases s.len(),
{
    reveal(Seq::filter);
    if s.len() > 0 {
        assert(sorted_by_mtime(s) ==> sorted_by_mtime(s.drop_last()));
        assert(distinct_mtimes(s) ==> distinct_mtimes(s.drop_last()));
        lemma_filter_keeps_order(s.drop_last(), pred);
        lemma_filter_elem_of(s.drop_last(), pred);
        let sub = s.drop_last().filter(pred);
        if pred(s.last()) {
            let out = s.filter(pred);
            assert(out =~= sub.push(s.last()));
            assert forall|i: int| 0 <= i < sub.len() implies (sorted_by_mtime(s) ==> (
            #[trigger] sub[i]).mtime <= s.last().mtime) && (distinct_mtimes(s) ==> sub[i].mtime
                != s.last().mtime) by {
                assert(s.drop_last().contains(sub[i]));
                let k = choose|k: int| 0 <= k < s.drop_last().len() && s.drop_last()[k] == sub[i];
                assert(s[k] == sub[i]);
                if sorted_by_mtime(s) {
                    assert(s[k].mtime <= s[s.len() - 1].mtime);
                }
                if distinct_mtimes(s) {
                    assert(s[k].mtime != s[s.len() - 1].mtime);
                }
            }
            if sorted_by_mtime(s) {
                assert forall|i: int, j: int| 0 <= i < j < out.len() implies (
                #[trigger] out[i]).mtime <= (#[trigger] out[j]).mtime by {
                    if j < out.len() - 1 {
                        assert(sub[i].mtime <= sub[j].mtime);
                    } else {
                        assert(out[j] == s.last());
                    }
                }
            }
            if distinct_mtimes(s) {
                assert forall|i: int, j: int| 0 <= i < j < out.len() implies (
                #[trigger] out[i]).mtime != (#[trigger] out[j]).mtime by {
                    if j < out.len() - 1 {
                        assert(sub[i].mtime != sub[j].mtime);
                    } else {
                        assert(out[j] == s.last());
                    }
                }
            }
        }
    }
}

/// Chronological order: the files a pass renames stand in ascending
/// modification-time order, so the strictly increasing indices follow
/// the files' age; with pairwise distinct stamps the order is strict.
pub proof fn lemma_chronological_order(
    dir_name: Seq<char>,
    entries: Seq<FileEntryView>,
    set: Seq<Seq<char>>,
)
    ensures
        sorted_by_mtime(to_rename_of(dir_name, entries, set)),
        distinct_mtimes(entries) ==> (forall|i: int, j: int|
            0 <= i < j < to_rename_of(dir_name, entries, set).len() ==> (#[trigger] to_rename_of(
                dir_name,
                entries,
                set,
            )[i]).mtime < (#[trigger] to_rename_of(dir_name, entries, set)[j]).mtime),
        forall|k: int|
            0 <= k < ops_of(dir_name, entries, set).len() ==> (#[trigger] ops_of(
                dir_name,
                entries,
                set,
            )[k]).old_name == to_rename_of(dir_name, entries, set)[k].name,
{
    let cands = candidates_of(entries, set);
    lemma_sort_by_mtime_props(cands);
    lemma_filter_keeps_order(sort_by_mtime(cands), unlabelled_pred(label_of(dir_name)));
    if distinct_mtimes(entries) {
        lemma_filter_keeps_order(entries, candidate_pred(set));
        lemma_sort_keeps_distinct(cands);
    }
}

/// First index, in a sequence of planned renames, of an operation whose
/// old name is `name`; `-1` when none matches.
pub open spec fn find_op(ops: Seq<RenameOpView>, name: Seq<char>) -> int
    decreases ops.len(),
{
    if ops.len() == 0 {
        -1
    } else if ops[0].old_name == name {
        0
    } else {
        let r = find_op(ops.drop_first(), name);
        if r == -1 {
            -1
        } else {
            r + 1
        }
    }
}

/// What `find_op` returns: a matching index when one exists, `-1`
/// exactly when none does.
proof fn lemma_find_op_props(ops: Seq<RenameOpView>, name: Seq<char>)
    ensures
        find_op(ops, name) == -1 ==> (forall|k: int|
            0 <= k < ops.len() ==> (#[trigger] ops[k]).old_name != name),
        find_op(ops, name) != -1 ==> 0 <= find_op(ops, name) < ops.len() && ops[find_op(
            ops,
            name,
        )].old_name == name,
    decreases ops.len(),
{
    if ops.len() > 0 && ops[0].old_name != name {
        lemma_find_op_props(ops.drop_first(), name);
        let r = find_op(ops.drop_first(), name);
        if r == -1 {
            assert forall|k: int| 0 <= k < ops.len() implies (#[trigger] ops[k]).old_name
                != name by {
                if k > 0 {
                    assert(ops.drop_first()[k - 1] == ops[k]);
                }
            }
        } else {
            assert(ops.drop_first()[r] == ops[r + 1]);
        }
    }
}

/// The entry after a pass: renamed when some planned operation bears
/// its name, untouched otherwise.
pub open spec fn apply_op(ops: Seq<RenameOpView>, e: FileEntryView) -> FileEntryView {
    if find_op(ops, e.name) >= 0 {
        FileEntryView {
            name: ops[find_op(ops, e.name)].new_name,
            mtime: e.mtime,
            is_file: e.is_file,
        }
    } else {
        e
    }
}

/// The directory after a pass: each entry renamed as the pass planned.
pub open spec fn apply_pass(
    dir_name: Seq<char>,
    entries: Seq<FileEntryView>,
    set: Seq<Seq<char>>,
) -> Seq<FileEntryView> {
    entries.map_values(|e: FileEntryView| apply_op(ops_of(dir_name, entries, set), e))
}

/// Appending a name that holds a dot keeps its last dot the last one,
/// and with it the extension.
proof fn lemma_append_keeps_ext(a: Seq<char>, b: Seq<char>)
    requires
        last_dot_index(b) >= 0,
    ensures
        last_dot_index(a + b) == a.len() + last_dot_index(b),
        ext_of(a + b) == ext_of(b),
    decreases b.len(),
{
    if b.last() == '.' {
        assert((a + b).last() == '.');
        assert(last_dot_index(a + b) == a.len() + b.len() - 1);
    } else {
        assert(last_dot_index(b) == last_dot_index(b.drop_last()));
        lemma_append_keeps_ext(a, b.drop_last());
        assert((a + b).last() == b.last());
        assert((a + b).drop_last() =~= a + b.drop_last());
        assert(last_dot_index(a + b) == last_dot_index(a + b.drop_last()));
    }
    lemma_last_dot_characterises(b);
    let ld = last_dot_index(b);
    assert forall|t: int| 0 <= t < b.len() - ld implies (a + b)[a.len() + ld + t] == #[trigger] b[ld
        + t] by {}
    assert(ext_of(a + b) =~= ext_of(b));
}

/// A planned new name: it bears the label as a prefix and keeps the
/// old name's extension.
proof fn lemma_new_name_shape(label: Seq<char>, width: nat, index: nat, old_name: Seq<char>)
    requires
        has_usable_ext(old_name),
    ensures
        label.is_prefix_of(new_name_spec(label, width, index, old_name)),
        has_usable_ext(new_name_spec(label, width, index, old_name)),
        ext_of(new_name_spec(label, width, index, old_name)) == ext_of(old_name),
{
    let nn = new_name_spec(label, width, index, old_name);
    let pre = label + seq!['_'] + crate::text::padded_dec(index, width) + seq!['_'];
    assert(nn =~= pre + old_name);
    lemma_append_keeps_ext(pre, old_name);
    assert(label.is_prefix_of(nn)) by {
        assert(nn.subrange(0, label.len() as int) =~= label);
    }
}

/// A sequence none of whose elements passes the predicate filters to
/// the empty sequence.
proof fn lemma_filter_all_excluded<A>(s: Seq<A>, pred: spec_fn(A) -> bool)
    requires
        forall|i: int| 0 <= i < s.len() ==> !pred(#[trigger] s[i]),
    ensures
        s.filter(pred) == Seq::<A>::empty(),
    decreases s.len(),
{
    reveal(Seq::filter);
    if s.len() > 0 {
        assert forall|i: int| 0 <= i < s.drop_last().len() implies !pred(
            #[trigger] s.drop_last()[i],
        ) by {
            assert(s.drop_last()[i] == s[i]);
        }
        lemma_filter_all_excluded(s.drop_last(), pred);
        assert(!pred(s.last()));
        assert(s.filter(pred) =~= Seq::<A>::empty());
    } else {
        assert(s.filter(pred) =~= Seq::<A>::empty());
    }
}

/// Idempotence: a pass that succeeds leaves the directory in a state on
/// which a second pass succeeds and plans no rename at all.
pub proof fn lemma_idempotent(dir_name: Seq<char>, entries: Seq<FileEntryView>, set: Seq<Seq<char>>)
    requires
        exts_ok(entries),
    ensures
        exts_ok(apply_pass(dir_name, entries, set)),
        to_rename_of(dir_name, apply_pass(dir_name, entries, set), set).len() == 0,
        ops_of(dir_name, apply_pass(dir_name, entries, set), set).len() == 0,
{
    broadcast use vstd::seq_lib::group_filter_ensures;

    let label = label_of(dir_name);
    let cands = candidates_of(entries, set);
    let sorted = sort_by_mtime(cands);
    let tr = to_rename_of(dir_name, entries, set);
    let ops = ops_of(dir_name, entries, set);
    let after = apply_pass(dir_name, entries, set);

    lemma_sort_by_mtime_props(cands);
    lemma_filter_elem_of(sorted, unlabelled_pred(label));
    lemma_filter_elem_of(entries, candidate_pred(set));

    // Each planned operation renames a candidate: its old name has a
    // usable extension, and the new name keeps it under the label.
    assert forall|k: int| 0 <= k < ops.len() implies {
        &&& has_usable_ext((#[trigger] ops[k]).old_name)
        &&& has_usable_ext(ops[k].new_name)
        &&& ext_of(ops[k].new_name) == ext_of(ops[k].old_name)
        &&& label.is_prefix_of(ops[k].new_name)
    } by {
        assert(ops[k].old_name == tr[k].name);
        assert(unlabelled_pred(label)(tr[k]));
        assert(sorted.contains(tr[k]));
        assert(cands.contains(tr[k]));
        let m = choose|m: int| 0 <= m < cands.len() && cands[m] == tr[k];
        assert(candidate_pred(set)(cands[m]));
        assert(is_candidate(tr[k], set));
        lemma_new_name_shape(
            label,
            crate::padding::spec_padding_width(cands.len() as nat),
            (already_of(dir_name, entries, set).len() + k) as nat,
            tr[k].name,
        );
    }

    // After the pass every entry keeps its kind and extension, so the
    // second pass accepts the directory.
    assert forall|i: int| 0 <= i < after.len() implies (#[trigger] after[i]) == apply_op(
        ops,
        entries[i],
    ) by {}
    assert forall|i: int|
        0 <= i < after.len() && (#[trigger] after[i]).is_file implies has_usable_ext(
        after[i].name,
    ) by {
        let e = entries[i];
        lemma_find_op_props(ops, e.name);
        if find_op(ops, e.name) >= 0 {
            assert(after[i].name == ops[find_op(ops, e.name)].new_name);
        } else {
            assert(after[i] == e);
        }
    }
    assert(exts_ok(after));

    // Every candidate of the renamed directory bears the label: either
    // it was renamed to a labelled name, or it already bore the label.
    assert forall|i: int|
        0 <= i < after.len() && candidate_pred(set)(#[trigger] after[i]) implies labelled_pred(
        label,
    )(after[i]) by {
        let e = entries[i];
        lemma_find_op_props(ops, e.name);
        if find_op(ops, e.name) >= 0 {
            assert(label.is_prefix_of(after[i].name));
        } else {
            assert(after[i] == e);
            assert(is_candidate(e, set));
            assert(entries.contains(e)) by {
                assert(entries[i] == e);
            }
            assert(cands.contains(e)) by {
                assert(candidate_pred(set)(entries[i]));
                entries.lemma_filter_contains(candidate_pred(set), i);
            }
            assert(sorted.contains(e));
            if !label.is_prefix_of(e.name) {
                let m = choose|m: int| 0 <= m < sorted.len() && sorted[m] == e;
                assert(unlabelled_pred(label)(sorted[m]));
                sorted.lemma_filter_contains(unlabelled_pred(label), m);
                assert(tr.contains(e));
                let k = choose|k: int| 0 <= k < tr.len() && tr[k] == e;
                assert(ops[k].old_name == e.name);
                assert(find_op(ops, e.name) >= 0);
            }
        }
    }

    // Hence the second pass's to-rename list is empty.
    let cands2 = candidates_of(after, set);
    let sorted2 = sort_by_mtime(cands2);
    lemma_sort_by_mtime_props(cands2);
    lemma_filter_elem_of(after, candidate_pred(set));
    assert forall|m: int| 0 <= m < sorted2.len() implies !unlabelled_pred(label)(
        #[trigger] sorted2[m],
    ) by {
        assert(sorted2.contains(sorted2[m]));
        assert(cands2.contains(sorted2[m]));
        let p = choose|p: int| 0 <= p < cands2.len() && cands2[p] == sorted2[m];
        assert(candidate_pred(set)(cands2[p]));
        let q = choose|q: int| 0 <= q < after.len() && after[q] == cands2[p];
        assert(labelled_pred(label)(after[q]));
    }
    lemma_filter_all_excluded(sorted2, unlabelled_pred(label));
    assert(to_rename_of(dir_name, after, set) =~= Seq::<FileEntryView>::empty());
}

/// Extension isolation: every planned rename belongs to a candidate
/// file; a file whose extension is not recognised is never renamed.
pub proof fn lemma_extension_isolation(
    dir_name: Seq<char>,
    entries: Seq<FileEntryView>,
    set: Seq<Seq<char>>,
)
    ensures
        forall|k: int|
            0 <= k < ops_of(dir_name, entries, set).len() ==> exists|i: int|
                0 <= i < entries.len() && is_candidate(#[trigger] entries[i], set) && entries[i].name
                    == (#[trigger] ops_of(dir_name, entries, set)[k]).old_name,
{
    broadcast use vstd::seq_lib::group_filter_ensures;

    let cands = candidates_of(entries, set);
    let sorted = sort_by_mtime(cands);
    let tr = to_rename_of(dir_name, entries, set);
    lemma_sort_by_mtime_props(cands);
    lemma_filter_elem_of(sorted, unlabelled_pred(label_of(dir_name)));
    lemma_filter_elem_of(entries, candidate_pred(set));
    assert forall|k: int| 0 <= k < ops_of(dir_name, entries, set).len() implies exists|i: int|
        0 <= i < entries.len() && is_candidate(#[trigger] entries[i], set) && entries[i].name == (
        #[trigger] ops_of(dir_name, entries, set)[k]).old_name by {
        assert(ops_of(dir_name, entries, set)[k].old_name == tr[k].name);
        assert(sorted.contains(tr[k]));
        assert(cands.contains(tr[k]));
        let m = choose|m: int| 0 <= m < cands.len() && cands[m] == tr[k];
        assert(candidate_pred(set)(cands[m]));
        assert(entries.contains(cands[m]));
        let i = choose|i: int| 0 <= i < entries.len() && entries[i] == cands[m];
        assert(is_candidate(entries[i], set));
        assert(entries[i].name == ops_of(dir_name, entries, set)[k].old_name);
    }
}

/// Empty input: a directory without a single candidate yields a plan
/// with no rename at all.
pub proof fn lemma_empty_pass(dir_name: Seq<char>, entries: Seq<FileEntryView>, set: Seq<Seq<char>>)
    requires
        forall|i: int| 0 <= i < entries.len() ==> !is_candidate(#[trigger] entries[i], set),
    ensures
        candidates_of(entries, set).len() == 0,
        ops_of(dir_name, entries, set).len() == 0,
{
    assert forall|i: int| 0 <= i < entries.len() implies !candidate_pred(set)(
        #[trigger] entries[i],
    ) by {}
    lemma_filter_all_excluded(entries, candidate_pred(set));
    let cands = candidates_of(entries, set);
    assert(cands =~= Seq::<FileEntryView>::empty());
    lemma_sort_by_mtime_props(cands);
    let sorted = sort_by_mtime(cands);
    assert(sorted.len() == 0);
    lemma_filter_all_excluded(sorted, unlabelled_pred(label_of(dir_name)));
}

} // verus!

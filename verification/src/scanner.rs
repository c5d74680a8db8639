//! The tree walker: a depth-first pre-order traversal of an in-memory
//! directory tree that applies the ignore rules, derives metadata tags, and
//! produces the ordered sequence of node records with parent-before-child
//! identifier linkage, together with the aggregate statistics.

use vstd::prelude::*;
use vstd::string::StringExecFns;
use crate::gitignore::{GitignoreParser, PatternModel, spec_is_excluded, spec_parse_content};
use crate::metadata::{
    extract_artifact_id_name, extract_artifact_type, extract_crate_layer, extract_file_extension,
    extract_role, spec_artifact_id_name, spec_artifact_type, spec_crate_layer, spec_extension,
    spec_role,
};
use crate::snapshot::SnapshotPickerState;
use crate::snapshot_file::{node_views, opt_id_view, NodeModel, SnapshotFile};
use crate::text::{append_chars, chars_eq, chars_of, normalize_chars, spec_normalize, string_of};

verus! {

/// An in-memory image of one directory entry: what a host reads off the
/// disk and hands to the walker as plain values.
pub enum FsTree {
    File { name: String, size_bytes: i64 },
    Dir { name: String, entries: Vec<FsTree> },
}

/// The base name of an entry.
pub open spec fn entry_name(t: FsTree) -> Seq<char> {
    match t {
        FsTree::File { name, .. } => name@,
        FsTree::Dir { name, .. } => name@,
    }
}

/// The recorded size of an entry: directories always carry size 0.
pub open spec fn entry_size(t: FsTree) -> int {
    match t {
        FsTree::File { size_bytes, .. } => size_bytes as int,
        FsTree::Dir { .. } => 0,
    }
}

/// The immediate children of an entry.
pub open spec fn entry_children(t: FsTree) -> Seq<FsTree> {
    match t {
        FsTree::File { .. } => Seq::<FsTree>::empty(),
        FsTree::Dir { entries, .. } => entries@,
    }
}

/// A forest strictly dominates its first entry's children and its own tail
/// in the well-founded order that the recursive walk descends along.
proof fn lemma_forest_decreases(entries: Seq<FsTree>)
    requires
        entries.len() > 0,
    ensures
        decreases_to!(entries => entry_children(entries[0])),
        decreases_to!(entries => entries.drop_first()),
{
    let t = entries[0];
    assert(decreases_to!(entries => t));
    assert(decreases_to!(entries => entries.drop_first()));
    match t {
        FsTree::Dir { name: _n, entries: ch } => {
            assert(decreases_to!(t => ch));
            assert(decreases_to!(ch => ch@));
            assert(entry_children(t) == ch@);
        },
        FsTree::File { .. } => {
            assert(entry_children(t).len() == 0);
            vstd::seq::axiom_seq_len_decreases(entries, entry_children(t));
        },
    }
}

/// The total number of entries in a forest, at every depth.
pub open spec fn spec_count(entries: Seq<FsTree>) -> nat
    decreases entries,
    via spec_count_decreases
{
    if entries.len() == 0 {
        0
    } else {
        1 + spec_count(entry_children(entries[0])) + spec_count(entries.drop_first())
    }
}

#[via_fn]
proof fn spec_count_decreases(entries: Seq<FsTree>) {
    if entries.len() > 0 {
        lemma_forest_decreases(entries);
    }
}

/// Every size in the forest is non-negative, at every depth.
pub open spec fn forest_wf(entries: Seq<FsTree>) -> bool
    decreases entries,
    via forest_wf_decreases
{
    if entries.len() == 0 {
        true
    } else {
        entry_size(entries[0]) >= 0 && forest_wf(entry_children(entries[0])) && forest_wf(
            entries.drop_first(),
        )
    }
}

#[via_fn]
proof fn forest_wf_decreases(entries: Seq<FsTree>) {
    if entries.len() > 0 {
        lemma_forest_decreases(entries);
    }
}

/// The sum of every file size in the forest, at every depth.
pub open spec fn spec_total_size(entries: Seq<FsTree>) -> int
    decreases entries,
    via spec_total_size_decreases
{
    if entries.len() == 0 {
        0
    } else {
        entry_size(entries[0]) + spec_total_size(entry_children(entries[0])) + spec_total_size(
            entries.drop_first(),
        )
    }
}

#[via_fn]
proof fn spec_total_size_decreases(entries: Seq<FsTree>) {
    if entries.len() > 0 {
        lemma_forest_decreases(entries);
    }
}

/// The `/`-joined root-relative path of a child named `name` below
/// `prefix`.
pub open spec fn child_path(prefix: Seq<char>, name: Seq<char>) -> Seq<char> {
    if prefix.len() == 0 {
        name
    } else {
        prefix + seq!['/'] + name
    }
}

/// The stored path of that child: slash-normalized, so that a record's path
/// never carries a backslash whatever the entry names hold.
pub open spec fn node_path(prefix: Seq<char>, name: Seq<char>) -> Seq<char> {
    spec_normalize(child_path(prefix, name))
}

/// Whether the walk records this entry at all: a directory literally named
/// `.git` is always skipped, and so is anything the rules exclude.
pub open spec fn entry_included(t: FsTree, prefix: Seq<char>, rules: Seq<PatternModel>) -> bool {
    let name = entry_name(t);
    let is_dir = t is Dir;
    let path = node_path(prefix, name);
    !(is_dir && name == ".git"@) && !spec_is_excluded(rules, path, is_dir)
}

/// The record the walk creates for an included entry: linked to its parent,
/// sized 0 for directories, and tagged by the metadata extractor.
pub open spec fn node_model(
    t: FsTree,
    prefix: Seq<char>,
    parent: Option<int>,
    id: int,
    snapshot_id: int,
) -> NodeModel {
    let name = entry_name(t);
    let is_dir = t is Dir;
    let path = node_path(prefix, name);
    NodeModel {
        id: id,
        snapshot_id: snapshot_id,
        parent_id: parent,
        name: name,
        path: path,
        size_bytes: entry_size(t),
        is_directory: is_dir,
        file_extension: if is_dir {
            None
        } else {
            spec_extension(name)
        },
        crate_layer: spec_crate_layer(path),
        artifact_type: spec_artifact_type(path),
        artifact_id: match spec_artifact_id_name(path) {
            None => None,
            Some(p) => Some(p.0),
        },
        artifact_name: match spec_artifact_id_name(path) {
            None => None,
            Some(p) => Some(p.1),
        },
        role: spec_role(path, name, is_dir),
    }
}

/// The records one entry contributes, in depth-first pre-order: nothing when
/// it is skipped; its own record, then — for a directory — the records of
/// its children, with the new record's identifier as their parent.
pub open spec fn spec_walk_one(
    t: FsTree,
    prefix: Seq<char>,
    parent: Option<int>,
    next_id: int,
    snapshot_id: int,
    rules: Seq<PatternModel>,
) -> Seq<NodeModel>
    decreases t,
    via spec_walk_one_decreases
{
    if !entry_included(t, prefix, rules) {
        Seq::<NodeModel>::empty()
    } else {
        let node = node_model(t, prefix, parent, next_id, snapshot_id);
        if t is Dir {
            seq![node] + spec_walk(
                entry_children(t),
                node_path(prefix, entry_name(t)),
                Some(next_id),
                next_id + 1,
                snapshot_id,
                rules,
            )
        } else {
            seq![node]
        }
    }
}

#[via_fn]
proof fn spec_walk_one_decreases(
    t: FsTree,
    prefix: Seq<char>,
    parent: Option<int>,
    next_id: int,
    snapshot_id: int,
    rules: Seq<PatternModel>,
) {
    match t {
        FsTree::Dir { name: _n, entries: ch } => {
            assert(decreases_to!(t => ch));
            assert(decreases_to!(ch => ch@));
            assert(entry_children(t) == ch@);
        },
        FsTree::File { .. } => {},
    }
}

/// The records a forest contributes, in order: each entry's records, with
/// identifiers assigned consecutively starting at `next_id`.
pub open spec fn spec_walk(
    entries: Seq<FsTree>,
    prefix: Seq<char>,
    parent: Option<int>,
    next_id: int,
    snapshot_id: int,
    rules: Seq<PatternModel>,
) -> Seq<NodeModel>
    decreases entries,
    via spec_walk_decreases
{
    if entries.len() == 0 {
        Seq::<NodeModel>::empty()
    } else {
        let first = spec_walk_one(entries[0], prefix, parent, next_id, snapshot_id, rules);
        first + spec_walk(
            entries.drop_first(),
            prefix,
            parent,
            next_id + first.len(),
            snapshot_id,
            rules,
        )
    }
}

#[via_fn]
proof fn spec_walk_decreases(
    entries: Seq<FsTree>,
    prefix: Seq<char>,
    parent: Option<int>,
    next_id: int,
    snapshot_id: int,
    rules: Seq<PatternModel>,
) {
    if entries.len() > 0 {
        lemma_forest_decreases(entries);
        assert(decreases_to!(entries => entries[0]));
    }
}

/// A directory strictly dominates its own children in the well-founded
/// order of the walk.
proof fn lemma_tree_decreases(t: FsTree)
    requires
        t is Dir,
    ensures
        decreases_to!(t => entry_children(t)),
{
    match t {
        FsTree::Dir { name: _n, entries: ch } => {
            assert(decreases_to!(t => ch));
            assert(decreases_to!(ch => ch@));
            assert(entry_children(t) == ch@);
        },
        FsTree::File { .. } => {},
    }
}

/// Walking a concatenated forest walks the first part, then the second with
/// the identifier counter advanced past the first part's records.
pub proof fn lemma_walk_concat(
    a: Seq<FsTree>,
    b: Seq<FsTree>,
    prefix: Seq<char>,
    parent: Option<int>,
    next_id: int,
    snapshot_id: int,
    rules: Seq<PatternModel>,
)
    ensures
        spec_walk(a + b, prefix, parent, next_id, snapshot_id, rules) == spec_walk(
            a,
            prefix,
            parent,
            next_id,
            snapshot_id,
            rules,
        ) + spec_walk(
            b,
            prefix,
            parent,
            next_id + spec_walk(a, prefix, parent, next_id, snapshot_id, rules).len(),
            snapshot_id,
            rules,
        ),
    decreases a.len(),
{
    if a.len() == 0 {
        assert(a + b =~= b);
        assert(spec_walk(a, prefix, parent, next_id, snapshot_id, rules) == Seq::<
            NodeModel,
        >::empty());
        assert(Seq::<NodeModel>::empty() + spec_walk(b, prefix, parent, next_id, snapshot_id, rules)
            =~= spec_walk(b, prefix, parent, next_id, snapshot_id, rules));
    } else {
        let first = spec_walk_one(a[0], prefix, parent, next_id, snapshot_id, rules);
        assert((a + b)[0] == a[0]);
        assert((a + b).drop_first() =~= a.drop_first() + b);
        let nid2 = next_id + first.len();
        lemma_walk_concat(a.drop_first(), b, prefix, parent, nid2, snapshot_id, rules);
        let ta = spec_walk(a.drop_first(), prefix, parent, nid2, snapshot_id, rules);
        let wa = spec_walk(a, prefix, parent, next_id, snapshot_id, rules);
        assert(wa == first + ta);
        let wb = spec_walk(b, prefix, parent, next_id + wa.len(), snapshot_id, rules);
        assert(nid2 + ta.len() == next_id + wa.len());
        assert(first + (ta + wb) =~= (first + ta) + wb);
    }
}

/// Identifiers are assigned consecutively: the record at index `k` of a walk
/// that starts counting at `next_id` carries identifier `next_id + k`.
pub proof fn lemma_walk_ids(
    entries: Seq<FsTree>,
    prefix: Seq<char>,
    parent: Option<int>,
    next_id: int,
    snapshot_id: int,
    rules: Seq<PatternModel>,
)
    ensures
        forall|k: int|
            0 <= k < spec_walk(entries, prefix, parent, next_id, snapshot_id, rules).len()
                ==> spec_walk(entries, prefix, parent, next_id, snapshot_id, rules)[k].id == next_id
                + k,
    decreases entries,
{
    if entries.len() > 0 {
        lemma_forest_decreases(entries);
        assert(decreases_to!(entries => entries[0]));
        let first = spec_walk_one(entries[0], prefix, parent, next_id, snapshot_id, rules);
        lemma_walk_one_ids(entries[0], prefix, parent, next_id, snapshot_id, rules);
        lemma_walk_ids(
            entries.drop_first(),
            prefix,
            parent,
            next_id + first.len(),
            snapshot_id,
            rules,
        );
    }
}

/// Identifier assignment within the records of one entry.
pub proof fn lemma_walk_one_ids(
    t: FsTree,
    prefix: Seq<char>,
    parent: Option<int>,
    next_id: int,
    snapshot_id: int,
    rules: Seq<PatternModel>,
)
    ensures
        forall|k: int|
            0 <= k < spec_walk_one(t, prefix, parent, next_id, snapshot_id, rules).len()
                ==> spec_walk_one(t, prefix, parent, next_id, snapshot_id, rules)[k].id == next_id
                + k,
    decreases t,
{
    if entry_included(t, prefix, rules) && t is Dir {
        lemma_tree_decreases(t);
        lemma_walk_ids(
            entry_children(t),
            node_path(prefix, entry_name(t)),
            Some(next_id),
            next_id + 1,
            snapshot_id,
            rules,
        );
    }
}

/// Parent linkage of every walked record: the parent identifier is either
/// the one handed to the walk or one assigned within the walk, and in both
/// cases smaller than the record's own identifier.
pub proof fn lemma_walk_parents(
    entries: Seq<FsTree>,
    prefix: Seq<char>,
    parent: Option<int>,
    next_id: int,
    snapshot_id: int,
    rules: Seq<PatternModel>,
)
    requires
        match parent {
            None => true,
            Some(p) => p < next_id,
        },
    ensures
        forall|k: int|
            0 <= k < spec_walk(entries, prefix, parent, next_id, snapshot_id, rules).len()
                ==> match (#[trigger] spec_walk(entries, prefix, parent, next_id, snapshot_id, rules)[k]).parent_id {
                None => true,
                Some(p) => p < next_id + k && (parent == Some(p) || next_id <= p),
            },
    decreases entries,
{
    if entries.len() > 0 {
        lemma_forest_decreases(entries);
        assert(decreases_to!(entries => entries[0]));
        let first = spec_walk_one(entries[0], prefix, parent, next_id, snapshot_id, rules);
        lemma_walk_one_parents(entries[0], prefix, parent, next_id, snapshot_id, rules);
        lemma_walk_parents(
            entries.drop_first(),
            prefix,
            parent,
            next_id + first.len(),
            snapshot_id,
            rules,
        );
    }
}

/// Parent linkage within the records of one entry.
pub proof fn lemma_walk_one_parents(
    t: FsTree,
    prefix: Seq<char>,
    parent: Option<int>,
    next_id: int,
    snapshot_id: int,
    rules: Seq<PatternModel>,
)
    requires
        match parent {
            None => true,
            Some(p) => p < next_id,
        },
    ensures
        forall|k: int|
            0 <= k < spec_walk_one(t, prefix, parent, next_id, snapshot_id, rules).len()
                ==> match (#[trigger] spec_walk_one(t, prefix, parent, next_id, snapshot_id, rules)[k]).parent_id {
                None => true,
                Some(p) => p < next_id + k && (parent == Some(p) || next_id <= p),
            },
    decreases t,
{
    if entry_included(t, prefix, rules) && t is Dir {
        lemma_tree_decreases(t);
        lemma_walk_parents(
            entry_children(t),
            node_path(prefix, entry_name(t)),
            Some(next_id),
            next_id + 1,
            snapshot_id,
            rules,
        );
    }
}

/// Parent before child: in a walk started without a parent, every record
/// with a parent reference points at a record created earlier in the same
/// walk.
pub proof fn lemma_parent_before_child(
    entries: Seq<FsTree>,
    prefix: Seq<char>,
    next_id: int,
    snapshot_id: int,
    rules: Seq<PatternModel>,
    k: int,
    p: int,
)
    requires
        0 <= k < spec_walk(entries, prefix, None, next_id, snapshot_id, rules).len(),
        spec_walk(entries, prefix, None, next_id, snapshot_id, rules)[k].parent_id == Some(p),
    ensures
        exists|j: int|
            0 <= j < k && #[trigger] spec_walk(
                entries,
                prefix,
                None,
                next_id,
                snapshot_id,
                rules,
            )[j].id == p,
{
    lemma_walk_parents(entries, prefix, None, next_id, snapshot_id, rules);
    lemma_walk_ids(entries, prefix, None, next_id, snapshot_id, rules);
    let j = p - next_id;
    assert(spec_walk(entries, prefix, None, next_id, snapshot_id, rules)[j].id == p);
}


/// The number of file records in a record sequence.
pub open spec fn spec_files_count(ns: Seq<NodeModel>) -> int
    decreases ns.len(),
{
    if ns.len() == 0 {
        0
    } else {
        spec_files_count(ns.drop_last()) + if ns.last().is_directory {
            0int
        } else {
            1int
        }
    }
}

/// The number of directory records in a record sequence.
pub open spec fn spec_dirs_count(ns: Seq<NodeModel>) -> int
    decreases ns.len(),
{
    if ns.len() == 0 {
        0
    } else {
        spec_dirs_count(ns.drop_last()) + if ns.last().is_directory {
            1int
        } else {
            0int
        }
    }
}

/// The sum of the sizes in a record sequence.
pub open spec fn spec_size_sum(ns: Seq<NodeModel>) -> int
    decreases ns.len(),
{
    if ns.len() == 0 {
        0
    } else {
        spec_size_sum(ns.drop_last()) + ns.last().size_bytes
    }
}

/// Every record in the sequence carries a non-negative size.
pub open spec fn all_sizes_nonneg(ns: Seq<NodeModel>) -> bool {
    forall|k: int| 0 <= k < ns.len() ==> (#[trigger] ns[k]).size_bytes >= 0
}

/// File and directory counts split the record count between them.
pub proof fn lemma_counts_split(ns: Seq<NodeModel>)
    ensures
        0 <= spec_files_count(ns),
        0 <= spec_dirs_count(ns),
        spec_files_count(ns) + spec_dirs_count(ns) == ns.len(),
    decreases ns.len(),
{
    if ns.len() > 0 {
        lemma_counts_split(ns.drop_last());
    }
}

/// The aggregates of a concatenation are the sums of the parts' aggregates.
pub proof fn lemma_aggregates_concat(a: Seq<NodeModel>, b: Seq<NodeModel>)
    ensures
        spec_files_count(a + b) == spec_files_count(a) + spec_files_count(b),
        spec_dirs_count(a + b) == spec_dirs_count(a) + spec_dirs_count(b),
        spec_size_sum(a + b) == spec_size_sum(a) + spec_size_sum(b),
    decreases b.len(),
{
    if b.len() == 0 {
        assert(a + b =~= a);
    } else {
        lemma_aggregates_concat(a, b.drop_last());
        assert((a + b).drop_last() =~= a + b.drop_last());
        assert((a + b).last() == b.last());
    }
}

/// A prefix of a non-negative record sequence sums to at most the whole.
pub proof fn lemma_size_sum_prefix(ns: Seq<NodeModel>, k: int)
    requires
        all_sizes_nonneg(ns),
        0 <= k <= ns.len(),
    ensures
        0 <= spec_size_sum(ns.take(k)) <= spec_size_sum(ns),
    decreases ns.len(),
{
    if k == ns.len() {
        assert(ns.take(k) =~= ns);
        if ns.len() > 0 {
            assert(ns.drop_last() =~= ns.take(ns.len() - 1));
            lemma_size_sum_prefix(ns.drop_last(), ns.len() - 1);
            assert(ns.drop_last().take(ns.len() - 1) =~= ns.drop_last());
        }
    } else {
        let d = ns.drop_last();
        assert(forall|j: int| 0 <= j < d.len() ==> (#[trigger] d[j]).size_bytes >= 0);
        lemma_size_sum_prefix(d, k);
        assert(d.take(k) =~= ns.take(k));
        assert(spec_size_sum(ns) == spec_size_sum(d) + ns.last().size_bytes);
    }
}

/// A walk produces at most one record per entry of the forest.
pub proof fn lemma_walk_le_count(
    entries: Seq<FsTree>,
    prefix: Seq<char>,
    parent: Option<int>,
    next_id: int,
    snapshot_id: int,
    rules: Seq<PatternModel>,
)
    ensures
        spec_walk(entries, prefix, parent, next_id, snapshot_id, rules).len() <= spec_count(
            entries,
        ),
    decreases entries,
{
    if entries.len() > 0 {
        lemma_forest_decreases(entries);
        assert(decreases_to!(entries => entries[0]));
        let first = spec_walk_one(entries[0], prefix, parent, next_id, snapshot_id, rules);
        lemma_walk_one_le_count(entries[0], prefix, parent, next_id, snapshot_id, rules);
        lemma_walk_le_count(
            entries.drop_first(),
            prefix,
            parent,
            next_id + first.len(),
            snapshot_id,
            rules,
        );
    }
}

/// One entry contributes at most one record for itself plus its children's.
pub proof fn lemma_walk_one_le_count(
    t: FsTree,
    prefix: Seq<char>,
    parent: Option<int>,
    next_id: int,
    snapshot_id: int,
    rules: Seq<PatternModel>,
)
    ensures
        spec_walk_one(t, prefix, parent, next_id, snapshot_id, rules).len() <= 1 + spec_count(
            entry_children(t),
        ),
    decreases t,
{
    if entry_included(t, prefix, rules) && t is Dir {
        lemma_tree_decreases(t);
        lemma_walk_le_count(
            entry_children(t),
            node_path(prefix, entry_name(t)),
            Some(next_id),
            next_id + 1,
            snapshot_id,
            rules,
        );
    }
}

/// The total size of a well-formed forest is non-negative.
pub proof fn lemma_total_size_nonneg(entries: Seq<FsTree>)
    requires
        forest_wf(entries),
    ensures
        spec_total_size(entries) >= 0,
    decreases entries,
{
    if entries.len() > 0 {
        lemma_forest_decreases(entries);
        lemma_total_size_nonneg(entry_children(entries[0]));
        lemma_total_size_nonneg(entries.drop_first());
    }
}

/// Every record a walk of a well-formed forest produces carries a
/// non-negative size, and together they sum to at most the forest's total.
pub proof fn lemma_walk_sizes(
    entries: Seq<FsTree>,
    prefix: Seq<char>,
    parent: Option<int>,
    next_id: int,
    snapshot_id: int,
    rules: Seq<PatternModel>,
)
    requires
        forest_wf(entries),
    ensures
        all_sizes_nonneg(spec_walk(entries, prefix, parent, next_id, snapshot_id, rules)),
        0 <= spec_size_sum(spec_walk(entries, prefix, parent, next_id, snapshot_id, rules))
            <= spec_total_size(entries),
    decreases entries,
{
    if entries.len() == 0 {
    } else {
        lemma_forest_decreases(entries);
        assert(decreases_to!(entries => entries[0]));
        let first = spec_walk_one(entries[0], prefix, parent, next_id, snapshot_id, rules);
        let rest = spec_walk(
            entries.drop_first(),
            prefix,
            parent,
            next_id + first.len(),
            snapshot_id,
            rules,
        );
        lemma_walk_one_sizes(entries[0], prefix, parent, next_id, snapshot_id, rules);
        lemma_walk_sizes(
            entries.drop_first(),
            prefix,
            parent,
            next_id + first.len(),
            snapshot_id,
            rules,
        );
        lemma_aggregates_concat(first, rest);
        assert(all_sizes_nonneg(first + rest)) by {
            assert(forall|k: int|
                0 <= k < first.len() ==> (first + rest)[k] == #[trigger] first[k]);
            assert(forall|k: int|
                first.len() <= k < first.len() + rest.len() ==> (#[trigger] (first + rest)[k])
                    == rest[k - first.len()]);
        }
    }
}

/// Size bounds for the records of one entry.
pub proof fn lemma_walk_one_sizes(
    t: FsTree,
    prefix: Seq<char>,
    parent: Option<int>,
    next_id: int,
    snapshot_id: int,
    rules: Seq<PatternModel>,
)
    requires
        entry_size(t) >= 0,
        forest_wf(entry_children(t)),
    ensures
        all_sizes_nonneg(spec_walk_one(t, prefix, parent, next_id, snapshot_id, rules)),
        0 <= spec_size_sum(spec_walk_one(t, prefix, parent, next_id, snapshot_id, rules))
            <= entry_size(t) + spec_total_size(entry_children(t)),
    decreases t,
{
    lemma_total_size_nonneg(entry_children(t));
    if !entry_included(t, prefix, rules) {
    } else {
        let node = node_model(t, prefix, parent, next_id, snapshot_id);
        assert(spec_size_sum(seq![node]) == node.size_bytes) by {
            assert(seq![node].drop_last() =~= Seq::<NodeModel>::empty());
            assert(spec_size_sum(Seq::<NodeModel>::empty()) == 0);
            assert(seq![node].last() == node);
        }
        if t is Dir {
            lemma_tree_decreases(t);
            let sub = spec_walk(
                entry_children(t),
                node_path(prefix, entry_name(t)),
                Some(next_id),
                next_id + 1,
                snapshot_id,
                rules,
            );
            lemma_walk_sizes(
                entry_children(t),
                node_path(prefix, entry_name(t)),
                Some(next_id),
                next_id + 1,
                snapshot_id,
                rules,
            );
            lemma_aggregates_concat(seq![node], sub);
            let w = seq![node] + sub;
            assert(all_sizes_nonneg(w)) by {
                assert(w[0] == node);
                assert(forall|k: int|
                    1 <= k < w.len() ==> (#[trigger] w[k]) == sub[k - 1]);
            }
        } else {
            assert(all_sizes_nonneg(seq![node])) by {
                assert(seq![node][0] == node);
            }
        }
    }
}


/// Whether some entry of the forest, at any depth below `prefix`, has the
/// given root-relative path.
pub open spec fn forest_has_path(entries: Seq<FsTree>, prefix: Seq<char>, path: Seq<char>) -> bool
    decreases entries,
    via forest_has_path_decreases
{
    if entries.len() == 0 {
        false
    } else {
        let p = node_path(prefix, entry_name(entries[0]));
        p == path || forest_has_path(entry_children(entries[0]), p, path) || forest_has_path(
            entries.drop_first(),
            prefix,
            path,
        )
    }
}

#[via_fn]
proof fn forest_has_path_decreases(entries: Seq<FsTree>, prefix: Seq<char>, path: Seq<char>) {
    if entries.len() > 0 {
        lemma_forest_decreases(entries);
    }
}

/// Every record a walk produces is for a path the forest contains.
pub proof fn lemma_walk_paths(
    entries: Seq<FsTree>,
    prefix: Seq<char>,
    parent: Option<int>,
    next_id: int,
    snapshot_id: int,
    rules: Seq<PatternModel>,
)
    ensures
        forall|k: int|
            0 <= k < spec_walk(entries, prefix, parent, next_id, snapshot_id, rules).len()
                ==> forest_has_path(
                entries,
                prefix,
                (#[trigger] spec_walk(entries, prefix, parent, next_id, snapshot_id, rules)[k]).path,
            ),
    decreases entries,
{
    if entries.len() > 0 {
        lemma_forest_decreases(entries);
        assert(decreases_to!(entries => entries[0]));
        let first = spec_walk_one(entries[0], prefix, parent, next_id, snapshot_id, rules);
        let rest = spec_walk(
            entries.drop_first(),
            prefix,
            parent,
            next_id + first.len(),
            snapshot_id,
            rules,
        );
        lemma_walk_one_paths(entries[0], prefix, parent, next_id, snapshot_id, rules);
        lemma_walk_paths(
            entries.drop_first(),
            prefix,
            parent,
            next_id + first.len(),
            snapshot_id,
            rules,
        );
        let w = first + rest;
        assert(forall|k: int| 0 <= k < first.len() ==> w[k] == #[trigger] first[k]);
        assert(forall|k: int|
            first.len() <= k < w.len() ==> (#[trigger] w[k]) == rest[k - first.len()]);
    }
}

/// Every record one entry contributes is for the entry's own path or for a
/// path below it.
pub proof fn lemma_walk_one_paths(
    t: FsTree,
    prefix: Seq<char>,
    parent: Option<int>,
    next_id: int,
    snapshot_id: int,
    rules: Seq<PatternModel>,
)
    ensures
        forall|k: int|
            0 <= k < spec_walk_one(t, prefix, parent, next_id, snapshot_id, rules).len() ==> {
                let q = (#[trigger] spec_walk_one(t, prefix, parent, next_id, snapshot_id, rules)[k]).path;
                q == node_path(prefix, entry_name(t)) || forest_has_path(
                    entry_children(t),
                    node_path(prefix, entry_name(t)),
                    q,
                )
            },
    decreases t,
{
    if entry_included(t, prefix, rules) {
        let node = node_model(t, prefix, parent, next_id, snapshot_id);
        if t is Dir {
            lemma_tree_decreases(t);
            let sub = spec_walk(
                entry_children(t),
                node_path(prefix, entry_name(t)),
                Some(next_id),
                next_id + 1,
                snapshot_id,
                rules,
            );
            lemma_walk_paths(
                entry_children(t),
                node_path(prefix, entry_name(t)),
                Some(next_id),
                next_id + 1,
                snapshot_id,
                rules,
            );
            let w = seq![node] + sub;
            assert(w[0] == node);
            assert(forall|k: int| 1 <= k < w.len() ==> (#[trigger] w[k]) == sub[k - 1]);
        } else {
            assert(spec_walk_one(t, prefix, parent, next_id, snapshot_id, rules)[0] == node);
        }
    }
}

/// Every path a forest can contribute is slash-normalized.
pub proof fn lemma_forest_paths_normalized(entries: Seq<FsTree>, prefix: Seq<char>, q: Seq<char>)
    requires
        forest_has_path(entries, prefix, q),
    ensures
        spec_normalize(q) == q,
    decreases entries,
{
    let p = node_path(prefix, entry_name(entries[0]));
    lemma_forest_decreases(entries);
    if p == q {
        crate::text::lemma_normalize_idempotent(child_path(prefix, entry_name(entries[0])));
    } else if forest_has_path(entry_children(entries[0]), p, q) {
        lemma_forest_paths_normalized(entry_children(entries[0]), p, q);
    } else {
        lemma_forest_paths_normalized(entries.drop_first(), prefix, q);
    }
}

/// Data-model invariant: the path of every record a walk produces is
/// slash-normalized, whatever separators the entry names hold.
pub proof fn lemma_walk_paths_slash_normalized(
    entries: Seq<FsTree>,
    prefix: Seq<char>,
    parent: Option<int>,
    next_id: int,
    snapshot_id: int,
    rules: Seq<PatternModel>,
    k: int,
)
    requires
        0 <= k < spec_walk(entries, prefix, parent, next_id, snapshot_id, rules).len(),
    ensures
        spec_normalize(spec_walk(entries, prefix, parent, next_id, snapshot_id, rules)[k].path)
            == spec_walk(entries, prefix, parent, next_id, snapshot_id, rules)[k].path,
{
    lemma_walk_paths(entries, prefix, parent, next_id, snapshot_id, rules);
    lemma_forest_paths_normalized(
        entries,
        prefix,
        spec_walk(entries, prefix, parent, next_id, snapshot_id, rules)[k].path,
    );
}

/// Full replace: a walk of a forest that no longer contains a path yields no
/// record for that path, so after a delete-then-rescan nothing stale
/// survives.
pub proof fn lemma_full_replace(
    entries: Seq<FsTree>,
    prefix: Seq<char>,
    parent: Option<int>,
    next_id: int,
    snapshot_id: int,
    rules: Seq<PatternModel>,
    path: Seq<char>,
)
    requires
        !forest_has_path(entries, prefix, path),
    ensures
        forall|k: int|
            0 <= k < spec_walk(entries, prefix, parent, next_id, snapshot_id, rules).len()
                ==> (#[trigger] spec_walk(entries, prefix, parent, next_id, snapshot_id, rules)[k]).path
                != path,
{
    lemma_walk_paths(entries, prefix, parent, next_id, snapshot_id, rules);
}

/// Two record sequences agree on everything except identifiers and parent
/// references.
pub open spec fn same_shape(a: Seq<NodeModel>, b: Seq<NodeModel>) -> bool {
    a.len() == b.len() && forall|k: int|
        0 <= k < a.len() ==> {
            &&& (#[trigger] a[k]).name == b[k].name
            &&& a[k].path == b[k].path
            &&& a[k].size_bytes == b[k].size_bytes
            &&& a[k].is_directory == b[k].is_directory
            &&& a[k].snapshot_id == b[k].snapshot_id
            &&& a[k].file_extension == b[k].file_extension
            &&& a[k].crate_layer == b[k].crate_layer
            &&& a[k].artifact_type == b[k].artifact_type
            &&& a[k].artifact_id == b[k].artifact_id
            &&& a[k].artifact_name == b[k].artifact_name
            &&& a[k].role == b[k].role
        }
}

proof fn lemma_same_shape_concat(a1: Seq<NodeModel>, b1: Seq<NodeModel>, a2: Seq<NodeModel>, b2: Seq<NodeModel>)
    requires
        same_shape(a1, a2),
        same_shape(b1, b2),
    ensures
        same_shape(a1 + b1, a2 + b2),
{
    let w1 = a1 + b1;
    let w2 = a2 + b2;
    assert(forall|k: int| 0 <= k < a1.len() ==> (#[trigger] w1[k]) == a1[k] && w2[k] == a2[k]);
    assert(forall|k: int|
        a1.len() <= k < w1.len() ==> (#[trigger] w1[k]) == b1[k - a1.len()] && w2[k] == b2[k
            - a1.len()]);
}

/// Idempotence of the scan: two walks of the same forest under the same
/// rules and snapshot produce record sequences of the same shape — the same
/// (path, kind, size) data and tags at every index — no matter which
/// identifiers either walk starts from.
pub proof fn lemma_walk_same_shape(
    entries: Seq<FsTree>,
    prefix: Seq<char>,
    parent_a: Option<int>,
    parent_b: Option<int>,
    id_a: int,
    id_b: int,
    snapshot_id: int,
    rules: Seq<PatternModel>,
)
    ensures
        same_shape(
            spec_walk(entries, prefix, parent_a, id_a, snapshot_id, rules),
            spec_walk(entries, prefix, parent_b, id_b, snapshot_id, rules),
        ),
    decreases entries,
{
    if entries.len() > 0 {
        lemma_forest_decreases(entries);
        assert(decreases_to!(entries => entries[0]));
        let first_a = spec_walk_one(entries[0], prefix, parent_a, id_a, snapshot_id, rules);
        let first_b = spec_walk_one(entries[0], prefix, parent_b, id_b, snapshot_id, rules);
        lemma_walk_one_same_shape(
            entries[0],
            prefix,
            parent_a,
            parent_b,
            id_a,
            id_b,
            snapshot_id,
            rules,
        );
        lemma_walk_same_shape(
            entries.drop_first(),
            prefix,
            parent_a,
            parent_b,
            id_a + first_a.len(),
            id_b + first_b.len(),
            snapshot_id,
            rules,
        );
        lemma_same_shape_concat(
            first_a,
            spec_walk(entries.drop_first(), prefix, parent_a, id_a + first_a.len(), snapshot_id, rules),
            first_b,
            spec_walk(entries.drop_first(), prefix, parent_b, id_b + first_b.len(), snapshot_id, rules),
        );
    } else {
        assert(same_shape(Seq::<NodeModel>::empty(), Seq::<NodeModel>::empty()));
    }
}

/// Shape equality for the records of one entry.
pub proof fn lemma_walk_one_same_shape(
    t: FsTree,
    prefix: Seq<char>,
    parent_a: Option<int>,
    parent_b: Option<int>,
    id_a: int,
    id_b: int,
    snapshot_id: int,
    rules: Seq<PatternModel>,
)
    ensures
        same_shape(
            spec_walk_one(t, prefix, parent_a, id_a, snapshot_id, rules),
            spec_walk_one(t, prefix, parent_b, id_b, snapshot_id, rules),
        ),
    decreases t,
{
    if !entry_included(t, prefix, rules) {
        assert(same_shape(Seq::<NodeModel>::empty(), Seq::<NodeModel>::empty()));
    } else {
        let node_a = node_model(t, prefix, parent_a, id_a, snapshot_id);
        let node_b = node_model(t, prefix, parent_b, id_b, snapshot_id);
        assert(same_shape(seq![node_a], seq![node_b])) by {
            assert(seq![node_a][0] == node_a);
            assert(seq![node_b][0] == node_b);
        }
        if t is Dir {
            lemma_tree_decreases(t);
            lemma_walk_same_shape(
                entry_children(t),
                node_path(prefix, entry_name(t)),
                Some(id_a),
                Some(id_b),
                id_a + 1,
                id_b + 1,
                snapshot_id,
                rules,
            );
            lemma_same_shape_concat(
                seq![node_a],
                spec_walk(
                    entry_children(t),
                    node_path(prefix, entry_name(t)),
                    Some(id_a),
                    id_a + 1,
                    snapshot_id,
                    rules,
                ),
                seq![node_b],
                spec_walk(
                    entry_children(t),
                    node_path(prefix, entry_name(t)),
                    Some(id_b),
                    id_b + 1,
                    snapshot_id,
                    rules,
                ),
            );
        }
    }
}


/// Idempotence of the scan: two walks of an unchanged forest under the same
/// rules and snapshot produce records with identical (path, kind, size) data
/// at every index and identical aggregate figures, whatever identifiers and
/// parent reference each walk starts from.
pub proof fn lemma_scan_idempotent(
    entries: Seq<FsTree>,
    prefix: Seq<char>,
    parent_a: Option<int>,
    parent_b: Option<int>,
    id_a: int,
    id_b: int,
    snapshot_id: int,
    rules: Seq<PatternModel>,
)
    ensures
        same_shape(
            spec_walk(entries, prefix, parent_a, id_a, snapshot_id, rules),
            spec_walk(entries, prefix, parent_b, id_b, snapshot_id, rules),
        ),
        spec_files_count(spec_walk(entries, prefix, parent_a, id_a, snapshot_id, rules))
            == spec_files_count(spec_walk(entries, prefix, parent_b, id_b, snapshot_id, rules)),
        spec_dirs_count(spec_walk(entries, prefix, parent_a, id_a, snapshot_id, rules))
            == spec_dirs_count(spec_walk(entries, prefix, parent_b, id_b, snapshot_id, rules)),
        spec_size_sum(spec_walk(entries, prefix, parent_a, id_a, snapshot_id, rules))
            == spec_size_sum(spec_walk(entries, prefix, parent_b, id_b, snapshot_id, rules)),
{
    lemma_walk_same_shape(entries, prefix, parent_a, parent_b, id_a, id_b, snapshot_id, rules);
    lemma_same_shape_aggregates(
        spec_walk(entries, prefix, parent_a, id_a, snapshot_id, rules),
        spec_walk(entries, prefix, parent_b, id_b, snapshot_id, rules),
    );
}

/// Record sequences of the same shape yield identical aggregate figures.
pub proof fn lemma_same_shape_aggregates(a: Seq<NodeModel>, b: Seq<NodeModel>)
    requires
        same_shape(a, b),
    ensures
        spec_files_count(a) == spec_files_count(b),
        spec_dirs_count(a) == spec_dirs_count(b),
        spec_size_sum(a) == spec_size_sum(b),
    decreases a.len(),
{
    if a.len() > 0 {
        assert(same_shape(a.drop_last(), b.drop_last())) by {
            assert(forall|k: int|
                0 <= k < a.len() - 1 ==> (#[trigger] a.drop_last()[k]) == a[k]
                    && b.drop_last()[k] == b[k]);
        }
        lemma_same_shape_aggregates(a.drop_last(), b.drop_last());
        assert(a.last() == a[a.len() - 1]);
        assert(b.last() == b[a.len() - 1]);
    }
}


/// Running totals reported after each recorded node.
pub struct ScanProgress {
    pub files_scanned: usize,
    pub dirs_scanned: usize,
    pub current_path: String,
}

/// The aggregate figures of one completed scan.
pub struct ScanResult {
    pub files_count: i64,
    pub dirs_count: i64,
    pub total_size: i64,
}

/// Why a scan stopped: a missing ignore file under the root, an unreadable
/// ignore file, a filesystem failure while walking, or a store failure while
/// persisting. Every error is terminal for its invocation.
#[derive(Debug)]
pub enum ScanError {
    MissingIgnoreFile,
    FileReadError(String),
    FilesystemError(String),
    StoreError(String),
}

/// The records of one entry, as `spec_walk_one` describes: nothing when the
/// entry is skipped; otherwise its own record followed, for a directory, by
/// its children's records under the fresh identifier.
#[verifier::rlimit(60)]
fn scan_one(
    e: &FsTree,
    prefix: &Vec<char>,
    parent_id: Option<i64>,
    next_id: i64,
    snapshot_id: i64,
    rules: &GitignoreParser,
) -> (out: Vec<SnapshotFile>)
    requires
        0 <= next_id,
        next_id as int + 1 + spec_count(entry_children(*e)) <= i64::MAX,
    ensures
        node_views(out@) == spec_walk_one(
            *e,
            prefix@,
            opt_id_view(parent_id),
            next_id as int,
            snapshot_id as int,
            rules@,
        ),
        out@.len() <= 1 + spec_count(entry_children(*e)),
    decreases *e,
{
    let ghost parentv = opt_id_view(parent_id);
    let ghost walk_one = spec_walk_one(
        *e,
        prefix@,
        parentv,
        next_id as int,
        snapshot_id as int,
        rules@,
    );
    let name_ref: &String = match e {
        FsTree::File { name, .. } => name,
        FsTree::Dir { name, .. } => name,
    };
    let is_dir: bool = match e {
        FsTree::File { .. } => false,
        FsTree::Dir { .. } => true,
    };
    let size: i64 = match e {
        FsTree::File { size_bytes, .. } => *size_bytes,
        FsTree::Dir { .. } => 0,
    };
    proof {
        assert(entry_name(*e) == name_ref@);
        assert((*e is Dir) == is_dir);
        assert(entry_size(*e) == size as int);
    }
    let name_chars = chars_of(name_ref.as_str());
    let mut joined: Vec<char> = Vec::new();
    if prefix.len() > 0 {
        append_chars(&mut joined, prefix);
        joined.push('/');
    }
    append_chars(&mut joined, &name_chars);
    proof {
        if prefix@.len() == 0 {
            assert(joined@ =~= child_path(prefix@, name_ref@));
        } else {
            assert(joined@ =~= prefix@ + seq!['/'] + name_ref@);
        }
        assert(joined@ == child_path(prefix@, name_ref@));
    }
    let path_chars = normalize_chars(&joined);
    assert(path_chars@ == node_path(prefix@, name_ref@));
    let gitname = chars_of(".git");
    if is_dir && chars_eq(&name_chars, &gitname) {
        let out: Vec<SnapshotFile> = Vec::new();
        proof {
            assert(!entry_included(*e, prefix@, rules@));
            assert(node_views(out@) =~= walk_one);
        }
        return out;
    }
    let path_string = string_of(&path_chars);
    if rules.is_ignored(path_string.as_str(), is_dir) {
        let out: Vec<SnapshotFile> = Vec::new();
        proof {
            assert(!entry_included(*e, prefix@, rules@));
            assert(node_views(out@) =~= walk_one);
        }
        return out;
    }
    assert(entry_included(*e, prefix@, rules@));
    let ext = if is_dir {
        None
    } else {
        extract_file_extension(name_ref.as_str())
    };
    let layer = extract_crate_layer(path_string.as_str());
    let atype = extract_artifact_type(path_string.as_str());
    let idname = extract_artifact_id_name(path_string.as_str());
    let role = extract_role(path_string.as_str(), name_ref.as_str(), is_dir);
    let node = SnapshotFile::new(
        next_id,
        snapshot_id,
        parent_id,
        name_ref.clone(),
        path_string,
        size,
        is_dir,
        ext,
        layer,
        atype,
        idname.0,
        idname.1,
        role,
    );
    proof {
        assert(node@ == node_model(*e, prefix@, parentv, next_id as int, snapshot_id as int));
    }
    let mut out: Vec<SnapshotFile> = Vec::new();
    out.push(node);
    proof {
        assert(node_views(out@) =~= seq![node@]);
    }
    if is_dir {
        match e {
            FsTree::Dir { entries: children, .. } => {
                proof {
                    assert(decreases_to!(*e => *children));
                    assert(decreases_to!(*children => children@));
                    assert(entry_children(*e) == children@);
                }
                let mut sub = scan_recursive(
                    children,
                    &path_chars,
                    Some(next_id),
                    next_id + 1,
                    snapshot_id,
                    rules,
                );
                let ghost subw = spec_walk(
                    children@,
                    path_chars@,
                    Some(next_id as int),
                    next_id + 1 as int,
                    snapshot_id as int,
                    rules@,
                );
                proof {
                    assert(opt_id_view(Some(next_id)) == Some(next_id as int));
                    assert(node_views(sub@) == subw);
                    lemma_walk_le_count(
                        children@,
                        path_chars@,
                        Some(next_id as int),
                        next_id + 1 as int,
                        snapshot_id as int,
                        rules@,
                    );
                    assert(walk_one =~= seq![node@] + subw);
                    assert(node_views(out@ + sub@) =~= node_views(out@) + node_views(sub@));
                }
                out.append(&mut sub);
            },
            FsTree::File { .. } => {},
        }
    } else {
        proof {
            assert(walk_one =~= seq![node@]);
        }
    }
    out
}

/// Walks a forest depth-first in pre-order and returns the node records, as
/// `spec_walk` describes: skipped entries contribute nothing, identifiers
/// count up from `next_id`, and a directory's children carry its fresh
/// identifier as their parent.
pub fn scan_recursive(
    entries: &Vec<FsTree>,
    prefix: &Vec<char>,
    parent_id: Option<i64>,
    next_id: i64,
    snapshot_id: i64,
    rules: &GitignoreParser,
) -> (out: Vec<SnapshotFile>)
    requires
        0 <= next_id,
        next_id as int + spec_count(entries@) <= i64::MAX,
    ensures
        node_views(out@) == spec_walk(
            entries@,
            prefix@,
            opt_id_view(parent_id),
            next_id as int,
            snapshot_id as int,
            rules@,
        ),
    decreases entries@,
{
    let ghost parentv = opt_id_view(parent_id);
    let mut out: Vec<SnapshotFile> = Vec::new();
    let mut id: i64 = next_id;
    let mut i: usize = 0;
    proof {
        assert(entries@.take(0) =~= Seq::<FsTree>::empty());
        assert(node_views(out@) =~= spec_walk(
            entries@.take(0),
            prefix@,
            parentv,
            next_id as int,
            snapshot_id as int,
            rules@,
        ));
        assert(entries@.skip(0) =~= entries@);
    }
    while i < entries.len()
        invariant
            i <= entries@.len(),
            parentv == opt_id_view(parent_id),
            0 <= next_id <= id,
            id as int == next_id as int + out@.len(),
            id as int + spec_count(entries@.skip(i as int)) <= i64::MAX,
            node_views(out@) == spec_walk(
                entries@.take(i as int),
                prefix@,
                parentv,
                next_id as int,
                snapshot_id as int,
                rules@,
            ),
        decreases entries@.len() - i,
    {
        let ghost id0 = id as int;
        let ghost tail = entries@.skip(i as int);
        let ghost et = entries@[i as int];
        proof {
            assert(tail[0] == et);
            assert(tail.drop_first() =~= entries@.skip(i + 1 as int));
            assert(spec_count(tail) == 1 + spec_count(entry_children(et)) + spec_count(
                entries@.skip(i + 1 as int),
            ));
            assert(decreases_to!(entries@ => entries@[i as int]));
        }
        let e = &entries[i];
        let mut produced = scan_one(e, prefix, parent_id, id, snapshot_id, rules);
        let ghost walk_one = spec_walk_one(et, prefix@, parentv, id0, snapshot_id as int, rules@);
        let produced_len = produced.len();
        proof {
            assert(node_views(produced@) == walk_one);
            assert(produced_len as int == walk_one.len());
            assert(walk_one.len() <= 1 + spec_count(entry_children(et)));
            assert(id0 + 1 + spec_count(entry_children(et)) <= i64::MAX);
            assert(node_views(out@ + produced@) =~= node_views(out@) + node_views(produced@));
            assert(entries@.take(i + 1 as int) =~= entries@.take(i as int) + seq![et]);
            lemma_walk_concat(
                entries@.take(i as int),
                seq![et],
                prefix@,
                parentv,
                next_id as int,
                snapshot_id as int,
                rules@,
            );
            assert(seq![et].drop_first() =~= Seq::<FsTree>::empty());
            assert(seq![et][0] == et);
            assert(spec_walk(
                Seq::<FsTree>::empty(),
                prefix@,
                parentv,
                id0 + walk_one.len(),
                snapshot_id as int,
                rules@,
            ) == Seq::<NodeModel>::empty());
            assert(walk_one + Seq::<NodeModel>::empty() =~= walk_one);
            assert(spec_walk(seq![et], prefix@, parentv, id0, snapshot_id as int, rules@)
                =~= walk_one);
        }
        out.append(&mut produced);
        id = id + (produced_len as i64);
        i = i + 1;
    }
    proof {
        assert(entries@.take(entries@.len() as int) =~= entries@);
    }
    out
}

/// Counts the file records and the directory records.
pub fn count_files_and_dirs(records: &Vec<SnapshotFile>) -> (r: (i64, i64))
    requires
        records@.len() <= i64::MAX,
    ensures
        r.0 == spec_files_count(node_views(records@)),
        r.1 == spec_dirs_count(node_views(records@)),
{
    let ghost nv = node_views(records@);
    let mut files: i64 = 0;
    let mut dirs: i64 = 0;
    let mut k: usize = 0;
    proof {
        assert(nv.take(0) =~= Seq::<NodeModel>::empty());
    }
    while k < records.len()
        invariant
            k <= records@.len(),
            records@.len() <= i64::MAX,
            nv == node_views(records@),
            nv.len() == records@.len(),
            0 <= files,
            0 <= dirs,
            files + dirs == k,
            files == spec_files_count(nv.take(k as int)),
            dirs == spec_dirs_count(nv.take(k as int)),
        decreases records@.len() - k,
    {
        proof {
            assert(nv.take(k + 1 as int).drop_last() =~= nv.take(k as int));
            assert(nv.take(k + 1 as int).last() == nv[k as int]);
            assert(nv[k as int] == records@[k as int]@);
        }
        if records[k].is_directory {
            dirs = dirs + 1;
        } else {
            files = files + 1;
        }
        k = k + 1;
    }
    proof {
        assert(nv.take(nv.len() as int) =~= nv);
    }
    (files, dirs)
}

/// Sums the recorded sizes. Directories contribute their recorded 0, so
/// this is the byte total of the non-directory records.
pub fn sum_file_sizes(records: &Vec<SnapshotFile>) -> (r: i64)
    requires
        all_sizes_nonneg(node_views(records@)),
        spec_size_sum(node_views(records@)) <= i64::MAX,
    ensures
        r == spec_size_sum(node_views(records@)),
{
    let ghost nv = node_views(records@);
    let mut total: i64 = 0;
    let mut k: usize = 0;
    proof {
        assert(nv.take(0) =~= Seq::<NodeModel>::empty());
    }
    while k < records.len()
        invariant
            k <= records@.len(),
            nv == node_views(records@),
            nv.len() == records@.len(),
            all_sizes_nonneg(nv),
            spec_size_sum(nv) <= i64::MAX,
            total == spec_size_sum(nv.take(k as int)),
        decreases records@.len() - k,
    {
        proof {
            assert(nv.take(k + 1 as int).drop_last() =~= nv.take(k as int));
            assert(nv.take(k + 1 as int).last() == nv[k as int]);
            assert(nv[k as int] == records@[k as int]@);
            lemma_size_sum_prefix(nv, k as int);
            lemma_size_sum_prefix(nv, k + 1 as int);
        }
        total = total + records[k].size_bytes;
        k = k + 1;
    }
    proof {
        assert(nv.take(nv.len() as int) =~= nv);
    }
    total
}

/// One full scan over an in-memory forest: requires the ignore-file text
/// (its absence is the fatal `MissingIgnoreFile`), compiles it, walks the
/// forest from identifier 1 with no parent, and recomputes the aggregate
/// figures from the records produced. The records replace whatever an
/// earlier scan stored: nothing of an earlier run is consulted.
pub fn scan_directory(snapshot_id: i64, root_entries: &Vec<FsTree>, ignore_text: Option<&str>) -> (r:
    Result<(Vec<SnapshotFile>, ScanResult), ScanError>)
    requires
        forest_wf(root_entries@),
        1 + spec_count(root_entries@) <= i64::MAX,
        spec_total_size(root_entries@) <= i64::MAX,
    ensures
        match (r, ignore_text) {
            (Ok(p), Some(text)) => {
                let rules = spec_parse_content(text@);
                let walk = spec_walk(
                    root_entries@,
                    Seq::<char>::empty(),
                    None,
                    1,
                    snapshot_id as int,
                    rules,
                );
                &&& node_views(p.0@) == walk
                &&& p.1.files_count == spec_files_count(walk)
                &&& p.1.dirs_count == spec_dirs_count(walk)
                &&& p.1.files_count + p.1.dirs_count == walk.len()
                &&& p.1.total_size == spec_size_sum(walk)
            },
            (Err(e), None) => e is MissingIgnoreFile,
            _ => false,
        },
{
    match ignore_text {
        None => Err(ScanError::MissingIgnoreFile),
        Some(text) => {
            let parser = GitignoreParser::from_content(text);
            let ghost rules = spec_parse_content(text@);
            let empty_prefix: Vec<char> = Vec::new();
            proof {
                lemma_walk_le_count(
                    root_entries@,
                    empty_prefix@,
                    None,
                    1,
                    snapshot_id as int,
                    rules,
                );
                lemma_walk_sizes(root_entries@, empty_prefix@, None, 1, snapshot_id as int, rules);
            }
            let records = scan_recursive(root_entries, &empty_prefix, None, 1, snapshot_id, &parser);
            proof {
                lemma_counts_split(node_views(records@));
            }
            let counts = count_files_and_dirs(&records);
            let total_size = sum_file_sizes(&records);
            let summary = ScanResult {
                files_count: counts.0,
                dirs_count: counts.1,
                total_size: total_size,
            };
            Ok((records, summary))
        },
    }
}


/// The state of the scan screen: the picked snapshot, its project root, and
/// the progress figures the host shows while a scan runs.
pub struct ScanSnapshotState {
    pub snapshot_picker: SnapshotPickerState,
    pub selected_snapshot_id: Option<i64>,
    pub selected_snapshot_name: String,
    pub project_root_path: String,
    pub status: String,
    pub is_scanning: bool,
    pub progress_files: usize,
    pub progress_dirs: usize,
    pub progress_current: String,
}

impl ScanSnapshotState {
    /// Begins a scan when a snapshot is picked: marks the screen scanning,
    /// zeroes the progress figures, and sets the starting status. Without a
    /// selection nothing changes and no scan should run.
    pub fn begin_scan(&mut self) -> (started: bool)
        ensures
            started == (old(self).selected_snapshot_id is Some),
            !started ==> *final(self) == *old(self),
            started ==> final(self).is_scanning,
            started ==> final(self).progress_files == 0 && final(self).progress_dirs == 0,
            started ==> final(self).progress_current@ == Seq::<char>::empty(),
            started ==> final(self).status@ == "Starting scan..."@,
            final(self).snapshot_picker == old(self).snapshot_picker,
            final(self).selected_snapshot_id == old(self).selected_snapshot_id,
            final(self).selected_snapshot_name == old(self).selected_snapshot_name,
            final(self).project_root_path == old(self).project_root_path,
    {
        match self.selected_snapshot_id {
            None => false,
            Some(_) => {
                self.is_scanning = true;
                self.progress_files = 0;
                self.progress_dirs = 0;
                self.progress_current = String::new();
                self.status = String::from_str("Starting scan...");
                true
            },
        }
    }

    /// Copies one progress report onto the screen; everything else is kept.
    pub fn record_progress(&mut self, progress: ScanProgress)
        ensures
            final(self).progress_files == progress.files_scanned,
            final(self).progress_dirs == progress.dirs_scanned,
            final(self).progress_current == progress.current_path,
            final(self).is_scanning == old(self).is_scanning,
            final(self).status == old(self).status,
            final(self).snapshot_picker == old(self).snapshot_picker,
            final(self).selected_snapshot_id == old(self).selected_snapshot_id,
            final(self).selected_snapshot_name == old(self).selected_snapshot_name,
            final(self).project_root_path == old(self).project_root_path,
    {
        self.progress_files = progress.files_scanned;
        self.progress_dirs = progress.dirs_scanned;
        self.progress_current = progress.current_path;
    }

    /// Ends the scan with the given status line; the progress figures of the
    /// finished scan stay visible.
    pub fn finish_scan(&mut self, status: String)
        ensures
            !final(self).is_scanning,
            final(self).status == status,
            final(self).progress_files == old(self).progress_files,
            final(self).progress_dirs == old(self).progress_dirs,
            final(self).progress_current == old(self).progress_current,
            final(self).snapshot_picker == old(self).snapshot_picker,
            final(self).selected_snapshot_id == old(self).selected_snapshot_id,
            final(self).selected_snapshot_name == old(self).selected_snapshot_name,
            final(self).project_root_path == old(self).project_root_path,
    {
        self.is_scanning = false;
        self.status = status;
    }

    /// Opens the snapshot picker; everything else is kept.
    pub fn open_picker(&mut self)
        ensures
            final(self).snapshot_picker.open,
            final(self).snapshot_picker.selected_id is None,
            final(self).snapshot_picker.status@ == Seq::<char>::empty(),
            final(self).snapshot_picker.search == old(self).snapshot_picker.search,
            final(self).selected_snapshot_id == old(self).selected_snapshot_id,
            final(self).selected_snapshot_name == old(self).selected_snapshot_name,
            final(self).project_root_path == old(self).project_root_path,
            final(self).status == old(self).status,
            final(self).is_scanning == old(self).is_scanning,
            final(self).progress_files == old(self).progress_files,
            final(self).progress_dirs == old(self).progress_dirs,
            final(self).progress_current == old(self).progress_current,
    {
        self.snapshot_picker.open();
    }
}

impl Default for ScanSnapshotState {
    /// Nothing picked, not scanning, zero progress.
    fn default() -> (r: ScanSnapshotState)
        ensures
            !r.snapshot_picker.open,
            r.selected_snapshot_id is None,
            r.selected_snapshot_name@ == Seq::<char>::empty(),
            r.project_root_path@ == Seq::<char>::empty(),
            r.status@ == Seq::<char>::empty(),
            !r.is_scanning,
            r.progress_files == 0,
            r.progress_dirs == 0,
            r.progress_current@ == Seq::<char>::empty(),
    {
        ScanSnapshotState {
            snapshot_picker: Default::default(),
            selected_snapshot_id: None,
            selected_snapshot_name: String::new(),
            project_root_path: String::new(),
            status: String::new(),
            is_scanning: false,
            progress_files: 0,
            progress_dirs: 0,
            progress_current: String::new(),
        }
    }
}

} // verus!

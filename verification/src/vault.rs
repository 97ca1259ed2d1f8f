//! Vault scanner: from the entries of a directory walk to the sorted index of
//! the vault's markdown documents.
//!
//! The caller walks the directory, leaving out what
//! [`is_hidden`](crate::classify::is_hidden) names and not descending into it,
//! and hands over what it came by. The index does not rest on the walk having
//! left out what is hidden: it looks at each path again.

use vstd::prelude::*;
use vstd::seq_lib::{to_multiset_build, to_multiset_contains, to_multiset_insert};
use vstd::string::StrSliceExecFns;
use vstd::string::StringExecFns;
use crate::classify::{
    entry_name, has_hidden_name, hidden_name, hidden_path, is_hidden_path, is_markdown,
    markdown_path,
};
use crate::error::{standard_message, ErrorKind, VaultError};
use crate::text::{
    chars_of, in_order, lemma_text_le_antisymmetric, lemma_text_le_reflexive, lemma_text_le_total,
    lemma_text_le_transitive, text_le,
};

verus! {

/// One entry that a walk of the vault came by.
#[derive(Clone, Debug, PartialEq, Eq)]
pub struct WalkEntry {
    /// The entry's full path.
    pub path: String,
    /// Whether the entry is a file, rather than a directory or something else.
    pub is_file: bool,
}

/// What a walk entry holds.
pub struct WalkEntryView {
    pub path: Seq<char>,
    pub is_file: bool,
}

impl View for WalkEntry {
    type V = WalkEntryView;

    open spec fn view(&self) -> WalkEntryView {
        WalkEntryView { path: self.path@, is_file: self.is_file }
    }
}

/// One markdown document of the vault.
#[derive(Clone, Debug, PartialEq, Eq)]
pub struct VaultFile {
    /// The document's full path.
    pub absolute_path: String,
    /// The document's path as seen from the vault root.
    pub relative_path: String,
}

/// What a vault file holds.
pub struct VaultFileView {
    pub absolute_path: Seq<char>,
    pub relative_path: Seq<char>,
}

impl View for VaultFile {
    type V = VaultFileView;

    open spec fn view(&self) -> VaultFileView {
        VaultFileView { absolute_path: self.absolute_path@, relative_path: self.relative_path@ }
    }
}

/// What a list of walk entries holds.
pub open spec fn entry_views(entries: Seq<WalkEntry>) -> Seq<WalkEntryView> {
    entries.map_values(|e: WalkEntry| e@)
}

/// What a list of vault files holds.
pub open spec fn file_views(files: Seq<VaultFile>) -> Seq<VaultFileView> {
    files.map_values(|f: VaultFile| f@)
}

/// The path lies under the root: it starts with the root's text, and the root
/// ends where a component of the path ends.
pub open spec fn under_root(root: Seq<char>, path: Seq<char>) -> bool {
    &&& 0 < root.len() <= path.len()
    &&& path.subrange(0, root.len() as int) == root
    &&& (root.len() == path.len() || root.last() == '/' || path[root.len() as int] == '/')
}

/// A text without the separators at its front.
pub open spec fn without_leading_separators(text: Seq<char>) -> Seq<char>
    decreases text.len(),
{
    if text.len() > 0 && text[0] == '/' {
        without_leading_separators(text.drop_first())
    } else {
        text
    }
}

/// The path as seen from the root: what follows the root and the separators
/// behind it. A path that does not lie under the root stays as it is.
pub open spec fn relative_to(root: Seq<char>, path: Seq<char>) -> Seq<char> {
    if under_root(root, path) {
        without_leading_separators(path.subrange(root.len() as int, path.len() as int))
    } else {
        path
    }
}

/// How many separators stand at the front of a text.
spec fn leading_separators(text: Seq<char>) -> nat
    decreases text.len(),
{
    if text.len() > 0 && text[0] == '/' {
        1 + leading_separators(text.drop_first())
    } else {
        0
    }
}

proof fn lemma_without_leading_separators(text: Seq<char>)
    ensures
        leading_separators(text) <= text.len(),
        without_leading_separators(text) == text.skip(leading_separators(text) as int),
        forall|i: int| 0 <= i < leading_separators(text) ==> text[i] == '/',
        without_leading_separators(text).len() > 0 ==> without_leading_separators(text)[0] != '/',
    decreases text.len(),
{
    if text.len() > 0 && text[0] == '/' {
        let rest = text.drop_first();
        lemma_without_leading_separators(rest);
        assert(rest.skip(leading_separators(rest) as int) == text.skip(
            leading_separators(text) as int,
        ));
        assert forall|i: int| 0 <= i < leading_separators(text) implies text[i] == '/' by {
            if i > 0 {
                assert(text[i] == rest[i - 1]);
            }
        }
    } else {
        assert(text.skip(0) == text);
    }
}

/// The relative path of a path under the root is what is left of the path
/// behind the root and the separators that follow it, and does not begin with
/// a separator itself.
pub proof fn lemma_relative_path_rejoins(root: Seq<char>, path: Seq<char>)
    requires
        under_root(root, path),
    ensures
        ({
            let relative = relative_to(root, path);
            let between = path.subrange(root.len() as int, path.len() - relative.len());
            &&& root.len() + relative.len() <= path.len()
            &&& path == root + between + relative
            &&& forall|i: int| 0 <= i < between.len() ==> between[i] == '/'
            &&& relative.len() > 0 ==> relative[0] != '/'
        }),
{
    let rest = path.subrange(root.len() as int, path.len() as int);
    lemma_without_leading_separators(rest);
    let relative = relative_to(root, path);
    let between = path.subrange(root.len() as int, path.len() - relative.len());
    assert(path == root + between + relative);
    assert forall|i: int| 0 <= i < between.len() implies between[i] == '/' by {
        assert(between[i] == rest[i]);
    }
}

/// The path relative to the root, or the path itself where it does not lie
/// under the root.
pub fn relative_path(root: &str, path: &str) -> (relative: String)
    ensures
        relative@ == relative_to(root@, path@),
{
    let r = chars_of(root);
    let p = chars_of(path);
    if r.len() == 0 || r.len() > p.len() {
        return String::from_str(path);
    }
    let mut i: usize = 0;
    while i < r.len()
        invariant
            i <= r.len() <= p.len(),
            r@ == root@,
            p@ == path@,
            forall|j: int| 0 <= j < i ==> r@[j] == p@[j],
        decreases r.len() - i,
    {
        if r[i] != p[i] {
            assert(p@.subrange(0, r@.len() as int)[i as int] != r@[i as int]);
            return String::from_str(path);
        }
        i += 1;
    }
    assert(p@.subrange(0, r@.len() as int) == r@);
    if !(r.len() == p.len() || r[r.len() - 1] == '/' || p[r.len()] == '/') {
        return String::from_str(path);
    }
    let mut from: usize = r.len();
    let ghost rest = p@.subrange(r@.len() as int, p@.len() as int);
    assert(p@.subrange(from as int, p@.len() as int) == rest);
    while from < p.len() && p[from] == '/'
        invariant
            r.len() <= from <= p.len(),
            p@ == path@,
            without_leading_separators(rest) == without_leading_separators(
                p@.subrange(from as int, p@.len() as int),
            ),
        decreases p.len() - from,
    {
        assert(p@.subrange(from as int, p@.len() as int).drop_first() == p@.subrange(
            from + 1,
            p@.len() as int,
        ));
        from += 1;
    }
    String::from_str(path.substring_char(from, p.len()))
}

/// An entry is listed in the index when it is a file, its path is a markdown
/// path, and neither the root's name nor a component of its path below the
/// root is hidden.
pub open spec fn listed(root: Seq<char>, entry: WalkEntryView) -> bool {
    &&& !hidden_name(entry_name(root))
    &&& entry.is_file
    &&& markdown_path(entry.path)
    &&& !hidden_path(relative_to(root, entry.path))
}

/// The index record of an entry.
pub open spec fn vault_file(root: Seq<char>, entry: WalkEntryView) -> VaultFileView {
    VaultFileView { absolute_path: entry.path, relative_path: relative_to(root, entry.path) }
}

/// The records of the listed entries, in the order of the walk.
pub open spec fn collected(root: Seq<char>, entries: Seq<WalkEntryView>) -> Seq<VaultFileView> {
    entries.filter(|e: WalkEntryView| listed(root, e)).map_values(
        |e: WalkEntryView| vault_file(root, e),
    )
}

/// The files stand in ascending ordinal order of their relative paths.
pub open spec fn sorted_by_relative_path(files: Seq<VaultFileView>) -> bool {
    forall|i: int, j: int|
        0 <= i < j < files.len() ==> text_le(
            #[trigger] files[i].relative_path,
            #[trigger] files[j].relative_path,
        )
}

/// The files that have the given relative path, in their order.
pub open spec fn with_relative_path(files: Seq<VaultFileView>, relative: Seq<char>) -> Seq<
    VaultFileView,
> {
    files.filter(|f: VaultFileView| f.relative_path == relative)
}

/// `sorted` holds the files of `files`, each as often as `files` does, in
/// ascending order of their relative paths, files with one relative path in
/// the order they have in `files`.
pub open spec fn sorted_index_of(sorted: Seq<VaultFileView>, files: Seq<VaultFileView>) -> bool {
    &&& sorted_by_relative_path(sorted)
    &&& sorted.to_multiset() == files.to_multiset()
    &&& forall|relative: Seq<char>| #[trigger]
        with_relative_path(sorted, relative) == with_relative_path(files, relative)
}

/// A record of the index is sound for the root: the root's name is not
/// hidden, the record's document has a markdown path, its relative path is
/// that path as seen from the root, and no component of the relative path is
/// hidden.
pub open spec fn sound_record(root: Seq<char>, file: VaultFileView) -> bool {
    &&& !hidden_name(entry_name(root))
    &&& markdown_path(file.absolute_path)
    &&& file.relative_path == relative_to(root, file.absolute_path)
    &&& !hidden_path(file.relative_path)
}

proof fn lemma_collected_push(root: Seq<char>, entries: Seq<WalkEntryView>, entry: WalkEntryView)
    ensures
        collected(root, entries.push(entry)) == if listed(root, entry) {
            collected(root, entries).push(vault_file(root, entry))
        } else {
            collected(root, entries)
        },
{
    let keep = |e: WalkEntryView| listed(root, e);
    let record = |e: WalkEntryView| vault_file(root, e);
    entries.lemma_filter_push(entry, keep);
    entries.filter(keep).lemma_push_map_commute(record, entry);
}

proof fn lemma_insert_keeps_group(
    sorted: Seq<VaultFileView>,
    files: Seq<VaultFileView>,
    file: VaultFileView,
    at: int,
    relative: Seq<char>,
)
    requires
        0 <= at <= sorted.len(),
        with_relative_path(sorted, relative) == with_relative_path(files, relative),
        forall|i: int| at <= i < sorted.len() ==> !text_le(
            #[trigger] sorted[i].relative_path,
            file.relative_path,
        ),
    ensures
        with_relative_path(sorted.insert(at, file), relative) == with_relative_path(
            files.push(file),
            relative,
        ),
{
    let same = |f: VaultFileView| f.relative_path == relative;
    let front = sorted.subrange(0, at);
    let back = sorted.subrange(at, sorted.len() as int);
    assert(sorted == front + back);
    Seq::filter_distributes_over_add(front, back, same);
    Seq::filter_distributes_over_add(front.push(file), back, same);
    front.lemma_filter_push(file, same);
    files.lemma_filter_push(file, same);
    if file.relative_path == relative {
        assert(back.all(|f: VaultFileView| !same(f))) by {
            lemma_text_le_reflexive(relative);
            assert forall|i: int| 0 <= i < back.len() implies !same(#[trigger] back[i]) by {
                assert(back[i] == sorted[at + i]);
            }
        }
        back.lemma_all_neg_filter_empty(same);
        assert(back.filter(same) == Seq::<VaultFileView>::empty());
        assert(front.filter(same).push(file) + back.filter(same) == (front.filter(same)
            + back.filter(same)).push(file));
    }
}

proof fn lemma_insert_keeps_order(sorted: Seq<VaultFileView>, file: VaultFileView, at: int)
    requires
        0 <= at <= sorted.len(),
        sorted_by_relative_path(sorted),
        forall|i: int| 0 <= i < at ==> text_le(
            #[trigger] sorted[i].relative_path,
            file.relative_path,
        ),
        forall|i: int| at <= i < sorted.len() ==> !text_le(
            #[trigger] sorted[i].relative_path,
            file.relative_path,
        ),
    ensures
        sorted_by_relative_path(sorted.insert(at, file)),
{
    let next = sorted.insert(at, file);
    assert forall|i: int, j: int| 0 <= i < j < next.len() implies text_le(
        #[trigger] next[i].relative_path,
        #[trigger] next[j].relative_path,
    ) by {
        if j == at {
            assert(next[i] == sorted[i]);
        } else if i == at {
            assert(next[j] == sorted[j - 1]);
            lemma_text_le_total(sorted[j - 1].relative_path, file.relative_path);
        } else {
            let a = if i < at { i } else { i - 1 };
            let b = if j < at { j } else { j - 1 };
            assert(next[i] == sorted[a]);
            assert(next[j] == sorted[b]);
        }
    }
}

/// Every record of an index comes from a listed entry of the walk: it is a
/// file with a markdown path, and neither its own name nor the name of a
/// directory above it, from the root down, starts with a dot.
pub proof fn lemma_index_listed(
    root: Seq<char>,
    entries: Seq<WalkEntryView>,
    index: Seq<VaultFileView>,
    i: int,
)
    requires
        sorted_index_of(index, collected(root, entries)),
        0 <= i < index.len(),
    ensures
        exists|j: int|
            0 <= j < entries.len() && listed(root, #[trigger] entries[j]) && index[i] == vault_file(
                root,
                entries[j],
            ),
        sound_record(root, index[i]),
{
    let keep = |e: WalkEntryView| listed(root, e);
    let kept = entries.filter(keep);
    let records = collected(root, entries);
    assert(index.contains(index[i]));
    to_multiset_contains(index, index[i]);
    to_multiset_contains(records, index[i]);
    let k = choose|k: int| 0 <= k < records.len() && records[k] == index[i];
    entries.lemma_filter_pred(keep, k);
    assert(kept.contains(kept[k]));
    entries.lemma_filter_contains_rev(keep, kept[k]);
    let j = choose|j: int| 0 <= j < entries.len() && entries[j] == kept[k];
    assert(listed(root, entries[j]) && index[i] == vault_file(root, entries[j]));
}

/// Every listed entry of the walk has its record in the index.
pub proof fn lemma_index_complete(
    root: Seq<char>,
    entries: Seq<WalkEntryView>,
    index: Seq<VaultFileView>,
    j: int,
)
    requires
        sorted_index_of(index, collected(root, entries)),
        0 <= j < entries.len(),
        listed(root, entries[j]),
    ensures
        index.contains(vault_file(root, entries[j])),
{
    let keep = |e: WalkEntryView| listed(root, e);
    let kept = entries.filter(keep);
    let records = collected(root, entries);
    entries.lemma_filter_contains(keep, j);
    let k = choose|k: int| 0 <= k < kept.len() && kept[k] == entries[j];
    assert(records[k] == vault_file(root, entries[j]));
    assert(records.contains(vault_file(root, entries[j])));
    to_multiset_contains(records, vault_file(root, entries[j]));
    to_multiset_contains(index, vault_file(root, entries[j]));
}

/// No two entries of the walk have one path.
pub open spec fn distinct_paths(entries: Seq<WalkEntryView>) -> bool {
    forall|i: int, j: int|
        0 <= i < j < entries.len() ==> (#[trigger] entries[i]).path != (#[trigger] entries[j]).path
}

/// No two records name one document.
pub open spec fn distinct_documents(files: Seq<VaultFileView>) -> bool {
    forall|i: int, j: int|
        0 <= i < j < files.len() ==> (#[trigger] files[i]).absolute_path
            != (#[trigger] files[j]).absolute_path
}

proof fn lemma_collected_distinct(root: Seq<char>, entries: Seq<WalkEntryView>)
    requires
        distinct_paths(entries),
    ensures
        distinct_documents(collected(root, entries)),
        forall|a: int|
            0 <= a < collected(root, entries).len() ==> exists|j: int|
                0 <= j < entries.len() && (#[trigger] entries[j]).path == (#[trigger] collected(
                    root,
                    entries,
                )[a]).absolute_path,
    decreases entries.len(),
{
    if entries.len() == 0 {
        reveal(Seq::filter);
        assert(collected(root, entries).len() == 0);
    } else {
        let front = entries.drop_last();
        let last = entries.last();
        assert(entries == front.push(last));
        assert(distinct_paths(front)) by {
            assert forall|i: int, j: int| 0 <= i < j < front.len() implies (
            #[trigger] front[i]).path != (#[trigger] front[j]).path by {
                assert(front[i] == entries[i] && front[j] == entries[j]);
            }
        }
        lemma_collected_distinct(root, front);
        lemma_collected_push(root, front, last);
        let before = collected(root, front);
        let records = collected(root, entries);
        assert forall|a: int| 0 <= a < records.len() implies exists|j: int|
            0 <= j < entries.len() && (#[trigger] entries[j]).path
                == (#[trigger] records[a]).absolute_path by {
            if a < before.len() {
                assert(records[a] == before[a]);
                let j = choose|j: int|
                    0 <= j < front.len() && (#[trigger] front[j]).path == before[a].absolute_path;
                assert(entries[j] == front[j]);
            } else {
                assert(entries[entries.len() - 1].path == records[a].absolute_path);
            }
        }
        assert forall|a: int, b: int| 0 <= a < b < records.len() implies (
        #[trigger] records[a]).absolute_path != (#[trigger] records[b]).absolute_path by {
            if b < before.len() {
                assert(records[a] == before[a] && records[b] == before[b]);
            } else {
                assert(records[a] == before[a]);
                let j = choose|j: int|
                    0 <= j < front.len() && (#[trigger] front[j]).path == before[a].absolute_path;
                assert(entries[j] == front[j]);
                assert(entries[j].path != entries[entries.len() - 1].path);
            }
        }
    }
}

/// Where the walk came by every path once, no document stands twice in the
/// index.
pub proof fn lemma_index_without_duplicates(
    root: Seq<char>,
    entries: Seq<WalkEntryView>,
    index: Seq<VaultFileView>,
)
    requires
        sorted_index_of(index, collected(root, entries)),
        distinct_paths(entries),
    ensures
        distinct_documents(index),
        index.no_duplicates(),
{
    let records = collected(root, entries);
    lemma_collected_distinct(root, entries);
    assert(records.no_duplicates());
    records.lemma_multiset_has_no_duplicates();
    index.lemma_multiset_has_no_duplicates_conv();
    assert forall|i: int, j: int| 0 <= i < j < index.len() implies (
    #[trigger] index[i]).absolute_path != (#[trigger] index[j]).absolute_path by {
        assert(index.contains(index[i]) && index.contains(index[j]));
        to_multiset_contains(index, index[i]);
        to_multiset_contains(records, index[i]);
        to_multiset_contains(index, index[j]);
        to_multiset_contains(records, index[j]);
        let a = choose|a: int| 0 <= a < records.len() && records[a] == index[i];
        let b = choose|b: int| 0 <= b < records.len() && records[b] == index[j];
        assert(a != b);
        if a < b {
            assert(records[a].absolute_path != records[b].absolute_path);
        } else {
            assert(records[b].absolute_path != records[a].absolute_path);
        }
    }
}

proof fn lemma_same_groups_same_files(a: Seq<VaultFileView>, b: Seq<VaultFileView>)
    requires
        sorted_by_relative_path(a),
        sorted_by_relative_path(b),
        forall|relative: Seq<char>| #[trigger]
            with_relative_path(a, relative) == with_relative_path(b, relative),
    ensures
        a == b,
    decreases a.len(),
{
    reveal(Seq::filter);
    if a.len() == 0 {
        if b.len() > 0 {
            let key = b.last().relative_path;
            assert(with_relative_path(b, key).len() > 0);
            assert(with_relative_path(a, key).len() == 0);
        }
        assert(a == b);
    } else {
        let x = a.last();
        let key = x.relative_path;
        assert(with_relative_path(a, key).last() == x);
        if b.len() == 0 {
            assert(with_relative_path(b, key).len() == 0);
        }
        let y = b.last();
        let other = y.relative_path;
        assert(with_relative_path(b, other).last() == y);
        // each last file stands in the other list, so their paths are in
        // order both ways
        let same_key = |f: VaultFileView| f.relative_path == key;
        let same_other = |f: VaultFileView| f.relative_path == other;
        assert(with_relative_path(b, key).contains(x));
        b.lemma_filter_contains_rev(same_key, x);
        assert(with_relative_path(a, other).contains(y));
        a.lemma_filter_contains_rev(same_other, y);
        let ib = choose|i: int| 0 <= i < b.len() && b[i] == x;
        let ia = choose|i: int| 0 <= i < a.len() && a[i] == y;
        lemma_text_le_reflexive(key);
        assert(text_le(key, other)) by {
            if ib < b.len() - 1 {
                assert(text_le(b[ib].relative_path, b[b.len() - 1].relative_path));
            }
        }
        assert(text_le(other, key)) by {
            if ia < a.len() - 1 {
                assert(text_le(a[ia].relative_path, a[a.len() - 1].relative_path));
            }
        }
        lemma_text_le_antisymmetric(key, other);
        assert(x == y);
        let a0 = a.drop_last();
        let b0 = b.drop_last();
        assert forall|relative: Seq<char>| #[trigger]
            with_relative_path(a0, relative) == with_relative_path(b0, relative) by {
            let same = |f: VaultFileView| f.relative_path == relative;
            assert(with_relative_path(a, relative) == with_relative_path(b, relative));
            if relative == key {
                assert(a.filter(same) == a0.filter(same).push(x));
                assert(b.filter(same) == b0.filter(same).push(x));
                assert(a0.filter(same) == a.filter(same).drop_last());
                assert(b0.filter(same) == b.filter(same).drop_last());
            }
        }
        assert(sorted_by_relative_path(a0)) by {
            assert forall|i: int, j: int| 0 <= i < j < a0.len() implies text_le(
                #[trigger] a0[i].relative_path,
                #[trigger] a0[j].relative_path,
            ) by {
                assert(a0[i] == a[i] && a0[j] == a[j]);
            }
        }
        assert(sorted_by_relative_path(b0)) by {
            assert forall|i: int, j: int| 0 <= i < j < b0.len() implies text_le(
                #[trigger] b0[i].relative_path,
                #[trigger] b0[j].relative_path,
            ) by {
                assert(b0[i] == b[i] && b0[j] == b[j]);
            }
        }
        lemma_same_groups_same_files(a0, b0);
        assert(a == a0.push(x));
        assert(b == b0.push(y));
    }
}

/// A list of files has one sorted index and no other.
pub proof fn lemma_index_unique(
    first: Seq<VaultFileView>,
    second: Seq<VaultFileView>,
    files: Seq<VaultFileView>,
)
    requires
        sorted_index_of(first, files),
        sorted_index_of(second, files),
    ensures
        first == second,
{
    assert forall|relative: Seq<char>| #[trigger]
        with_relative_path(first, relative) == with_relative_path(second, relative) by {
        assert(with_relative_path(first, relative) == with_relative_path(files, relative));
        assert(with_relative_path(second, relative) == with_relative_path(files, relative));
    }
    lemma_same_groups_same_files(first, second);
}

/// Where a file with the given relative path goes into a sorted index: behind
/// every file whose relative path is not greater.
fn insertion_point(files: &Vec<VaultFile>, relative: &str) -> (at: usize)
    requires
        sorted_by_relative_path(file_views(files@)),
    ensures
        at <= files.len(),
        forall|i: int| 0 <= i < at ==> text_le(
            #[trigger] file_views(files@)[i].relative_path,
            relative@,
        ),
        forall|i: int| at <= i < files.len() ==> !text_le(
            #[trigger] file_views(files@)[i].relative_path,
            relative@,
        ),
{
    let ghost views = file_views(files@);
    let mut low: usize = 0;
    let mut high: usize = files.len();
    while low < high
        invariant
            low <= high <= files.len(),
            views == file_views(files@),
            sorted_by_relative_path(views),
            forall|i: int| 0 <= i < low ==> text_le(#[trigger] views[i].relative_path, relative@),
            forall|i: int| high <= i < files.len() ==> !text_le(
                #[trigger] views[i].relative_path,
                relative@,
            ),
        decreases high - low,
    {
        let middle = low + (high - low) / 2;
        if in_order(files[middle].relative_path.as_str(), relative) {
            assert forall|i: int| 0 <= i < middle + 1 implies text_le(
                #[trigger] views[i].relative_path,
                relative@,
            ) by {
                if i < middle {
                    lemma_text_le_transitive(
                        views[i].relative_path,
                        views[middle as int].relative_path,
                        relative@,
                    );
                }
            }
            low = middle + 1;
        } else {
            assert forall|i: int| middle <= i < files.len() implies !text_le(
                #[trigger] views[i].relative_path,
                relative@,
            ) by {
                if middle < i && text_le(views[i].relative_path, relative@) {
                    lemma_text_le_transitive(
                        views[middle as int].relative_path,
                        views[i].relative_path,
                        relative@,
                    );
                }
            }
            high = middle;
        }
    }
    low
}

/// The index of a vault from the entries of a walk of it: the listed entries,
/// each with its path relative to the root, sorted by that path. Under a root
/// with a hidden name nothing is listed.
pub fn index_entries(root: &str, entries: &Vec<WalkEntry>) -> (files: Vec<VaultFile>)
    ensures
        sorted_index_of(file_views(files@), collected(root@, entry_views(entries@))),
        forall|i: int|
            0 <= i < files.len() ==> sound_record(root@, #[trigger] file_views(files@)[i]),
{
    let mut files: Vec<VaultFile> = Vec::new();
    let ghost walked = entry_views(entries@);
    let root_hidden = has_hidden_name(root);
    let mut i: usize = 0;
    proof {
        reveal(Seq::filter);
        assert(collected(root@, walked.take(0)) == Seq::<VaultFileView>::empty());
        assert(file_views(files@) == Seq::<VaultFileView>::empty());
    }
    while i < entries.len()
        invariant
            i <= entries.len(),
            walked == entry_views(entries@),
            root_hidden == hidden_name(entry_name(root@)),
            sorted_index_of(file_views(files@), collected(root@, walked.take(i as int))),
        decreases entries.len() - i,
    {
        let entry = &entries[i];
        let ghost before = file_views(files@);
        let ghost seen = collected(root@, walked.take(i as int));
        proof {
            walked.lemma_take_succ_push(i as int);
            lemma_collected_push(root@, walked.take(i as int), entry@);
        }
        if !root_hidden && entry.is_file && is_markdown(entry.path.as_str()) {
            let relative = relative_path(root, entry.path.as_str());
            if !is_hidden_path(relative.as_str()) {
                let at = insertion_point(&files, relative.as_str());
                let file = VaultFile { absolute_path: entry.path.clone(), relative_path: relative };
                proof {
                    to_multiset_insert(before, at as int, file@);
                    to_multiset_build(seen, file@);
                    lemma_insert_keeps_order(before, file@, at as int);
                    assert forall|relative: Seq<char>| #[trigger]
                        with_relative_path(before.insert(at as int, file@), relative)
                            == with_relative_path(seen.push(file@), relative) by {
                        lemma_insert_keeps_group(before, seen, file@, at as int, relative);
                    }
                }
                files.insert(at, file);
                assert(file_views(files@) == before.insert(at as int, file@));
            }
        }
        i += 1;
    }
    proof {
        assert(walked.take(i as int) == walked);
        assert forall|i: int| 0 <= i < files.len() implies sound_record(
            root@,
            #[trigger] file_views(files@)[i],
        ) by {
            lemma_index_listed(root@, walked, file_views(files@), i);
        }
    }
    files
}

/// Why a vault root is refused, if it is: it has to exist, and to be a
/// directory.
pub open spec fn root_failure(exists: bool, is_directory: bool) -> Option<ErrorKind> {
    if !exists {
        Some(ErrorKind::VaultNotFound)
    } else if !is_directory {
        Some(ErrorKind::VaultNotADirectory)
    } else {
        None
    }
}

/// Accepts or refuses a vault root from what is known of it.
pub fn check_vault_root(exists: bool, is_directory: bool) -> (checked: Result<(), VaultError>)
    ensures
        match checked {
            Ok(_) => root_failure(exists, is_directory) is None,
            Err(error) => root_failure(exists, is_directory) == Some(error.kind) && error.message@
                == standard_message(error.kind),
        },
{
    if !exists {
        Err(VaultError::of_kind(ErrorKind::VaultNotFound))
    } else if !is_directory {
        Err(VaultError::of_kind(ErrorKind::VaultNotADirectory))
    } else {
        Ok(())
    }
}

/// The markdown documents of a vault, from what the file system said of the
/// root and the entries that a walk of the root came by: sorted by their paths
/// relative to the root. Fails where the root does not exist or is not a
/// directory, and only then. No record has a hidden name, nor lies below a
/// directory with one; a root whose own name is hidden has no records at all.
pub fn list_markdown_files(
    vault_path: &str,
    exists: bool,
    is_directory: bool,
    entries: &Vec<WalkEntry>,
) -> (outcome: Result<Vec<VaultFile>, VaultError>)
    ensures
        match outcome {
            Ok(files) => {
                &&& root_failure(exists, is_directory) is None
                &&& sorted_index_of(
                    file_views(files@),
                    collected(vault_path@, entry_views(entries@)),
                )
                &&& forall|i: int|
                    0 <= i < files.len() ==> sound_record(
                        vault_path@,
                        #[trigger] file_views(files@)[i],
                    )
            },
            Err(error) => {
                &&& root_failure(exists, is_directory) == Some(error.kind)
                &&& error.message@ == standard_message(error.kind)
            },
        },
{
    match check_vault_root(exists, is_directory) {
        Err(error) => Err(error),
        Ok(_) => Ok(index_entries(vault_path, entries)),
    }
}

} // verus!

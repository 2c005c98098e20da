//! Directory entries and the sort engine. An entry is an immutable
//! snapshot of one child of the current directory; a listing is ordered
//! with directories first and, within each group, by the active sort key
//! and direction. The sort is a stable insertion sort with a
//! deterministic specification, which is what makes reload round trips
//! and idempotence provable.

use vstd::prelude::*;
use vstd::seq_lib::*;
use crate::config::SortMode;
use crate::text::{lex_le, lower_of, lowercase, str_lex_le};
use crate::text::{lemma_lex_le_total, lemma_lex_le_trans};

verus! {

/// One directory entry: a snapshot taken at load time, never mutated.
#[derive(Debug)]
pub struct FileEntry {
    pub name: String,
    pub path: String,
    pub is_dir: bool,
    pub is_hidden: bool,
    pub is_symlink: bool,
    pub is_executable: bool,
    pub size: u64,
    pub modified: Option<u64>,
}

/// The mathematical value of a `FileEntry`.
#[verifier::ext_equal]
pub ghost struct EntryV {
    pub name: Seq<char>,
    pub path: Seq<char>,
    pub is_dir: bool,
    pub is_hidden: bool,
    pub is_symlink: bool,
    pub is_executable: bool,
    pub size: u64,
    pub modified: Option<u64>,
}

impl View for FileEntry {
    type V = EntryV;

    open spec fn view(&self) -> EntryV {
        EntryV {
            name: self.name@,
            path: self.path@,
            is_dir: self.is_dir,
            is_hidden: self.is_hidden,
            is_symlink: self.is_symlink,
            is_executable: self.is_executable,
            size: self.size,
            modified: self.modified,
        }
    }
}

/// The views of a sequence of entries.
pub open spec fn views(s: Seq<FileEntry>) -> Seq<EntryV> {
    s.map_values(|e: FileEntry| e@)
}

/// Ordering of names: case-folded lexicographic, optionally reversed.
pub open spec fn name_le(asc: bool, a: EntryV, b: EntryV) -> bool {
    if asc {
        lex_le(lower_of(a.name), lower_of(b.name))
    } else {
        lex_le(lower_of(b.name), lower_of(a.name))
    }
}

/// The sort value of an optional modification time: absent counts as zero.
pub open spec fn mod_key(m: Option<u64>) -> u64 {
    match m {
        Option::Some(t) => t,
        Option::None => 0,
    }
}

/// Ordering of the file group under a sort key and direction.
pub open spec fn file_le(key: SortMode, asc: bool, a: EntryV, b: EntryV) -> bool {
    match key {
        SortMode::Name => name_le(asc, a, b),
        SortMode::Size => if asc {
            a.size <= b.size
        } else {
            b.size <= a.size
        },
        SortMode::Modified => if asc {
            mod_key(a.modified) <= mod_key(b.modified)
        } else {
            mod_key(b.modified) <= mod_key(a.modified)
        },
    }
}

/// Ordering of the directory group: by name for the name key (with
/// direction), by ascending name for every other key.
pub open spec fn dir_le(key: SortMode, asc: bool, a: EntryV, b: EntryV) -> bool {
    match key {
        SortMode::Name => name_le(asc, a, b),
        SortMode::Size => name_le(true, a, b),
        SortMode::Modified => name_le(true, a, b),
    }
}

/// The directory-group ordering as a relation value.
pub open spec fn dir_le_fn(key: SortMode, asc: bool) -> spec_fn(EntryV, EntryV) -> bool {
    |a: EntryV, b: EntryV| dir_le(key, asc, a, b)
}

/// The file-group ordering as a relation value.
pub open spec fn file_le_fn(key: SortMode, asc: bool) -> spec_fn(EntryV, EntryV) -> bool {
    |a: EntryV, b: EntryV| file_le(key, asc, a, b)
}

/// The ordering of one group: the directory relation or the file relation.
pub open spec fn group_le_fn(key: SortMode, asc: bool, dirs: bool) -> spec_fn(
    EntryV,
    EntryV,
) -> bool {
    if dirs {
        dir_le_fn(key, asc)
    } else {
        file_le_fn(key, asc)
    }
}

/// Non-strict pairwise sortedness under a relation.
pub open spec fn sorted_le(s: Seq<EntryV>, leq: spec_fn(EntryV, EntryV) -> bool) -> bool {
    forall|i: int, j: int| 0 <= i < j < s.len() ==> #[trigger] leq(s[i], s[j])
}

/// A total preorder: any two elements compare, and the relation is
/// transitive. Antisymmetry is not required — distinct entries may
/// compare equal under a key.
pub open spec fn total_preorder(leq: spec_fn(EntryV, EntryV) -> bool) -> bool {
    &&& forall|a: EntryV, b: EntryV| #[trigger] leq(a, b) || #[trigger] leq(b, a)
    &&& forall|a: EntryV, b: EntryV, c: EntryV|
        #[trigger] leq(a, b) && #[trigger] leq(b, c) ==> leq(a, c)
}

pub proof fn lemma_name_le_preorder(asc: bool)
    ensures
        forall|a: EntryV, b: EntryV| #[trigger] name_le(asc, a, b) || #[trigger] name_le(asc, b, a),
        forall|a: EntryV, b: EntryV, c: EntryV|
            #[trigger] name_le(asc, a, b) && #[trigger] name_le(asc, b, c) ==> name_le(asc, a, c),
{
    assert forall|a: EntryV, b: EntryV| #[trigger] name_le(asc, a, b) || #[trigger] name_le(
        asc,
        b,
        a,
    ) by {
        lemma_lex_le_total(lower_of(a.name), lower_of(b.name));
    }
    assert forall|a: EntryV, b: EntryV, c: EntryV|
        #[trigger] name_le(asc, a, b) && #[trigger] name_le(asc, b, c) implies name_le(
        asc,
        a,
        c,
    ) by {
        if asc {
            lemma_lex_le_trans(lower_of(a.name), lower_of(b.name), lower_of(c.name));
        } else {
            lemma_lex_le_trans(lower_of(c.name), lower_of(b.name), lower_of(a.name));
        }
    }
}

/// The directory-group relation is a total preorder.
pub proof fn lemma_dir_le_preorder(key: SortMode, asc: bool)
    ensures
        total_preorder(dir_le_fn(key, asc)),
{
    lemma_name_le_preorder(asc);
    lemma_name_le_preorder(true);
}

/// The file-group relation is a total preorder.
pub proof fn lemma_file_le_preorder(key: SortMode, asc: bool)
    ensures
        total_preorder(file_le_fn(key, asc)),
{
    lemma_name_le_preorder(asc);
}

/// Stable insertion of `x` into a sorted sequence: `x` lands after every
/// element it compares equal to.
pub open spec fn spec_insert(
    s: Seq<EntryV>,
    x: EntryV,
    leq: spec_fn(EntryV, EntryV) -> bool,
) -> Seq<EntryV>
    decreases s.len(),
{
    if s.len() == 0 {
        seq![x]
    } else if leq(s.last(), x) {
        s.push(x)
    } else {
        spec_insert(s.drop_last(), x, leq).push(s.last())
    }
}

/// Stable insertion sort, processing the sequence left to right.
pub open spec fn spec_sort(s: Seq<EntryV>, leq: spec_fn(EntryV, EntryV) -> bool) -> Seq<EntryV>
    decreases s.len(),
{
    if s.len() == 0 {
        s
    } else {
        spec_insert(spec_sort(s.drop_last(), leq), s.last(), leq)
    }
}

pub proof fn lemma_spec_insert(s: Seq<EntryV>, x: EntryV, leq: spec_fn(EntryV, EntryV) -> bool)
    requires
        total_preorder(leq),
        sorted_le(s, leq),
    ensures
        sorted_le(spec_insert(s, x, leq), leq),
        spec_insert(s, x, leq).to_multiset() == s.to_multiset().insert(x),
        spec_insert(s, x, leq).len() == s.len() + 1,
    decreases s.len(),
{
    broadcast use vstd::seq_lib::group_to_multiset_ensures;

    let r = spec_insert(s, x, leq);
    if s.len() == 0 {
        assert(r =~= Seq::<EntryV>::empty().push(x));
        assert(r.to_multiset() =~= s.to_multiset().insert(x));
    } else if leq(s.last(), x) {
        assert forall|i: int, j: int| 0 <= i < j < r.len() implies #[trigger] leq(r[i], r[j]) by {
            if j == r.len() - 1 {
                if i < s.len() - 1 {
                    assert(leq(s[i], s[s.len() - 1]));
                }
            }
        }
        assert(r.to_multiset() =~= s.to_multiset().insert(x));
    } else {
        let d = s.drop_last();
        assert(sorted_le(d, leq));
        lemma_spec_insert(d, x, leq);
        let r0 = spec_insert(d, x, leq);
        assert(r == r0.push(s.last()));
        // every element of r0 is x or an element of d, hence below s.last()
        assert forall|i: int, j: int| 0 <= i < j < r.len() implies #[trigger] leq(r[i], r[j]) by {
            if j == r.len() - 1 {
                let e = r0[i];
                assert(r0.contains(e));
                assert(r0.to_multiset().count(e) > 0);
                if e == x {
                    assert(leq(x, s.last()));
                } else {
                    assert(d.to_multiset().insert(x).count(e) > 0);
                    assert(d.to_multiset().count(e) > 0);
                    assert(d.contains(e));
                    let k = choose|k: int| 0 <= k < d.len() && d[k] == e;
                    assert(leq(s[k], s[s.len() - 1]));
                }
            }
        }
        assert(s =~= d.push(s.last()));
        assert(s.to_multiset() == d.to_multiset().insert(s.last()));
        assert(r.to_multiset() =~= s.to_multiset().insert(x));
    }
}

pub proof fn lemma_spec_sort(s: Seq<EntryV>, leq: spec_fn(EntryV, EntryV) -> bool)
    requires
        total_preorder(leq),
    ensures
        sorted_le(spec_sort(s, leq), leq),
        spec_sort(s, leq).to_multiset() == s.to_multiset(),
        spec_sort(s, leq).len() == s.len(),
    decreases s.len(),
{
    broadcast use vstd::seq_lib::group_to_multiset_ensures;

    if s.len() > 0 {
        let d = s.drop_last();
        lemma_spec_sort(d, leq);
        lemma_spec_insert(spec_sort(d, leq), s.last(), leq);
        assert(s =~= d.push(s.last()));
        assert(s.to_multiset() == d.to_multiset().insert(s.last()));
    }
}

/// Sorting a sequence that is already sorted returns it unchanged: the
/// stability of the insertion keeps equal-comparing elements in place.
pub proof fn lemma_spec_sort_id(s: Seq<EntryV>, leq: spec_fn(EntryV, EntryV) -> bool)
    requires
        total_preorder(leq),
        sorted_le(s, leq),
    ensures
        spec_sort(s, leq) == s,
    decreases s.len(),
{
    if s.len() > 0 {
        let d = s.drop_last();
        assert(sorted_le(d, leq));
        lemma_spec_sort_id(d, leq);
        if d.len() == 0 {
            assert(spec_sort(s, leq) =~= s);
        } else {
            assert(leq(d.last(), s.last()));
            assert(spec_insert(d, s.last(), leq) =~= s);
        }
    }
}

/// The directory group of a listing.
pub open spec fn is_dir_pred() -> spec_fn(EntryV) -> bool {
    |e: EntryV| e.is_dir
}

/// The file group of a listing.
pub open spec fn is_file_pred() -> spec_fn(EntryV) -> bool {
    |e: EntryV| !e.is_dir
}

/// The fully sorted listing: sorted directories first, then sorted files.
pub open spec fn spec_sort_listing(s: Seq<EntryV>, key: SortMode, asc: bool) -> Seq<EntryV> {
    spec_sort(s.filter(is_dir_pred()), dir_le_fn(key, asc)) + spec_sort(
        s.filter(is_file_pred()),
        file_le_fn(key, asc),
    )
}

/// Filtering distributes over appending one element.
pub proof fn lemma_filter_push(s: Seq<EntryV>, e: EntryV, pred: spec_fn(EntryV) -> bool)
    ensures
        s.push(e).filter(pred) == if pred(e) {
            s.filter(pred).push(e)
        } else {
            s.filter(pred)
        },
{
    reveal(Seq::filter);
    assert(s.push(e).drop_last() =~= s);
    assert(s.push(e).last() == e);
}

/// Decides the group ordering on two entries.
fn entry_group_le(key: SortMode, asc: bool, dirs: bool, a: &FileEntry, b: &FileEntry) -> (r: bool)
    ensures
        r == if dirs {
            dir_le(key, asc, a@, b@)
        } else {
            file_le(key, asc, a@, b@)
        },
{
    if dirs {
        match key {
            SortMode::Name => name_le_exec(asc, a, b),
            SortMode::Size => name_le_exec(true, a, b),
            SortMode::Modified => name_le_exec(true, a, b),
        }
    } else {
        match key {
            SortMode::Name => name_le_exec(asc, a, b),
            SortMode::Size => if asc {
                a.size <= b.size
            } else {
                b.size <= a.size
            },
            SortMode::Modified => {
                let ka = match a.modified {
                    Option::Some(t) => t,
                    Option::None => 0,
                };
                let kb = match b.modified {
                    Option::Some(t) => t,
                    Option::None => 0,
                };
                if asc {
                    ka <= kb
                } else {
                    kb <= ka
                }
            },
        }
    }
}

/// Decides the case-folded name ordering.
fn name_le_exec(asc: bool, a: &FileEntry, b: &FileEntry) -> (r: bool)
    ensures
        r == name_le(asc, a@, b@),
{
    let la = lowercase(a.name.as_str());
    let lb = lowercase(b.name.as_str());
    if asc {
        str_lex_le(la.as_str(), lb.as_str())
    } else {
        str_lex_le(lb.as_str(), la.as_str())
    }
}

/// Inserts one entry into an already sorted group, keeping stability.
fn insert_entry(s: Vec<FileEntry>, x: FileEntry, key: SortMode, asc: bool, dirs: bool) -> (r: Vec<
    FileEntry,
>)
    ensures
        views(r@) == spec_insert(views(s@), x@, group_le_fn(key, asc, dirs)),
    decreases s@.len(),
{
    let ghost leq = group_le_fn(key, asc, dirs);
    let ghost s0 = s@;
    let mut s = s;
    if s.len() == 0 {
        s.push(x);
        assert(views(s@) =~= seq![x@]);
        s
    } else {
        let stay = entry_group_le(key, asc, dirs, &s[s.len() - 1], &x);
        proof {
            assert(views(s0).last() == s0.last()@);
        }
        if stay {
            s.push(x);
            assert(views(s@) =~= views(s0).push(x@)) by {
                assert(forall|i: int| 0 <= i < s@.len() ==> views(s@)[i] == #[trigger] s@[i]@);
            }
            s
        } else {
            let last = s.pop().unwrap();
            let ghost s_before = s@;
            let mut r = insert_entry(s, x, key, asc, dirs);
            r.push(last);
            let ghost rv = spec_insert(views(s_before), x@, leq);
            assert(views(r@) =~= rv.push(last@)) by {
                assert(forall|i: int| 0 <= i < r@.len() ==> views(r@)[i] == #[trigger] r@[i]@);
            }
            proof {
                assert(views(s0).drop_last() =~= views(s_before));
                assert(views(s0).last() == last@);
            }
            r
        }
    }
}

/// Sorts one group of entries by the group ordering.
fn sort_group(v: Vec<FileEntry>, key: SortMode, asc: bool, dirs: bool) -> (r: Vec<FileEntry>)
    ensures
        views(r@) == spec_sort(views(v@), group_le_fn(key, asc, dirs)),
{
    let ghost leq = group_le_fn(key, asc, dirs);
    let ghost orig = views(v@);
    let mut v = v;
    let mut acc: Vec<FileEntry> = Vec::new();
    let ghost k: int = 0;
    assert(views(acc@) =~= spec_sort(orig.take(0), leq));
    while v.len() > 0
        invariant
            leq == group_le_fn(key, asc, dirs),
            0 <= k <= orig.len(),
            views(v@) =~= orig.skip(k),
            views(acc@) == spec_sort(orig.take(k), leq),
        decreases v@.len(),
    {
        let ghost v0 = v@;
        let e = v.remove(0);
        proof {
            assert(views(v0)[0] == e@);
            assert(views(v@) =~= views(v0).drop_first());
            assert(views(v@) =~= orig.skip(k + 1));
            assert(e@ == orig[k]);
        }
        let ghost acc0 = acc@;
        let ghost ev = e@;
        acc = insert_entry(acc, e, key, asc, dirs);
        proof {
            assert(views(acc@) == spec_insert(views(acc0), ev, leq));
            assert(orig.take(k + 1).drop_last() =~= orig.take(k));
            assert(orig.take(k + 1).last() == orig[k]);
            assert(spec_sort(orig.take(k + 1), leq) == spec_insert(
                spec_sort(orig.take(k), leq),
                orig[k],
                leq,
            ));
            k = k + 1;
        }
    }
    proof {
        assert(orig.skip(k) =~= views(v@));
        assert(orig.take(k) =~= orig);
    }
    acc
}

/// Sorts a whole listing: splits it into its directory and file groups,
/// sorts each, and concatenates the groups with directories first.
pub fn sort_listing(v: Vec<FileEntry>, key: SortMode, asc: bool) -> (r: Vec<FileEntry>)
    ensures
        views(r@) == spec_sort_listing(views(v@), key, asc),
{
    let ghost orig = views(v@);
    let mut v = v;
    let mut dirs: Vec<FileEntry> = Vec::new();
    let mut files: Vec<FileEntry> = Vec::new();
    let ghost k: int = 0;
    assert(orig.take(0).filter(is_dir_pred()) =~= Seq::<EntryV>::empty()) by {
        reveal(Seq::filter);
    }
    assert(orig.take(0).filter(is_file_pred()) =~= Seq::<EntryV>::empty()) by {
        reveal(Seq::filter);
    }
    while v.len() > 0
        invariant
            0 <= k <= orig.len(),
            views(v@) =~= orig.skip(k),
            views(dirs@) == orig.take(k).filter(is_dir_pred()),
            views(files@) == orig.take(k).filter(is_file_pred()),
        decreases v@.len(),
    {
        let ghost v0 = v@;
        let ghost dirs0 = dirs@;
        let ghost files0 = files@;
        let e = v.remove(0);
        proof {
            assert(views(v0)[0] == e@);
            assert(views(v@) =~= views(v0).drop_first());
            assert(views(v@) =~= orig.skip(k + 1));
            assert(e@ == orig[k]);
            assert(orig.take(k + 1) =~= orig.take(k).push(orig[k]));
            lemma_filter_push(orig.take(k), orig[k], is_dir_pred());
            lemma_filter_push(orig.take(k), orig[k], is_file_pred());
        }
        if e.is_dir {
            dirs.push(e);
            assert(views(dirs@) =~= views(dirs0).push(e@)) by {
                assert(forall|i: int|
                    0 <= i < dirs@.len() ==> views(dirs@)[i] == #[trigger] dirs@[i]@);
            }
        } else {
            files.push(e);
            assert(views(files@) =~= views(files0).push(e@)) by {
                assert(forall|i: int|
                    0 <= i < files@.len() ==> views(files@)[i] == #[trigger] files@[i]@);
            }
        }
        proof {
            k = k + 1;
        }
    }
    proof {
        assert(orig.take(k) =~= orig);
    }
    let mut r = sort_group(dirs, key, asc, true);
    let mut fs = sort_group(files, key, asc, false);
    let ghost rv = views(r@);
    let ghost fv = views(fs@);
    let ghost r0 = r@;
    r.append(&mut fs);
    assert(views(r@) =~= rv + fv) by {
        assert(forall|i: int| 0 <= i < r@.len() ==> views(r@)[i] == #[trigger] r@[i]@);
        assert(forall|i: int| 0 <= i < rv.len() ==> rv[i] == r0[i]@);
    }
    r
}

/// Directories precede files in a sorted listing: once a file appears,
/// no directory follows.
pub proof fn lemma_sort_listing_grouped(s: Seq<EntryV>, key: SortMode, asc: bool)
    ensures
        forall|i: int, j: int|
            0 <= i < j < spec_sort_listing(s, key, asc).len() && #[trigger] spec_sort_listing(
                s,
                key,
                asc,
            )[j].is_dir ==> #[trigger] spec_sort_listing(s, key, asc)[i].is_dir,
{
    broadcast use vstd::seq_lib::group_to_multiset_ensures;
    broadcast use Seq::lemma_filter_pred;

    let d = s.filter(is_dir_pred());
    let f = s.filter(is_file_pred());
    let ds = spec_sort(d, dir_le_fn(key, asc));
    let fs = spec_sort(f, file_le_fn(key, asc));
    lemma_dir_le_preorder(key, asc);
    lemma_file_le_preorder(key, asc);
    lemma_spec_sort(d, dir_le_fn(key, asc));
    lemma_spec_sort(f, file_le_fn(key, asc));
    let r = spec_sort_listing(s, key, asc);
    assert forall|i: int| 0 <= i < ds.len() implies #[trigger] ds[i].is_dir by {
        assert(ds.contains(ds[i]));
        assert(ds.to_multiset().count(ds[i]) > 0);
        assert(d.contains(ds[i]));
        let w = choose|w: int| 0 <= w < d.len() && d[w] == ds[i];
        assert(is_dir_pred()(d[w]));
    }
    assert forall|i: int| 0 <= i < fs.len() implies !(#[trigger] fs[i].is_dir) by {
        assert(fs.contains(fs[i]));
        assert(fs.to_multiset().count(fs[i]) > 0);
        assert(f.contains(fs[i]));
        let w = choose|w: int| 0 <= w < f.len() && f[w] == fs[i];
        assert(is_file_pred()(f[w]));
    }
    assert forall|i: int, j: int|
        0 <= i < j < r.len() && #[trigger] r[j].is_dir implies #[trigger] r[i].is_dir by {
        if j >= ds.len() {
            assert(!r[j].is_dir);
        }
    }
}

/// Sorting is idempotent: sorting a listing that is already the result
/// of sorting under the same key and direction changes nothing.
pub proof fn lemma_sort_listing_idempotent(s: Seq<EntryV>, key: SortMode, asc: bool)
    ensures
        spec_sort_listing(spec_sort_listing(s, key, asc), key, asc) == spec_sort_listing(
            s,
            key,
            asc,
        ),
{
    broadcast use vstd::seq_lib::group_to_multiset_ensures;
    broadcast use Seq::lemma_filter_pred;
    broadcast use Seq::filter_distributes_over_add;

    let d = s.filter(is_dir_pred());
    let f = s.filter(is_file_pred());
    let ds = spec_sort(d, dir_le_fn(key, asc));
    let fs = spec_sort(f, file_le_fn(key, asc));
    lemma_dir_le_preorder(key, asc);
    lemma_file_le_preorder(key, asc);
    lemma_spec_sort(d, dir_le_fn(key, asc));
    lemma_spec_sort(f, file_le_fn(key, asc));
    let r = spec_sort_listing(s, key, asc);
    // each element of ds is a directory, each of fs a file
    assert forall|i: int| 0 <= i < ds.len() implies #[trigger] ds[i].is_dir by {
        assert(ds.contains(ds[i]));
        assert(ds.to_multiset().count(ds[i]) > 0);
        assert(d.contains(ds[i]));
        let w = choose|w: int| 0 <= w < d.len() && d[w] == ds[i];
        assert(is_dir_pred()(d[w]));
    }
    assert forall|i: int| 0 <= i < fs.len() implies !(#[trigger] fs[i].is_dir) by {
        assert(fs.contains(fs[i]));
        assert(fs.to_multiset().count(fs[i]) > 0);
        assert(f.contains(fs[i]));
        let w = choose|w: int| 0 <= w < f.len() && f[w] == fs[i];
        assert(is_file_pred()(f[w]));
    }
    // filtering the sorted listing recovers the two sorted groups
    lemma_filter_all(ds, is_dir_pred());
    lemma_filter_none(fs, is_dir_pred());
    lemma_filter_all(fs, is_file_pred());
    lemma_filter_none(ds, is_file_pred());
    assert(r.filter(is_dir_pred()) =~= ds);
    assert(r.filter(is_file_pred()) =~= fs);
    lemma_spec_sort_id(ds, dir_le_fn(key, asc));
    lemma_spec_sort_id(fs, file_le_fn(key, asc));
    assert(spec_sort_listing(r, key, asc) =~= r);
}

/// Filtering keeps a sequence whose elements all satisfy the predicate.
pub proof fn lemma_filter_all(s: Seq<EntryV>, pred: spec_fn(EntryV) -> bool)
    requires
        forall|i: int| 0 <= i < s.len() ==> pred(#[trigger] s[i]),
    ensures
        s.filter(pred) == s,
    decreases s.len(),
{
    reveal(Seq::filter);
    if s.len() > 0 {
        lemma_filter_all(s.drop_last(), pred);
        assert(s.filter(pred) =~= s);
    }
}

/// Filtering empties a sequence whose elements all fail the predicate.
pub proof fn lemma_filter_none(s: Seq<EntryV>, pred: spec_fn(EntryV) -> bool)
    requires
        forall|i: int| 0 <= i < s.len() ==> !pred(#[trigger] s[i]),
    ensures
        s.filter(pred) == Seq::<EntryV>::empty(),
    decreases s.len(),
{
    reveal(Seq::filter);
    if s.len() > 0 {
        lemma_filter_none(s.drop_last(), pred);
        assert(s.filter(pred) =~= Seq::<EntryV>::empty());
    }
}

/// A listing splits exactly into its directory and file groups.
pub proof fn lemma_partition_len(s: Seq<EntryV>)
    ensures
        s.filter(is_dir_pred()).len() + s.filter(is_file_pred()).len() == s.len(),
    decreases s.len(),
{
    reveal(Seq::filter);
    if s.len() > 0 {
        lemma_partition_len(s.drop_last());
    }
}

/// Sorting a listing keeps its length.
pub proof fn lemma_sort_listing_len(s: Seq<EntryV>, key: SortMode, asc: bool)
    ensures
        spec_sort_listing(s, key, asc).len() == s.len(),
{
    lemma_partition_len(s);
    lemma_dir_le_preorder(key, asc);
    lemma_file_le_preorder(key, asc);
    lemma_spec_sort(s.filter(is_dir_pred()), dir_le_fn(key, asc));
    lemma_spec_sort(s.filter(is_file_pred()), file_le_fn(key, asc));
}

/// Every element a filter keeps occurs in the source sequence.
pub proof fn lemma_filter_elem_of(s: Seq<EntryV>, pred: spec_fn(EntryV) -> bool)
    ensures
        forall|k: int|
            0 <= k < s.filter(pred).len() ==> exists|t: int|
                0 <= t < s.len() && s[t] == #[trigger] s.filter(pred)[k],
    decreases s.len(),
{
    reveal(Seq::filter);
    if s.len() > 0 {
        let d = s.drop_last();
        lemma_filter_elem_of(d, pred);
        let f = s.filter(pred);
        let fd = d.filter(pred);
        assert forall|k: int|
            0 <= k < f.len() implies exists|t: int| 0 <= t < s.len() && s[t] == #[trigger] f[k] by {
            if pred(s.last()) && k == f.len() - 1 {
                assert(s[s.len() - 1] == f[k]);
            } else {
                assert(f[k] == fd[k]);
                let t = choose|t: int| 0 <= t < d.len() && d[t] == fd[k];
                assert(s[t] == f[k]);
            }
        }
    }
}

/// A filter of a duplicate-free sequence is duplicate-free.
pub proof fn lemma_filter_no_dup(s: Seq<EntryV>, pred: spec_fn(EntryV) -> bool)
    requires
        s.no_duplicates(),
    ensures
        s.filter(pred).no_duplicates(),
    decreases s.len(),
{
    reveal(Seq::filter);
    if s.len() > 0 {
        let d = s.drop_last();
        assert(d.no_duplicates());
        lemma_filter_no_dup(d, pred);
        lemma_filter_elem_of(d, pred);
        let f = s.filter(pred);
        let fd = d.filter(pred);
        if pred(s.last()) {
            assert(f == fd.push(s.last()));
            assert forall|i: int, j: int|
                0 <= i < f.len() && 0 <= j < f.len() && i != j implies f[i] != f[j] by {
                let a = if i < j {
                    i
                } else {
                    j
                };
                let b = if i < j {
                    j
                } else {
                    i
                };
                if b == f.len() - 1 {
                    // the new last element equals no source element of d
                    assert(f[a] == fd[a]);
                    let t = choose|t: int| 0 <= t < d.len() && d[t] == fd[a];
                    assert(s[t] == f[a]);
                    assert(s[t] != s[s.len() - 1]);
                } else {
                    assert(f[a] == fd[a] && f[b] == fd[b]);
                }
            }
        }
    }
}

/// A sorted group is duplicate-free and made of source elements.
pub proof fn lemma_spec_sort_elems(s: Seq<EntryV>, leq: spec_fn(EntryV, EntryV) -> bool)
    requires
        total_preorder(leq),
        s.no_duplicates(),
    ensures
        spec_sort(s, leq).no_duplicates(),
        forall|k: int|
            0 <= k < spec_sort(s, leq).len() ==> exists|t: int|
                0 <= t < s.len() && s[t] == #[trigger] spec_sort(s, leq)[k],
{
    broadcast use vstd::seq_lib::group_to_multiset_ensures;

    lemma_spec_sort(s, leq);
    let r = spec_sort(s, leq);
    s.lemma_multiset_has_no_duplicates();
    assert forall|k: int|
        0 <= k < r.len() implies exists|t: int| 0 <= t < s.len() && s[t] == #[trigger] r[k] by {
        assert(r.contains(r[k]));
        assert(r.to_multiset().count(r[k]) > 0);
        assert(s.contains(r[k]));
        let t = choose|t: int| 0 <= t < s.len() && s[t] == r[k];
        assert(s[t] == r[k]);
    }
    r.lemma_multiset_has_no_duplicates_conv();
}

} // verus!

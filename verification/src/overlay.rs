//! What an overlay upper directory says about the repository beneath it:
//! which files it adds, modifies and deletes, and what applying it does.
//!
//! The directory walk and the file-system queries happen outside; this module
//! works on what they found, one `UpperEntry` per entry of the upper directory.
use vstd::prelude::*;
use crate::paths::{
    component_lt, components, components_lt, components_lt_exec, components_of, join, join_spec,
    lemma_components_lt_strict_total, lemma_lex_irreflexive, path_starts_with, rows,
};

verus! {

broadcast use Seq::lemma_filter_push, Seq::filter_distributes_over_add;

/// Overlay directory layout.
pub struct OverlayDirs {
    pub upperdir: String,
    pub workdir: String,
}

/// The layout under `base`: `base/upper` receives the writes, `base/work` is
/// overlayfs's scratch directory.
pub fn overlay_dirs(base: &str) -> (r: OverlayDirs)
    ensures
        r.upperdir@ == join_spec(base@, "upper"@),
        r.workdir@ == join_spec(base@, "work"@),
{
    OverlayDirs { upperdir: join(base, "upper"), workdir: join(base, "work") }
}

/// Represents a change found in the overlay upperdir.
#[derive(Debug, Clone, PartialEq, Eq)]
pub enum Change {
    Added(String),
    Modified(String),
    Deleted(String),
}

/// A change, with its path as a character sequence.
pub enum ChangeView {
    Added(Seq<char>),
    Modified(Seq<char>),
    Deleted(Seq<char>),
}

impl ChangeView {
    pub open spec fn path(self) -> Seq<char> {
        match self {
            ChangeView::Added(p) => p,
            ChangeView::Modified(p) => p,
            ChangeView::Deleted(p) => p,
        }
    }
}

impl View for Change {
    type V = ChangeView;

    open spec fn view(&self) -> ChangeView {
        match self {
            Change::Added(p) => ChangeView::Added(p@),
            Change::Modified(p) => ChangeView::Modified(p@),
            Change::Deleted(p) => ChangeView::Deleted(p@),
        }
    }
}

impl Change {
    /// The path the change is about, relative to the repository.
    pub fn path(&self) -> (r: &String)
        ensures
            r@ == self@.path(),
    {
        match self {
            Change::Added(p) => p,
            Change::Modified(p) => p,
            Change::Deleted(p) => p,
        }
    }
}

/// The views of a sequence of changes.
pub open spec fn change_views(v: Seq<Change>) -> Seq<ChangeView> {
    v.map_values(|c: Change| c@)
}

/// What the walk of the upper directory found about one entry.
pub struct UpperEntry {
    /// The entry's path relative to the upper directory.
    pub rel: String,
    /// The entry is an overlayfs whiteout (see `whiteout_from_stat`).
    pub whiteout: bool,
    /// The entry is a directory.
    pub is_dir: bool,
    /// The entry is an opaque directory (see `opaque_from_xattr`).
    pub opaque: bool,
    /// The same relative path exists in the repository.
    pub in_repo: bool,
}

/// The changes that one entry stands for: a whiteout deletes; a directory
/// stands for nothing, except an opaque one over an existing path, which
/// deletes what the repository had there and adds the new one; a file modifies what the
/// repository has, or else adds.
pub open spec fn entry_changes(e: UpperEntry) -> Seq<ChangeView> {
    if e.whiteout {
        seq![ChangeView::Deleted(e.rel@)]
    } else if e.is_dir {
        if e.opaque && e.in_repo {
            seq![ChangeView::Deleted(e.rel@), ChangeView::Added(e.rel@)]
        } else {
            Seq::empty()
        }
    } else if e.in_repo {
        seq![ChangeView::Modified(e.rel@)]
    } else {
        seq![ChangeView::Added(e.rel@)]
    }
}

/// The changes of the entries, in walk order.
pub open spec fn walk_changes(es: Seq<UpperEntry>) -> Seq<ChangeView>
    decreases es.len(),
{
    if es.len() == 0 {
        Seq::empty()
    } else {
        walk_changes(es.drop_last()) + entry_changes(es.last())
    }
}

/// The sort key of a change: the components of its path.
pub open spec fn change_key(c: ChangeView) -> Seq<Seq<char>> {
    components(c.path())
}

/// No change comes after one whose path sorts after its own.
pub open spec fn sorted_by_path(s: Seq<ChangeView>) -> bool {
    forall|i: int, j: int|
        0 <= i < j < s.len() ==> !components_lt(change_key(s[j]), change_key(s[i]))
}

/// The changes of `s` whose path has the components `k`, in order.
pub open spec fn with_key(s: Seq<ChangeView>, k: Seq<Seq<char>>) -> Seq<ChangeView> {
    s.filter(|c: ChangeView| change_key(c) == k)
}

/// `r` is `s` sorted by path, keeping the order of changes to the same path:
/// sorted, and with the same changes for each path in the same order.
pub open spec fn stable_sorted_of(r: Seq<ChangeView>, s: Seq<ChangeView>) -> bool {
    &&& sorted_by_path(r)
    &&& forall|k: Seq<Seq<char>>| #[trigger] with_key(r, k) == with_key(s, k)
}

proof fn lemma_filter_none(s: Seq<ChangeView>, k: Seq<Seq<char>>)
    requires
        forall|j: int| 0 <= j < s.len() ==> change_key(s[j]) != k,
    ensures
        with_key(s, k) == Seq::<ChangeView>::empty(),
    decreases s.len(),
{
    if s.len() > 0 {
        lemma_filter_none(s.drop_last(), k);
        assert(s.drop_last().push(s.last()) =~= s);
    } else {
        assert(s =~= Seq::<ChangeView>::empty());
        reveal(Seq::filter);
    }
}

/// Inserting `x` after every change that does not sort after it, and before
/// one that does, keeps the sequence sorted and appends `x` to its path's group.
proof fn lemma_insert_sorted(v: Seq<ChangeView>, p: int, x: ChangeView)
    requires
        sorted_by_path(v),
        0 <= p <= v.len(),
        forall|j: int| 0 <= j < p ==> !components_lt(change_key(x), change_key(v[j])),
        p < v.len() ==> components_lt(change_key(x), change_key(v[p])),
    ensures
        sorted_by_path(v.insert(p, x)),
        forall|k: Seq<Seq<char>>|
            #[trigger] with_key(v.insert(p, x), k) == if change_key(x) == k {
                with_key(v, k).push(x)
            } else {
                with_key(v, k)
            },
{
    lemma_components_lt_strict_total();
    let lt = |a: Seq<Seq<char>>, b: Seq<Seq<char>>| components_lt(a, b);
    let w = v.insert(p, x);
    let kx = change_key(x);
    // Everything from p on sorts strictly after x.
    assert forall|j: int| p <= j < v.len() implies components_lt(kx, change_key(v[j])) by {
        let kp = change_key(v[p]);
        let kj = change_key(v[j]);
        if j > p {
            assert(!components_lt(kj, kp));
            if kj != kp {
                assert(lt(kj, kp) || lt(kp, kj));
                assert(lt(kx, kp) && lt(kp, kj));
            }
        }
    };
    assert forall|i: int, j: int| 0 <= i < j < w.len() implies !components_lt(
        change_key(w[j]),
        change_key(w[i]),
    ) by {
        if i < p && j < p {
            assert(w[i] == v[i] && w[j] == v[j]);
        } else if i < p && j == p {
        } else if i < p {
            assert(w[i] == v[i] && w[j] == v[j - 1]);
        } else if i == p {
            assert(w[j] == v[j - 1]);
            let kj = change_key(v[j - 1]);
            assert(lt(kx, kj));
            if lt(kj, kx) {
                assert(lt(kx, kx));
            }
        } else {
            assert(w[i] == v[i - 1] && w[j] == v[j - 1]);
        }
    };
    let front = v.subrange(0, p);
    let back = v.subrange(p, v.len() as int);
    assert(v =~= front + back);
    assert(w =~= front.push(x) + back);
    assert forall|k: Seq<Seq<char>>| #[trigger] with_key(w, k) == if kx == k {
        with_key(v, k).push(x)
    } else {
        with_key(v, k)
    } by {
        let pred = |c: ChangeView| change_key(c) == k;
        assert(with_key(w, k) == front.push(x).filter(pred) + back.filter(pred));
        assert(with_key(v, k) == front.filter(pred) + back.filter(pred));
        if kx == k {
            assert forall|j: int| 0 <= j < back.len() implies change_key(back[j]) != k by {
                assert(back[j] == v[p + j]);
                assert(lt(kx, change_key(v[p + j])));
                lemma_lex_irreflexive(kx, component_lt());
            };
            lemma_filter_none(back, k);
            assert(back.filter(pred) == Seq::<ChangeView>::empty());
            assert(with_key(w, k) =~= with_key(v, k).push(x));
        } else {
            assert(with_key(w, k) =~= with_key(v, k));
        }
    };
}

proof fn lemma_key_in_sorted(r: Seq<ChangeView>, x: ChangeView, s: Seq<ChangeView>)
    requires
        sorted_by_path(r),
        r.len() > 0,
        with_key(r, change_key(x)) == with_key(s, change_key(x)),
        s.contains(x),
    ensures
        !components_lt(change_key(r.last()), change_key(x)),
{
    let k = change_key(x);
    let pred = |c: ChangeView| change_key(c) == k;
    let j = choose|j: int| 0 <= j < s.len() && s[j] == x;
    s.lemma_filter_contains(pred, j);
    assert(with_key(r, k).contains(x));
    r.lemma_filter_contains_rev(pred, x);
    let i = choose|i: int| 0 <= i < r.len() && r[i] == x;
    if i < r.len() - 1 {
        assert(!components_lt(change_key(r[r.len() - 1]), change_key(r[i])));
    } else {
        lemma_components_lt_strict_total();
        lemma_lex_irreflexive(k, component_lt());
    }
}

/// A sequence of changes has only one stable sort by path: two sequences
/// that are both sorted by path and hold the same changes for each path, in
/// the same order, are equal.
pub proof fn law_stable_sort_unique(r1: Seq<ChangeView>, r2: Seq<ChangeView>, s: Seq<ChangeView>)
    requires
        stable_sorted_of(r1, s),
        stable_sorted_of(r2, s),
    ensures
        r1 == r2,
{
    lemma_sorted_unique(r1, r2);
}

proof fn lemma_sorted_unique(r1: Seq<ChangeView>, r2: Seq<ChangeView>)
    requires
        sorted_by_path(r1),
        sorted_by_path(r2),
        forall|k: Seq<Seq<char>>| #[trigger] with_key(r1, k) == with_key(r2, k),
    ensures
        r1 == r2,
    decreases r1.len() + r2.len(),
{
    if r1.len() == 0 && r2.len() == 0 {
        assert(r1 =~= r2);
    } else if r1.len() == 0 || r2.len() == 0 {
        let (a, b) = if r1.len() == 0 {
            (r2, r1)
        } else {
            (r1, r2)
        };
        let x = a[0];
        let k = change_key(x);
        let pred = |c: ChangeView| change_key(c) == k;
        a.lemma_filter_contains(pred, 0);
        assert(with_key(a, k) == with_key(b, k));
        assert(b =~= Seq::<ChangeView>::empty());
        lemma_filter_none(b, k);
        assert(with_key(a, k).contains(x));
    } else {
        let x1 = r1.last();
        let x2 = r2.last();
        assert(r1.contains(x1));
        assert(r2.contains(x2));
        lemma_key_in_sorted(r1, x2, r2);
        lemma_key_in_sorted(r2, x1, r1);
        lemma_components_lt_strict_total();
        let lt = |a: Seq<Seq<char>>, b: Seq<Seq<char>>| components_lt(a, b);
        assert(lt(change_key(x1), change_key(x2)) == components_lt(change_key(x1), change_key(x2)));
        assert(lt(change_key(x2), change_key(x1)) == components_lt(change_key(x2), change_key(x1)));
        let k = change_key(x1);
        assert(change_key(x2) == k);
        let d1 = r1.drop_last();
        let d2 = r2.drop_last();
        assert(d1.push(x1) =~= r1);
        assert(d2.push(x2) =~= r2);
        assert(with_key(r1, k) == with_key(d1, k).push(x1));
        assert(with_key(r2, k) == with_key(d2, k).push(x2));
        assert(x1 == x2) by {
            assert(with_key(r1, k).last() == x1);
            assert(with_key(r2, k).last() == x2);
        }
        assert forall|k2: Seq<Seq<char>>| #[trigger] with_key(d1, k2) == with_key(d2, k2) by {
            assert(with_key(r1, k2) == with_key(r2, k2));
            if k2 == k {
                assert(with_key(d1, k2) == with_key(r1, k2).drop_last());
                assert(with_key(d2, k2) == with_key(r2, k2).drop_last());
            } else {
                assert(with_key(r1, k2) == with_key(d1, k2));
                assert(with_key(r2, k2) == with_key(d2, k2));
            }
        }
        assert(sorted_by_path(d1)) by {
            assert forall|i: int, j: int| 0 <= i < j < d1.len() implies !components_lt(
                change_key(d1[j]),
                change_key(d1[i]),
            ) by {
                assert(d1[i] == r1[i] && d1[j] == r1[j]);
            }
        }
        assert(sorted_by_path(d2)) by {
            assert forall|i: int, j: int| 0 <= i < j < d2.len() implies !components_lt(
                change_key(d2[j]),
                change_key(d2[i]),
            ) by {
                assert(d2[i] == r2[i] && d2[j] == r2[j]);
            }
        }
        lemma_sorted_unique(d1, d2);
    }
}

/// Sorts changes by path (`Ord for Path`), keeping the order of changes to
/// the same path.
pub fn sort_by_path(v: Vec<Change>) -> (r: Vec<Change>)
    ensures
        stable_sorted_of(change_views(r@), change_views(v@)),
{
    let mut out: Vec<Change> = Vec::new();
    let mut keys: Vec<Vec<Vec<char>>> = Vec::new();
    let mut v = v;
    let ghost input = change_views(v@);
    let n = v.len();
    let mut rest: Vec<Change> = Vec::new();
    // Take the changes from the back so that each can be moved out.
    assert(change_views(rest@).reverse() =~= Seq::<ChangeView>::empty());
    assert(change_views(v@) + change_views(rest@).reverse() =~= input);
    while v.len() > 0
        invariant
            change_views(v@) + change_views(rest@).reverse() == input,
        decreases v.len(),
    {
        let ghost before_v = v@;
        let ghost before_rest = rest@;
        let c = v.pop().unwrap();
        rest.push(c);
        assert(change_views(rest@).reverse() =~= seq![c@] + change_views(before_rest).reverse());
        assert(change_views(before_v) =~= change_views(v@).push(c@));
        assert(change_views(v@) + change_views(rest@).reverse() =~= change_views(before_v)
            + change_views(before_rest).reverse());
    }
    assert(change_views(v@) =~= Seq::<ChangeView>::empty());
    assert(change_views(rest@).reverse() =~= input);
    let ghost mut done: int = 0;
    while rest.len() > 0
        invariant
            rest.len() + done == input.len(),
            0 <= done <= input.len(),
            change_views(rest@).reverse() == input.subrange(done, input.len() as int),
            keys.len() == out.len(),
            forall|j: int| 0 <= j < keys.len() ==> #[trigger] rows(keys@[j]@) == change_key(out@[j]@),
            sorted_by_path(change_views(out@)),
            forall|k: Seq<Seq<char>>|
                #[trigger] with_key(change_views(out@), k) == with_key(input.subrange(0, done), k),
        decreases rest.len(),
    {
        let ghost before_rest = rest@;
        let c = rest.pop().unwrap();
        proof {
            assert(change_views(before_rest) =~= change_views(rest@).push(c@));
            assert(change_views(before_rest).reverse()[0] == c@);
            assert(input[done] == c@);
            assert(change_views(rest@).reverse() =~= input.subrange(done + 1, input.len() as int))
                by {
                assert(change_views(rest@).reverse() =~= change_views(before_rest).reverse().drop_first());
            };
        }
        let kc = components_of(c.path().as_str());
        let mut p: usize = 0;
        while p < out.len() && !components_lt_exec(&kc, &keys[p])
            invariant
                p <= out.len(),
                keys.len() == out.len(),
                forall|j: int| 0 <= j < keys.len() ==> #[trigger] rows(keys@[j]@) == change_key(out@[j]@),
                rows(kc@) == change_key(c@),
                forall|j: int| 0 <= j < p ==> !components_lt(change_key(c@), change_key(out@[j]@)),
            decreases out.len() - p,
        {
            p = p + 1;
        }
        let ghost old_out = change_views(out@);
        let ghost old_keys = keys@;
        let ghost cv = c@;
        proof {
            assert(forall|j: int| 0 <= j < p ==> old_out[j] == out@[j]@);
            if p < out.len() {
                assert(old_out[p as int] == out@[p as int]@);
            }
            lemma_insert_sorted(old_out, p as int, cv);
        }
        out.insert(p, c);
        keys.insert(p, kc);
        proof {
            assert(change_views(out@) =~= old_out.insert(p as int, cv));
            assert forall|j: int| 0 <= j < keys.len() implies #[trigger] rows(keys@[j]@) == change_key(
                out@[j]@,
            ) by {
                if j < p {
                } else if j == p {
                } else {
                    assert(keys@[j] == old_keys[j - 1]);
                }
            };
            assert(input.subrange(0, done + 1) =~= input.subrange(0, done).push(cv));
            done = done + 1;
        }
    }
    proof {
        assert(input.subrange(0, done) =~= input);
    }
    out
}

/// Categorize all changes in the upper directory relative to the repository,
/// given what the walk found about each entry below the upper directory's
/// root: the changes of the entries, sorted by path, changes to the same path
/// in walk order.
pub fn categorize_changes(entries: &Vec<UpperEntry>) -> (r: Vec<Change>)
    ensures
        stable_sorted_of(change_views(r@), walk_changes(entries@)),
{
    let mut changes: Vec<Change> = Vec::new();
    let mut i: usize = 0;
    while i < entries.len()
        invariant
            i <= entries.len(),
            change_views(changes@) == walk_changes(entries@.subrange(0, i as int)),
        decreases entries.len() - i,
    {
        let e = &entries[i];
        let ghost before = change_views(changes@);
        if e.whiteout {
            changes.push(Change::Deleted(e.rel.clone()));
        } else if e.is_dir {
            if e.opaque && e.in_repo {
                changes.push(Change::Deleted(e.rel.clone()));
                changes.push(Change::Added(e.rel.clone()));
            }
        } else if e.in_repo {
            changes.push(Change::Modified(e.rel.clone()));
        } else {
            changes.push(Change::Added(e.rel.clone()));
        }
        proof {
            assert(entries@.subrange(0, i + 1).drop_last() =~= entries@.subrange(0, i as int));
            assert(change_views(changes@) =~= before + entry_changes(entries@[i as int]));
        }
        i = i + 1;
    }
    assert(entries@.subrange(0, entries.len() as int) =~= entries@);
    sort_by_path(changes)
}

// ---------------------------------------------------------------------------
// Whiteouts and opaque directories.
// ---------------------------------------------------------------------------

/// The major number of a Linux device number, as glibc packs it.
pub open spec fn dev_major_spec(dev: u64) -> u64 {
    ((dev >> 32u64) & 0xffff_f000u64) | ((dev >> 8u64) & 0x0000_0fffu64)
}

/// The minor number of a Linux device number, as glibc packs it.
pub open spec fn dev_minor_spec(dev: u64) -> u64 {
    ((dev >> 12u64) & 0xffff_ff00u64) | (dev & 0x0000_00ffu64)
}

/// `nix::sys::stat::major`: on Linux its body is exactly `dev_major_spec`.
#[verifier::external_body]
fn dev_major(dev: u64) -> (r: u64)
    ensures
        r == dev_major_spec(dev),
{
    nix::sys::stat::major(dev)
}

/// `nix::sys::stat::minor`: on Linux its body is exactly `dev_minor_spec`.
#[verifier::external_body]
fn dev_minor(dev: u64) -> (r: u64)
    ensures
        r == dev_minor_spec(dev),
{
    nix::sys::stat::minor(dev)
}

/// What `lstat` says of an entry (the entry itself, not what a link names).
pub struct LinkStat {
    pub is_char_device: bool,
    pub rdev: u64,
}

/// An overlayfs whiteout is a character device with device number 0:0, as
/// the entry's own metadata (`lstat`, links not followed) tells; an entry
/// whose metadata cannot be read is none.
pub open spec fn whiteout_spec(link: Option<LinkStat>) -> bool {
    match link {
        None => false,
        Some(l) => l.is_char_device && dev_major_spec(l.rdev) == 0 && dev_minor_spec(l.rdev) == 0,
    }
}

/// Check if an entry is an overlayfs whiteout (char device 0,0).
pub fn whiteout_from_stat(link: Option<LinkStat>) -> (r: bool)
    ensures
        r == whiteout_spec(link),
{
    match link {
        None => false,
        Some(l) => l.is_char_device && dev_major(l.rdev) == 0 && dev_minor(l.rdev) == 0,
    }
}

/// The device number is 0:0 exactly when it is 0: the major and minor
/// numbers together hold every bit of it.
pub proof fn law_null_device_is_zero(dev: u64)
    ensures
        (dev_major_spec(dev) == 0 && dev_minor_spec(dev) == 0) <==> dev == 0,
{
    assert((((dev >> 32u64) & 0xffff_f000u64) | ((dev >> 8u64) & 0x0000_0fffu64)) == 0 && (((dev
        >> 12u64) & 0xffff_ff00u64) | (dev & 0x0000_00ffu64)) == 0 <==> dev == 0) by (bit_vector);
}

/// An opaque directory carries the extended attribute
/// `trusted.overlay.opaque` with the value `y`: reading it returned one byte,
/// and that byte is `y`.
pub open spec fn opaque_spec(read_len: isize, first_byte: u8) -> bool {
    read_len == 1 && first_byte == 0x79u8
}

/// Check if a directory is opaque, from the result of reading its
/// `trusted.overlay.opaque` attribute into a two-byte buffer: the length read
/// (negative on failure) and the buffer's first byte.
pub fn opaque_from_xattr(read_len: isize, first_byte: u8) -> (r: bool)
    ensures
        r == opaque_spec(read_len, first_byte),
{
    read_len == 1 && first_byte == 0x79u8
}

// ---------------------------------------------------------------------------
// Laws of the categorization.
// ---------------------------------------------------------------------------

proof fn lemma_walk_member(es: Seq<UpperEntry>, c: ChangeView)
    requires
        walk_changes(es).contains(c),
    ensures
        exists|j: int| 0 <= j < es.len() && #[trigger] entry_changes(es[j]).contains(c),
    decreases es.len(),
{
    let rest = walk_changes(es.drop_last());
    let last = entry_changes(es.last());
    let i = choose|i: int| 0 <= i < walk_changes(es).len() && walk_changes(es)[i] == c;
    if i < rest.len() {
        assert(rest[i] == c);
        lemma_walk_member(es.drop_last(), c);
        let j = choose|j: int| 0 <= j < es.drop_last().len() && #[trigger] entry_changes(
            es.drop_last()[j],
        ).contains(c);
        assert(es[j] == es.drop_last()[j]);
    } else {
        assert(last[i - rest.len()] == c);
        assert(entry_changes(es[es.len() - 1]).contains(c));
    }
}

proof fn lemma_sorted_member(r: Seq<ChangeView>, s: Seq<ChangeView>, i: int)
    requires
        stable_sorted_of(r, s),
        0 <= i < r.len(),
    ensures
        s.contains(r[i]),
{
    let k = change_key(r[i]);
    let pred = |c: ChangeView| change_key(c) == k;
    r.lemma_filter_contains(pred, i);
    assert(with_key(r, k) == with_key(s, k));
    s.lemma_filter_contains_rev(pred, r[i]);
}

/// Every reported change is about a path that the upper directory holds:
/// files only in the repository are never reported.
pub proof fn law_changes_come_from_upper(entries: Seq<UpperEntry>, r: Seq<ChangeView>)
    requires
        stable_sorted_of(r, walk_changes(entries)),
    ensures
        forall|i: int|
            0 <= i < r.len() ==> exists|j: int|
                0 <= j < entries.len() && #[trigger] r[i].path() == entries[j].rel@,
{
    assert forall|i: int| 0 <= i < r.len() implies exists|j: int|
        0 <= j < entries.len() && #[trigger] r[i].path() == entries[j].rel@ by {
        lemma_sorted_member(r, walk_changes(entries), i);
        lemma_walk_member(entries, r[i]);
        let j = choose|j: int| 0 <= j < entries.len() && #[trigger] entry_changes(
            entries[j],
        ).contains(r[i]);
        assert(r[i].path() == entries[j].rel@);
    };
}

proof fn lemma_entry_key(e: UpperEntry, k: Seq<Seq<char>>)
    ensures
        with_key(entry_changes(e), k) == if components(e.rel@) == k {
            entry_changes(e)
        } else {
            Seq::<ChangeView>::empty()
        },
{
    reveal_with_fuel(Seq::filter, 3);
    let s = entry_changes(e);
    if s.len() == 2 {
        assert(s.drop_last().drop_last() =~= Seq::<ChangeView>::empty());
        assert(s.drop_last() =~= seq![s[0]]);
    } else if s.len() == 1 {
        assert(s.drop_last() =~= Seq::<ChangeView>::empty());
    }
    assert(with_key(s, k) =~= if components(e.rel@) == k {
        s
    } else {
        Seq::<ChangeView>::empty()
    });
}

proof fn lemma_walk_key(es: Seq<UpperEntry>, k: Seq<Seq<char>>, j: int)
    requires
        0 <= j < es.len(),
        components(es[j].rel@) == k,
        forall|i: int| 0 <= i < es.len() && i != j ==> components(#[trigger] es[i].rel@) != k,
    ensures
        with_key(walk_changes(es), k) == entry_changes(es[j]),
    decreases es.len(),
{
    let front = es.drop_last();
    lemma_entry_key(es.last(), k);
    if j == es.len() - 1 {
        lemma_walk_key_none(front, k);
        assert(with_key(walk_changes(es), k) =~= entry_changes(es[j]));
    } else {
        assert forall|i: int| 0 <= i < front.len() && i != j implies components(
            #[trigger] front[i].rel@,
        ) != k by {
            assert(front[i] == es[i]);
        };
        lemma_walk_key(front, k, j);
        assert(front[j] == es[j]);
        assert(with_key(walk_changes(es), k) =~= entry_changes(es[j]));
    }
}

proof fn lemma_walk_key_none(es: Seq<UpperEntry>, k: Seq<Seq<char>>)
    requires
        forall|i: int| 0 <= i < es.len() ==> components(#[trigger] es[i].rel@) != k,
    ensures
        with_key(walk_changes(es), k) == Seq::<ChangeView>::empty(),
    decreases es.len(),
{
    if es.len() == 0 {
        reveal(Seq::filter);
    } else {
        let front = es.drop_last();
        assert forall|i: int| 0 <= i < front.len() implies components(#[trigger] front[i].rel@)
            != k by {
            assert(front[i] == es[i]);
        };
        lemma_walk_key_none(front, k);
        lemma_entry_key(es.last(), k);
        assert(with_key(walk_changes(es), k) =~= Seq::<ChangeView>::empty());
    }
}

/// Every file and every whiteout of the upper directory is reported exactly
/// once (entries of a walk name distinct paths).
pub proof fn law_each_upper_file_reported_once(entries: Seq<UpperEntry>, r: Seq<ChangeView>, j: int)
    requires
        stable_sorted_of(r, walk_changes(entries)),
        0 <= j < entries.len(),
        !entries[j].is_dir || entries[j].whiteout,
        forall|i: int|
            0 <= i < entries.len() && i != j ==> components(#[trigger] entries[i].rel@)
                != components(entries[j].rel@),
    ensures
        with_key(r, components(entries[j].rel@)).len() == 1,
{
    let k = components(entries[j].rel@);
    lemma_walk_key(entries, k, j);
    assert(with_key(r, k) == with_key(walk_changes(entries), k));
}

/// When every file of the upper directory is already in the repository and
/// no entry is a whiteout or an opaque directory (as after applying an upper
/// directory of plain files), every change is a modification: nothing is
/// reported as added or deleted.
pub proof fn law_applied_upper_only_modifies(entries: Seq<UpperEntry>, r: Seq<ChangeView>)
    requires
        stable_sorted_of(r, walk_changes(entries)),
        forall|j: int|
            0 <= j < entries.len() ==> (!(#[trigger] entries[j]).is_dir ==> entries[j].in_repo)
                && !entries[j].whiteout && !(entries[j].is_dir && entries[j].opaque),
    ensures
        forall|i: int| 0 <= i < r.len() ==> #[trigger] r[i] is Modified,
{
    assert forall|i: int| 0 <= i < r.len() implies #[trigger] r[i] is Modified by {
        lemma_sorted_member(r, walk_changes(entries), i);
        lemma_walk_member(entries, r[i]);
        let j = choose|j: int| 0 <= j < entries.len() && #[trigger] entry_changes(
            entries[j],
        ).contains(r[i]);
        assert(entries[j].in_repo);
    };
}

// ---------------------------------------------------------------------------
// Applying the upper directory to the repository.
// ---------------------------------------------------------------------------

/// What the repository holds at an entry's path when the entry is applied.
#[derive(Clone, Copy, PartialEq, Eq, Debug, Structural)]
pub enum TargetState {
    Missing,
    Dir,
    NotDir,
}

/// A file-system operation on the repository.
#[derive(Debug, Clone, PartialEq, Eq)]
pub enum FsOp {
    /// Remove a directory and everything below it.
    RemoveDirAll(String),
    /// Remove a file.
    RemoveFile(String),
    /// Create a directory and its missing parents.
    CreateDirAll(String),
    /// Create the parent directories of the destination, then copy the file.
    CopyFile { from: String, to: String },
}

pub enum FsOpView {
    RemoveDirAll(Seq<char>),
    RemoveFile(Seq<char>),
    CreateDirAll(Seq<char>),
    CopyFile { from: Seq<char>, to: Seq<char> },
}

impl View for FsOp {
    type V = FsOpView;

    open spec fn view(&self) -> FsOpView {
        match self {
            FsOp::RemoveDirAll(p) => FsOpView::RemoveDirAll(p@),
            FsOp::RemoveFile(p) => FsOpView::RemoveFile(p@),
            FsOp::CreateDirAll(p) => FsOpView::CreateDirAll(p@),
            FsOp::CopyFile { from, to } => FsOpView::CopyFile { from: from@, to: to@ },
        }
    }
}

impl FsOpView {
    /// The repository path the operation changes.
    pub open spec fn target(self) -> Seq<char> {
        match self {
            FsOpView::RemoveDirAll(p) => p,
            FsOpView::RemoveFile(p) => p,
            FsOpView::CreateDirAll(p) => p,
            FsOpView::CopyFile { from, to } => to,
        }
    }
}

pub open spec fn op_views(v: Seq<FsOp>) -> Seq<FsOpView> {
    v.map_values(|o: FsOp| o@)
}

/// The operations that apply one entry of the upper directory to the
/// repository: a whiteout removes what the repository has there; a directory
/// is created, an opaque one replacing what was there; a file is copied over.
pub open spec fn apply_ops(
    upperdir: Seq<char>,
    repo: Seq<char>,
    e: UpperEntry,
    state: TargetState,
) -> Seq<FsOpView> {
    let target = join_spec(repo, e.rel@);
    if e.whiteout {
        match state {
            TargetState::Dir => seq![FsOpView::RemoveDirAll(target)],
            TargetState::NotDir => seq![FsOpView::RemoveFile(target)],
            TargetState::Missing => Seq::empty(),
        }
    } else if e.is_dir {
        if e.opaque && state != TargetState::Missing {
            seq![FsOpView::RemoveDirAll(target), FsOpView::CreateDirAll(target)]
        } else {
            seq![FsOpView::CreateDirAll(target)]
        }
    } else {
        seq![FsOpView::CopyFile { from: join_spec(upperdir, e.rel@), to: target }]
    }
}

/// Apply one entry of the overlay to the real repository: the operations to
/// perform, given what the repository holds at the entry's path right now.
pub fn apply_entry(upperdir: &str, repo: &str, e: &UpperEntry, state: TargetState) -> (r: Vec<FsOp>)
    ensures
        op_views(r@) == apply_ops(upperdir@, repo@, *e, state),
{
    let mut r: Vec<FsOp> = Vec::new();
    let target = join(repo, e.rel.as_str());
    if e.whiteout {
        match state {
            TargetState::Dir => r.push(FsOp::RemoveDirAll(target)),
            TargetState::NotDir => r.push(FsOp::RemoveFile(target)),
            TargetState::Missing => {},
        }
    } else if e.is_dir {
        if e.opaque && state != TargetState::Missing {
            let again = join(repo, e.rel.as_str());
            r.push(FsOp::RemoveDirAll(target));
            r.push(FsOp::CreateDirAll(again));
        } else {
            r.push(FsOp::CreateDirAll(target));
        }
    } else {
        let from = join(upperdir, e.rel.as_str());
        r.push(FsOp::CopyFile { from, to: target });
    }
    assert(op_views(r@) =~= apply_ops(upperdir@, repo@, *e, state));
    r
}

/// Applying an entry changes nothing in the repository but the entry's own
/// path: files the upper directory does not hold stay as they are.
pub proof fn law_apply_touches_only_its_path(
    upperdir: Seq<char>,
    repo: Seq<char>,
    e: UpperEntry,
    state: TargetState,
)
    ensures
        forall|i: int|
            0 <= i < apply_ops(upperdir, repo, e, state).len() ==> (#[trigger] apply_ops(
                upperdir,
                repo,
                e,
                state,
            )[i]).target() == join_spec(repo, e.rel@),
{
}

/// Applying a file of the upper directory is one copy of it onto the same
/// path in the repository, whatever the repository held there.
pub proof fn law_apply_copies_upper_files(
    upperdir: Seq<char>,
    repo: Seq<char>,
    e: UpperEntry,
    state: TargetState,
)
    requires
        !e.whiteout,
        !e.is_dir,
    ensures
        apply_ops(upperdir, repo, e, state) == seq![
            FsOpView::CopyFile { from: join_spec(upperdir, e.rel@), to: join_spec(repo, e.rel@) },
        ],
{
}

// ---------------------------------------------------------------------------
// What applying a whole upper directory does to the repository's files.
// ---------------------------------------------------------------------------

/// What an operation does to the repository's files, seen as a map from each
/// file's path to its contents; `upper` gives the contents of the upper
/// directory's files. Directories are not in the map: creating one leaves
/// the files as they are, removing one removes every file at or below it.
pub open spec fn op_effect(
    files: Map<Seq<char>, Seq<u8>>,
    upper: Map<Seq<char>, Seq<u8>>,
    op: FsOpView,
) -> Map<Seq<char>, Seq<u8>> {
    match op {
        FsOpView::RemoveDirAll(p) => files.restrict(
            files.dom().filter(|k: Seq<char>| !path_starts_with(k, p)),
        ),
        FsOpView::RemoveFile(p) => files.remove(p),
        FsOpView::CreateDirAll(_) => files,
        FsOpView::CopyFile { from, to } => files.insert(to, upper[from]),
    }
}

/// The files after the operations `ops`, carried out in order.
pub open spec fn run_ops(
    files: Map<Seq<char>, Seq<u8>>,
    upper: Map<Seq<char>, Seq<u8>>,
    ops: Seq<FsOpView>,
) -> Map<Seq<char>, Seq<u8>>
    decreases ops.len(),
{
    if ops.len() == 0 {
        files
    } else {
        op_effect(run_ops(files, upper, ops.drop_last()), upper, ops.last())
    }
}

/// The operations that apply the walk `entries` of the upper directory,
/// `states[i]` being what the repository held at the path of `entries[i]`
/// when the walk came to it.
pub open spec fn walk_ops(
    upperdir: Seq<char>,
    repo: Seq<char>,
    entries: Seq<UpperEntry>,
    states: Seq<TargetState>,
) -> Seq<FsOpView>
    decreases entries.len(),
{
    if entries.len() == 0 || states.len() == 0 {
        Seq::empty()
    } else {
        walk_ops(upperdir, repo, entries.drop_last(), states.drop_last()) + apply_ops(
            upperdir,
            repo,
            entries.last(),
            states.last(),
        )
    }
}

/// The repository's files, overwritten by the files of the upper directory.
pub open spec fn merged(
    files: Map<Seq<char>, Seq<u8>>,
    upper: Map<Seq<char>, Seq<u8>>,
    upperdir: Seq<char>,
    repo: Seq<char>,
    entries: Seq<UpperEntry>,
) -> Map<Seq<char>, Seq<u8>>
    decreases entries.len(),
{
    if entries.len() == 0 {
        files
    } else {
        let rest = merged(files, upper, upperdir, repo, entries.drop_last());
        let e = entries.last();
        if !e.whiteout && !e.is_dir {
            rest.insert(join_spec(repo, e.rel@), upper[join_spec(upperdir, e.rel@)])
        } else {
            rest
        }
    }
}

/// The upper directory holds no whiteout and no opaque directory: it only
/// adds and overwrites.
pub open spec fn only_adds(entries: Seq<UpperEntry>) -> bool {
    forall|j: int|
        0 <= j < entries.len() ==> !(#[trigger] entries[j]).whiteout && !(entries[j].is_dir
            && entries[j].opaque)
}

proof fn lemma_run_ops_concat(
    files: Map<Seq<char>, Seq<u8>>,
    upper: Map<Seq<char>, Seq<u8>>,
    a: Seq<FsOpView>,
    b: Seq<FsOpView>,
)
    ensures
        run_ops(files, upper, a + b) == run_ops(run_ops(files, upper, a), upper, b),
    decreases b.len(),
{
    if b.len() == 0 {
        assert(a + b =~= a);
    } else {
        assert((a + b).drop_last() =~= a + b.drop_last());
        assert((a + b).last() == b.last());
        lemma_run_ops_concat(files, upper, a, b.drop_last());
    }
}

/// Applying an upper directory that only adds and overwrites leaves the
/// repository's files overwritten by the upper directory's files, whatever
/// the repository held at each path.
pub proof fn law_apply_merges(
    files: Map<Seq<char>, Seq<u8>>,
    upper: Map<Seq<char>, Seq<u8>>,
    upperdir: Seq<char>,
    repo: Seq<char>,
    entries: Seq<UpperEntry>,
    states: Seq<TargetState>,
)
    requires
        entries.len() == states.len(),
        only_adds(entries),
    ensures
        run_ops(files, upper, walk_ops(upperdir, repo, entries, states)) == merged(
            files,
            upper,
            upperdir,
            repo,
            entries,
        ),
    decreases entries.len(),
{
    if entries.len() > 0 {
        let pre = entries.drop_last();
        assert(only_adds(pre)) by {
            assert forall|j: int| 0 <= j < pre.len() implies !(#[trigger] pre[j]).whiteout && !(
            pre[j].is_dir && pre[j].opaque) by {
                assert(pre[j] == entries[j]);
            }
        }
        law_apply_merges(files, upper, upperdir, repo, pre, states.drop_last());
        let e = entries.last();
        assert(!e.whiteout && !(e.is_dir && e.opaque)) by {
            assert(e == entries[entries.len() - 1]);
        }
        let ops = apply_ops(upperdir, repo, e, states.last());
        lemma_run_ops_concat(files, upper, walk_ops(upperdir, repo, pre, states.drop_last()), ops);
        let before = run_ops(files, upper, walk_ops(upperdir, repo, pre, states.drop_last()));
        assert(ops.len() == 1);
        assert(ops.drop_last() =~= Seq::<FsOpView>::empty());
        assert(run_ops(before, upper, ops.drop_last()) == before);
        assert(run_ops(before, upper, ops) == op_effect(before, upper, ops[0]));
    }
}

proof fn lemma_merged_untouched(
    files: Map<Seq<char>, Seq<u8>>,
    upper: Map<Seq<char>, Seq<u8>>,
    upperdir: Seq<char>,
    repo: Seq<char>,
    entries: Seq<UpperEntry>,
    k: Seq<char>,
)
    requires
        forall|j: int| 0 <= j < entries.len() ==> join_spec(repo, (#[trigger] entries[j]).rel@) != k,
    ensures
        merged(files, upper, upperdir, repo, entries).dom().contains(k) == files.dom().contains(k),
        files.dom().contains(k) ==> merged(files, upper, upperdir, repo, entries)[k] == files[k],
    decreases entries.len(),
{
    if entries.len() > 0 {
        let pre = entries.drop_last();
        assert forall|j: int| 0 <= j < pre.len() implies join_spec(repo, (#[trigger] pre[j]).rel@)
            != k by {
            assert(pre[j] == entries[j]);
        }
        lemma_merged_untouched(files, upper, upperdir, repo, pre, k);
        assert(join_spec(repo, entries[entries.len() - 1].rel@) != k);
    }
}

/// Applying an upper directory that only adds and overwrites leaves every
/// file of the repository that the upper directory does not hold as it was.
pub proof fn law_apply_preserves_untouched(
    files: Map<Seq<char>, Seq<u8>>,
    upper: Map<Seq<char>, Seq<u8>>,
    upperdir: Seq<char>,
    repo: Seq<char>,
    entries: Seq<UpperEntry>,
    states: Seq<TargetState>,
    k: Seq<char>,
)
    requires
        entries.len() == states.len(),
        only_adds(entries),
        forall|j: int| 0 <= j < entries.len() ==> join_spec(repo, (#[trigger] entries[j]).rel@) != k,
    ensures
        run_ops(files, upper, walk_ops(upperdir, repo, entries, states)).dom().contains(k)
            == files.dom().contains(k),
        files.dom().contains(k) ==> run_ops(files, upper, walk_ops(upperdir, repo, entries, states))[k]
            == files[k],
{
    law_apply_merges(files, upper, upperdir, repo, entries, states);
    lemma_merged_untouched(files, upper, upperdir, repo, entries, k);
}

proof fn lemma_merged_written(
    files: Map<Seq<char>, Seq<u8>>,
    upper: Map<Seq<char>, Seq<u8>>,
    upperdir: Seq<char>,
    repo: Seq<char>,
    entries: Seq<UpperEntry>,
    j: int,
)
    requires
        0 <= j < entries.len(),
        !entries[j].whiteout,
        !entries[j].is_dir,
        forall|i: int|
            j < i < entries.len() ==> join_spec(repo, (#[trigger] entries[i]).rel@) != join_spec(
                repo,
                entries[j].rel@,
            ),
    ensures
        merged(files, upper, upperdir, repo, entries).dom().contains(
            join_spec(repo, entries[j].rel@),
        ),
        merged(files, upper, upperdir, repo, entries)[join_spec(repo, entries[j].rel@)] == upper[join_spec(
            upperdir,
            entries[j].rel@,
        )],
    decreases entries.len(),
{
    let pre = entries.drop_last();
    if j < entries.len() - 1 {
        assert(pre[j] == entries[j]);
        assert forall|i: int| j < i < pre.len() implies join_spec(repo, (#[trigger] pre[i]).rel@)
            != join_spec(repo, pre[j].rel@) by {
            assert(pre[i] == entries[i]);
        }
        lemma_merged_written(files, upper, upperdir, repo, pre, j);
        assert(join_spec(repo, entries[entries.len() - 1].rel@) != join_spec(repo, entries[j].rel@));
    }
}

/// After applying an upper directory that only adds and overwrites, each of
/// its files is in the repository with the upper directory's contents (the
/// last entry for a path wins).
pub proof fn law_apply_writes_upper_files(
    files: Map<Seq<char>, Seq<u8>>,
    upper: Map<Seq<char>, Seq<u8>>,
    upperdir: Seq<char>,
    repo: Seq<char>,
    entries: Seq<UpperEntry>,
    states: Seq<TargetState>,
    j: int,
)
    requires
        entries.len() == states.len(),
        only_adds(entries),
        0 <= j < entries.len(),
        !entries[j].is_dir,
        forall|i: int|
            j < i < entries.len() ==> join_spec(repo, (#[trigger] entries[i]).rel@) != join_spec(
                repo,
                entries[j].rel@,
            ),
    ensures
        run_ops(files, upper, walk_ops(upperdir, repo, entries, states)).dom().contains(
            join_spec(repo, entries[j].rel@),
        ),
        run_ops(files, upper, walk_ops(upperdir, repo, entries, states))[join_spec(
            repo,
            entries[j].rel@,
        )] == upper[join_spec(upperdir, entries[j].rel@)],
{
    assert(!entries[j].whiteout);
    law_apply_merges(files, upper, upperdir, repo, entries, states);
    lemma_merged_written(files, upper, upperdir, repo, entries, j);
}

proof fn lemma_merged_has_files(
    files: Map<Seq<char>, Seq<u8>>,
    upper: Map<Seq<char>, Seq<u8>>,
    upperdir: Seq<char>,
    repo: Seq<char>,
    entries: Seq<UpperEntry>,
    j: int,
)
    requires
        0 <= j < entries.len(),
        !entries[j].whiteout,
        !entries[j].is_dir,
    ensures
        merged(files, upper, upperdir, repo, entries).dom().contains(
            join_spec(repo, entries[j].rel@),
        ),
    decreases entries.len(),
{
    if j < entries.len() - 1 {
        assert(entries.drop_last()[j] == entries[j]);
        lemma_merged_has_files(files, upper, upperdir, repo, entries.drop_last(), j);
    }
}

/// After applying an upper directory that only adds and overwrites, reading
/// it again against the repository reports no added and no deleted path:
/// every change left is a modification. `again` is that second reading: the
/// same entries, each file now found in the repository exactly when the
/// repository holds it.
pub proof fn law_apply_then_only_modified(
    files: Map<Seq<char>, Seq<u8>>,
    upper: Map<Seq<char>, Seq<u8>>,
    upperdir: Seq<char>,
    repo: Seq<char>,
    entries: Seq<UpperEntry>,
    states: Seq<TargetState>,
    again: Seq<UpperEntry>,
    r: Seq<ChangeView>,
)
    requires
        entries.len() == states.len(),
        only_adds(entries),
        again.len() == entries.len(),
        forall|j: int|
            0 <= j < entries.len() ==> {
                let e = #[trigger] again[j];
                &&& e.rel == entries[j].rel
                &&& e.whiteout == entries[j].whiteout
                &&& e.is_dir == entries[j].is_dir
                &&& e.opaque == entries[j].opaque
                &&& !e.is_dir ==> e.in_repo == run_ops(
                    files,
                    upper,
                    walk_ops(upperdir, repo, entries, states),
                ).dom().contains(join_spec(repo, e.rel@))
            },
        stable_sorted_of(r, walk_changes(again)),
    ensures
        forall|i: int| 0 <= i < r.len() ==> #[trigger] r[i] is Modified,
{
    law_apply_merges(files, upper, upperdir, repo, entries, states);
    assert forall|j: int| 0 <= j < again.len() implies (!(#[trigger] again[j]).is_dir
        ==> again[j].in_repo) && !again[j].whiteout && !(again[j].is_dir && again[j].opaque) by {
        assert(!entries[j].whiteout && !(entries[j].is_dir && entries[j].opaque));
        if !again[j].is_dir {
            lemma_merged_has_files(files, upper, upperdir, repo, entries, j);
        }
    }
    law_applied_upper_only_modifies(again, r);
}

} // verus!

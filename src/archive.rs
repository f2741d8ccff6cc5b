//! The layout of a bundle archive: entries deduplicated by name, in sorted
//! order, each preceded by the directories that hold it.
use vstd::prelude::*;

use crate::generate::BuildError;
use crate::ldcache::entries;
use crate::FileEntry;

verus! {

/// The order of archive names: lexicographic by character, which is the order
/// of their UTF-8 bytes.
pub open spec fn name_lt(a: Seq<char>, b: Seq<char>) -> bool
    decreases a.len(),
{
    if a.len() == 0 {
        b.len() > 0
    } else if b.len() == 0 {
        false
    } else if a[0] != b[0] {
        a[0] < b[0]
    } else {
        name_lt(a.drop_first(), b.drop_first())
    }
}

pub proof fn lemma_name_lt_total(a: Seq<char>, b: Seq<char>)
    ensures
        !(name_lt(a, b) && name_lt(b, a)),
        a != b ==> name_lt(a, b) || name_lt(b, a),
        !name_lt(a, a),
    decreases a.len(),
{
    if a.len() > 0 {
        lemma_name_lt_total(a.drop_first(), a.drop_first());
    }
    if a.len() == 0 && b.len() == 0 {
        assert(a =~= b);
    }
    if a.len() > 0 && b.len() > 0 {
        lemma_name_lt_total(a.drop_first(), b.drop_first());
        if a != b && a[0] == b[0] {
            assert(a =~= seq![a[0]] + a.drop_first());
            assert(b =~= seq![b[0]] + b.drop_first());
        }
    }
}

/// Compares two archive names.
pub fn less_than(a: &str, b: &str) -> (r: bool)
    ensures
        r == name_lt(a@, b@),
{
    let n = a.unicode_len();
    let m = b.unicode_len();
    let mut i: usize = 0;
    assert(a@.skip(0) =~= a@ && b@.skip(0) =~= b@);
    while i < n && i < m
        invariant
            i <= n == a@.len(),
            i <= m == b@.len(),
            name_lt(a@, b@) == name_lt(a@.skip(i as int), b@.skip(i as int)),
        decreases n - i,
    {
        let ca = a.get_char(i);
        let cb = b.get_char(i);
        assert(a@.skip(i as int)[0] == ca && b@.skip(i as int)[0] == cb);
        if ca != cb {
            return ca < cb;
        }
        assert(a@.skip(i as int).drop_first() =~= a@.skip(i + 1));
        assert(b@.skip(i as int).drop_first() =~= b@.skip(i + 1));
        i = i + 1;
    }
    i < m && i == n
}

/// Whether two entries give one name to different files.
pub open spec fn has_conflict(f: Seq<(Seq<char>, Seq<char>)>) -> bool {
    exists|i: int, j: int|
        0 <= i < f.len() && 0 <= j < f.len() && #[trigger] f[i].1 == #[trigger] f[j].1 && f[i].0 != f[j].0
}

/// The entry at `j` is the first, in input order, that gives a name already
/// given to a different file.
pub open spec fn first_conflict(f: Seq<(Seq<char>, Seq<char>)>, j: int) -> bool {
    0 <= j < f.len() && !has_conflict(f.subrange(0, j)) && has_conflict(f.subrange(0, j + 1))
}

/// The directories that hold the archive path `n`: each non-empty prefix
/// that ends before a `/`.
pub open spec fn holds_dir(n: Seq<char>, d: Seq<char>) -> bool {
    exists|j: int| 0 < j < n.len() && n[j] == '/' && d == #[trigger] n.subrange(0, j)
}

/// One step of writing an archive: a directory (no location), or a file with
/// the location of its bytes.
pub struct ArchiveOp {
    pub name: String,
    pub location: Option<String>,
}

impl View for ArchiveOp {
    type V = (Seq<char>, Option<Seq<char>>);

    open spec fn view(&self) -> (Seq<char>, Option<Seq<char>>) {
        (self.name@, match self.location {
            Some(l) => Some(l@),
            None => None,
        })
    }
}

pub open spec fn ops_view(v: Seq<ArchiveOp>) -> Seq<(Seq<char>, Option<Seq<char>>)> {
    v.map_values(|o: ArchiveOp| o@)
}

/// Names sorted strictly, so each at most once.
pub open spec fn strictly_sorted(s: Seq<(Seq<char>, Seq<char>)>) -> bool {
    &&& forall|m: int| 0 < m < s.len() ==> name_lt(#[trigger] s[m - 1].1, s[m].1)
    &&& forall|a: int, b: int| 0 <= a < s.len() && 0 <= b < s.len() && a != b ==> #[trigger] s[a].1 != #[trigger] s[b].1
}

/// `s` holds exactly the entries of `f`.
pub open spec fn same_entries(s: Seq<(Seq<char>, Seq<char>)>, f: Seq<(Seq<char>, Seq<char>)>) -> bool {
    &&& forall|k: int| 0 <= k < f.len() ==> s.contains(#[trigger] f[k])
    &&& forall|m: int| 0 <= m < s.len() ==> f.contains(#[trigger] s[m])
}

/// The index of the entry named `name`, or the length where there is none.
fn find_name(s: &Vec<FileEntry>, name: &String) -> (r: usize)
    ensures
        r <= s@.len(),
        r < s@.len() ==> s@[r as int].name@ == name@,
        r == s@.len() ==> forall|q: int| 0 <= q < s@.len() ==> (#[trigger] s@[q]).name@ != name@,
{
    let mut m: usize = 0;
    while m < s.len()
        invariant
            m <= s@.len(),
            forall|q: int| 0 <= q < m ==> (#[trigger] s@[q]).name@ != name@,
        decreases s@.len() - m,
    {
        if s[m].name == *name {
            return m;
        }
        m = m + 1;
    }
    m
}

/// The first index whose name is above `name`, or the length.
fn insert_pos(s: &Vec<FileEntry>, name: &String) -> (r: usize)
    ensures
        r <= s@.len(),
        r < s@.len() ==> name_lt(name@, s@[r as int].name@),
        forall|q: int| 0 <= q < r ==> !name_lt(name@, (#[trigger] s@[q]).name@),
{
    let mut p: usize = 0;
    while p < s.len()
        invariant
            p <= s@.len(),
            forall|q: int| 0 <= q < p ==> !name_lt(name@, (#[trigger] s@[q]).name@),
        decreases s@.len() - p,
    {
        if less_than(name.as_str(), s[p].name.as_str()) {
            return p;
        }
        p = p + 1;
    }
    p
}

/// Collapses the entries that repeat a name with the same file, and sorts
/// them by name; fails on a name given to two different files.
pub fn sorted_unique(files: &Vec<FileEntry>) -> (r: Result<Vec<FileEntry>, BuildError>)
    ensures
        r.is_err() == has_conflict(entries(files@)),
        match r {
            Ok(s) => strictly_sorted(entries(s@)) && same_entries(entries(s@), entries(files@)),
            Err(BuildError::DuplicateZipFileEntry(n)) => exists|j: int|
                first_conflict(entries(files@), j) && #[trigger] files@[j].name@ == n@,
            Err(_) => false,
        },
{
    let ghost f = entries(files@);
    let mut s: Vec<FileEntry> = Vec::new();
    let mut i: usize = 0;
    while i < files.len()
        invariant
            i <= files@.len(),
            f == entries(files@),
            strictly_sorted(entries(s@)),
            same_entries(entries(s@), f.subrange(0, i as int)),
            !has_conflict(f.subrange(0, i as int)),
        decreases files@.len() - i,
    {
        let ghost sv = entries(s@);
        let x = &files[i];
        assert(f[i as int] == x@);
        assert(f.subrange(0, i + 1) =~= f.subrange(0, i as int).push(x@));
        // look for the name among those kept
        let m = find_name(&s, &x.name);
        if m < s.len() {
            assert(sv[m as int].1 == x.name@);
            if s[m].location != x.location {
                let ghost e = sv[m as int];
                assert(f.subrange(0, i as int).contains(e));
                let ghost k = choose|k: int| 0 <= k < i && f.subrange(0, i as int)[k] == e;
                assert(f[k] == e);
                assert(f[k].1 == f[i as int].1 && f[k].0 != f[i as int].0);
                assert(f.subrange(0, i + 1)[k] == f[k] && f.subrange(0, i + 1)[i as int] == f[i as int]);
                assert(first_conflict(f, i as int));
                return Err(BuildError::DuplicateZipFileEntry(x.name.clone()));
            }
            assert(sv[m as int] == x@);
            assert forall|a: int, b: int|
                0 <= a < f.subrange(0, i + 1).len() && 0 <= b < f.subrange(0, i + 1).len()
                    && #[trigger] f.subrange(0, i + 1)[a].1 == #[trigger] f.subrange(0, i + 1)[b].1
                implies f.subrange(0, i + 1)[a].0 == f.subrange(0, i + 1)[b].0 by {
                let g = f.subrange(0, i + 1);
                if a < i && b == i {
                    assert(sv.contains(g[a]));
                } else if b < i && a == i {
                    assert(sv.contains(g[b]));
                } else if a < i && b < i {
                    assert(f.subrange(0, i as int)[a] == g[a]);
                    assert(f.subrange(0, i as int)[b] == g[b]);
                }
            }
            assert forall|k: int| 0 <= k < i + 1 implies sv.contains(#[trigger] f.subrange(0, i + 1)[k]) by {
                if k < i {
                    assert(f.subrange(0, i as int)[k] == f.subrange(0, i + 1)[k]);
                } else {
                    assert(sv[m as int] == f.subrange(0, i + 1)[k]);
                }
            }
            assert forall|q: int| 0 <= q < sv.len() implies f.subrange(0, i + 1).contains(#[trigger] sv[q]) by {
                assert(f.subrange(0, i as int).contains(sv[q]));
                let k = choose|k: int| 0 <= k < i && f.subrange(0, i as int)[k] == sv[q];
                assert(f.subrange(0, i + 1)[k] == sv[q]);
            }
        } else {
            // the position: the first kept name above the new one
            let p = insert_pos(&s, &x.name);
            proof {
                if p > 0 {
                    assert(!name_lt(x.name@, s@[p - 1].name@));
                    lemma_name_lt_total(x.name@, sv[p - 1].1);
                    assert(sv[p - 1].1 != x.name@);
                }
                if p < s@.len() {
                    assert(name_lt(x.name@, s@[p as int].name@));
                    assert(name_lt(x.name@, sv[p as int].1));
                }
            }
            s.insert(p, x.clone());
            let ghost nv = entries(s@);
            assert(nv =~= sv.insert(p as int, x@));
            assert forall|q: int| 0 < q < nv.len() implies name_lt(#[trigger] nv[q - 1].1, nv[q].1) by {
                if q < p {
                    assert(nv[q - 1] == sv[q - 1] && nv[q] == sv[q]);
                    assert(name_lt(sv[q - 1].1, sv[q].1));
                } else if q == p {
                    assert(nv[q - 1] == sv[q - 1] && nv[q].1 == x.name@);
                } else if q == p + 1 {
                    assert(nv[q - 1].1 == x.name@ && nv[q] == sv[p as int]);
                } else {
                    assert(nv[q - 1] == sv[q - 2] && nv[q] == sv[q - 1]);
                    assert(name_lt(sv[(q - 1) - 1].1, sv[q - 1].1));
                }
            }
            assert forall|k: int| 0 <= k < i + 1 implies nv.contains(#[trigger] f.subrange(0, i + 1)[k]) by {
                if k < i {
                    assert(f.subrange(0, i as int)[k] == f.subrange(0, i + 1)[k]);
                    assert(sv.contains(f.subrange(0, i as int)[k]));
                    let q = choose|q: int| 0 <= q < sv.len() && sv[q] == f.subrange(0, i as int)[k];
                    if q < p {
                        assert(nv[q] == sv[q]);
                    } else {
                        assert(nv[q + 1] == sv[q]);
                    }
                } else {
                    assert(nv[p as int] == f.subrange(0, i + 1)[k]);
                }
            }
            assert forall|q: int| 0 <= q < nv.len() implies f.subrange(0, i + 1).contains(#[trigger] nv[q]) by {
                if q == p {
                    assert(f.subrange(0, i + 1)[i as int] == nv[q]);
                } else {
                    let q0 = if q < p { q } else { q - 1 };
                    assert(nv[q] == sv[q0]);
                    assert(f.subrange(0, i as int).contains(sv[q0]));
                    let k = choose|k: int| 0 <= k < i && f.subrange(0, i as int)[k] == sv[q0];
                    assert(f.subrange(0, i + 1)[k] == sv[q0]);
                }
            }
            assert forall|a: int, b: int|
                0 <= a < f.subrange(0, i + 1).len() && 0 <= b < f.subrange(0, i + 1).len()
                    && #[trigger] f.subrange(0, i + 1)[a].1 == #[trigger] f.subrange(0, i + 1)[b].1
                implies f.subrange(0, i + 1)[a].0 == f.subrange(0, i + 1)[b].0 by {
                let g = f.subrange(0, i + 1);
                if a < i && b == i {
                    assert(sv.contains(g[a]));
                    let q = choose|q: int| 0 <= q < sv.len() && sv[q] == g[a];
                } else if b < i && a == i {
                    assert(sv.contains(g[b]));
                    let q = choose|q: int| 0 <= q < sv.len() && sv[q] == g[b];
                } else if a < i && b < i {
                    assert(f.subrange(0, i as int)[a] == g[a]);
                    assert(f.subrange(0, i as int)[b] == g[b]);
                }
            }
            assert forall|a: int, b: int|
                0 <= a < nv.len() && 0 <= b < nv.len() && a != b implies #[trigger] nv[a].1 != #[trigger] nv[b].1 by {
                let a0 = if a < p { a } else { a - 1 };
                let b0 = if b < p { b } else { b - 1 };
                if a != p && b != p {
                    assert(nv[a] == sv[a0] && nv[b] == sv[b0]);
                } else if a == p {
                    assert(nv[b] == sv[b0]);
                } else {
                    assert(nv[a] == sv[a0]);
                }
            }
        }
        i = i + 1;
    }
    assert(f.subrange(0, files@.len() as int) =~= f);
    Ok(s)
}

/// The files that the steps write, in order, as (location, name).
pub open spec fn file_ops(o: Seq<(Seq<char>, Option<Seq<char>>)>) -> Seq<(Seq<char>, Seq<char>)>
    decreases o.len(),
{
    if o.len() == 0 {
        Seq::empty()
    } else {
        let r = file_ops(o.drop_last());
        match o.last().1 {
            Some(l) => r.push((l, o.last().0)),
            None => r,
        }
    }
}

/// Every file step comes after a directory step for each directory that
/// holds it.
pub open spec fn dirs_covered(o: Seq<(Seq<char>, Option<Seq<char>>)>) -> bool {
    forall|k: int, d: Seq<char>|
        0 <= k < o.len() && (#[trigger] o[k]).1.is_some() && #[trigger] holds_dir(o[k].0, d) ==> exists|k2: int|
            0 <= k2 < k && #[trigger] o[k2] == (d, None::<Seq<char>>)
}

/// Whether `x` starts with `p`.
pub open spec fn has_prefix(x: Seq<char>, p: Seq<char>) -> bool {
    p.len() <= x.len() && x.subrange(0, p.len() as int) == p
}

/// No directory is written twice.
pub open spec fn dirs_unique(o: Seq<(Seq<char>, Option<Seq<char>>)>) -> bool {
    forall|k1: int, k2: int|
        0 <= k1 < o.len() && 0 <= k2 < o.len() && k1 != k2 && (#[trigger] o[k1]).1.is_none()
            && (#[trigger] o[k2]).1.is_none() ==> o[k1].0 != o[k2].0
}

pub proof fn lemma_name_lt_trans(a: Seq<char>, b: Seq<char>, c: Seq<char>)
    requires
        name_lt(a, b),
        name_lt(b, c),
    ensures
        name_lt(a, c),
    decreases a.len(),
{
    if a.len() > 0 && b.len() > 0 && c.len() > 0 && a[0] == b[0] && b[0] == c[0] {
        lemma_name_lt_trans(a.drop_first(), b.drop_first(), c.drop_first());
    }
}

/// A name that sorts between two names with a common prefix has that
/// prefix too.
pub proof fn lemma_between_prefix(a: Seq<char>, b: Seq<char>, c: Seq<char>, p: Seq<char>)
    requires
        has_prefix(a, p),
        has_prefix(c, p),
        name_lt(a, b),
        name_lt(b, c),
    ensures
        has_prefix(b, p),
    decreases p.len(),
{
    if p.len() > 0 {
        assert(a[0] == a.subrange(0, p.len() as int)[0]);
        assert(c[0] == c.subrange(0, p.len() as int)[0]);
        assert(a[0] == p[0] && c[0] == p[0]);
        assert(b.len() > 0);
        if b[0] == a[0] {
            assert(a.drop_first().subrange(0, p.len() - 1) =~= a.subrange(0, p.len() as int).drop_first());
            assert(c.drop_first().subrange(0, p.len() - 1) =~= c.subrange(0, p.len() as int).drop_first());
            lemma_between_prefix(a.drop_first(), b.drop_first(), c.drop_first(), p.drop_first());
            assert(b.subrange(0, p.len() as int) =~= seq![b[0]] + b.drop_first().subrange(0, p.len() - 1));
            assert(p =~= seq![p[0]] + p.drop_first());
        }
    } else {
        assert(b.subrange(0, 0) =~= p);
    }
}

pub proof fn lemma_sorted_lt(s: Seq<(Seq<char>, Seq<char>)>, a: int, b: int)
    requires
        strictly_sorted(s),
        0 <= a < b < s.len(),
    ensures
        name_lt(s[a].1, s[b].1),
    decreases b - a,
{
    if b - a > 1 {
        lemma_sorted_lt(s, a, b - 1);
        assert(name_lt(s[b - 1].1, s[b].1));
        lemma_name_lt_trans(s[a].1, s[b - 1].1, s[b].1);
    } else {
        assert(name_lt(s[b - 1].1, s[b].1));
    }
}

pub proof fn lemma_dir_prefix(x: Seq<char>, d: Seq<char>)
    requires
        holds_dir(x, d),
    ensures
        has_prefix(x, d.push('/')),
        d.len() > 0,
        x.len() > d.len(),
        x[d.len() as int] == '/',
        x.subrange(0, d.len() as int) == d,
{
    let j = choose|j: int| 0 < j < x.len() && x[j] == '/' && d == #[trigger] x.subrange(0, j);
    assert(x.subrange(0, j + 1) =~= d.push('/'));
}

/// Every directory step names a directory that holds a file written after it.
pub open spec fn dirs_needed(o: Seq<(Seq<char>, Option<Seq<char>>)>) -> bool {
    forall|k: int|
        0 <= k < o.len() && (#[trigger] o[k]).1.is_none() ==> exists|k2: int|
            k < k2 < o.len() && o[k2].1.is_some() && #[trigger] holds_dir(o[k2].0, o[k].0)
}

/// Whether the name before (`prev`) has the same directory that ends
/// before position `j` of `n`.
pub open spec fn shares_dir(prev: Option<Seq<char>>, n: Seq<char>, j: int) -> bool {
    match prev {
        Some(p) => p.len() > j && p[j] == '/' && p.subrange(0, j) == n.subrange(0, j),
        None => false,
    }
}

/// The directory steps for `n` among its first `j` characters: one for each
/// `/` past the first character, unless the name before has the same
/// directory.
pub open spec fn dir_steps(prev: Option<Seq<char>>, n: Seq<char>, j: nat) -> Seq<(Seq<char>, Option<Seq<char>>)>
    decreases j,
{
    if j <= 1 {
        Seq::empty()
    } else {
        let r = dir_steps(prev, n, (j - 1) as nat);
        let k = j - 1;
        if k < n.len() && n[k] == '/' && !shares_dir(prev, n, k) {
            r.push((n.subrange(0, k), None))
        } else {
            r
        }
    }
}

/// The steps that write the sorted entries `s`: before each file, the
/// directories that hold it and not the file before.
pub open spec fn layout(s: Seq<(Seq<char>, Seq<char>)>) -> Seq<(Seq<char>, Option<Seq<char>>)>
    decreases s.len(),
{
    if s.len() == 0 {
        Seq::empty()
    } else {
        let prev = if s.len() > 1 {
            Some(s[s.len() - 2].1)
        } else {
            None
        };
        layout(s.drop_last()) + dir_steps(prev, s.last().1, s.last().1.len()) + seq![(s.last().1, Some(s.last().0))]
    }
}

/// Two sequences sorted strictly by name that hold the same entries are the
/// same sequence.
pub proof fn lemma_sorted_same_entries(a: Seq<(Seq<char>, Seq<char>)>, b: Seq<(Seq<char>, Seq<char>)>)
    requires
        strictly_sorted(a),
        strictly_sorted(b),
        forall|x: (Seq<char>, Seq<char>)| a.contains(x) <==> b.contains(x),
    ensures
        a == b,
    decreases a.len(),
{
    if a.len() == 0 {
        if b.len() > 0 {
            assert(b.contains(b[0]));
        }
        assert(b =~= a);
    } else {
        assert(a.contains(a[0]));
        let q = choose|q: int| 0 <= q < b.len() && b[q] == a[0];
        assert(b.contains(b[0]));
        let p = choose|p: int| 0 <= p < a.len() && a[p] == b[0];
        if q > 0 {
            lemma_sorted_lt(b, 0, q);
            if p > 0 {
                lemma_sorted_lt(a, 0, p);
                lemma_name_lt_total(a[0].1, b[0].1);
            } else {
                assert(b[0].1 == b[q].1);
            }
        }
        assert(a[0] == b[0]);
        let a1 = a.drop_first();
        let b1 = b.drop_first();
        assert forall|x: (Seq<char>, Seq<char>)| a1.contains(x) <==> b1.contains(x) by {
            if a1.contains(x) {
                let k = choose|k: int| 0 <= k < a1.len() && a1[k] == x;
                assert(a[k + 1] == x);
                assert(a.contains(x));
                let m = choose|m: int| 0 <= m < b.len() && b[m] == x;
                if m == 0 {
                    assert(a[0].1 == a[k + 1].1);
                }
                assert(b1[m - 1] == x);
            }
            if b1.contains(x) {
                let k = choose|k: int| 0 <= k < b1.len() && b1[k] == x;
                assert(b[k + 1] == x);
                assert(b.contains(x));
                let m = choose|m: int| 0 <= m < a.len() && a[m] == x;
                if m == 0 {
                    assert(b[0].1 == b[k + 1].1);
                }
                assert(a1[m - 1] == x);
            }
        }
        assert forall|m: int| 0 < m < a1.len() implies name_lt(#[trigger] a1[m - 1].1, a1[m].1) by {
            lemma_sorted_lt(a, m, m + 1);
            assert(a1[m - 1] == a[m] && a1[m] == a[m + 1]);
        }
        assert forall|m: int| 0 < m < b1.len() implies name_lt(#[trigger] b1[m - 1].1, b1[m].1) by {
            lemma_sorted_lt(b, m, m + 1);
            assert(b1[m - 1] == b[m] && b1[m] == b[m + 1]);
        }
        assert forall|x: int, y: int| 0 <= x < a1.len() && 0 <= y < a1.len() && x != y implies #[trigger] a1[x].1 != #[trigger] a1[y].1 by {
            assert(a[x + 1].1 != a[y + 1].1);
        }
        assert forall|x: int, y: int| 0 <= x < b1.len() && 0 <= y < b1.len() && x != y implies #[trigger] b1[x].1 != #[trigger] b1[y].1 by {
            assert(b[x + 1].1 != b[y + 1].1);
        }
        lemma_sorted_same_entries(a1, b1);
        assert(a =~= seq![a[0]] + a1);
        assert(b =~= seq![b[0]] + b1);
    }
}

/// The layout depends only on the set of entries given: two plans of the
/// form that [`plan_archive`] returns, for inputs that hold the same
/// (location, name) pairs, are the same steps.
pub proof fn layout_depends_on_entries(
    o1: Seq<(Seq<char>, Option<Seq<char>>)>,
    o2: Seq<(Seq<char>, Option<Seq<char>>)>,
    f1: Seq<(Seq<char>, Seq<char>)>,
    f2: Seq<(Seq<char>, Seq<char>)>,
)
    requires
        strictly_sorted(file_ops(o1)),
        strictly_sorted(file_ops(o2)),
        same_entries(file_ops(o1), f1),
        same_entries(file_ops(o2), f2),
        o1 == layout(file_ops(o1)),
        o2 == layout(file_ops(o2)),
        forall|x: (Seq<char>, Seq<char>)| f1.contains(x) <==> f2.contains(x),
    ensures
        o1 == o2,
{
    let s1 = file_ops(o1);
    let s2 = file_ops(o2);
    assert forall|x: (Seq<char>, Seq<char>)| s1.contains(x) <==> s2.contains(x) by {
        if s1.contains(x) {
            let m = choose|m: int| 0 <= m < s1.len() && s1[m] == x;
            assert(f1.contains(s1[m]));
            assert(f2.contains(x));
            let k = choose|k: int| 0 <= k < f2.len() && f2[k] == x;
            assert(s2.contains(f2[k]));
        }
        if s2.contains(x) {
            let m = choose|m: int| 0 <= m < s2.len() && s2[m] == x;
            assert(f2.contains(s2[m]));
            assert(f1.contains(x));
            let k = choose|k: int| 0 <= k < f1.len() && f1[k] == x;
            assert(s1.contains(f1[k]));
        }
    }
    lemma_sorted_same_entries(s1, s2);
}

/// Lays out the archive: the entries deduplicated and sorted by name, each
/// file preceded by a step for each directory that holds it and that the
/// file before it did not.
pub fn plan_archive(files: &Vec<FileEntry>) -> (r: Result<Vec<ArchiveOp>, BuildError>)
    ensures
        r.is_err() == has_conflict(entries(files@)),
        match r {
            Ok(ops) => strictly_sorted(file_ops(ops_view(ops@))) && same_entries(
                file_ops(ops_view(ops@)),
                entries(files@),
            ) && dirs_covered(ops_view(ops@)) && dirs_needed(ops_view(ops@)) && dirs_unique(ops_view(ops@))
                && ops_view(ops@) == layout(file_ops(ops_view(ops@))),
            Err(BuildError::DuplicateZipFileEntry(n)) => exists|j: int|
                first_conflict(entries(files@), j) && #[trigger] files@[j].name@ == n@,
            Err(_) => false,
        },
{
    let sorted = match sorted_unique(files) {
        Ok(s) => s,
        Err(e) => {
            return Err(e);
        },
    };
    let ghost sv = entries(sorted@);
    let mut ops: Vec<ArchiveOp> = Vec::new();
    assert(ops_view(ops@) =~= layout(sv.subrange(0, 0)));
    let mut prev: Option<String> = None;
    let ghost mut last_k: int = -1;
    let mut i: usize = 0;
    while i < sorted.len()
        invariant
            i <= sorted@.len(),
            sv == entries(sorted@),
            file_ops(ops_view(ops@)) == sv.subrange(0, i as int),
            dirs_covered(ops_view(ops@)),
            dirs_needed(ops_view(ops@)),
            dirs_unique(ops_view(ops@)),
            strictly_sorted(sv),
            forall|k: int| 0 <= k < ops@.len() && (#[trigger] ops_view(ops@)[k]).1.is_none() ==> exists|q: int|
                0 <= q < i && holds_dir(sv[q].1, ops_view(ops@)[k].0),
            prev.is_some() ==> prev.unwrap()@ == sv[i - 1].1,
            prev.is_none() == (i == 0),
            prev.is_some() ==> 0 <= last_k < ops@.len() && ops_view(ops@)[last_k].1.is_some()
                && ops_view(ops@)[last_k].0 == prev.unwrap()@,
            ops_view(ops@) == layout(sv.subrange(0, i as int)),
        decreases sorted@.len() - i,
    {
        let name = &sorted[i].name;
        let n = name.unicode_len();
        let ghost ops0 = ops_view(ops@);
        let ghost pv: Option<Seq<char>> = match &prev {
            Some(p) => Some(p@),
            None => None,
        };
        assert(ops_view(ops@) =~= ops0 + dir_steps(pv, name@, 1));
        let mut j: usize = 1;
        while j < n
            invariant
                n == name@.len(),
                1 <= j,
                dirs_covered(ops_view(ops@)),
                file_ops(ops_view(ops@)) == sv.subrange(0, i as int),
                ops0.len() <= ops@.len(),
                forall|q: int| 0 <= q < ops0.len() ==> ops_view(ops@)[q] == ops0[q],
                dirs_needed(ops0),
                forall|q: int| ops0.len() <= q < ops@.len() ==> (#[trigger] ops_view(ops@)[q]).1.is_none()
                    && holds_dir(name@, ops_view(ops@)[q].0) && ops_view(ops@)[q].0.len() < j,
                dirs_unique(ops_view(ops@)),
                strictly_sorted(sv),
                i < sv.len(),
                name@ == sv[i as int].1,
                prev.is_some() ==> prev.unwrap()@ == sv[i - 1].1,
                prev.is_none() == (i == 0),
                forall|k: int| 0 <= k < ops0.len() && (#[trigger] ops0[k]).1.is_none() ==> exists|q: int|
                    0 <= q < i && holds_dir(sv[q].1, ops0[k].0),
                prev.is_some() ==> 0 <= last_k < ops0.len() && ops0[last_k].1.is_some()
                    && ops0[last_k].0 == prev.unwrap()@,
                forall|j2: int| 0 < j2 < j && j2 < n && name@[j2] == '/' ==> exists|k2: int|
                    0 <= k2 < ops@.len() && #[trigger] ops_view(ops@)[k2] == (name@.subrange(0, j2), None::<Seq<char>>),
                ops_view(ops@) == ops0 + dir_steps(pv, name@, j as nat),
                ops0 == layout(sv.subrange(0, i as int)),
                n == 0 ==> j == 1,
                n > 0 ==> j <= n,
                pv == (if i > 0 {
                    Some(sv[i - 1].1)
                } else {
                    None::<Seq<char>>
                }),
            decreases n - j,
        {
            if name.as_str().get_char(j) == '/' {
                let here = String::from_str(name.as_str().substring_char(0, j));
                let shared = match &prev {
                    Some(p) => {
                        if p.as_str().unicode_len() > j && p.as_str().get_char(j) == '/' {
                            let there = String::from_str(p.as_str().substring_char(0, j));
                            let same = there == here;
                            assert(same == (p@.subrange(0, j as int) == name@.subrange(0, j as int)));
                            assert(same == shares_dir(pv, name@, j as int));
                            same
                        } else {
                            assert(!shares_dir(pv, name@, j as int));
                            false
                        }
                    },
                    None => false,
                };
                assert(shared == shares_dir(pv, name@, j as int));
                if shared {
                    proof {
                        let pv = prev.unwrap()@;
                        assert(holds_dir(pv, name@.subrange(0, j as int)));
                        assert(ops0[last_k] == ops_view(ops@)[last_k]);
                        assert(holds_dir(ops_view(ops@)[last_k].0, name@.subrange(0, j as int)));
                    }
                } else {
                    let ghost before = ops_view(ops@);
                    let ghost dn = name@.subrange(0, j as int);
                    proof {
                        assert(holds_dir(name@, dn));
                        lemma_dir_prefix(name@, dn);
                        assert forall|k: int| 0 <= k < before.len() && (#[trigger] before[k]).1.is_none() implies before[k].0 != dn by {
                            if k < ops0.len() {
                                assert(before[k] == ops0[k]);
                                if before[k].0 == dn {
                                    let q = choose|q: int| 0 <= q < i && holds_dir(sv[q].1, ops0[k].0);
                                    lemma_dir_prefix(sv[q].1, dn);
                                    let pv = sv[i - 1].1;
                                    if q < i - 1 {
                                        lemma_sorted_lt(sv, q, i - 1);
                                        lemma_sorted_lt(sv, i - 1, i as int);
                                        lemma_between_prefix(sv[q].1, pv, name@, dn.push('/'));
                                    }
                                    assert(pv.subrange(0, j + 1) == dn.push('/'));
                                    assert(pv[j as int] == dn.push('/')[j as int]);
                                    assert(pv.subrange(0, j as int) =~= dn.push('/').subrange(0, j as int));
                                    assert(dn.push('/').subrange(0, j as int) =~= dn);
                                }
                            }
                        }
                    }
                    ops.push(ArchiveOp { name: here, location: None });
                    assert(ops_view(ops@) =~= before.push((name@.subrange(0, j as int), None::<Seq<char>>)));
                    assert(ops_view(ops@) =~= ops0 + dir_steps(pv, name@, (j + 1) as nat));
                    assert(ops_view(ops@).drop_last() =~= before);
                    assert(ops_view(ops@)[before.len() as int] == (name@.subrange(0, j as int), None::<Seq<char>>));
                    assert(holds_dir(name@, name@.subrange(0, j as int)));
                    assert forall|q: int| ops0.len() <= q < ops@.len() implies (#[trigger] ops_view(ops@)[q]).1.is_none()
                        && holds_dir(name@, ops_view(ops@)[q].0) && ops_view(ops@)[q].0.len() < j + 1 by {
                        if q < before.len() {
                            assert(ops_view(ops@)[q] == before[q]);
                        }
                    }
                    assert forall|k1: int, k2: int|
                        0 <= k1 < ops_view(ops@).len() && 0 <= k2 < ops_view(ops@).len() && k1 != k2
                            && (#[trigger] ops_view(ops@)[k1]).1.is_none() && (#[trigger] ops_view(ops@)[k2]).1.is_none()
                        implies ops_view(ops@)[k1].0 != ops_view(ops@)[k2].0 by {
                        if k1 < before.len() && k2 < before.len() {
                            assert(ops_view(ops@)[k1] == before[k1] && ops_view(ops@)[k2] == before[k2]);
                        } else if k1 < before.len() {
                            assert(ops_view(ops@)[k1] == before[k1]);
                        } else {
                            assert(ops_view(ops@)[k2] == before[k2]);
                        }
                    }
                    assert forall|k: int, d: Seq<char>|
                        0 <= k < ops_view(ops@).len() && (#[trigger] ops_view(ops@)[k]).1.is_some()
                            && #[trigger] holds_dir(ops_view(ops@)[k].0, d) implies exists|k2: int|
                        0 <= k2 < k && #[trigger] ops_view(ops@)[k2] == (d, None::<Seq<char>>) by {
                        assert(before[k] == ops_view(ops@)[k]);
                        let k2 = choose|k2: int| 0 <= k2 < k && #[trigger] before[k2] == (d, None::<Seq<char>>);
                        assert(ops_view(ops@)[k2] == before[k2]);
                    }
                    assert forall|j2: int| 0 < j2 < j + 1 && j2 < n && name@[j2] == '/' implies exists|k2: int|
                        0 <= k2 < ops@.len() && #[trigger] ops_view(ops@)[k2] == (name@.subrange(0, j2), None::<Seq<char>>) by {
                        if j2 < j {
                            let k2 = choose|k2: int| 0 <= k2 < before.len() && #[trigger] before[k2] == (name@.subrange(0, j2), None::<Seq<char>>);
                            assert(ops_view(ops@)[k2] == before[k2]);
                        } else {
                            assert(ops_view(ops@)[before.len() as int] == (name@.subrange(0, j2), None::<Seq<char>>));
                        }
                    }
                }
            }
            assert(ops_view(ops@) =~= ops0 + dir_steps(pv, name@, (j + 1) as nat));
            j = j + 1;
        }
        let ghost before = ops_view(ops@);
        let entry = &sorted[i];
        ops.push(ArchiveOp { name: entry.name.clone(), location: Some(entry.location.clone()) });
        proof {
            let o = ops_view(ops@);
            assert(o =~= before.push((entry.name@, Some(entry.location@))));
            assert(o.drop_last() =~= before);
            assert(sv[i as int] == entry@);
            assert(sv.subrange(0, i + 1) =~= sv.subrange(0, i as int).push(entry@));
            assert(sv.subrange(0, i + 1).drop_last() =~= sv.subrange(0, i as int));
            if i > 0 {
                assert(sv.subrange(0, i + 1)[i - 1] == sv[i - 1]);
            }
            let n2 = name@.len();
            assert(dir_steps(pv, name@, j as nat) =~= dir_steps(pv, name@, n2));
            assert(before == ops0 + dir_steps(pv, name@, n2));
            let s1 = sv.subrange(0, i + 1);
            assert(s1.last() == sv[i as int]);
            assert(s1.last().1 == name@);
            let pv1 = if s1.len() > 1 {
                Some(s1[s1.len() - 2].1)
            } else {
                None
            };
            assert(pv1 == pv);
            assert(layout(s1) == layout(s1.drop_last()) + dir_steps(pv1, s1.last().1, s1.last().1.len())
                + seq![(s1.last().1, Some(s1.last().0))]);
            assert(o =~= layout(sv.subrange(0, i + 1)));
            assert forall|k: int, d: Seq<char>|
                0 <= k < o.len() && (#[trigger] o[k]).1.is_some() && #[trigger] holds_dir(o[k].0, d) implies exists|k2: int|
                0 <= k2 < k && #[trigger] o[k2] == (d, None::<Seq<char>>) by {
                if k < before.len() {
                    assert(before[k] == o[k]);
                    let k2 = choose|k2: int| 0 <= k2 < k && #[trigger] before[k2] == (d, None::<Seq<char>>);
                    assert(o[k2] == before[k2]);
                } else {
                    let j2 = choose|j2: int| 0 < j2 < o[k].0.len() && o[k].0[j2] == '/' && d == #[trigger] o[k].0.subrange(0, j2);
                    let k2 = choose|k2: int| 0 <= k2 < before.len() && #[trigger] before[k2] == (name@.subrange(0, j2), None::<Seq<char>>);
                    assert(o[k2] == before[k2]);
                }
            }
            assert forall|k: int| 0 <= k < o.len() && (#[trigger] o[k]).1.is_none() implies exists|k2: int|
                k < k2 < o.len() && o[k2].1.is_some() && #[trigger] holds_dir(o[k2].0, o[k].0) by {
                assert(o[k] == before[k]);
                if k < ops0.len() {
                    assert(before[k] == ops0[k]);
                    let k2 = choose|k2: int| k < k2 < ops0.len() && ops0[k2].1.is_some() && #[trigger] holds_dir(ops0[k2].0, ops0[k].0);
                    assert(o[k2] == ops0[k2]);
                } else {
                    assert(holds_dir(o[before.len() as int].0, o[k].0));
                }
            }
            assert forall|k1: int, k2: int|
                0 <= k1 < o.len() && 0 <= k2 < o.len() && k1 != k2 && (#[trigger] o[k1]).1.is_none()
                    && (#[trigger] o[k2]).1.is_none() implies o[k1].0 != o[k2].0 by {
                assert(o[k1] == before[k1] && o[k2] == before[k2]);
            }
            assert forall|k: int| 0 <= k < o.len() && (#[trigger] o[k]).1.is_none() implies exists|q: int|
                0 <= q < i + 1 && holds_dir(sv[q].1, o[k].0) by {
                assert(o[k] == before[k]);
                if k < ops0.len() {
                    assert(before[k] == ops0[k]);
                    let q = choose|q: int| 0 <= q < i && holds_dir(sv[q].1, ops0[k].0);
                    assert(0 <= q < i + 1 && holds_dir(sv[q].1, o[k].0));
                } else {
                    assert(holds_dir(sv[i as int].1, o[k].0));
                }
            }
            last_k = before.len() as int;
        }
        prev = Some(entry.name.clone());
        i = i + 1;
    }
    assert(sv.subrange(0, sorted@.len() as int) =~= sv);
    Ok(ops)
}

/// How a file is stored: its permission bits, and whether it needs the
/// large-file marker.
pub struct EntryOptions {
    pub permissions: u32,
    pub large_file: bool,
}

/// The size from which a file needs the large-file marker: 4 GiB.
pub const LARGE_FILE_SIZE: u64 = 0x1_0000_0000;

/// The options of the entry for a file of `size` bytes with mode `mode` on
/// disk: the mode as it is, and the large-file marker from 4 GiB on.
pub fn entry_options(size: u64, mode: u32) -> (r: EntryOptions)
    ensures
        r.permissions == mode,
        r.large_file == (size >= LARGE_FILE_SIZE),
{
    EntryOptions { permissions: mode, large_file: size >= LARGE_FILE_SIZE }
}

} // verus!

//! Snapshot bookkeeping on the NAS: snapshot ids, which files belong to a
//! collection, and which ones retention removes.

use vstd::prelude::*;
use crate::text::{chars_of, match_at, matches_at, owned, push_str, starts_with};

verus! {

/// Why a snapshot operation failed. The I/O variant carries the error's message.
#[derive(Debug)]
pub enum SnapshotError {
    Io(String),
    Http(String),
    Qdrant(String),
    NotFound(String),
}

pub open spec fn snapshot_error_message(e: SnapshotError) -> Seq<char> {
    match e {
        SnapshotError::Io(m) => "io: "@ + m@,
        SnapshotError::Http(m) => "http: "@ + m@,
        SnapshotError::Qdrant(m) => "qdrant: "@ + m@,
        SnapshotError::NotFound(m) => "snapshot not found on NAS: "@ + m@,
    }
}

impl SnapshotError {
    /// The human message (what `Display` would print).
    pub fn message(&self) -> (r: String)
        ensures
            r@ == snapshot_error_message(*self),
    {
        let (head, body) = match self {
            SnapshotError::Io(m) => ("io: ", m),
            SnapshotError::Http(m) => ("http: ", m),
            SnapshotError::Qdrant(m) => ("qdrant: ", m),
            SnapshotError::NotFound(m) => ("snapshot not found on NAS: ", m),
        };
        let mut r = owned(head);
        push_str(&mut r, body.as_str());
        r
    }
}

/// The NAS file-name prefix of a collection's snapshots.
pub open spec fn snapshot_prefix(collection: Seq<char>) -> Seq<char> {
    collection + "__"@
}

/// The id (and NAS file name) of a snapshot Qdrant named `name`.
pub fn snapshot_id(collection: &str, name: &str) -> (r: String)
    ensures
        r@ == snapshot_prefix(collection@) + name@,
{
    let mut r = owned(collection);
    push_str(&mut r, "__");
    push_str(&mut r, name);
    r
}

/// Whether a NAS file name is a snapshot of `collection`: it starts with `<collection>__`.
pub open spec fn snapshot_of(collection: Seq<char>) -> spec_fn(Seq<char>) -> bool {
    |n: Seq<char>| starts_with(n, snapshot_prefix(collection))
}

/// The NAS file names that are snapshots of `collection`, in listing order:
/// those that start with `<collection>__`.
pub fn collection_snapshots(collection: &str, names: &[String]) -> (r: Vec<String>)
    ensures
        r@.map_values(|s: String| s@) == names@.map_values(|s: String| s@).filter(
            snapshot_of(collection@),
        ),
{
    let mut prefix = owned(collection);
    push_str(&mut prefix, "__");
    let pv = chars_of(prefix.as_str());
    let ghost all = names@.map_values(|s: String| s@);
    let ghost pred = snapshot_of(collection@);
    let mut out: Vec<String> = Vec::new();
    let mut i: usize = 0;
    while i < names.len()
        invariant
            i <= names@.len(),
            all == names@.map_values(|s: String| s@),
            pv@ == snapshot_prefix(collection@),
            pred == snapshot_of(collection@),
            out@.map_values(|s: String| s@) == all.take(i as int).filter(pred),
        decreases names.len() - i,
    {
        let nv = chars_of(names[i].as_str());
        let keep = matches_at(&nv, &pv, 0);
        assert(all.take(i + 1).drop_last() =~= all.take(i as int));
        reveal_with_fuel(Seq::<_>::filter, 1);
        if keep {
            out.push(names[i].clone());
            assert(out@.map_values(|s: String| s@) =~= all.take(i as int).filter(pred).push(nv@));
        }
        i = i + 1;
    }
    assert(all.take(names.len() as int) =~= all);
    out
}

// ---------------------------------------------------------------------------
// Retention

/// In the newest-first order of snapshots with modification times `m`, entry
/// `j` comes before entry `i`: it is newer, or as new and listed earlier (the
/// order is a stable sort).
pub open spec fn sorts_before(m: Seq<i128>, j: int, i: int) -> bool {
    m[j] > m[i] || (m[j] == m[i] && j < i)
}

/// How many of the first `upto` entries come before entry `i`.
pub open spec fn count_before(m: Seq<i128>, i: int, upto: nat) -> nat
    decreases upto,
{
    if upto == 0 {
        0
    } else {
        count_before(m, i, (upto - 1) as nat) + if sorts_before(m, upto - 1, i) {
            1nat
        } else {
            0nat
        }
    }
}

/// Position of entry `i` in the newest-first order.
pub open spec fn newest_rank(m: Seq<i128>, i: int) -> nat {
    count_before(m, i, m.len())
}

proof fn lemma_count_bound(m: Seq<i128>, i: int, upto: nat)
    requires
        upto <= m.len(),
        0 <= i < m.len(),
    ensures
        count_before(m, i, upto) <= upto,
        i < upto ==> count_before(m, i, upto) < upto,
    decreases upto,
{
    if upto > 0 {
        lemma_count_bound(m, i, (upto - 1) as nat);
    }
}

/// An entry before `i` has fewer entries before it than `i` has.
proof fn lemma_count_strict(m: Seq<i128>, j: int, i: int, upto: nat)
    requires
        upto <= m.len(),
        0 <= i < m.len(),
        0 <= j < m.len(),
        sorts_before(m, j, i),
    ensures
        count_before(m, j, upto) + (if j < upto {
            1nat
        } else {
            0nat
        }) <= count_before(m, i, upto),
    decreases upto,
{
    if upto > 0 {
        lemma_count_strict(m, j, i, (upto - 1) as nat);
    }
}

/// Ranks are the positions `0..n` of a permutation: distinct and in range.
proof fn lemma_rank_distinct(m: Seq<i128>, i: int, j: int)
    requires
        0 <= i < m.len(),
        0 <= j < m.len(),
        i != j,
    ensures
        newest_rank(m, i) != newest_rank(m, j),
        newest_rank(m, i) < m.len(),
{
    lemma_count_bound(m, i, m.len());
    if sorts_before(m, j, i) {
        lemma_count_strict(m, j, i, m.len());
    } else {
        lemma_count_strict(m, i, j, m.len());
    }
}

/// Every position `0..n` is the rank of some entry.
proof fn lemma_rank_onto(m: Seq<i128>, t: int)
    requires
        0 <= t < m.len(),
    ensures
        exists|i: int| 0 <= i < m.len() && newest_rank(m, i) == t,
{
    let n = m.len() as int;
    let dom = vstd::set_lib::set_int_range(0, n);
    let f = |i: int| newest_rank(m, i) as int;
    let img = dom.map(f);
    vstd::set_lib::lemma_int_range(0, n);
    assert forall|a: int, b: int| dom.contains(a) && dom.contains(b) && #[trigger] f(a) == #[trigger] f(b) implies a == b by {
        if a != b {
            lemma_rank_distinct(m, a, b);
        }
    }
    assert(vstd::relations::injective_on(f, dom));
    vstd::set_lib::lemma_map_size(dom, img, f);
    assert forall|x: int| img.contains(x) implies dom.contains(x) by {
        let a = choose|a: int| dom.contains(a) && f(a) == x;
        lemma_count_bound(m, a, m.len());
    }
    vstd::set_lib::lemma_subset_equality(img, dom);
    assert(dom.contains(t));
    assert(img.contains(t));
}

fn count_newer(mtimes: &[i128], i: usize) -> (r: usize)
    requires
        i < mtimes@.len(),
    ensures
        r == newest_rank(mtimes@, i as int),
{
    let mut c: usize = 0;
    let mut j: usize = 0;
    while j < mtimes.len()
        invariant
            i < mtimes@.len(),
            j <= mtimes@.len(),
            c == count_before(mtimes@, i as int, j as nat),
        decreases mtimes.len() - j,
    {
        proof {
            lemma_count_bound(mtimes@, i as int, (j + 1) as nat);
        }
        if mtimes[j] > mtimes[i] || (mtimes[j] == mtimes[i] && j < i) {
            c = c + 1;
        }
        j = j + 1;
    }
    c
}

/// Retention: the snapshots (given by their modification times, in listing
/// order) to delete so that the newest `keep_last` remain. The result lists
/// the indices of the others in newest-first order: entry `k` of the result is
/// the snapshot at position `keep_last + k` of that order.
pub fn prune_victims(mtimes: &[i128], keep_last: usize) -> (r: Vec<usize>)
    ensures
        r@.len() == if keep_last < mtimes@.len() {
            mtimes@.len() - keep_last
        } else {
            0
        },
        forall|k: int|
            0 <= k < r@.len() ==> #[trigger] r@[k] < mtimes@.len() && newest_rank(
                mtimes@,
                r@[k] as int,
            ) == keep_last + k,
{
    let n = mtimes.len();
    let mut ranks: Vec<usize> = Vec::new();
    let mut i: usize = 0;
    while i < n
        invariant
            n == mtimes@.len(),
            i <= n,
            ranks@.len() == i,
            forall|k: int| 0 <= k < i ==> #[trigger] ranks@[k] == newest_rank(mtimes@, k),
        decreases n - i,
    {
        ranks.push(count_newer(mtimes, i));
        i = i + 1;
    }
    let mut out: Vec<usize> = Vec::new();
    let mut t: usize = keep_last;
    while t < n
        invariant
            n == mtimes@.len(),
            ranks@.len() == n,
            forall|k: int| 0 <= k < n ==> #[trigger] ranks@[k] == newest_rank(mtimes@, k),
            keep_last <= t,
            t <= n || t == keep_last,
            out@.len() == t - keep_last,
            forall|k: int|
                0 <= k < out@.len() ==> #[trigger] out@[k] < n && newest_rank(mtimes@, out@[k] as int)
                    == keep_last + k,
        decreases n - t,
    {
        proof {
            lemma_rank_onto(mtimes@, t as int);
        }
        let mut k: usize = 0;
        while k < n && ranks[k] != t
            invariant
                n == mtimes@.len(),
                ranks@.len() == n,
                forall|x: int| 0 <= x < n ==> #[trigger] ranks@[x] == newest_rank(mtimes@, x),
                k <= n,
                forall|x: int| 0 <= x < k ==> newest_rank(mtimes@, x) != t,
                exists|x: int| 0 <= x < n && newest_rank(mtimes@, x) == t,
            decreases n - k,
        {
            k = k + 1;
        }
        assert(k < n);
        out.push(k);
        t = t + 1;
    }
    out
}

/// Retention keeps the newest: every snapshot at a position below `keep` of the
/// newest-first order is at least as new as every snapshot at `keep` or beyond.
pub proof fn lemma_retention_keeps_newest(m: Seq<i128>, keep: nat, kept: int, deleted: int)
    requires
        0 <= kept < m.len(),
        0 <= deleted < m.len(),
        newest_rank(m, kept) < keep,
        newest_rank(m, deleted) >= keep,
    ensures
        m[kept] >= m[deleted],
        sorts_before(m, kept, deleted),
{
    if !sorts_before(m, kept, deleted) {
        assert(kept != deleted);
        assert(sorts_before(m, deleted, kept));
        lemma_count_strict(m, deleted, kept, m.len());
    }
}

/// A snapshot taken of a collection is listed among that collection's snapshots.
pub proof fn lemma_snapshot_listed(collection: Seq<char>, name: Seq<char>)
    ensures
        starts_with(snapshot_prefix(collection) + name, snapshot_prefix(collection)),
{
    let p = snapshot_prefix(collection);
    assert((p + name).subrange(0, p.len() as int) =~= p);
}

proof fn lemma_filter_none(s: Seq<Seq<char>>, pred: spec_fn(Seq<char>) -> bool)
    requires
        forall|i: int| 0 <= i < s.len() ==> !pred(#[trigger] s[i]),
    ensures
        s.filter(pred) == Seq::<Seq<char>>::empty(),
    decreases s.len(),
{
    reveal_with_fuel(Seq::<_>::filter, 1);
    if s.len() > 0 {
        let p = s.drop_last();
        assert forall|i: int| 0 <= i < p.len() implies !pred(#[trigger] p[i]) by {
            assert(p[i] == s[i]);
        }
        lemma_filter_none(p, pred);
        assert(!pred(s[s.len() - 1]));
    }
}

proof fn lemma_filter_one(s: Seq<Seq<char>>, pred: spec_fn(Seq<char>) -> bool, id: Seq<char>)
    requires
        s.no_duplicates(),
        s.contains(id),
        pred(id),
        forall|i: int| 0 <= i < s.len() && pred(#[trigger] s[i]) ==> s[i] == id,
    ensures
        s.filter(pred) == seq![id],
    decreases s.len(),
{
    reveal_with_fuel(Seq::<_>::filter, 1);
    let p = s.drop_last();
    let n = s.len() - 1;
    if s[n] == id {
        assert forall|i: int| 0 <= i < p.len() implies !pred(#[trigger] p[i]) by {
            assert(p[i] == s[i]);
            assert(s[i] != s[n]);
        }
        lemma_filter_none(p, pred);
        assert(s.filter(pred) =~= seq![id]);
    } else {
        let k = choose|k: int| 0 <= k < s.len() && s[k] == id;
        assert(k != n);
        assert(p[k] == id);
        assert forall|i: int| 0 <= i < p.len() && pred(#[trigger] p[i]) implies p[i] == id by {
            assert(p[i] == s[i]);
        }
        assert(p.no_duplicates()) by {
            assert forall|i: int, j: int| 0 <= i < p.len() && 0 <= j < p.len() && i != j implies p[i] != p[j] by {
                assert(p[i] == s[i] && p[j] == s[j]);
            }
        }
        lemma_filter_one(p, pred, id);
        assert(!pred(s[n]));
    }
}

/// Snapshot then list: when no file on the NAS is yet a snapshot of the
/// collection, writing the snapshot Qdrant named `name` under its id leaves the
/// downloaded bytes in that file, and listing the directory (in any order)
/// then yields that id alone.
pub proof fn lemma_snapshot_then_list(
    nas: Map<Seq<char>, Seq<u8>>,
    collection: Seq<char>,
    name: Seq<char>,
    bytes: Seq<u8>,
    listing: Seq<Seq<char>>,
)
    requires
        forall|f: Seq<char>| #[trigger] nas.dom().contains(f) ==> !snapshot_of(collection)(f),
        listing.no_duplicates(),
        forall|f: Seq<char>|
            #[trigger] listing.contains(f) <==> nas.insert(snapshot_prefix(collection) + name, bytes).dom().contains(f),
    ensures
        nas.insert(snapshot_prefix(collection) + name, bytes)[snapshot_prefix(collection) + name] == bytes,
        listing.filter(snapshot_of(collection)) == seq![snapshot_prefix(collection) + name],
{
    let id = snapshot_prefix(collection) + name;
    let after = nas.insert(id, bytes);
    lemma_snapshot_listed(collection, name);
    assert(after.dom().contains(id));
    assert(listing.contains(id));
    assert forall|i: int| 0 <= i < listing.len() && snapshot_of(collection)(#[trigger] listing[i]) implies listing[i] == id by {
        assert(listing.contains(listing[i]));
        if listing[i] != id {
            assert(nas.dom().contains(listing[i]));
        }
    }
    lemma_filter_one(listing, snapshot_of(collection), id);
}

} // verus!

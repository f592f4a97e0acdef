//! The batcher: partitions the per-package fingerprint lists into
//! fixed-size chunks of packages, then flattens and deduplicates each
//! chunk's fingerprints into one batch.
//!
//! Chunking operates on the package-level grouping; deduplication happens
//! after chunking, per chunk, not globally. The final chunk may hold fewer
//! than `batch_size` packages. Batch order is not semantically significant
//! downstream: all batches are queried independently and merged by set
//! union.

use crate::catalog::Package;
use crate::catalog::catalog_fps;
use crate::catalog::extract_fingerprints;
use vstd::arithmetic::div_mod::lemma_fundamental_div_mod;
use vstd::arithmetic::div_mod::lemma_fundamental_div_mod_converse;
use vstd::arithmetic::div_mod::lemma_mod_bound;
use vstd::arithmetic::mul::lemma_mul_inequality;
use vstd::prelude::*;
use vstd::seq_lib::seq_to_set_distributes_over_add;

verus! {

/// How many packages one batch covers before deduplication: the bound a
/// chunk is filled to, except for the final chunk, which may be smaller.
pub const BATCH_SIZE: usize = 25;

/// A deduplicated, unordered group of fingerprints, sized to be sent in
/// one request. The carried order is an implementation accident and
/// carries no meaning; only the set of fingerprints does.
#[derive(Clone, Debug)]
pub struct Batch {
    pub fingerprints: Vec<u32>,
}

impl Batch {
    /// The set of fingerprints this batch carries.
    pub open spec fn fp_set(self) -> Set<u32> {
        self.fingerprints@.to_set()
    }

    /// The batch holds each fingerprint at most once.
    pub open spec fn deduplicated(self) -> bool {
        self.fingerprints@.no_duplicates()
    }

    /// How many fingerprints the batch carries.
    pub fn len(&self) -> (n: usize)
        ensures
            n == self.fingerprints@.len(),
    {
        self.fingerprints.len()
    }
}

/// All fingerprints of a sequence of per-package lists, flattened in
/// order.
pub open spec fn concat_all(lists: Seq<Seq<u32>>) -> Seq<u32>
    decreases lists.len(),
{
    if lists.len() == 0 {
        Seq::empty()
    } else {
        concat_all(lists.drop_last()) + lists.last()
    }
}

/// How many chunks a list of `n` packages yields at `batch_size` packages
/// per chunk: `n / batch_size`, rounded up.
pub open spec fn chunk_count(n: int, batch_size: int) -> int
    recommends
        batch_size >= 1,
{
    (n + batch_size - 1) / batch_size
}

/// Where chunk `i` of a list of `n` packages ends (exclusive).
pub open spec fn chunk_end(n: int, batch_size: int, i: int) -> int {
    if (i + 1) * batch_size <= n {
        (i + 1) * batch_size
    } else {
        n
    }
}

/// The fingerprints of chunk `i`: the flattened lists of the packages in
/// positions `i * batch_size` up to the chunk's end.
pub open spec fn chunk_fps(pf: Seq<Seq<u32>>, batch_size: int, i: int) -> Seq<u32> {
    concat_all(pf.subrange(i * batch_size, chunk_end(pf.len() as int, batch_size, i)))
}

/// What the batcher promises of its output: one batch per chunk, each
/// internally deduplicated, each carrying exactly its chunk's fingerprint
/// set.
pub open spec fn batches_match(batches: Seq<Batch>, pf: Seq<Seq<u32>>, batch_size: int) -> bool {
    &&& batches.len() == chunk_count(pf.len() as int, batch_size)
    &&& forall|i: int| 0 <= i < batches.len() ==> #[trigger] batches[i].deduplicated()
    &&& forall|i: int|
        0 <= i < batches.len() ==> #[trigger] batches[i].fp_set() == chunk_fps(
            pf,
            batch_size,
            i,
        ).to_set()
}

/// Whether `v` holds `x`.
fn contains_u32(v: &Vec<u32>, x: u32) -> (b: bool)
    ensures
        b == v@.contains(x),
{
    let mut i: usize = 0;
    while i < v.len()
        invariant
            i <= v@.len(),
            forall|k: int| 0 <= k < i ==> v@[k] != x,
        decreases v@.len() - i,
    {
        if v[i] == x {
            return true;
        }
        i = i + 1;
    }
    false
}

/// Builds one deduplicated batch out of the package rows `start..end`.
fn dedup_chunk(pf: &Vec<Vec<u32>>, start: usize, end: usize) -> (b: Batch)
    requires
        start <= end,
        end <= pf@.len(),
    ensures
        b.deduplicated(),
        b.fp_set() == concat_all(pf.deep_view().subrange(start as int, end as int)).to_set(),
{
    let ghost dv = pf.deep_view();
    proof {
        assert(dv.len() == pf@.len());
    }
    let mut fps: Vec<u32> = Vec::new();
    let mut k: usize = start;
    proof {
        assert(dv.subrange(start as int, start as int) =~= Seq::<Seq<u32>>::empty());
        assert(fps@.to_set() =~= concat_all(dv.subrange(start as int, start as int)).to_set());
    }
    while k < end
        invariant
            start <= k <= end,
            end <= pf@.len(),
            dv == pf.deep_view(),
            dv.len() == pf@.len(),
            fps@.no_duplicates(),
            fps@.to_set() == concat_all(dv.subrange(start as int, k as int)).to_set(),
        decreases end - k,
    {
        let row = &pf[k];
        proof {
            assert(row@ =~= dv[k as int]);
        }
        let mut j: usize = 0;
        proof {
            assert(dv[k as int].take(0int) =~= Seq::<u32>::empty());
            assert(fps@.to_set() =~= concat_all(dv.subrange(start as int, k as int)).to_set()
                + dv[k as int].take(0int).to_set());
        }
        while j < row.len()
            invariant
                j <= row@.len(),
                start <= k < end,
                end <= pf@.len(),
                dv == pf.deep_view(),
                dv.len() == pf@.len(),
                row@ == dv[k as int],
                fps@.no_duplicates(),
                fps@.to_set() == concat_all(dv.subrange(start as int, k as int)).to_set()
                    + dv[k as int].take(j as int).to_set(),
            decreases row@.len() - j,
        {
            let fp = row[j];
            let seen = contains_u32(&fps, fp);
            let ghost fps_before = fps@;
            if !seen {
                fps.push(fp);
            }
            proof {
                let head = concat_all(dv.subrange(start as int, k as int)).to_set();
                let prev = dv[k as int].take(j as int);
                assert(dv[k as int].take(j + 1int) =~= prev.push(fp));
                prev.lemma_push_to_set_commute(fp);
                if seen {
                    assert(head + prev.push(fp).to_set() =~= fps@.to_set());
                } else {
                    assert(fps@ == fps_before.push(fp));
                    fps_before.lemma_push_to_set_commute(fp);
                    assert(fps@.to_set() =~= head + prev.push(fp).to_set());
                    assert forall|a: int, b: int|
                        0 <= a < fps@.len() && 0 <= b < fps@.len() && a != b implies fps@[a]
                        != fps@[b] by {
                        if a < fps_before.len() && b < fps_before.len() {
                            assert(fps@[a] == fps_before[a] && fps@[b] == fps_before[b]);
                        } else if b == fps_before.len() {
                            assert(fps_before[a] != fp);
                        } else {
                            assert(fps_before[b] != fp);
                        }
                    }
                    assert(fps@.no_duplicates());
                }
            }
            j = j + 1;
        }
        proof {
            assert(dv[k as int].take(row@.len() as int) =~= dv[k as int]);
            let sub1 = dv.subrange(start as int, k + 1int);
            assert(sub1.drop_last() =~= dv.subrange(start as int, k as int));
            assert(sub1.last() == dv[k as int]);
            assert(concat_all(sub1) == concat_all(dv.subrange(start as int, k as int))
                + dv[k as int]);
            seq_to_set_distributes_over_add(concat_all(dv.subrange(start as int, k as int)), dv[k as int]);
            assert(fps@.to_set() =~= concat_all(dv.subrange(start as int, k + 1int)).to_set());
        }
        k = k + 1;
    }
    Batch { fingerprints: fps }
}

/// Partitions the per-package fingerprint lists into chunks of
/// `batch_size` packages (the last chunk may be smaller), flattening and
/// deduplicating each chunk's fingerprints into one batch.
pub fn make_batches(package_fingerprints: &Vec<Vec<u32>>, batch_size: usize) -> (r: Vec<Batch>)
    requires
        batch_size >= 1,
    ensures
        batches_match(r@, package_fingerprints.deep_view(), batch_size as int),
{
    let ghost dv = package_fingerprints.deep_view();
    let n = package_fingerprints.len();
    proof {
        assert(dv.len() == n);
    }
    let mut r: Vec<Batch> = Vec::new();
    let mut start: usize = 0;
    while start < n
        invariant
            1 <= batch_size,
            dv == package_fingerprints.deep_view(),
            dv.len() == n,
            n == package_fingerprints@.len(),
            start <= n,
            start as int == covered(n as int, batch_size as int, r@.len() as int),
            r@.len() == 0 || (r@.len() as int - 1) * (batch_size as int) < n,
            forall|i: int| 0 <= i < r@.len() ==> #[trigger] r@[i].deduplicated(),
            forall|i: int|
                0 <= i < r@.len() ==> #[trigger] r@[i].fp_set() == chunk_fps(
                    dv,
                    batch_size as int,
                    i,
                ).to_set(),
        decreases n - start,
    {
        let end = if n - start < batch_size {
            n
        } else {
            start + batch_size
        };
        let b = dedup_chunk(package_fingerprints, start, end);
        proof {
            let bs = batch_size as int;
            let c = r@.len() as int;
            assert(start as int == c * bs) by {
                if c * bs > n {
                    assert(start == n);
                }
            }
            assert((c + 1) * bs == c * bs + bs) by (nonlinear_arith);
            assert(chunk_end(dv.len() as int, batch_size as int, c) == end as int);
            assert(dv.subrange(c * batch_size, end as int) =~= dv.subrange(
                start as int,
                end as int,
            ));
            assert(b.fp_set() == chunk_fps(dv, batch_size as int, c).to_set());
        }
        r.push(b);
        start = end;
    }
    proof {
        let q = r@.len() as int;
        let bs = batch_size as int;
        assert(start == n);
        if n == 0 {
            assert(q == 0);
            lemma_fundamental_div_mod_converse(bs - 1, bs, 0, bs - 1);
        } else {
            assert(q * bs >= n);
            assert((q - 1) * bs == q * bs - bs) by (nonlinear_arith);
            assert((q - 1) * bs < n);
            let rem = n + bs - 1 - q * bs;
            assert(0 <= rem < bs);
            lemma_fundamental_div_mod_converse(n as int + bs - 1, bs, q, rem);
        }
        assert(r@.len() == chunk_count(dv.len() as int, bs));
    }
    r
}

/// The union of the fingerprint sets of the first `n` batches.
pub open spec fn batch_union(batches: Seq<Batch>, n: int) -> Set<u32>
    decreases n,
{
    if n <= 0 {
        Set::empty()
    } else {
        batch_union(batches, n - 1) + batches[n - 1].fp_set()
    }
}

/// How many packages the first `m` chunks cover.
pub open spec fn covered(n: int, batch_size: int, m: int) -> int {
    if m * batch_size <= n {
        m * batch_size
    } else {
        n
    }
}

/// Flattening a sequence of lists splits at any interior point.
proof fn lemma_concat_all_split(s: Seq<Seq<u32>>, a: int, b: int, c: int)
    requires
        0 <= a <= b <= c <= s.len(),
    ensures
        concat_all(s.subrange(a, c)) == concat_all(s.subrange(a, b)) + concat_all(
            s.subrange(b, c),
        ),
    decreases c - b,
{
    if c == b {
        assert(s.subrange(b, c) =~= Seq::<Seq<u32>>::empty());
        assert(concat_all(s.subrange(a, c)) =~= concat_all(s.subrange(a, b)) + concat_all(
            s.subrange(b, c),
        ));
    } else {
        lemma_concat_all_split(s, a, b, c - 1);
        assert(s.subrange(a, c).drop_last() =~= s.subrange(a, c - 1));
        assert(s.subrange(b, c).drop_last() =~= s.subrange(b, c - 1));
        assert(s.subrange(a, c).last() == s[c - 1]);
        assert(s.subrange(b, c).last() == s[c - 1]);
        assert(concat_all(s.subrange(a, b)) + (concat_all(s.subrange(b, c - 1)) + s[c - 1])
            =~= (concat_all(s.subrange(a, b)) + concat_all(s.subrange(b, c - 1))) + s[c - 1]);
    }
}

/// The union of the first `m` batches' sets is exactly the set of the
/// fingerprints of the packages those chunks cover.
proof fn lemma_chunks_cover_prefix(batches: Seq<Batch>, pf: Seq<Seq<u32>>, batch_size: int, m: int)
    requires
        batch_size >= 1,
        batches_match(batches, pf, batch_size),
        0 <= m <= batches.len(),
    ensures
        batch_union(batches, m) == concat_all(
            pf.subrange(0, covered(pf.len() as int, batch_size, m)),
        ).to_set(),
    decreases m,
{
    let n = pf.len() as int;
    let bs = batch_size;
    if m == 0 {
        assert(covered(n, bs, 0) == 0);
        assert(pf.subrange(0, 0) =~= Seq::<Seq<u32>>::empty());
        assert(Seq::<u32>::empty().to_set() =~= Set::<u32>::empty());
        assert(batch_union(batches, 0) =~= concat_all(
            pf.subrange(0, covered(n, bs, 0)),
        ).to_set());
    } else {
        lemma_chunks_cover_prefix(batches, pf, batch_size, m - 1);
        let q = chunk_count(n, bs);
        lemma_fundamental_div_mod(n + bs - 1, bs);
        lemma_mod_bound(n + bs - 1, bs);
        let rem = (n + bs - 1) % bs;
        assert(n + bs - 1 == bs * q + rem);
        lemma_mul_inequality(m - 1, q - 1, bs);
        assert((q - 1) * bs == q * bs - bs) by (nonlinear_arith);
        assert((m - 1) * bs <= (q - 1) * bs);
        assert(bs * q == q * bs) by (nonlinear_arith);
        assert((m - 1) * bs < n);
        let e0 = covered(n, bs, m - 1);
        let e1 = covered(n, bs, m);
        assert((m - 1) * bs == m * bs - bs) by (nonlinear_arith);
        assert(e0 == (m - 1) * bs);
        assert(chunk_end(n, bs, m - 1) == e1);
        assert(chunk_fps(pf, bs, m - 1) == concat_all(pf.subrange(e0, e1)));
        assert(batches[m - 1].fp_set() == chunk_fps(pf, bs, m - 1).to_set());
        lemma_concat_all_split(pf, 0, e0, e1);
        seq_to_set_distributes_over_add(
            concat_all(pf.subrange(0, e0)),
            concat_all(pf.subrange(e0, e1)),
        );
        assert(batch_union(batches, m) == batch_union(batches, m - 1) + batches[m - 1].fp_set());
        assert(batch_union(batches, m) =~= concat_all(pf.subrange(0, e1)).to_set());
    }
}

/// Law: the union over all produced batches of their fingerprint sets
/// equals the set of all fingerprints in the input; batching drops no
/// fingerprint, and each batch is deduplicated internally (the
/// `batches_match` premise carries the deduplication clause).
pub proof fn lemma_batches_cover(batches: Seq<Batch>, pf: Seq<Seq<u32>>, batch_size: int)
    requires
        batch_size >= 1,
        batches_match(batches, pf, batch_size),
    ensures
        batch_union(batches, batches.len() as int) == concat_all(pf).to_set(),
{
    let n = pf.len() as int;
    let bs = batch_size;
    let q = chunk_count(n, bs);
    lemma_chunks_cover_prefix(batches, pf, batch_size, batches.len() as int);
    lemma_fundamental_div_mod(n + bs - 1, bs);
    lemma_mod_bound(n + bs - 1, bs);
    assert(bs * q == q * bs) by (nonlinear_arith);
    assert(q * bs >= n);
    assert(covered(n, bs, q) == n);
    assert(pf.subrange(0, n) =~= pf);
}

/// Every batch among the first `n` contributes to their union.
proof fn lemma_batch_union_contains(batches: Seq<Batch>, n: int, i: int)
    requires
        0 <= i < n <= batches.len(),
    ensures
        batches[i].fp_set().subset_of(batch_union(batches, n)),
    decreases n,
{
    if i < n - 1 {
        lemma_batch_union_contains(batches, n - 1, i);
    }
}

/// Law: each batch's fingerprint set is a subset of the full extracted
/// fingerprint set.
pub proof fn lemma_batch_subset(batches: Seq<Batch>, pf: Seq<Seq<u32>>, batch_size: int, i: int)
    requires
        batch_size >= 1,
        batches_match(batches, pf, batch_size),
        0 <= i < batches.len(),
    ensures
        batches[i].fp_set().subset_of(concat_all(pf).to_set()),
{
    lemma_batch_union_contains(batches, batches.len() as int, i);
    lemma_batches_cover(batches, pf, batch_size);
}

/// Extracts a catalog's fingerprints and groups them into batches: the
/// whole preparation step before any request goes out.
pub fn audit_batches(packages: &Vec<Package>, batch_size: usize) -> (r: Vec<Batch>)
    requires
        batch_size >= 1,
    ensures
        batches_match(r@, catalog_fps(packages@), batch_size as int),
{
    let pf = extract_fingerprints(packages);
    make_batches(&pf, batch_size)
}

/// Law: batching is deterministic in effect. Any two outputs that meet
/// the batcher's contract for the same per-package fingerprint lists and
/// the same batch size have the same number of batches and, batch by
/// batch, identical fingerprint-set contents.
pub proof fn lemma_batching_deterministic(
    b1: Seq<Batch>,
    b2: Seq<Batch>,
    pf: Seq<Seq<u32>>,
    batch_size: int,
)
    requires
        batch_size >= 1,
        batches_match(b1, pf, batch_size),
        batches_match(b2, pf, batch_size),
    ensures
        b1.len() == b2.len(),
        forall|i: int| 0 <= i < b1.len() ==> #[trigger] b1[i].fp_set() == b2[i].fp_set(),
{
    assert forall|i: int| 0 <= i < b1.len() implies #[trigger] b1[i].fp_set() == b2[i].fp_set() by {
        assert(b1[i].fp_set() == chunk_fps(pf, batch_size, i).to_set());
        assert(b2[i].fp_set() == chunk_fps(pf, batch_size, i).to_set());
    }
}

/// Law: extracting and batching is idempotent. Two runs over the same
/// catalog with the same batch size yield batches with identical
/// fingerprint-set contents, whatever order each batch's fingerprints
/// happen to be carried in.
pub proof fn lemma_audit_idempotent(
    b1: Seq<Batch>,
    b2: Seq<Batch>,
    packages: Seq<Package>,
    batch_size: int,
)
    requires
        batch_size >= 1,
        batches_match(b1, catalog_fps(packages), batch_size),
        batches_match(b2, catalog_fps(packages), batch_size),
    ensures
        b1.len() == b2.len(),
        forall|i: int| 0 <= i < b1.len() ==> #[trigger] b1[i].fp_set() == b2[i].fp_set(),
{
    lemma_batching_deterministic(b1, b2, catalog_fps(packages), batch_size);
}

} // verus!

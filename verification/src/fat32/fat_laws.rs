//! What updating one FAT entry does to the entries of the FAT.
use vstd::prelude::*;
use crate::fat32::chain_laws::{chain_clusters, chain_ok, cluster_in_volume, lemma_read_after_write};
use crate::fat32::entry::le32;
use crate::fat32::fs::{
    cluster_bytes, cluster_sector, cluster_size, fat_copy_sector, fat_entry, fat_sector, fat_sector_with, geometry_ok,
    lemma_fat_copies_first, max_clusters, read_chain, write_chain, write_fat_copies, Geometry, CLUSTER_FREE,
    END_OF_CHAIN,
};

verus! {

/// The first FAT copy exists and has an entry for every cluster of the
/// volume, and every cluster number fits in an entry.
pub open spec fn fat_fits(g: Geometry) -> bool {
    &&& g.fat_count >= 1
    &&& 4 * max_clusters(g) <= 512 * g.sectors_per_fat
    &&& max_clusters(g) <= 0x0FFFFFF0
}

/// `cl` is a chain of distinct clusters of the volume, each linked to the
/// next by the FAT of `d`, the last one marking the end of the chain.
pub open spec fn linked_chain(g: Geometry, d: Seq<Seq<u8>>, cl: Seq<int>) -> bool {
    &&& cl.len() >= 1
    &&& forall|i: int| 0 <= i < cl.len() ==> 2 <= #[trigger] cl[i] < max_clusters(g)
    &&& forall|i: int, j: int| 0 <= i < j < cl.len() ==> cl[i] != cl[j]
    &&& forall|i: int| 0 <= i < cl.len() - 1 ==> fat_entry(g, d, #[trigger] cl[i]) == cl[i + 1]
    &&& fat_entry(g, d, cl.last()) == END_OF_CHAIN
}

/// `cl` is the chain of `n` clusters from `first` that allocation marked in
/// the FAT, taking `d0` to `d1`: each was free before, and no other entry
/// changed.
pub open spec fn allocated(g: Geometry, d0: Seq<Seq<u8>>, d1: Seq<Seq<u8>>, first: int, n: nat, cl: Seq<int>) -> bool {
    &&& cl.len() == n
    &&& cl[0] == first
    &&& linked_chain(g, d1, cl)
    &&& forall|i: int| 0 <= i < cl.len() ==> fat_entry(g, d0, #[trigger] cl[i]) == CLUSTER_FREE
    &&& forall|x: int| 0 <= x < max_clusters(g) && !cl.contains(x) ==> #[trigger] fat_entry(g, d1, x) == fat_entry(g, d0, x)
}

/// What allocation has built so far, taking `d0` to `d`: distinct clusters
/// of the volume, free on `d0`, each linked to the next, no other entry changed.
#[verifier::opaque]
pub open spec fn chain_in_progress(g: Geometry, d0: Seq<Seq<u8>>, d: Seq<Seq<u8>>, cl: Seq<int>) -> bool {
    &&& cl.len() >= 1
    &&& forall|i: int| 0 <= i < cl.len() ==> 2 <= #[trigger] cl[i] < max_clusters(g)
    &&& forall|i: int, j: int| 0 <= i < j < cl.len() ==> cl[i] != cl[j]
    &&& forall|i: int| 0 <= i < cl.len() - 1 ==> fat_entry(g, d, #[trigger] cl[i]) == cl[i + 1]
    &&& forall|i: int| 0 <= i < cl.len() ==> fat_entry(g, d0, #[trigger] cl[i]) == CLUSTER_FREE
    &&& forall|x: int| 0 <= x < max_clusters(g) && !cl.contains(x) ==> #[trigger] fat_entry(g, d, x) == fat_entry(g, d0, x)
}

/// Marking the last cluster of the chain keeps the chain in progress.
pub proof fn lemma_alloc_mark_last(g: Geometry, d0: Seq<Seq<u8>>, d1: Seq<Seq<u8>>, d2: Seq<Seq<u8>>, cl: Seq<int>, v: u32)
    requires
        chain_in_progress(g, d0, d1, cl),
        fat_entry(g, d2, cl.last()) == v,
        forall|x: int| 0 <= x < max_clusters(g) && x != cl.last() ==> #[trigger] fat_entry(g, d2, x) == fat_entry(g, d1, x),
    ensures
        chain_in_progress(g, d0, d2, cl),
{
    reveal(chain_in_progress);
    assert forall|j: int| 0 <= j < cl.len() - 1 implies fat_entry(g, d2, #[trigger] cl[j]) == cl[j + 1] by {
        assert(cl[j] != cl[cl.len() - 1]);
    }
    assert forall|x: int| 0 <= x < max_clusters(g) && !cl.contains(x) implies #[trigger] fat_entry(g, d2, x) == fat_entry(g, d0, x) by {
        if x == cl.last() {
            assert(cl.contains(cl[cl.len() - 1]));
        }
    }
}

/// A free cluster linked after the end-marked last cluster extends the chain.
pub proof fn lemma_alloc_extend(g: Geometry, d0: Seq<Seq<u8>>, d2: Seq<Seq<u8>>, d3: Seq<Seq<u8>>, cl: Seq<int>, next: int)
    requires
        chain_in_progress(g, d0, d2, cl),
        fat_entry(g, d2, cl.last()) == END_OF_CHAIN,
        2 <= next < max_clusters(g),
        fat_entry(g, d2, next) == CLUSTER_FREE,
        fat_entry(g, d3, cl.last()) == next,
        forall|x: int| 0 <= x < max_clusters(g) && x != cl.last() ==> #[trigger] fat_entry(g, d3, x) == fat_entry(g, d2, x),
    ensures
        chain_in_progress(g, d0, d3, cl.push(next)),
        fat_entry(g, d3, next) == CLUSTER_FREE,
        !cl.contains(next),
{
    reveal(chain_in_progress);
    assert(!cl.contains(next)) by {
        if cl.contains(next) {
            let j = choose|j: int| 0 <= j < cl.len() && cl[j] == next;
            if j < cl.len() - 1 {
                assert(fat_entry(g, d2, cl[j]) == cl[j + 1]);
            }
        }
    }
    let ncl = cl.push(next);
    assert forall|j: int| 0 <= j < ncl.len() - 1 implies fat_entry(g, d3, #[trigger] ncl[j]) == ncl[j + 1] by {
        if j < cl.len() - 1 {
            assert(ncl[j] == cl[j]);
            assert(cl[j] != cl[cl.len() - 1]);
        }
    }
    assert forall|x: int| 0 <= x < max_clusters(g) && !ncl.contains(x) implies #[trigger] fat_entry(g, d3, x) == fat_entry(g, d0, x) by {
        assert(!cl.contains(x)) by {
            if cl.contains(x) {
                let j = choose|j: int| 0 <= j < cl.len() && cl[j] == x;
                assert(ncl[j] == x);
            }
        }
        assert(x != cl.last()) by {
            if x == cl.last() {
                assert(cl.contains(cl[cl.len() - 1]));
            }
        }
    }
    assert forall|j: int| 0 <= j < ncl.len() implies fat_entry(g, d0, #[trigger] ncl[j]) == CLUSTER_FREE by {
        if j == ncl.len() - 1 {
            assert(fat_entry(g, d2, next) == fat_entry(g, d0, next));
        } else {
            assert(ncl[j] == cl[j]);
        }
    }
    assert forall|j: int, k: int| 0 <= j < k < ncl.len() implies ncl[j] != ncl[k] by {
        if k == ncl.len() - 1 {
            assert(cl.contains(cl[j]));
        } else {
            assert(ncl[j] == cl[j] && ncl[k] == cl[k]);
        }
    }
    assert forall|j: int| 0 <= j < ncl.len() implies 2 <= #[trigger] ncl[j] < max_clusters(g) by {
        if j < cl.len() {
            assert(ncl[j] == cl[j]);
        }
    }
    assert(fat_entry(g, d3, next) == fat_entry(g, d2, next)) by {
        assert(next != cl.last()) by {
            assert(cl.contains(cl[cl.len() - 1]));
        }
    }
}

/// The chain of one free cluster is in progress.
pub proof fn lemma_alloc_start(g: Geometry, d0: Seq<Seq<u8>>, c: int)
    requires
        2 <= c < max_clusters(g),
        fat_entry(g, d0, c) == CLUSTER_FREE,
    ensures
        chain_in_progress(g, d0, d0, seq![c]),
{
    reveal(chain_in_progress);
}

/// A chain in progress whose last cluster is end-marked is allocated.
pub proof fn lemma_alloc_done(g: Geometry, d0: Seq<Seq<u8>>, d: Seq<Seq<u8>>, cl: Seq<int>, first: int, n: nat)
    requires
        chain_in_progress(g, d0, d, cl),
        fat_entry(g, d, cl.last()) == END_OF_CHAIN,
        cl.len() == n,
        cl[0] == first,
    ensures
        allocated(g, d0, d, first, n, cl),
{
    reveal(chain_in_progress);
}

/// `cl` is the chain of clusters linked from `first` on the disk `d`.
pub open spec fn chain_from(g: Geometry, d: Seq<Seq<u8>>, first: int, cl: Seq<int>) -> bool {
    linked_chain(g, d, cl) && cl[0] == first
}

/// From `d0` to `d1`, the clusters of `cl` were marked free and nothing
/// else changed: no other FAT entry and no cluster's bytes.
pub open spec fn chain_freed(g: Geometry, d0: Seq<Seq<u8>>, d1: Seq<Seq<u8>>, cl: Seq<int>) -> bool {
    &&& d1.len() == d0.len()
    &&& forall|x: int| 0 <= x < max_clusters(g)
        ==> #[trigger] fat_entry(g, d1, x) == if cl.contains(x) { CLUSTER_FREE } else { fat_entry(g, d0, x) }
    &&& forall|x: int| 2 <= x < max_clusters(g) ==> #[trigger] cluster_bytes(g, d1, x) == cluster_bytes(g, d0, x)
}

/// What freeing has done so far along the chain from `first`: freed the
/// clusters of `w`, a prefix of the chain, and reached `cur`, the next one.
pub open spec fn freeing_at(g: Geometry, d0: Seq<Seq<u8>>, d: Seq<Seq<u8>>, first: int, w: Seq<int>, cur: int) -> bool {
    forall|cl: Seq<int>| #[trigger] chain_from(g, d0, first, cl)
        ==> w.len() < cl.len() && cur == cl[w.len() as int] && w == cl.subrange(0, w.len() as int)
            && chain_freed(g, d0, d, w)
}

/// Freeing the cluster reached extends the freed prefix by it; the entry
/// read before freeing it is the one the chain had.
pub proof fn lemma_free_step(
    g: Geometry,
    d0: Seq<Seq<u8>>,
    d1: Seq<Seq<u8>>,
    d2: Seq<Seq<u8>>,
    first: int,
    w: Seq<int>,
    cur: int,
    next: u32,
)
    requires
        geometry_ok(g),
        fat_fits(g),
        g.total_sectors <= d0.len(),
        d1.len() == d0.len(),
        freeing_at(g, d0, d1, first, w, cur),
        next == fat_entry(g, d1, cur),
        0 <= fat_sector(g, cur) < d1.len(),
        d1[fat_sector(g, cur)].len() == 512,
        forall|k: int| 0 <= k < g.fat_count ==> 0 <= #[trigger] fat_copy_sector(g, cur, k) < d1.len(),
        d2 == write_fat_copies(g, d1, cur, fat_sector_with(g, d1, cur, CLUSTER_FREE), g.fat_count as nat),
    ensures
        forall|cl: Seq<int>| #[trigger] chain_from(g, d0, first, cl) ==> {
            &&& chain_freed(g, d0, d2, w.push(cur))
            &&& next == fat_entry(g, d0, cl[w.len() as int])
            &&& w.push(cur) == cl.subrange(0, w.len() + 1 as int)
            &&& w.len() + 1 <= cl.len()
        },
{
    assert forall|cl: Seq<int>| #[trigger] chain_from(g, d0, first, cl) implies {
        &&& chain_freed(g, d0, d2, w.push(cur))
        &&& next == fat_entry(g, d0, cl[w.len() as int])
        &&& w.push(cur) == cl.subrange(0, w.len() + 1 as int)
        &&& w.len() + 1 <= cl.len()
    } by {
        let k = w.len() as int;
        assert(!w.contains(cl[k])) by {
            if w.contains(cl[k]) {
                let j = choose|j: int| 0 <= j < w.len() && w[j] == cl[k];
                assert(cl.subrange(0, k)[j] == cl[j]);
            }
        }
        assert(fat_entry(g, d1, cl[k]) == fat_entry(g, d0, cl[k]));
        crate::fat32::dir_chain::lemma_fat_update_frame(g, d1, cur, fat_sector_with(g, d1, cur, CLUSTER_FREE), CLUSTER_FREE);
        let nw = w.push(cur);
        assert forall|x: int| 0 <= x < max_clusters(g) implies #[trigger] fat_entry(g, d2, x)
            == if nw.contains(x) { CLUSTER_FREE } else { fat_entry(g, d0, x) } by {
            if x == cur {
                assert(nw[w.len() as int] == x);
            } else {
                assert(nw.contains(x) == w.contains(x)) by {
                    if w.contains(x) {
                        let j = choose|j: int| 0 <= j < w.len() && w[j] == x;
                        assert(nw[j] == x);
                    }
                    if nw.contains(x) {
                        let j = choose|j: int| 0 <= j < nw.len() && nw[j] == x;
                        assert(j < w.len());
                        assert(w[j] == x);
                    }
                }
            }
        }
        assert(w.push(cur) =~= cl.subrange(0, k + 1));
    }
}

/// Freeing stops where the chain ends: the whole chain is freed, and a
/// chain never links to a cluster number below 2.
pub proof fn lemma_free_stop(g: Geometry, d0: Seq<Seq<u8>>, d: Seq<Seq<u8>>, first: int, w: Seq<int>, next: u32)
    requires
        fat_fits(g),
        w.len() >= 1,
        forall|cl: Seq<int>| #[trigger] chain_from(g, d0, first, cl) ==> {
            &&& chain_freed(g, d0, d, w)
            &&& next == fat_entry(g, d0, cl[w.len() - 1])
            &&& w == cl.subrange(0, w.len() as int)
            &&& w.len() <= cl.len()
        },
        next >= END_OF_CHAIN || next < 2,
    ensures
        forall|cl: Seq<int>| #[trigger] chain_from(g, d0, first, cl) ==> chain_freed(g, d0, d, cl),
{
    assert forall|cl: Seq<int>| #[trigger] chain_from(g, d0, first, cl) implies chain_freed(g, d0, d, cl) by {
        let k = w.len() - 1;
        if k < cl.len() - 1 {
            assert(fat_entry(g, d0, cl[k]) == cl[k + 1]);
            assert(2 <= cl[k + 1] < max_clusters(g));
        }
        assert(w.len() == cl.len());
        assert(w =~= cl);
    }
}

/// Freeing goes on to the next cluster of the chain.
pub proof fn lemma_free_next(g: Geometry, d0: Seq<Seq<u8>>, d: Seq<Seq<u8>>, first: int, w: Seq<int>, next: u32)
    requires
        w.len() >= 1,
        forall|cl: Seq<int>| #[trigger] chain_from(g, d0, first, cl) ==> {
            &&& chain_freed(g, d0, d, w)
            &&& next == fat_entry(g, d0, cl[w.len() - 1])
            &&& w == cl.subrange(0, w.len() as int)
            &&& w.len() <= cl.len()
        },
        2 <= next < END_OF_CHAIN,
    ensures
        freeing_at(g, d0, d, first, w, next as int),
{
    assert forall|cl: Seq<int>| #[trigger] chain_from(g, d0, first, cl)
        implies w.len() < cl.len() && next as int == cl[w.len() as int] && w == cl.subrange(0, w.len() as int)
            && chain_freed(g, d0, d, w) by {
        let k = w.len() - 1;
        if k == cl.len() - 1 {
            assert(fat_entry(g, d0, cl[k]) == END_OF_CHAIN);
        }
        assert(fat_entry(g, d0, cl[k]) == cl[k + 1]);
    }
}

proof fn lemma_digits(x: u64)
    by (bit_vector)
    requires
        x < 0x1_0000_0000,
    ensures
        x % 256 + 256 * ((x / 256) % 256) + 65536 * ((x / 65536) % 256) + 16777216 * (x / 16777216) == x,
        x / 16777216 < 256,
{
}

proof fn lemma_masked(hi: int, v: int)
    by (nonlinear_arith)
    requires
        0 <= hi < 16,
        0 <= v < 0x10000000,
    ensures
        (hi * 0x10000000 + v) % 0x10000000 == v,
        hi * 0x10000000 + v < 0x1_0000_0000,
{
}

/// Writing the updated sector to the FAT copies leaves every sector but
/// the copies' alone, and the first copy holds the update.
proof fn lemma_copies_frame(g: Geometry, d: Seq<Seq<u8>>, c: int, ns: Seq<u8>, s: int)
    requires
        geometry_ok(g),
        fat_fits(g),
        0 <= c < max_clusters(g),
        0 <= fat_sector(g, c) < d.len(),
        forall|k: int| 0 <= k < g.fat_count ==> 0 <= #[trigger] fat_copy_sector(g, c, k) < d.len(),
        0 <= s < d.len(),
        g.fat_start <= s < g.fat_start + g.sectors_per_fat,
        s != fat_sector(g, c),
    ensures
        write_fat_copies(g, d, c, ns, g.fat_count as nat)[s] == d[s],
{
    lemma_copies_frame_upto(g, d, c, ns, s, g.fat_count as nat);
}

proof fn lemma_copies_frame_upto(g: Geometry, d: Seq<Seq<u8>>, c: int, ns: Seq<u8>, s: int, k: nat)
    requires
        geometry_ok(g),
        k <= g.fat_count,
        0 <= c,
        forall|j: int| 0 <= j < g.fat_count ==> 0 <= #[trigger] fat_copy_sector(g, c, j) < d.len(),
        0 <= s < d.len(),
        g.fat_start <= s < g.fat_start + g.sectors_per_fat,
        s != fat_sector(g, c),
    ensures
        write_fat_copies(g, d, c, ns, k).len() == d.len(),
        write_fat_copies(g, d, c, ns, k)[s] == d[s],
    decreases k,
{
    if k > 0 {
        lemma_copies_frame_upto(g, d, c, ns, s, (k - 1) as nat);
        assert(0 <= fat_copy_sector(g, c, k - 1) < d.len());
        if k - 1 >= 1 {
            assert(fat_copy_sector(g, c, k - 1) >= g.fat_start + g.sectors_per_fat) by (nonlinear_arith)
                requires
                    k - 1 >= 1,
                    g.sectors_per_fat >= 1,
                    c >= 0,
                    fat_copy_sector(g, c, k - 1) == g.fat_start + (k - 1) * g.sectors_per_fat + (4 * c) / 512,
            ;
        } else {
            assert(fat_copy_sector(g, c, 0) == fat_sector(g, c));
        }
    }
}

/// After the entry of cluster `c` is set to `v` (the upper four bits kept),
/// `c`'s entry reads `v` (cluster-number bits), and every other cluster's
/// entry is as it was.
pub proof fn lemma_fat_update(g: Geometry, d: Seq<Seq<u8>>, c: int, v: u32)
    requires
        geometry_ok(g),
        fat_fits(g),
        0 <= c < max_clusters(g),
        0 <= fat_sector(g, c) < d.len(),
        d[fat_sector(g, c)].len() == 512,
        forall|k: int| 0 <= k < g.fat_count ==> 0 <= #[trigger] fat_copy_sector(g, c, k) < d.len(),
        g.total_sectors <= d.len(),
    ensures
        ({
            let d2 = write_fat_copies(g, d, c, fat_sector_with(g, d, c, v), g.fat_count as nat);
            &&& d2.len() == d.len()
            &&& fat_entry(g, d2, c) == v % 0x10000000
            &&& forall|x: int| 0 <= x < max_clusters(g) && x != c ==> #[trigger] fat_entry(g, d2, x) == fat_entry(g, d, x)
        }),
{
    let ns = fat_sector_with(g, d, c, v);
    let d2 = write_fat_copies(g, d, c, ns, g.fat_count as nat);
    lemma_fat_copies_first(g, d, c, ns, g.fat_count as nat);
    lemma_len_only(g, d, c, ns, g.fat_count as nat);
    assert(g.fat_start + g.sectors_per_fat <= g.data_start) by (nonlinear_arith)
        requires
            g.data_start == g.fat_start + g.fat_count * g.sectors_per_fat,
            g.fat_count >= 1,
            g.sectors_per_fat >= 1,
    ;
    let s = d[fat_sector(g, c)];
    let off = (4 * c) % 512;
    assert(0 <= off <= 508 && off % 4 == 0) by (nonlinear_arith)
        requires
            off == (4 * c) % 512,
            c >= 0,
    ;
    let old_val = le32(s, off) as u64;
    let hi = old_val / 0x10000000;
    lemma_masked(hi as int, (v % 0x10000000) as int);
    let nv: u64 = (hi * 0x10000000 + v % 0x10000000) as u64;
    assert(nv == hi * 0x10000000 + v % 0x10000000);
    lemma_digits(nv);
    assert(le32(ns, off) == nv);
    assert(fat_entry(g, d2, c) == v % 0x10000000);
    assert forall|x: int| 0 <= x < max_clusters(g) && x != c implies #[trigger] fat_entry(g, d2, x) == fat_entry(g, d, x) by {
        let sx = fat_sector(g, x);
        assert(g.fat_start <= sx < g.fat_start + g.sectors_per_fat) by (nonlinear_arith)
            requires
                sx == g.fat_start + (4 * x) / 512,
                4 * max_clusters(g) <= 512 * g.sectors_per_fat,
                0 <= x < max_clusters(g),
        ;
        if sx == fat_sector(g, c) {
            let ox = (4 * x) % 512;
            assert(ox != off && ox % 4 == 0 && 0 <= ox <= 508) by (nonlinear_arith)
                requires
                    ox == (4 * x) % 512,
                    off == (4 * c) % 512,
                    (4 * x) / 512 == (4 * c) / 512,
                    x != c,
                    x >= 0,
                    c >= 0,
            ;
            assert(d2[sx] == ns);
            assert(ns[ox] == s[ox] && ns[ox + 1] == s[ox + 1] && ns[ox + 2] == s[ox + 2] && ns[ox + 3] == s[ox + 3]);
        } else {
            lemma_copies_frame(g, d, c, ns, sx);
        }
    }
}

proof fn lemma_len_only(g: Geometry, d: Seq<Seq<u8>>, c: int, ns: Seq<u8>, k: nat)
    requires
        k <= g.fat_count,
        forall|j: int| 0 <= j < g.fat_count ==> 0 <= #[trigger] fat_copy_sector(g, c, j) < d.len(),
    ensures
        write_fat_copies(g, d, c, ns, k).len() == d.len(),
    decreases k,
{
    if k > 0 {
        lemma_len_only(g, d, c, ns, (k - 1) as nat);
        assert(0 <= fat_copy_sector(g, c, k - 1) < d.len());
    }
}


proof fn lemma_chain_step(len: int, k: int, cs: int, m: int)
    by (nonlinear_arith)
    requires
        cs >= 1,
        0 <= k < len,
        cs < m <= (len - k) * cs,
    ensures
        k + 1 < len,
        m - cs <= (len - (k + 1)) * cs,
{
}

pub(crate) proof fn lemma_chain_follows(g: Geometry, d: Seq<Seq<u8>>, cl: Seq<int>, k: int, m: nat)
    requires
        geometry_ok(g),
        fat_fits(g),
        linked_chain(g, d, cl),
        0 <= k < cl.len(),
        0 < m <= (cl.len() - k) * cluster_size(g),
    ensures
        ({
            let l = chain_clusters(g, d, cl[k], m);
            &&& 1 <= l.len() <= cl.len() - k
            &&& forall|i: int| 0 <= i < l.len() ==> #[trigger] l[i] == cl[k + i]
        }),
    decreases m,
{
    let cs = cluster_size(g);
    let len = cl.len() as int;
    let l = chain_clusters(g, d, cl[k], m);
    if m > cs {
        lemma_chain_step(len, k, cs, m as int);
        let nx = cl[k + 1];
        assert(fat_entry(g, d, cl[k]) == nx);
        assert(2 <= nx < max_clusters(g));
        let rest_n = (m - cs) as nat;
        lemma_chain_follows(g, d, cl, k + 1, rest_n);
        let rest = chain_clusters(g, d, nx, rest_n);
        assert(l == seq![cl[k]] + rest);
        assert forall|i: int| 0 <= i < l.len() implies #[trigger] l[i] == cl[k + i] by {
            if i > 0 {
                assert(l[i] == rest[i - 1]);
                assert(rest[i - 1] == cl[k + 1 + (i - 1)]);
            }
        }
    }
}

/// A cluster of the volume lies on a disk that holds the whole volume.
pub(crate) proof fn lemma_in_volume(g: Geometry, d: Seq<Seq<u8>>, c: int)
    requires
        geometry_ok(g),
        fat_fits(g),
        g.total_sectors <= d.len(),
        2 <= c < max_clusters(g),
    ensures
        cluster_in_volume(g, d, c),
{
    let spc = g.sectors_per_cluster;
    let mc = max_clusters(g);
    assert((c - 1) * spc <= g.total_sectors - g.data_start) by (nonlinear_arith)
        requires
            c < mc,
            mc == (g.total_sectors - g.data_start) / spc,
            spc >= 1,
            g.total_sectors >= g.data_start,
    ;
    assert(cluster_sector(g, c) + spc == g.data_start + (c - 1) * spc) by (nonlinear_arith)
        requires
            cluster_sector(g, c) == g.data_start + (c - 2) * spc,
    ;
    assert(fat_sector(g, c) < g.data_start) by (nonlinear_arith)
        requires
            fat_sector(g, c) == g.fat_start + (4 * c) / 512,
            4 * mc <= 512 * g.sectors_per_fat,
            c < mc,
            g.data_start == g.fat_start + g.fat_count * g.sectors_per_fat,
            g.fat_count >= 1,
            g.sectors_per_fat >= 1,
    ;
}

/// Reading back what was written along a newly allocated chain gives the
/// data written, when the data fits in the chain.
pub proof fn lemma_allocate_write_read(
    g: Geometry,
    d0: Seq<Seq<u8>>,
    d1: Seq<Seq<u8>>,
    d2: Seq<Seq<u8>>,
    first: int,
    n: nat,
    cl: Seq<int>,
    data: Seq<u8>,
)
    requires
        geometry_ok(g),
        fat_fits(g),
        g.total_sectors <= d1.len(),
        allocated(g, d0, d1, first, n, cl),
        0 < data.len() <= n * cluster_size(g),
        write_chain(g, d1, first, data) == Some(d2),
    ensures
        read_chain(g, d2, first, data.len()) == data,
        chain_ok(g, d1, first, data.len()),
        chain_clusters(g, d1, first, data.len()).len() <= cl.len(),
        forall|i: int| 0 <= i < chain_clusters(g, d1, first, data.len()).len()
            ==> #[trigger] chain_clusters(g, d1, first, data.len())[i] == cl[i],
{
    lemma_chain_follows(g, d1, cl, 0, data.len());
    let l = chain_clusters(g, d1, first, data.len());
    assert forall|i: int| 0 <= i < l.len() implies #[trigger] l[i] == cl[i] by {
        assert(l[i] == cl[0 + i]);
    }
    assert forall|i: int| 0 <= i < l.len() implies cluster_in_volume(g, d1, #[trigger] l[i]) by {
        assert(l[i] == cl[0 + i]);
        lemma_in_volume(g, d1, cl[i]);
    }
    assert forall|i: int, j: int| 0 <= i < j < l.len() implies l[i] != l[j] by {
        assert(l[i] == cl[0 + i] && l[j] == cl[0 + j]);
    }
    assert(chain_ok(g, d1, first, data.len()));
    lemma_read_after_write(g, d1, first, data);
}
} // verus!

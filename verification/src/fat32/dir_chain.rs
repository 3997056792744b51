//! The clusters of a directory chain, and what writing a directory leaves
//! alone: the other clusters in use.
use vstd::prelude::*;
use crate::fat32::chain_laws::{
    chain_clusters, chain_ok, cluster_in_volume, lemma_chain_same, lemma_cluster_ranges, lemma_concat_same,
    lemma_fat_entry_same, lemma_read_after_write, lemma_write_chain_frame, lemma_write_run,
};
use crate::fat32::fat_laws::{
    allocated, chain_freed, chain_from, fat_fits, lemma_allocate_write_read, lemma_chain_follows, lemma_in_volume, linked_chain,
};
use crate::fat32::fs::{
    cluster_bytes, cluster_sector, cluster_size, fat_copy_sector, fat_entry, fat_sector, geometry_ok,
    max_clusters, read_chain, write_chain, write_cluster_spec, write_fat_copies, Geometry, CLUSTER_FREE,
    END_OF_CHAIN, MAX_CHAIN,
};

verus! {

/// Cluster `x` is reached from cluster `c` by following `n` FAT links, each
/// from an entry that does not end the chain.
pub open spec fn reaches(g: Geometry, d: Seq<Seq<u8>>, c: int, x: int, n: nat) -> bool
    decreases n,
{
    if n == 0 {
        x == c
    } else {
        fat_entry(g, d, c) < END_OF_CHAIN && reaches(g, d, fat_entry(g, d, c) as int, x, (n - 1) as nat)
    }
}

/// Cluster `x` is one of the clusters that a walk of the directory chain
/// from `c` visits.
pub open spec fn in_dir_chain(g: Geometry, d: Seq<Seq<u8>>, c: int, x: int) -> bool {
    exists|n: nat| n < MAX_CHAIN && #[trigger] reaches(g, d, c, x, n)
}

/// Every cluster of the directory chain from `c` is a data cluster of the
/// volume that the FAT marks as in use.
pub open spec fn dir_chain_ok(g: Geometry, d: Seq<Seq<u8>>, c: int) -> bool {
    forall|x: int| #[trigger] in_dir_chain(g, d, c, x) ==> 2 <= x < max_clusters(g) && fat_entry(g, d, x) != CLUSTER_FREE
}

/// Cluster `x` is in use on the disk `d` and lies outside the directory
/// chain from `c`.
pub open spec fn outside_dir(g: Geometry, d: Seq<Seq<u8>>, c: int, x: int) -> bool {
    &&& 2 <= x < max_clusters(g)
    &&& fat_entry(g, d, x) != CLUSTER_FREE
    &&& !in_dir_chain(g, d, c, x)
}

/// From `d0` to `d1`, every cluster in use outside the directory chain from
/// `c` kept its FAT entry and its bytes.
pub open spec fn dir_frame(g: Geometry, d0: Seq<Seq<u8>>, d1: Seq<Seq<u8>>, c: int) -> bool {
    &&& d1.len() == d0.len()
    &&& forall|x: int| #[trigger] outside_dir(g, d0, c, x)
        ==> fat_entry(g, d1, x) == fat_entry(g, d0, x) && cluster_bytes(g, d1, x) == cluster_bytes(g, d0, x)
}

/// From `d0` to `d1`, only the bytes of cluster `c` changed among the
/// clusters of the volume, and no FAT entry changed.
pub open spec fn cluster_frame(g: Geometry, d0: Seq<Seq<u8>>, d1: Seq<Seq<u8>>, c: int) -> bool {
    &&& d1.len() == d0.len()
    &&& forall|x: int| 0 <= x < max_clusters(g) ==> #[trigger] fat_entry(g, d1, x) == fat_entry(g, d0, x)
    &&& forall|x: int| 2 <= x < max_clusters(g) && x != c ==> #[trigger] cluster_bytes(g, d1, x) == cluster_bytes(g, d0, x)
}

/// A write that changes one cluster, of the directory or free before,
/// keeps the clusters in use outside the directory.
pub proof fn lemma_dir_frame_step(g: Geometry, d0: Seq<Seq<u8>>, d1: Seq<Seq<u8>>, d2: Seq<Seq<u8>>, dc: int, c: int)
    requires
        dir_frame(g, d0, d1, dc),
        cluster_frame(g, d1, d2, c),
        in_dir_chain(g, d0, dc, c) || fat_entry(g, d0, c) == CLUSTER_FREE,
    ensures
        dir_frame(g, d0, d2, dc),
{
    assert forall|x: int| #[trigger] outside_dir(g, d0, dc, x)
        implies fat_entry(g, d2, x) == fat_entry(g, d0, x) && cluster_bytes(g, d2, x) == cluster_bytes(g, d0, x) by {
        assert(x != c);
        assert(fat_entry(g, d2, x) == fat_entry(g, d1, x));
    }
}

/// The volume's FAT and data region fit the disk, and the directory chain
/// from `c` is made of clusters in use.
pub open spec fn dir_volume_ok(g: Geometry, d: Seq<Seq<u8>>, c: int) -> bool {
    &&& fat_fits(g)
    &&& g.total_sectors <= d.len()
    &&& dir_chain_ok(g, d, c)
}

pub proof fn lemma_reaches_step(g: Geometry, d: Seq<Seq<u8>>, c: int, y: int, k: nat)
    requires
        reaches(g, d, c, y, k),
        fat_entry(g, d, y) < END_OF_CHAIN,
    ensures
        reaches(g, d, c, fat_entry(g, d, y) as int, k + 1),
    decreases k,
{
    if k > 0 {
        lemma_reaches_step(g, d, fat_entry(g, d, c) as int, y, (k - 1) as nat);
    } else {
        assert(reaches(g, d, fat_entry(g, d, y) as int, fat_entry(g, d, y) as int, 0));
    }
}

proof fn lemma_reaches_kept(g: Geometry, d0: Seq<Seq<u8>>, d1: Seq<Seq<u8>>, c: int, y: int, k: nat, x: int, n: nat)
    requires
        reaches(g, d0, c, y, k),
        k + n < MAX_CHAIN,
        reaches(g, d1, y, x, n),
        forall|z: int| #[trigger] in_dir_chain(g, d0, c, z) ==> fat_entry(g, d1, z) == fat_entry(g, d0, z),
    ensures
        reaches(g, d0, y, x, n),
    decreases n,
{
    if n > 0 {
        assert(in_dir_chain(g, d0, c, y));
        let nx = fat_entry(g, d0, y);
        lemma_reaches_step(g, d0, c, y, k);
        lemma_reaches_kept(g, d0, d1, c, nx as int, k + 1, x, (n - 1) as nat);
    }
}

/// When the FAT entries of the directory chain from `c` are unchanged, the
/// chain is unchanged: no cluster joins it.
pub proof fn lemma_dir_chain_kept(g: Geometry, d0: Seq<Seq<u8>>, d1: Seq<Seq<u8>>, c: int)
    requires
        forall|z: int| #[trigger] in_dir_chain(g, d0, c, z) ==> fat_entry(g, d1, z) == fat_entry(g, d0, z),
    ensures
        forall|x: int| #[trigger] in_dir_chain(g, d1, c, x) ==> in_dir_chain(g, d0, c, x),
{
    assert forall|x: int| #[trigger] in_dir_chain(g, d1, c, x) implies in_dir_chain(g, d0, c, x) by {
        let n = choose|n: nat| n < MAX_CHAIN && #[trigger] reaches(g, d1, c, x, n);
        lemma_reaches_kept(g, d0, d1, c, c, 0, x, n);
    }
}

/// The sectors of FAT copies lie before the data region.
proof fn lemma_fat_copies_keep_data(g: Geometry, d: Seq<Seq<u8>>, c: int, ns: Seq<u8>, k: nat)
    requires
        geometry_ok(g),
        fat_fits(g),
        0 <= c < max_clusters(g),
        k <= g.fat_count,
        forall|j: int| 0 <= j < g.fat_count ==> 0 <= #[trigger] fat_copy_sector(g, c, j) < d.len(),
    ensures
        write_fat_copies(g, d, c, ns, k).len() == d.len(),
        forall|s: int| g.data_start <= s < d.len() ==> #[trigger] write_fat_copies(g, d, c, ns, k)[s] == d[s],
    decreases k,
{
    if k > 0 {
        lemma_fat_copies_keep_data(g, d, c, ns, (k - 1) as nat);
        assert(0 <= fat_copy_sector(g, c, k - 1) < d.len());
        assert(fat_copy_sector(g, c, k - 1) < g.data_start) by (nonlinear_arith)
            requires
                fat_copy_sector(g, c, k - 1) == g.fat_start + (k - 1) * g.sectors_per_fat + (4 * c) / 512,
                g.data_start == g.fat_start + g.fat_count * g.sectors_per_fat,
                1 <= k <= g.fat_count,
                4 * max_clusters(g) <= 512 * g.sectors_per_fat,
                0 <= c < max_clusters(g),
        ;
    }
}

/// Clusters whose sectors did not change kept their bytes.
proof fn lemma_data_kept(g: Geometry, d0: Seq<Seq<u8>>, d1: Seq<Seq<u8>>, x: int)
    requires
        geometry_ok(g),
        d1.len() == d0.len(),
        forall|s: int| g.data_start <= s < d0.len() ==> #[trigger] d1[s] == d0[s],
        2 <= x,
        cluster_sector(g, x) + g.sectors_per_cluster <= d0.len(),
    ensures
        cluster_bytes(g, d1, x) == cluster_bytes(g, d0, x),
{
    let sx = cluster_sector(g, x);
    assert((x - 2) * g.sectors_per_cluster >= 0) by (nonlinear_arith)
        requires
            x >= 2,
            g.sectors_per_cluster >= 1,
    ;
    assert forall|k: int| 0 <= k < g.sectors_per_cluster implies #[trigger] d1[sx + k] == d0[sx + k] by {
        assert(g.data_start <= sx + k < d0.len());
    }
    lemma_concat_same(d1, d0, sx, g.sectors_per_cluster as nat);
}

/// Updating the FAT entry of cluster `c` in every copy leaves the bytes of
/// every cluster of the volume, and the FAT entry of every other cluster.
pub proof fn lemma_fat_update_frame(g: Geometry, d: Seq<Seq<u8>>, c: int, ns: Seq<u8>, v: u32)
    requires
        geometry_ok(g),
        fat_fits(g),
        0 <= c < max_clusters(g),
        g.total_sectors <= d.len(),
        0 <= fat_sector(g, c) < d.len(),
        d[fat_sector(g, c)].len() == 512,
        forall|k: int| 0 <= k < g.fat_count ==> 0 <= #[trigger] fat_copy_sector(g, c, k) < d.len(),
        ns == crate::fat32::fs::fat_sector_with(g, d, c, v),
    ensures
        ({
            let d2 = write_fat_copies(g, d, c, ns, g.fat_count as nat);
            &&& d2.len() == d.len()
            &&& fat_entry(g, d2, c) == v % 0x10000000
            &&& forall|x: int| 0 <= x < max_clusters(g) && x != c ==> #[trigger] fat_entry(g, d2, x) == fat_entry(g, d, x)
            &&& forall|x: int| 2 <= x < max_clusters(g) ==> #[trigger] cluster_bytes(g, d2, x) == cluster_bytes(g, d, x)
        }),
{
    crate::fat32::fat_laws::lemma_fat_update(g, d, c, v);
    lemma_fat_copies_keep_data(g, d, c, ns, g.fat_count as nat);
    let d2 = write_fat_copies(g, d, c, ns, g.fat_count as nat);
    assert forall|x: int| 2 <= x < max_clusters(g) implies #[trigger] cluster_bytes(g, d2, x) == cluster_bytes(g, d, x) by {
        lemma_in_volume(g, d, x);
        lemma_data_kept(g, d, d2, x);
    }
}

/// Writing cluster `c` leaves every sector before the data region and the
/// bytes of every other cluster of the volume.
pub proof fn lemma_cluster_write_frame(g: Geometry, d: Seq<Seq<u8>>, c: int, buf: Seq<u8>)
    requires
        geometry_ok(g),
        fat_fits(g),
        g.total_sectors <= d.len(),
        2 <= c,
        cluster_sector(g, c) + g.sectors_per_cluster <= d.len(),
        buf.len() >= cluster_size(g),
    ensures
        ({
            let d1 = write_cluster_spec(g, d, c, buf);
            &&& d1.len() == d.len()
            &&& forall|x: int| 0 <= x < max_clusters(g) ==> #[trigger] fat_entry(g, d1, x) == fat_entry(g, d, x)
            &&& forall|x: int| 2 <= x < max_clusters(g) && x != c ==> #[trigger] cluster_bytes(g, d1, x) == cluster_bytes(g, d, x)
        }),
{
    let spc = g.sectors_per_cluster;
    let start = cluster_sector(g, c);
    let d1 = write_cluster_spec(g, d, c, buf);
    assert(buf.len() >= 512 * (spc as nat));
    lemma_write_run(d, start, buf, spc as nat);
    lemma_cluster_ranges(g, c, c + 1);
    assert forall|x: int| 0 <= x < max_clusters(g) implies #[trigger] fat_entry(g, d1, x) == fat_entry(g, d, x) by {
        if x >= 2 {
            lemma_in_volume(g, d, x);
        } else {
            assert(fat_sector(g, x) == g.fat_start);
            assert(g.fat_start < g.data_start) by (nonlinear_arith)
                requires
                    g.data_start == g.fat_start + g.fat_count * g.sectors_per_fat,
                    g.fat_count >= 1,
                    g.sectors_per_fat >= 1,
            ;
        }
        assert forall|s: int| 0 <= s < g.data_start implies #[trigger] d1[s] == d[s] by {
            if s < d.len() {
                assert(!(start <= s < start + spc));
            }
        }
        assert(0 <= fat_sector(g, x)) by {
            assert(4 * x >= 0);
        }
        lemma_fat_entry_same(g, d1, d, x);
    }
    assert forall|x: int| 2 <= x < max_clusters(g) && x != c implies #[trigger] cluster_bytes(g, d1, x) == cluster_bytes(g, d, x) by {
        lemma_in_volume(g, d, x);
        lemma_cluster_ranges(g, c, x);
        let sx = cluster_sector(g, x);
        assert forall|k: int| 0 <= k < spc implies #[trigger] d1[sx + k] == d[sx + k] by {
            assert(!(start <= sx + k < start + spc));
        }
        lemma_concat_same(d1, d, sx, spc as nat);
    }
}

/// Reading a chain gives the same bytes on two disks where its clusters
/// hold the same bytes and, where the read goes on past them, the same FAT
/// entries.
pub proof fn lemma_read_chain_same(g: Geometry, da: Seq<Seq<u8>>, db: Seq<Seq<u8>>, c: int, n: nat)
    requires
        geometry_ok(g),
        forall|i: int| 0 <= i < chain_clusters(g, da, c, n).len() ==> {
            let x = #[trigger] chain_clusters(g, da, c, n)[i];
            &&& cluster_bytes(g, db, x) == cluster_bytes(g, da, x)
            &&& n > (i + 1) * cluster_size(g) ==> fat_entry(g, db, x) == fat_entry(g, da, x)
        },
    ensures
        read_chain(g, db, c, n) == read_chain(g, da, c, n),
    decreases n,
{
    let cl = chain_clusters(g, da, c, n);
    assert(cl[0] == c);
    let cs = cluster_size(g);
    if n > cs {
        assert(n > (0 + 1) * cs);
        let nx = fat_entry(g, da, c);
        if nx < END_OF_CHAIN {
            let rest = chain_clusters(g, da, nx as int, (n - cs) as nat);
            assert(cl == seq![c] + rest);
            assert forall|i: int| 0 <= i < rest.len() implies {
                let x = #[trigger] rest[i];
                &&& cluster_bytes(g, db, x) == cluster_bytes(g, da, x)
                &&& (n - cs) as nat > (i + 1) * cs ==> fat_entry(g, db, x) == fat_entry(g, da, x)
            } by {
                assert(rest[i] == cl[i + 1]);
                assert((i + 1 + 1) * cs == (i + 1) * cs + cs) by (nonlinear_arith);
            }
            lemma_read_chain_same(g, da, db, nx as int, (n - cs) as nat);
        }
    }
}

/// A chain holding `n > 0` bytes spans at most as many clusters as `n`
/// bytes fill.
pub proof fn lemma_chain_length(g: Geometry, d: Seq<Seq<u8>>, c: int, n: nat)
    requires
        geometry_ok(g),
        n > 0,
    ensures
        chain_clusters(g, d, c, n).len() <= crate::fat32::files::clusters_for(n as int, cluster_size(g)),
    decreases n,
{
    let cs = cluster_size(g);
    if n > cs {
        let nx = fat_entry(g, d, c);
        if nx < END_OF_CHAIN {
            lemma_chain_length(g, d, nx as int, (n - cs) as nat);
        }
        assert(crate::fat32::files::clusters_for(n as int, cs) == crate::fat32::files::clusters_for(n - cs, cs) + 1) by {
            vstd::arithmetic::div_mod::lemma_mod_sub_multiples_vanish(n as int, cs);
            vstd::arithmetic::div_mod::lemma_div_minus_one(n as int, cs);
            assert((-cs + n) % cs == (n - cs) % cs);
            assert((-cs + n) / cs == (n - cs) / cs);
        }
        assert(crate::fat32::files::clusters_for(n - cs, cs) >= 1) by (nonlinear_arith)
            requires
                n - cs > 0,
                cs > 0,
                crate::fat32::files::clusters_for(n - cs, cs) == if (n - cs) % cs == 0 { (n - cs) / cs } else { (n - cs) / cs + 1 },
        ;
    } else {
        assert(crate::fat32::files::clusters_for(n as int, cs) >= 1) by (nonlinear_arith)
            requires
                n > 0,
                cs > 0,
                crate::fat32::files::clusters_for(n as int, cs) == if (n as int) % cs == 0 { (n as int) / cs } else { (n as int) / cs + 1 },
        ;
    }
}

/// Data written to a newly allocated chain, followed by a write of the
/// directory at `dir` that keeps the clusters in use outside it, reads back
/// from the chain: allocation took free clusters, so none belongs to the
/// directory.
#[verifier::rlimit(80)]
pub proof fn lemma_allocated_data_kept(
    g: Geometry,
    d0: Seq<Seq<u8>>,
    d1: Seq<Seq<u8>>,
    d2: Seq<Seq<u8>>,
    d3: Seq<Seq<u8>>,
    dir: int,
    first: int,
    n: nat,
    cl: Seq<int>,
    data: Seq<u8>,
)
    requires
        geometry_ok(g),
        dir_volume_ok(g, d0, dir),
        d1.len() == d0.len(),
        allocated(g, d0, d1, first, n, cl),
        0 < data.len() <= n * cluster_size(g),
        write_chain(g, d1, first, data) == Some(d2),
        dir_volume_ok(g, d2, dir) ==> dir_frame(g, d2, d3, dir),
    ensures
        read_chain(g, d3, first, data.len()) == data,
{
    lemma_allocate_write_read(g, d0, d1, d2, first, n, cl, data);
    lemma_write_chain_frame(g, d1, first, data);
    lemma_chain_same(g, d2, d1, first, data.len());
    let l = chain_clusters(g, d1, first, data.len());
    assert forall|z: int| #[trigger] in_dir_chain(g, d0, dir, z) implies fat_entry(g, d2, z) == fat_entry(g, d0, z) by {
        assert(!cl.contains(z)) by {
            if cl.contains(z) {
                let i = choose|i: int| 0 <= i < cl.len() && cl[i] == z;
                assert(fat_entry(g, d0, cl[i]) == CLUSTER_FREE);
            }
        }
        lemma_in_volume(g, d1, z);
        assert(0 <= fat_sector(g, z)) by {
            assert(4 * z >= 0);
        }
        lemma_fat_entry_same(g, d2, d1, z);
    }
    lemma_dir_chain_kept(g, d0, d2, dir);
    assert(dir_chain_ok(g, d2, dir)) by {
        assert forall|x: int| #[trigger] in_dir_chain(g, d2, dir, x) implies 2 <= x < max_clusters(g) && fat_entry(g, d2, x) != CLUSTER_FREE by {
            assert(in_dir_chain(g, d0, dir, x));
        }
    }
    assert(dir_frame(g, d2, d3, dir));
    assert forall|i: int| 0 <= i < chain_clusters(g, d2, first, data.len()).len() implies {
        let x = #[trigger] chain_clusters(g, d2, first, data.len())[i];
        cluster_bytes(g, d3, x) == cluster_bytes(g, d2, x) && fat_entry(g, d3, x) == fat_entry(g, d2, x)
    } by {
        let x = l[i];
        assert(x == cl[i]);
        lemma_in_volume(g, d1, x);
        assert(0 <= fat_sector(g, x)) by {
            assert(4 * x >= 0);
        }
        lemma_fat_entry_same(g, d2, d1, x);
        assert(fat_entry(g, d2, x) != CLUSTER_FREE) by {
            if i < cl.len() - 1 {
                assert(fat_entry(g, d1, cl[i]) == cl[i + 1]);
            }
        }
        assert(!in_dir_chain(g, d2, dir, x)) by {
            if in_dir_chain(g, d2, dir, x) {
                assert(in_dir_chain(g, d0, dir, x));
                assert(fat_entry(g, d0, cl[i]) == CLUSTER_FREE);
            }
        }
        assert(outside_dir(g, d2, dir, x));
    }
    lemma_read_chain_same(g, d2, d3, first, data.len());
}

/// The file whose chain starts at `first` and holds `size` bytes is stored
/// as a linked chain of clusters in use outside the directory at `dir`, one
/// cluster per started cluster-size of bytes.
pub open spec fn file_chain_ok(g: Geometry, d: Seq<Seq<u8>>, dir: int, first: int, size: int) -> bool {
    exists|cl: Seq<int>| #[trigger] stored_chain(g, d, dir, first, size, cl)
}

/// `cl` is the stored chain of the file (see `file_chain_ok`).
pub open spec fn stored_chain(g: Geometry, d: Seq<Seq<u8>>, dir: int, first: int, size: int, cl: Seq<int>) -> bool {
    &&& size > 0
    &&& cl.len() == crate::fat32::files::clusters_for(size, cluster_size(g))
    &&& cl[0] == first
    &&& linked_chain(g, d, cl)
    &&& forall|i: int| 0 <= i < cl.len() ==> #[trigger] outside_dir(g, d, dir, cl[i])
}

/// Data rewritten along a stored chain that holds it, followed by a write
/// of the directory at `dir` that keeps the clusters in use outside it,
/// reads back from the chain.
#[verifier::rlimit(80)]
pub proof fn lemma_rewrite_kept(
    g: Geometry,
    d0: Seq<Seq<u8>>,
    d1: Seq<Seq<u8>>,
    d2: Seq<Seq<u8>>,
    dir: int,
    cl: Seq<int>,
    data: Seq<u8>,
)
    requires
        geometry_ok(g),
        dir_volume_ok(g, d0, dir),
        linked_chain(g, d0, cl),
        forall|i: int| 0 <= i < cl.len() ==> #[trigger] outside_dir(g, d0, dir, cl[i]),
        0 < data.len() <= cl.len() * cluster_size(g),
        write_chain(g, d0, cl[0], data) == Some(d1),
        dir_volume_ok(g, d1, dir) ==> dir_frame(g, d1, d2, dir),
    ensures
        read_chain(g, d2, cl[0], data.len()) == data,
{
    let first = cl[0];
    lemma_chain_follows(g, d0, cl, 0, data.len());
    let l = chain_clusters(g, d0, first, data.len());
    assert forall|i: int| 0 <= i < l.len() implies #[trigger] l[i] == cl[i] by {
        assert(l[i] == cl[0 + i]);
    }
    assert forall|i: int| 0 <= i < l.len() implies cluster_in_volume(g, d0, #[trigger] l[i]) by {
        lemma_in_volume(g, d0, cl[i]);
    }
    assert forall|i: int, j: int| 0 <= i < j < l.len() implies l[i] != l[j] by {
        assert(l[i] == cl[i] && l[j] == cl[j]);
    }
    assert(chain_ok(g, d0, first, data.len()));
    lemma_read_after_write(g, d0, first, data);
    lemma_write_chain_frame(g, d0, first, data);
    lemma_chain_same(g, d1, d0, first, data.len());
    assert forall|z: int| 0 <= z < max_clusters(g) implies #[trigger] fat_entry(g, d1, z) == fat_entry(g, d0, z) by {
        if z >= 2 {
            lemma_in_volume(g, d0, z);
        } else {
            assert(fat_sector(g, z) == g.fat_start);
            assert(g.fat_start < g.data_start) by (nonlinear_arith)
                requires
                    g.data_start == g.fat_start + g.fat_count * g.sectors_per_fat,
                    g.fat_count >= 1,
                    g.sectors_per_fat >= 1,
            ;
        }
        assert(0 <= fat_sector(g, z)) by {
            assert(4 * z >= 0);
        }
        lemma_fat_entry_same(g, d1, d0, z);
    }
    assert forall|z: int| #[trigger] in_dir_chain(g, d0, dir, z) implies fat_entry(g, d1, z) == fat_entry(g, d0, z) by {
        assert(fat_entry(g, d1, z) == fat_entry(g, d0, z));
    }
    lemma_dir_chain_kept(g, d0, d1, dir);
    assert(dir_chain_ok(g, d1, dir)) by {
        assert forall|x: int| #[trigger] in_dir_chain(g, d1, dir, x) implies 2 <= x < max_clusters(g) && fat_entry(g, d1, x) != CLUSTER_FREE by {
            assert(in_dir_chain(g, d0, dir, x));
        }
    }
    assert(dir_frame(g, d1, d2, dir));
    assert forall|i: int| 0 <= i < chain_clusters(g, d1, first, data.len()).len() implies {
        let x = #[trigger] chain_clusters(g, d1, first, data.len())[i];
        cluster_bytes(g, d2, x) == cluster_bytes(g, d1, x) && fat_entry(g, d2, x) == fat_entry(g, d1, x)
    } by {
        let x = l[i];
        assert(x == cl[i]);
        assert(outside_dir(g, d0, dir, cl[i]));
        assert(!in_dir_chain(g, d1, dir, x)) by {
            if in_dir_chain(g, d1, dir, x) {
                assert(in_dir_chain(g, d0, dir, x));
            }
        }
        assert(outside_dir(g, d1, dir, x));
    }
    lemma_read_chain_same(g, d1, d2, first, data.len());
}

/// Rewriting data along a stored chain leaves the FAT as it was.
pub proof fn lemma_rewrite_keeps_fat(g: Geometry, d0: Seq<Seq<u8>>, d1: Seq<Seq<u8>>, cl: Seq<int>, data: Seq<u8>)
    requires
        geometry_ok(g),
        fat_fits(g),
        g.total_sectors <= d0.len(),
        linked_chain(g, d0, cl),
        0 < data.len() <= cl.len() * cluster_size(g),
        write_chain(g, d0, cl[0], data) == Some(d1),
    ensures
        d1.len() == d0.len(),
        forall|z: int| 0 <= z < max_clusters(g) ==> #[trigger] fat_entry(g, d1, z) == fat_entry(g, d0, z),
{
    let first = cl[0];
    lemma_chain_follows(g, d0, cl, 0, data.len());
    let l = chain_clusters(g, d0, first, data.len());
    assert forall|i: int| 0 <= i < l.len() implies cluster_in_volume(g, d0, #[trigger] l[i]) by {
        assert(l[i] == cl[0 + i]);
        lemma_in_volume(g, d0, cl[i]);
    }
    assert forall|i: int, j: int| 0 <= i < j < l.len() implies l[i] != l[j] by {
        assert(l[i] == cl[0 + i] && l[j] == cl[0 + j]);
    }
    lemma_write_chain_frame(g, d0, first, data);
    assert forall|z: int| 0 <= z < max_clusters(g) implies #[trigger] fat_entry(g, d1, z) == fat_entry(g, d0, z) by {
        if z >= 2 {
            lemma_in_volume(g, d0, z);
        } else {
            assert(fat_sector(g, z) == g.fat_start);
            assert(g.fat_start < g.data_start) by (nonlinear_arith)
                requires
                    g.data_start == g.fat_start + g.fat_count * g.sectors_per_fat,
                    g.fat_count >= 1,
                    g.sectors_per_fat >= 1,
            ;
        }
        assert(0 <= fat_sector(g, z)) by {
            assert(4 * z >= 0);
        }
        lemma_fat_entry_same(g, d1, d0, z);
    }
}

proof fn lemma_clusters_at_most(len: int, cs: int, m: int)
    requires
        0 < cs,
        0 <= len <= m * cs,
    ensures
        crate::fat32::files::clusters_for(len, cs) <= m,
{
    assert(crate::fat32::files::clusters_for(len, cs) <= m) by (nonlinear_arith)
        requires
            0 < cs,
            0 <= len <= m * cs,
            crate::fat32::files::clusters_for(len, cs) == if len % cs == 0 { len / cs } else { len / cs + 1 },
    {
        vstd::arithmetic::div_mod::lemma_fundamental_div_mod(len, cs);
    }
}

/// Data rewritten along the first `m` clusters of a stored chain, the chain
/// then cut after them (end mark on cluster `m - 1`, the rest freed), and
/// the directory at `dir` then written keeping the clusters in use outside
/// it: the data reads back from the chain.
#[verifier::rlimit(100)]
#[verifier::spinoff_prover]
pub proof fn lemma_shrink_kept(
    g: Geometry,
    d0: Seq<Seq<u8>>,
    d1: Seq<Seq<u8>>,
    d2: Seq<Seq<u8>>,
    d3: Seq<Seq<u8>>,
    d4: Seq<Seq<u8>>,
    dir: int,
    cl: Seq<int>,
    m: int,
    data: Seq<u8>,
)
    requires
        geometry_ok(g),
        dir_volume_ok(g, d0, dir),
        linked_chain(g, d0, cl),
        forall|i: int| 0 <= i < cl.len() ==> #[trigger] outside_dir(g, d0, dir, cl[i]),
        1 <= m < cl.len(),
        0 < data.len() <= m * cluster_size(g),
        write_chain(g, d0, cl[0], data) == Some(d1),
        d2.len() == d1.len(),
        fat_entry(g, d2, cl[m - 1]) == END_OF_CHAIN,
        forall|x: int| 0 <= x < max_clusters(g) && x != cl[m - 1] ==> #[trigger] fat_entry(g, d2, x) == fat_entry(g, d1, x),
        forall|x: int| 2 <= x < max_clusters(g) ==> #[trigger] cluster_bytes(g, d2, x) == cluster_bytes(g, d1, x),
        chain_from(g, d2, cl[m], cl.subrange(m, cl.len() as int)) ==> chain_freed(g, d2, d3, cl.subrange(m, cl.len() as int)),
        dir_volume_ok(g, d3, dir) ==> dir_frame(g, d3, d4, dir),
    ensures
        read_chain(g, d4, cl[0], data.len()) == data,
{
    let first = cl[0];
    let cs = cluster_size(g);
    let sub = cl.subrange(m, cl.len() as int);
    assert(m * cs <= cl.len() * cs) by (nonlinear_arith)
        requires
            m < cl.len(),
            cs > 0,
    ;
    lemma_chain_follows(g, d0, cl, 0, data.len());
    let l = chain_clusters(g, d0, first, data.len());
    assert forall|i: int| 0 <= i < l.len() implies #[trigger] l[i] == cl[i] by {
        assert(l[i] == cl[0 + i]);
    }
    assert forall|i: int| 0 <= i < l.len() implies cluster_in_volume(g, d0, #[trigger] l[i]) by {
        lemma_in_volume(g, d0, cl[i]);
    }
    assert forall|i: int, j: int| 0 <= i < j < l.len() implies l[i] != l[j] by {
        assert(l[i] == cl[i] && l[j] == cl[j]);
    }
    assert(chain_ok(g, d0, first, data.len()));
    lemma_read_after_write(g, d0, first, data);
    lemma_write_chain_frame(g, d0, first, data);
    lemma_chain_same(g, d1, d0, first, data.len());
    lemma_chain_length(g, d0, first, data.len());
    lemma_clusters_at_most(data.len() as int, cs, m);
    assert forall|z: int| 0 <= z < max_clusters(g) implies #[trigger] fat_entry(g, d1, z) == fat_entry(g, d0, z) by {
        if z >= 2 {
            lemma_in_volume(g, d0, z);
        } else {
            assert(fat_sector(g, z) == g.fat_start);
            assert(g.fat_start < g.data_start) by (nonlinear_arith)
                requires
                    g.data_start == g.fat_start + g.fat_count * g.sectors_per_fat,
                    g.fat_count >= 1,
                    g.sectors_per_fat >= 1,
            ;
        }
        assert(0 <= fat_sector(g, z)) by {
            assert(4 * z >= 0);
        }
        lemma_fat_entry_same(g, d1, d0, z);
    }
    assert(chain_from(g, d2, cl[m], sub)) by {
        assert forall|j: int| 0 <= j < sub.len() - 1 implies fat_entry(g, d2, #[trigger] sub[j]) == sub[j + 1] by {
            assert(sub[j] == cl[m + j]);
            assert(cl[m + j] != cl[m - 1]);
            assert(fat_entry(g, d0, cl[m + j]) == cl[m + j + 1]);
        }
        assert(sub.last() == cl.last());
        assert(cl[cl.len() - 1] != cl[m - 1]);
        assert forall|i: int, j: int| 0 <= i < j < sub.len() implies sub[i] != sub[j] by {
            assert(sub[i] == cl[m + i] && sub[j] == cl[m + j]);
        }
        assert forall|i: int| 0 <= i < sub.len() implies 2 <= #[trigger] sub[i] < max_clusters(g) by {
            assert(sub[i] == cl[m + i]);
        }
    }
    assert(chain_freed(g, d2, d3, sub));
    assert forall|z: int| #[trigger] in_dir_chain(g, d0, dir, z) implies fat_entry(g, d3, z) == fat_entry(g, d0, z) by {
        assert(!sub.contains(z)) by {
            if sub.contains(z) {
                let j = choose|j: int| 0 <= j < sub.len() && sub[j] == z;
                assert(sub[j] == cl[m + j]);
                assert(outside_dir(g, d0, dir, cl[m + j]));
            }
        }
        assert(z != cl[m - 1]) by {
            assert(outside_dir(g, d0, dir, cl[m - 1]));
        }
    }
    lemma_dir_chain_kept(g, d0, d3, dir);
    assert(dir_chain_ok(g, d3, dir)) by {
        assert forall|x: int| #[trigger] in_dir_chain(g, d3, dir, x) implies 2 <= x < max_clusters(g) && fat_entry(g, d3, x) != CLUSTER_FREE by {
            assert(in_dir_chain(g, d0, dir, x));
        }
    }
    assert(dir_frame(g, d3, d4, dir));
    assert forall|i: int| 0 <= i < chain_clusters(g, d1, first, data.len()).len() implies {
        let x = #[trigger] chain_clusters(g, d1, first, data.len())[i];
        &&& cluster_bytes(g, d4, x) == cluster_bytes(g, d1, x)
        &&& data.len() > (i + 1) * cs ==> fat_entry(g, d4, x) == fat_entry(g, d1, x)
    } by {
        let x = l[i];
        assert(x == cl[i]);
        assert(i < m);
        assert(!sub.contains(x)) by {
            if sub.contains(x) {
                let j = choose|j: int| 0 <= j < sub.len() && sub[j] == x;
                assert(sub[j] == cl[m + j]);
            }
        }
        assert(fat_entry(g, d3, x) != CLUSTER_FREE) by {
            if i < m - 1 {
                assert(fat_entry(g, d0, cl[i]) == cl[i + 1]);
            }
        }
        assert(outside_dir(g, d0, dir, cl[i]));
        assert(!in_dir_chain(g, d3, dir, x)) by {
            if in_dir_chain(g, d3, dir, x) {
                assert(in_dir_chain(g, d0, dir, x));
            }
        }
        assert(outside_dir(g, d3, dir, x));
        if data.len() > (i + 1) * cs {
            assert((i + 1) * cs < m * cs);
            assert(i + 1 < m) by (nonlinear_arith)
                requires
                    (i + 1) * cs < m * cs,
                    cs > 0,
            ;
        }
    }
    lemma_read_chain_same(g, d1, d4, first, data.len());
}

/// A cluster allocated on its own and then filled with `bytes`, before the
/// directory at `dir` was written keeping the clusters in use outside it,
/// still holds `bytes`.
pub proof fn lemma_new_cluster_kept(
    g: Geometry,
    d0: Seq<Seq<u8>>,
    d1: Seq<Seq<u8>>,
    d2: Seq<Seq<u8>>,
    d3: Seq<Seq<u8>>,
    dir: int,
    first: int,
    cl: Seq<int>,
    bytes: Seq<u8>,
)
    requires
        dir_volume_ok(g, d0, dir),
        d1.len() == d0.len(),
        allocated(g, d0, d1, first, 1, cl),
        d2.len() == d1.len(),
        forall|x: int| 0 <= x < max_clusters(g) ==> #[trigger] fat_entry(g, d2, x) == fat_entry(g, d1, x),
        cluster_bytes(g, d2, first) == bytes,
        dir_volume_ok(g, d2, dir) ==> dir_frame(g, d2, d3, dir),
    ensures
        cluster_bytes(g, d3, first) == bytes,
{
    assert(cl[0] == first);
    assert forall|z: int| #[trigger] in_dir_chain(g, d0, dir, z) implies fat_entry(g, d2, z) == fat_entry(g, d0, z) by {
        assert(!cl.contains(z)) by {
            if cl.contains(z) {
                let i = choose|i: int| 0 <= i < cl.len() && cl[i] == z;
                assert(fat_entry(g, d0, cl[i]) == CLUSTER_FREE);
            }
        }
        assert(2 <= z < max_clusters(g));
    }
    lemma_dir_chain_kept(g, d0, d2, dir);
    assert(dir_chain_ok(g, d2, dir)) by {
        assert forall|x: int| #[trigger] in_dir_chain(g, d2, dir, x) implies 2 <= x < max_clusters(g) && fat_entry(g, d2, x) != CLUSTER_FREE by {
            assert(in_dir_chain(g, d0, dir, x));
        }
    }
    assert(dir_frame(g, d2, d3, dir));
    assert(2 <= cl[0] < max_clusters(g));
    assert(fat_entry(g, d2, first) == END_OF_CHAIN);
    assert(!in_dir_chain(g, d2, dir, first)) by {
        if in_dir_chain(g, d2, dir, first) {
            assert(in_dir_chain(g, d0, dir, first));
            assert(fat_entry(g, d0, cl[0]) == CLUSTER_FREE);
        }
    }
    assert(outside_dir(g, d2, dir, first));
}

} // verus!

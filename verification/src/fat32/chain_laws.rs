//! What reading a cluster chain gives back after writing it.
use vstd::prelude::*;
use crate::fat32::fs::{
    cluster_bytes, cluster_sector, cluster_size, concat_sectors, fat_entry, fat_sector, geometry_ok,
    min_int, read_chain, write_chain, write_cluster_spec, write_run, Geometry, END_OF_CHAIN,
};

verus! {

/// Cluster `c` is a data cluster that lies on the disk and whose FAT entry
/// lies before the data region.
pub open spec fn cluster_in_volume(g: Geometry, d: Seq<Seq<u8>>, c: int) -> bool {
    &&& 2 <= c
    &&& cluster_sector(g, c) + g.sectors_per_cluster <= d.len()
    &&& fat_sector(g, c) < g.data_start
}

/// The clusters that hold the first `n` bytes of the chain from `c`.
pub open spec fn chain_clusters(g: Geometry, d: Seq<Seq<u8>>, c: int, n: nat) -> Seq<int>
    decreases n,
    when g.sectors_per_cluster >= 1
{
    if n <= cluster_size(g) {
        seq![c]
    } else {
        let nx = fat_entry(g, d, c);
        if nx >= END_OF_CHAIN {
            seq![c]
        } else {
            seq![c] + chain_clusters(g, d, nx as int, (n - cluster_size(g)) as nat)
        }
    }
}

/// The first `n` bytes of the chain from `c` lie in distinct data clusters
/// on the disk.
pub open spec fn chain_ok(g: Geometry, d: Seq<Seq<u8>>, c: int, n: nat) -> bool {
    let cl = chain_clusters(g, d, c, n);
    &&& forall|i: int| 0 <= i < cl.len() ==> cluster_in_volume(g, d, #[trigger] cl[i])
    &&& forall|i: int, j: int| 0 <= i < j < cl.len() ==> cl[i] != cl[j]
}

pub(crate) proof fn lemma_write_run(d: Seq<Seq<u8>>, start: int, data: Seq<u8>, n: nat)
    requires
        0 <= start,
        start + n <= d.len(),
        data.len() >= 512 * n,
    ensures
        write_run(d, start, data, n).len() == d.len(),
        forall|s: int| 0 <= s < d.len() && !(start <= s < start + n) ==> #[trigger] write_run(d, start, data, n)[s] == d[s],
        forall|k: int| 0 <= k < n ==> #[trigger] write_run(d, start, data, n)[start + k] == data.subrange(512 * k, 512 * (k + 1)),
    decreases n,
{
    if n > 0 {
        lemma_write_run(d, start, data, (n - 1) as nat);
        assert(data.len() >= 512 * (n - 1)) by (nonlinear_arith)
            requires
                data.len() >= 512 * n,
                n >= 1,
        ;
    }
}

pub(crate) proof fn lemma_concat_written(d: Seq<Seq<u8>>, start: int, data: Seq<u8>, n: nat)
    requires
        data.len() >= 512 * n,
        forall|k: int| 0 <= k < n ==> #[trigger] d[start + k] == data.subrange(512 * k, 512 * (k + 1)),
    ensures
        concat_sectors(d, start, n) == data.subrange(0, 512 * (n as int)),
    decreases n,
{
    if n > 0 {
        assert(data.len() >= 512 * (n - 1)) by (nonlinear_arith)
            requires
                data.len() >= 512 * n,
                n >= 1,
        ;
        lemma_concat_written(d, start, data, (n - 1) as nat);
        assert(d[start + (n - 1)] == data.subrange(512 * (n - 1), 512 * (n as int)));
        assert(data.subrange(0, 512 * (n - 1)) + data.subrange(512 * (n - 1), 512 * (n as int)) =~= data.subrange(0, 512 * (n as int)));
    }
}

pub(crate) proof fn lemma_concat_same(d1: Seq<Seq<u8>>, d2: Seq<Seq<u8>>, start: int, n: nat)
    requires
        forall|k: int| 0 <= k < n ==> #[trigger] d1[start + k] == d2[start + k],
    ensures
        concat_sectors(d1, start, n) == concat_sectors(d2, start, n),
    decreases n,
{
    if n > 0 {
        lemma_concat_same(d1, d2, start, (n - 1) as nat);
        assert(d1[start + (n - 1)] == d2[start + (n - 1)]);
    }
}

pub(crate) proof fn lemma_cluster_ranges(g: Geometry, c: int, c2: int)
    requires
        geometry_ok(g),
        2 <= c,
        2 <= c2,
        c != c2,
    ensures
        cluster_sector(g, c) >= g.data_start,
        cluster_sector(g, c) + g.sectors_per_cluster <= cluster_sector(g, c2)
            || cluster_sector(g, c2) + g.sectors_per_cluster <= cluster_sector(g, c),
{
    let spc = g.sectors_per_cluster;
    assert((c - 2) * spc >= 0) by (nonlinear_arith)
        requires
            c >= 2,
            spc >= 1,
    ;
    if c < c2 {
        assert((c - 2) * spc + spc <= (c2 - 2) * spc) by (nonlinear_arith)
            requires
                c < c2,
                spc >= 1,
        ;
    } else {
        assert((c2 - 2) * spc + spc <= (c - 2) * spc) by (nonlinear_arith)
            requires
                c2 < c,
                spc >= 1,
        ;
    }
}

/// Writing cluster `c` changes the sectors of `c` alone.
proof fn lemma_write_cluster(g: Geometry, d: Seq<Seq<u8>>, c: int, buf: Seq<u8>)
    requires
        geometry_ok(g),
        cluster_in_volume(g, d, c),
        buf.len() == cluster_size(g),
    ensures
        write_cluster_spec(g, d, c, buf).len() == d.len(),
        cluster_bytes(g, write_cluster_spec(g, d, c, buf), c) == buf,
        forall|s: int| 0 <= s < g.data_start ==> #[trigger] write_cluster_spec(g, d, c, buf)[s] == d[s],
        forall|x: int| cluster_in_volume(g, d, x) && x != c ==> #[trigger] cluster_bytes(g, write_cluster_spec(g, d, c, buf), x) == cluster_bytes(g, d, x),
{
    let spc = g.sectors_per_cluster;
    let start = cluster_sector(g, c);
    let d1 = write_cluster_spec(g, d, c, buf);
    assert(buf.len() >= 512 * (spc as nat));
    lemma_write_run(d, start, buf, spc as nat);
    lemma_cluster_ranges(g, c, c + 1);
    lemma_concat_written(d1, start, buf, spc as nat);
    assert(buf.subrange(0, 512 * spc) =~= buf);
    assert forall|s: int| 0 <= s < g.data_start implies #[trigger] d1[s] == d[s] by {
        if s < d.len() {
            assert(!(start <= s < start + spc));
        }
    }
    assert forall|x: int| cluster_in_volume(g, d, x) && x != c implies #[trigger] cluster_bytes(g, d1, x) == cluster_bytes(g, d, x) by {
        lemma_cluster_ranges(g, c, x);
        let sx = cluster_sector(g, x);
        assert forall|k: int| 0 <= k < spc implies #[trigger] d1[sx + k] == d[sx + k] by {
            assert(!(start <= sx + k < start + spc));
        }
        lemma_concat_same(d1, d, sx, spc as nat);
    }
}

/// The FAT entry of a cluster whose entry lies before the data region is
/// unchanged when no sector before the data region changes.
pub(crate) proof fn lemma_fat_entry_same(g: Geometry, d1: Seq<Seq<u8>>, d: Seq<Seq<u8>>, x: int)
    requires
        fat_sector(g, x) < g.data_start,
        forall|s: int| 0 <= s < g.data_start ==> #[trigger] d1[s] == d[s],
        0 <= fat_sector(g, x),
    ensures
        fat_entry(g, d1, x) == fat_entry(g, d, x),
{
    assert(d1[fat_sector(g, x)] == d[fat_sector(g, x)]);
}

/// The chain is unchanged when nothing before the data region changes.
pub(crate) proof fn lemma_chain_same(g: Geometry, d1: Seq<Seq<u8>>, d: Seq<Seq<u8>>, c: int, n: nat)
    requires
        geometry_ok(g),
        chain_ok(g, d, c, n),
        d1.len() == d.len(),
        forall|s: int| 0 <= s < g.data_start ==> #[trigger] d1[s] == d[s],
    ensures
        chain_clusters(g, d1, c, n) == chain_clusters(g, d, c, n),
        chain_ok(g, d1, c, n),
    decreases n,
{
    let cl = chain_clusters(g, d, c, n);
    assert(cl[0] == c);
    assert(cluster_in_volume(g, d, cl[0]));
    if n > cluster_size(g) {
        assert(0 <= fat_sector(g, c)) by {
            assert(4 * c >= 0);
        }
        lemma_fat_entry_same(g, d1, d, c);
        let nx = fat_entry(g, d, c);
        if nx < END_OF_CHAIN {
            let rest = chain_clusters(g, d, nx as int, (n - cluster_size(g)) as nat);
            assert(cl == seq![c] + rest);
            assert forall|i: int| 0 <= i < rest.len() implies cluster_in_volume(g, d, #[trigger] rest[i]) by {
                assert(rest[i] == cl[i + 1]);
            }
            assert forall|i: int, j: int| 0 <= i < j < rest.len() implies rest[i] != rest[j] by {
                assert(rest[i] == cl[i + 1] && rest[j] == cl[j + 1]);
            }
            lemma_chain_same(g, d1, d, nx as int, (n - cluster_size(g)) as nat);
        }
    }
}

pub(crate) proof fn lemma_chain_tail(g: Geometry, d: Seq<Seq<u8>>, c: int, n: nat)
    requires
        geometry_ok(g),
        chain_ok(g, d, c, n),
        n > cluster_size(g),
        fat_entry(g, d, c) < END_OF_CHAIN,
    ensures
        chain_ok(g, d, fat_entry(g, d, c) as int, (n - cluster_size(g)) as nat),
        chain_clusters(g, d, c, n) == seq![c] + chain_clusters(g, d, fat_entry(g, d, c) as int, (n - cluster_size(g)) as nat),
        forall|i: int| 0 <= i < chain_clusters(g, d, fat_entry(g, d, c) as int, (n - cluster_size(g)) as nat).len()
            ==> #[trigger] chain_clusters(g, d, fat_entry(g, d, c) as int, (n - cluster_size(g)) as nat)[i] != c,
{
    let cl = chain_clusters(g, d, c, n);
    let nx = fat_entry(g, d, c);
    let rest = chain_clusters(g, d, nx as int, (n - cluster_size(g)) as nat);
    assert(cl == seq![c] + rest);
    assert forall|i: int| 0 <= i < rest.len() implies cluster_in_volume(g, d, #[trigger] rest[i]) by {
        assert(rest[i] == cl[i + 1]);
    }
    assert forall|i: int, j: int| 0 <= i < j < rest.len() implies rest[i] != rest[j] by {
        assert(rest[i] == cl[i + 1] && rest[j] == cl[j + 1]);
    }
    assert forall|i: int| 0 <= i < rest.len() implies #[trigger] rest[i] != c by {
        assert(rest[i] == cl[i + 1] && cl[0] == c);
    }
}

/// Writing a chain changes its own clusters only: no sector before the data
/// region and no other cluster of the volume.
pub(crate) proof fn lemma_write_chain_frame(g: Geometry, d: Seq<Seq<u8>>, c: int, data: Seq<u8>)
    requires
        geometry_ok(g),
        data.len() > 0,
        chain_ok(g, d, c, data.len()),
        write_chain(g, d, c, data) is Some,
    ensures
        write_chain(g, d, c, data).unwrap().len() == d.len(),
        forall|s: int| 0 <= s < g.data_start ==> #[trigger] write_chain(g, d, c, data).unwrap()[s] == d[s],
        forall|x: int| cluster_in_volume(g, d, x) && !chain_clusters(g, d, c, data.len()).contains(x)
            ==> #[trigger] cluster_bytes(g, write_chain(g, d, c, data).unwrap(), x) == cluster_bytes(g, d, x),
    decreases data.len(),
{
    let cs = cluster_size(g);
    let n = min_int(cs, data.len() as int);
    let buf = data.subrange(0, n) + Seq::new((cs - n) as nat, |i: int| 0u8);
    let d1 = write_cluster_spec(g, d, c, buf);
    let cl = chain_clusters(g, d, c, data.len());
    assert(cl[0] == c);
    assert(cluster_in_volume(g, d, cl[0]));
    lemma_write_cluster(g, d, c, buf);
    if data.len() > cs {
        assert(0 <= fat_sector(g, c)) by {
            assert(4 * c >= 0);
        }
        lemma_fat_entry_same(g, d1, d, c);
        let nx = fat_entry(g, d1, c);
        let rest = data.subrange(cs, data.len() as int);
        lemma_chain_tail(g, d, c, data.len());
        lemma_chain_same(g, d1, d, nx as int, rest.len());
        lemma_write_chain_frame(g, d1, nx as int, rest);
        let d2 = write_chain(g, d, c, data).unwrap();
        assert forall|x: int| cluster_in_volume(g, d, x) && !cl.contains(x) implies #[trigger] cluster_bytes(g, d2, x) == cluster_bytes(g, d, x) by {
            let tail = chain_clusters(g, d, nx as int, rest.len());
            if tail.contains(x) {
                let i = choose|i: int| 0 <= i < tail.len() && tail[i] == x;
                assert(cl[i + 1] == x);
            }
            assert(x != c) by {
                assert(cl[0] == c);
            }
        }
    }
}

/// Reading back the bytes just written along a chain of distinct data
/// clusters gives the data written.
pub proof fn lemma_read_after_write(g: Geometry, d: Seq<Seq<u8>>, c: int, data: Seq<u8>)
    requires
        geometry_ok(g),
        chain_ok(g, d, c, data.len()),
        write_chain(g, d, c, data) is Some,
    ensures
        read_chain(g, write_chain(g, d, c, data).unwrap(), c, data.len()) == data,
    decreases data.len(),
{
    if data.len() == 0 {
        assert(read_chain(g, write_chain(g, d, c, data).unwrap(), c, 0) =~= data);
    } else {
        let cs = cluster_size(g);
        let n = min_int(cs, data.len() as int);
        let buf = data.subrange(0, n) + Seq::new((cs - n) as nat, |i: int| 0u8);
        let d1 = write_cluster_spec(g, d, c, buf);
        let cl = chain_clusters(g, d, c, data.len());
        assert(cl[0] == c);
        assert(cluster_in_volume(g, d, cl[0]));
        lemma_write_cluster(g, d, c, buf);
        if data.len() <= cs {
            assert(buf.subrange(0, data.len() as int) =~= data);
        } else {
            assert(0 <= fat_sector(g, c)) by {
                assert(4 * c >= 0);
            }
            lemma_fat_entry_same(g, d1, d, c);
            let nx = fat_entry(g, d1, c);
            let rest = data.subrange(cs, data.len() as int);
            lemma_chain_tail(g, d, c, data.len());
            lemma_chain_same(g, d1, d, nx as int, rest.len());
            lemma_read_after_write(g, d1, nx as int, rest);
            lemma_write_chain_frame(g, d1, nx as int, rest);
            let d2 = write_chain(g, d, c, data).unwrap();
            assert(d2 == write_chain(g, d1, nx as int, rest).unwrap());
            assert(cluster_in_volume(g, d1, c));
            assert(!chain_clusters(g, d1, nx as int, rest.len()).contains(c));
            assert(cluster_bytes(g, d2, c) == buf);
            assert(0 <= fat_sector(g, c) < g.data_start);
            lemma_fat_entry_same(g, d2, d1, c);
            assert(read_chain(g, d2, c, data.len()) == buf.subrange(0, cs) + read_chain(g, d2, nx as int, rest.len()));
            assert(buf.subrange(0, cs) + rest =~= data);
        }
    }
}

} // verus!

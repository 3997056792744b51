//! Path-based access to the mounted volume: `/`-separated paths resolved from
//! the root directory.
use vstd::prelude::*;
use vstd::string::StringSliceAdditionalSpecFns;
use vstd::utf8::{decode_utf8, valid_utf8};
use crate::fat32::datetime::DateTime;
use crate::fat32::dir::{dir_entries, dir_short_entries, fev_opt, find_dotdot, listing, lookup, only_dot_entries};
use crate::fat32::dir_write::{entry_deleted, entry_refreshed, entry_written};
use crate::fat32::files::chain_released;
use crate::fat32::dir_chain::dir_volume_ok;
use crate::fat32::disk::DiskOperations;
use crate::fat32::file_entry::{FileEntry, FileEntryView};
use crate::fat32::fs::{mountable, read_chain, Fat32FileSystem, Geometry, CLUSTER_LIMIT};
use crate::text::{chars_of, string_from_chars};

verus! {

/// Components of `p[0..i]` completed so far, and the component being read.
pub open spec fn split_prefix(p: Seq<char>, i: nat) -> (Seq<Seq<char>>, Seq<char>)
    decreases i,
{
    if i == 0 {
        (Seq::empty(), Seq::empty())
    } else {
        let (cs, cur) = split_prefix(p, (i - 1) as nat);
        if p[i - 1] == '/' {
            (if cur.len() > 0 { cs.push(cur) } else { cs }, Seq::empty())
        } else {
            (cs, cur.push(p[i - 1]))
        }
    }
}

/// The non-empty `/`-separated components of a path.
pub open spec fn path_components(p: Seq<char>) -> Seq<Seq<char>> {
    let (cs, cur) = split_prefix(p, p.len());
    if cur.len() > 0 { cs.push(cur) } else { cs }
}

pub open spec fn dot() -> Seq<char> {
    seq!['.']
}

pub open spec fn dotdot() -> Seq<char> {
    seq!['.', '.']
}

/// The directory that `name` leads to from the directory at `c`: `.` stays,
/// `..` follows the `..` entry, any other name must be a subdirectory.
/// `None` when that fails or the directory cannot be read.
pub open spec fn nav_step(g: Geometry, d: Seq<Seq<u8>>, c: u32, name: Seq<char>) -> Option<u32> {
    if name == dot() {
        Some(c)
    } else if name == dotdot() {
        match dir_short_entries(g, d, c as int) {
            Some(es) => find_dotdot(es),
            None => None,
        }
    } else {
        match lookup(g, d, c as int, name) {
            Some(Some(f)) => if f.is_directory { Some(f.first_cluster) } else { None },
            _ => None,
        }
    }
}

/// Every directory cluster met walking from `c` through `comps` is below
/// `CLUSTER_LIMIT` (the bound past which cluster numbers are refused).
pub open spec fn walk_ok(g: Geometry, d: Seq<Seq<u8>>, c: u32, comps: Seq<Seq<char>>) -> bool
    decreases comps.len(),
{
    c < CLUSTER_LIMIT && (comps.len() > 0 ==> match nav_step(g, d, c, comps[0]) {
        Some(n) => walk_ok(g, d, n, comps.drop_first()),
        None => true,
    })
}

/// The directory clusters met resolving `path` are below `CLUSTER_LIMIT`.
pub open spec fn resolve_ok(g: Geometry, d: Seq<Seq<u8>>, path: Seq<char>) -> bool {
    path_components(path).len() == 0 || walk_ok(g, d, g.root_cluster, path_components(path).drop_last())
}

proof fn lemma_walk_ok_end(g: Geometry, d: Seq<Seq<u8>>, c: u32, comps: Seq<Seq<char>>)
    requires
        walk_ok(g, d, c, comps),
        walk(g, d, c, comps) is Some,
    ensures
        walk(g, d, c, comps)->0 < CLUSTER_LIMIT,
    decreases comps.len(),
{
    if comps.len() > 0 {
        let n = nav_step(g, d, c, comps[0])->0;
        lemma_walk_ok_end(g, d, n, comps.drop_first());
    }
}

/// A path that resolves to a name in a directory, with every directory
/// cluster on the way below `CLUSTER_LIMIT`, has that directory below it too.
proof fn lemma_resolved_dir_ok(g: Geometry, d: Seq<Seq<u8>>, path: Seq<char>, for_deletion: bool)
    requires
        resolve_spec(g, d, path, for_deletion) matches Some((_, Some(_))),
        resolve_ok(g, d, path),
    ensures
        resolve_spec(g, d, path, for_deletion) matches Some((c, _)) && c < CLUSTER_LIMIT,
{
    let comps = path_components(path);
    lemma_walk_ok_end(g, d, g.root_cluster, comps.drop_last());
}

/// The directory reached from `c` through the components `comps`.
pub open spec fn walk(g: Geometry, d: Seq<Seq<u8>>, c: u32, comps: Seq<Seq<char>>) -> Option<u32>
    decreases comps.len(),
{
    if comps.len() == 0 {
        Some(c)
    } else {
        match nav_step(g, d, c, comps[0]) {
            Some(n) => walk(g, d, n, comps.drop_first()),
            None => None,
        }
    }
}

/// What a path resolves to: the directory it names (with no name), or the
/// directory holding its last component and that component's name. With
/// `for_deletion` the last component is never entered. `None` when a directory
/// on the way cannot be reached.
pub open spec fn resolve_spec(g: Geometry, d: Seq<Seq<u8>>, path: Seq<char>, for_deletion: bool) -> Option<(u32, Option<Seq<char>>)> {
    let comps = path_components(path);
    if comps.len() == 0 {
        Some((g.root_cluster, None))
    } else {
        match walk(g, d, g.root_cluster, comps.drop_last()) {
            None => None,
            Some(p) => {
                let last = comps.last();
                if for_deletion {
                    Some((p, Some(last)))
                } else {
                    match lookup(g, d, p as int, last) {
                        None => None,
                        Some(Some(f)) => if f.is_directory {
                            match nav_step(g, d, p, last) {
                                Some(c) => Some((c, None)),
                                None => None,
                            }
                        } else {
                            Some((p, Some(last)))
                        },
                        Some(None) => Some((p, Some(last))),
                    }
                }
            },
        }
    }
}

pub open spec fn opt_name(o: Option<String>) -> Option<Seq<char>> {
    match o {
        Some(s) => Some(s@),
        None => None,
    }
}

/// The mounted volume, if any, is well formed.
pub open spec fn fs_inv<D: DiskOperations>(o: Option<Fat32FileSystem<D>>) -> bool {
    o matches Some(f) ==> f.wf()
}

/// `b` is `a` with its volume's contents unchanged.
pub open spec fn same_volume<D: DiskOperations>(a: Option<Fat32FileSystem<D>>, b: Option<Fat32FileSystem<D>>) -> bool {
    match (a, b) {
        (Some(x), Some(y)) => y.wf() && y.geometry() == x.geometry() && y.disk_view() == x.disk_view(),
        (None, None) => true,
        _ => false,
    }
}

/// Going from `a` to `b`, the file `src` moved to `dst`: by way of some
/// volume `mid`, a file holding its contents was created at `dst` and then
/// `src` was deleted.
#[verifier::opaque]
pub open spec fn file_moved<D: DiskOperations>(
    a: Option<Fat32FileSystem<D>>,
    b: Option<Fat32FileSystem<D>>,
    src: Seq<char>,
    dst: Seq<char>,
    now: DateTime,
) -> bool {
    a matches Some(f) && (find_spec(f.geometry(), f.disk_view(), src) matches Some(Some(e))
        && exists|mid: Option<Fat32FileSystem<D>>|
            #[trigger] file_created_at(a, mid, dst, read_chain(f.geometry(), f.disk_view(), e.first_cluster as int, e.size as nat), now)
            && path_deleted(mid, b, src, false))
}

proof fn lemma_file_moved_same<D: DiskOperations>(
    a: Option<Fat32FileSystem<D>>,
    a2: Option<Fat32FileSystem<D>>,
    b: Option<Fat32FileSystem<D>>,
    src: Seq<char>,
    dst: Seq<char>,
    now: DateTime,
)
    requires
        same_volume(a, a2),
        file_moved(a2, b, src, dst, now),
    ensures
        file_moved(a, b, src, dst, now),
{
    reveal(file_moved);
    let f = a2->0;
    let e = find_spec(f.geometry(), f.disk_view(), src)->0->0;
    let data = read_chain(f.geometry(), f.disk_view(), e.first_cluster as int, e.size as nat);
    let mid = choose|mid: Option<Fat32FileSystem<D>>| #[trigger] file_created_at(a2, mid, dst, data, now) && path_deleted(mid, b, src, false);
    lemma_file_created_at_same(a, a2, mid, dst, data, now);
}

/// After `b`, what `path` named in `a` is deleted: its cluster chain
/// released and its directory entry marked deleted.
pub open spec fn path_deleted<D: DiskOperations>(a: Option<Fat32FileSystem<D>>, b: Option<Fat32FileSystem<D>>, path: Seq<char>, for_deletion: bool) -> bool {
    match (a, b) {
        (Some(x), Some(y)) => match resolve_spec(x.geometry(), x.disk_view(), path, for_deletion) {
            Some((c, Some(n))) => lookup(x.geometry(), x.disk_view(), c as int, n) matches Some(Some(e))
                && exists|d1: Seq<Seq<u8>>| #[trigger] chain_released(x.geometry(), x.disk_view(), d1, e.first_cluster)
                    && entry_deleted(x.geometry(), d1, y.disk_view(), n),
            _ => false,
        },
        _ => false,
    }
}

/// `b` is `a` with the same volume layout (its contents may differ).
pub open spec fn same_layout<D: DiskOperations>(a: Option<Fat32FileSystem<D>>, b: Option<Fat32FileSystem<D>>) -> bool {
    match (a, b) {
        (Some(x), Some(y)) => y.wf() && y.geometry() == x.geometry() && y.disk_view().len() == x.disk_view().len(),
        (None, None) => true,
        _ => false,
    }
}

/// After `b`, the directory that `path` resolves to in `a` holds a new entry
/// for its last component, of the given size and kind, created at `now`.
#[verifier::opaque]
pub open spec fn created_at<D: DiskOperations>(
    a: Option<Fat32FileSystem<D>>,
    b: Option<Fat32FileSystem<D>>,
    path: Seq<char>,
    size: u32,
    is_directory: bool,
    now: DateTime,
) -> bool {
    &&& a is Some
    &&& b is Some
    &&& exists|name: Seq<char>, first: u32|
        #[trigger] entry_written(a->0.geometry(), b->0.disk_view(), name, first, size, is_directory, now)
        && (resolve_spec(a->0.geometry(), a->0.disk_view(), path, false) matches Some((_, Some(n))) && n == name)
}

/// After `b`, some directory entry of `a`'s volume is pointed to a chain,
/// sized `size` and stamped with `now`.
#[verifier::opaque]
pub open spec fn rewritten_at<D: DiskOperations>(a: Option<Fat32FileSystem<D>>, b: Option<Fat32FileSystem<D>>, size: u32, now: DateTime) -> bool {
    &&& a is Some
    &&& b is Some
    &&& exists|first: u32| #[trigger] entry_refreshed(a->0.geometry(), b->0.disk_view(), first, size, now)
}

/// After `b`, the directory that `path` resolves to in `a` holds a new file
/// entry for its last component, sized as `data` and created at `now`; when
/// that directory's chain is in use on a volume that fits its disk, the
/// entry's chain reads back as `data`.
#[verifier::opaque]
pub open spec fn file_created_at<D: DiskOperations>(
    a: Option<Fat32FileSystem<D>>,
    b: Option<Fat32FileSystem<D>>,
    path: Seq<char>,
    data: Seq<u8>,
    now: DateTime,
) -> bool {
    &&& a is Some
    &&& b is Some
    &&& exists|name: Seq<char>, first: u32|
        #[trigger] entry_written(a->0.geometry(), b->0.disk_view(), name, first, data.len() as u32, false, now)
        && (resolve_spec(a->0.geometry(), a->0.disk_view(), path, false) matches Some((c, Some(n))) && n == name
            && (dir_volume_ok(a->0.geometry(), a->0.disk_view(), c as int) && data.len() <= u32::MAX
                ==> read_chain(a->0.geometry(), b->0.disk_view(), first as int, data.len()) == data))
}

proof fn lemma_file_created_at<D: DiskOperations>(
    a: Option<Fat32FileSystem<D>>,
    b: Option<Fat32FileSystem<D>>,
    path: Seq<char>,
    data: Seq<u8>,
    now: DateTime,
    c: u32,
    name: Seq<char>,
    first: u32,
)
    requires
        a is Some,
        b is Some,
        resolve_spec(a->0.geometry(), a->0.disk_view(), path, false) == Some((c, Some(name))),
        entry_written(a->0.geometry(), b->0.disk_view(), name, first, data.len() as u32, false, now),
        dir_volume_ok(a->0.geometry(), a->0.disk_view(), c as int) && data.len() <= u32::MAX
            ==> read_chain(a->0.geometry(), b->0.disk_view(), first as int, data.len()) == data,
    ensures
        file_created_at(a, b, path, data, now),
{
    reveal(file_created_at);
}

proof fn lemma_file_created_at_same<D: DiskOperations>(
    a: Option<Fat32FileSystem<D>>,
    a2: Option<Fat32FileSystem<D>>,
    b: Option<Fat32FileSystem<D>>,
    path: Seq<char>,
    data: Seq<u8>,
    now: DateTime,
)
    requires
        same_volume(a, a2),
        file_created_at(a2, b, path, data, now),
    ensures
        file_created_at(a, b, path, data, now),
{
    reveal(file_created_at);
}

proof fn lemma_created_at<D: DiskOperations>(
    a: Option<Fat32FileSystem<D>>,
    b: Option<Fat32FileSystem<D>>,
    path: Seq<char>,
    size: u32,
    is_directory: bool,
    now: DateTime,
    c: u32,
    name: Seq<char>,
    first: u32,
)
    requires
        a is Some,
        b is Some,
        resolve_spec(a->0.geometry(), a->0.disk_view(), path, false) == Some((c, Some(name))),
        entry_written(a->0.geometry(), b->0.disk_view(), name, first, size, is_directory, now),
    ensures
        created_at(a, b, path, size, is_directory, now),
{
    reveal(created_at);
}

proof fn lemma_rewritten_at<D: DiskOperations>(a: Option<Fat32FileSystem<D>>, b: Option<Fat32FileSystem<D>>, size: u32, now: DateTime, first: u32)
    requires
        a is Some,
        b is Some,
        entry_refreshed(a->0.geometry(), b->0.disk_view(), first, size, now),
    ensures
        rewritten_at(a, b, size, now),
{
    reveal(rewritten_at);
}

/// The non-empty `/`-separated components of `path`.
pub fn split_path(path: &[char]) -> (r: Vec<Vec<char>>)
    ensures
        r@.map_values(|v: Vec<char>| v@) == path_components(path@),
{
    let mut comps: Vec<Vec<char>> = Vec::new();
    let mut cur: Vec<char> = Vec::new();
    let mut i: usize = 0;
    while i < path.len()
        invariant
            i <= path@.len(),
            split_prefix(path@, i as nat) == (comps@.map_values(|v: Vec<char>| v@), cur@),
        decreases path@.len() - i,
    {
        let ghost before = comps@;
        if path[i] == '/' {
            if cur.len() > 0 {
                let done = cur;
                comps.push(done);
                assert(comps@.map_values(|v: Vec<char>| v@) =~= before.map_values(|v: Vec<char>| v@).push(done@));
            }
            cur = Vec::new();
        } else {
            cur.push(path[i]);
        }
        i = i + 1;
    }
    if cur.len() > 0 {
        let ghost before = comps@;
        let done = cur;
        comps.push(done);
        assert(comps@.map_values(|v: Vec<char>| v@) =~= before.map_values(|v: Vec<char>| v@).push(done@));
    }
    comps
}

fn is_dot_component(c: &Vec<char>) -> (b: bool)
    ensures
        b == (c@ == dot()),
{
    if c.len() == 1 && c[0] == '.' {
        assert(c@ =~= dot());
        true
    } else {
        false
    }
}

proof fn lemma_walk_step(g: Geometry, d: Seq<Seq<u8>>, c: u32, comps: Seq<Seq<char>>, i: int, next: u32)
    requires
        0 <= i < comps.len(),
        nav_step(g, d, c, comps[i]) == Some(next),
    ensures
        walk(g, d, c, comps.subrange(i, comps.len() as int)) == walk(g, d, next, comps.subrange(i + 1, comps.len() as int)),
        walk_ok(g, d, c, comps.subrange(i, comps.len() as int)) ==> walk_ok(g, d, next, comps.subrange(i + 1, comps.len() as int)),
{
    let rest = comps.subrange(i, comps.len() as int);
    assert(rest.drop_first() =~= comps.subrange(i + 1, comps.len() as int));
}

/// The directory `name` leads to from the directory at `c` (see `nav_step`).
fn nav<D: DiskOperations>(fs: &mut Option<Fat32FileSystem<D>>, c: u32, name: &Vec<char>) -> (r: Result<u32, &'static str>)
    requires
        fs_inv(*old(fs)),
        *old(fs) is Some,
    ensures
        same_volume(*old(fs), *final(fs)),
        r matches Ok(n) ==> nav_step(old(fs).unwrap().geometry(), old(fs).unwrap().disk_view(), c, name@) == Some(n),
        name@ == dot() ==> r == Ok::<u32, &'static str>(c),
        nav_step(old(fs).unwrap().geometry(), old(fs).unwrap().disk_view(), c, name@) is Some && c < CLUSTER_LIMIT
            ==> (r matches Err(e) ==> D::device_error(e)),
{
    let s = string_from_chars(name.as_slice());
    proof {
        reveal_strlit(".");
        reveal_strlit("..");
        assert("."@ =~= dot());
        assert(".."@ =~= dotdot());
    }
    match fs {
        Some(f) => f.navigate_to_directory(c, s.as_str()),
        None => Err("Filesystem not initialized"),
    }
}

/// Whether `name` is a subdirectory of the directory at `c`.
fn is_dir_in<D: DiskOperations>(fs: &mut Option<Fat32FileSystem<D>>, c: u32, name: &String) -> (r: Result<bool, &'static str>)
    requires
        fs_inv(*old(fs)),
        *old(fs) is Some,
    ensures
        same_volume(*old(fs), *final(fs)),
        r matches Ok(b) ==> (lookup(old(fs).unwrap().geometry(), old(fs).unwrap().disk_view(), c as int, name@) matches Some(o)
            && b == (o matches Some(e) && e.is_directory)),
        lookup(old(fs).unwrap().geometry(), old(fs).unwrap().disk_view(), c as int, name@) is Some && c < CLUSTER_LIMIT
            ==> (r matches Err(e) ==> D::device_error(e)),
{
    match fs {
        Some(f) => f.is_directory(c, name.as_str()),
        None => Err("Filesystem not initialized"),
    }
}

/// Resolves `path` on the mounted volume (see `resolve_spec`).
pub fn resolve_path_for_operation<D: DiskOperations>(
    fs: &mut Option<Fat32FileSystem<D>>,
    path: &str,
    for_deletion: bool,
) -> (r: Result<(u32, Option<String>), &'static str>)
    requires
        fs_inv(*old(fs)),
    ensures
        same_volume(*old(fs), *final(fs)),
        *old(fs) is None ==> r == Err::<(u32, Option<String>), &'static str>("Filesystem not initialized"),
        r matches Ok((c, n)) ==> (*old(fs) matches Some(f)
            && resolve_spec(f.geometry(), f.disk_view(), path@, for_deletion) == Some((c, opt_name(n)))),
        (*old(fs) matches Some(f) && resolve_spec(f.geometry(), f.disk_view(), path@, for_deletion) is Some
            && resolve_ok(f.geometry(), f.disk_view(), path@)) ==> (r matches Err(e) ==> D::device_error(e)),
{
    let root_cluster = match fs {
        Some(f) => f.get_root_cluster(),
        None => { return Err("Filesystem not initialized"); },
    };
    let ghost g = old(fs).unwrap().geometry();
    let ghost d = old(fs).unwrap().disk_view();
    let chars = crate::text::chars_of(path);
    let components = split_path(chars.as_slice());
    let ghost comps = path_components(path@);
    assert(components@.map_values(|v: Vec<char>| v@) == comps);
    let count = components.len();
    if count == 0 {
        return Ok((root_cluster, None));
    }
    let mut current_cluster = root_cluster;
    let mut i: usize = 0;
    assert(comps.len() == count);
    assert(comps.drop_last().subrange(0, count - 1) =~= comps.drop_last());
    while i < count - 1
        invariant
            fs_inv(*fs),
            same_volume(*old(fs), *fs),
            *old(fs) is Some,
            g == old(fs).unwrap().geometry(),
            d == old(fs).unwrap().disk_view(),
            root_cluster == g.root_cluster,
            count == components@.len(),
            count >= 1,
            i <= count - 1,
            components@.map_values(|v: Vec<char>| v@) == comps,
            walk(g, d, g.root_cluster, comps.drop_last()) == walk(g, d, current_cluster, comps.drop_last().subrange(i as int, count - 1)),
            walk_ok(g, d, g.root_cluster, comps.drop_last()) ==> walk_ok(g, d, current_cluster, comps.drop_last().subrange(i as int, count - 1)),
            comps == path_components(path@),
        decreases count - 1 - i,
    {
        assert(comps.drop_last()[i as int] == components@[i as int]@);
        proof {
            if resolve_spec(g, d, path@, for_deletion) is Some && resolve_ok(g, d, path@) {
                let rest = comps.drop_last().subrange(i as int, count - 1);
                assert(rest[0] == comps.drop_last()[i as int]);
                assert(walk(g, d, current_cluster, rest) is Some);
                assert(nav_step(g, d, current_cluster, rest[0]) is Some);
                assert(current_cluster < CLUSTER_LIMIT);
            }
        }
        let next = match nav(fs, current_cluster, &components[i]) {
            Ok(c) => c,
            Err(e) => { return Err(e); },
        };
        proof {
            lemma_walk_step(g, d, current_cluster, comps.drop_last(), i as int, next);
        }
        current_cluster = next;
        i = i + 1;
    }
    assert(comps.drop_last().subrange(count - 1, count - 1) =~= Seq::<Seq<char>>::empty());
    let last = string_from_chars(components[count - 1].as_slice());
    assert(last@ == comps.last());
    if for_deletion {
        return Ok((current_cluster, Some(last)));
    }
    let is_dir = match is_dir_in(fs, current_cluster, &last) {
        Ok(b) => b,
        Err(e) => { return Err(e); },
    };
    if is_dir {
        let target = match nav(fs, current_cluster, &components[count - 1]) {
            Ok(c) => c,
            Err(e) => { return Err(e); },
        };
        return Ok((target, None));
    }
    Ok((current_cluster, Some(last)))
}

/// Resolves `path` for reading or creating (see `resolve_spec`).
pub fn resolve_path<D: DiskOperations>(fs: &mut Option<Fat32FileSystem<D>>, path: &str) -> (r: Result<(u32, Option<String>), &'static str>)
    requires
        fs_inv(*old(fs)),
    ensures
        same_volume(*old(fs), *final(fs)),
        *old(fs) is None ==> r == Err::<(u32, Option<String>), &'static str>("Filesystem not initialized"),
        r matches Ok((c, n)) ==> (*old(fs) matches Some(f)
            && resolve_spec(f.geometry(), f.disk_view(), path@, false) == Some((c, opt_name(n)))),
        (*old(fs) matches Some(f) && resolve_spec(f.geometry(), f.disk_view(), path@, false) is Some
            && resolve_ok(f.geometry(), f.disk_view(), path@)) ==> (r matches Err(e) ==> D::device_error(e)),
{
    resolve_path_for_operation(fs, path, false)
}


/// What looking a path up gives: `None` when it cannot be resolved or names a
/// directory itself, else what its last component names in its directory.
pub open spec fn find_spec(g: Geometry, d: Seq<Seq<u8>>, path: Seq<char>) -> Option<Option<FileEntryView>> {
    match resolve_spec(g, d, path, false) {
        Some((c, Some(n))) => lookup(g, d, c as int, n),
        _ => None,
    }
}

/// The listing of the directory a path names.
pub open spec fn list_spec(g: Geometry, d: Seq<Seq<u8>>, path: Seq<char>) -> Option<Seq<FileEntryView>> {
    match resolve_spec(g, d, path, false) {
        Some((c, None)) => match dir_entries(g, d, c as int) {
            Some(es) => Some(listing(es)),
            None => None,
        },
        _ => None,
    }
}

/// Whether a path names a directory (`Some(true)`), a file (`Some(false)`) or
/// nothing (`None`); the outer `None` when the volume cannot say.
pub open spec fn exists_spec(g: Geometry, d: Seq<Seq<u8>>, path: Seq<char>) -> Option<Option<bool>> {
    match resolve_spec(g, d, path, false) {
        Some((_, None)) => Some(Some(true)),
        Some((c, Some(n))) => match lookup(g, d, c as int, n) {
            Some(Some(f)) => Some(Some(f.is_directory)),
            Some(None) => Some(None),
            None => None,
        },
        None => None,
    }
}

/// Path of `name` inside the directory at path `dir`.
pub open spec fn child_path(dir: Seq<char>, name: Seq<char>) -> Seq<char> {
    if dir == seq!['/'] {
        seq!['/'] + name
    } else {
        dir + seq!['/'] + name
    }
}

/// The string for `String::from_utf8`: the text the bytes encode, when they are
/// valid UTF-8.
#[verifier::external_body]
fn string_from_utf8(bytes: Vec<u8>) -> (r: Option<String>)
    ensures
        r is Some <==> valid_utf8(bytes@),
        r matches Some(s) ==> s@ == decode_utf8(bytes@),
{
    match String::from_utf8(bytes) {
        Ok(s) => Some(s),
        Err(_) => None,
    }
}

/// Mounts the first of `disks` that holds a FAT32 volume.
///
/// Fails with "No FAT32 filesystem found on any drive" (leaving `fs` as it was)
/// when none does.
pub fn init_filesystem<D: DiskOperations>(fs: &mut Option<Fat32FileSystem<D>>, disks: Vec<D>) -> (r: Result<(), &'static str>)
    ensures
        r is Ok ==> (*final(fs) matches Some(f) && f.wf() && mountable(f.disk_view())),
        r is Err ==> *final(fs) == *old(fs),
        (forall|i: int| 0 <= i < disks@.len() ==> !mountable(#[trigger] disks@[i].sectors())) ==> r is Err,
{
    let ghost all = disks@;
    let mut rest = disks;
    let ghost mut taken: int = 0;
    while rest.len() > 0
        invariant
            *fs == *old(fs),
            all == disks@,
            0 <= taken <= all.len(),
            rest@ == all.subrange(taken, all.len() as int),
            (forall|i: int| 0 <= i < all.len() ==> !mountable(#[trigger] all[i].sectors())) ==>
                (forall|i: int| 0 <= i < rest@.len() ==> !mountable(#[trigger] rest@[i].sectors())),
        decreases rest@.len(),
    {
        let ghost before = rest@;
        let disk = rest.remove(0);
        proof {
            taken = taken + 1;
            assert(before[0] == disk);
            assert(all[taken - 1] == disk);
        }
        assert(rest@ =~= all.subrange(taken, all.len() as int));
        match Fat32FileSystem::new(disk) {
            Ok(filesystem) => {
                *fs = Some(filesystem);
                return Ok(());
            },
            Err(_) => {},
        }
    }
    Err("No FAT32 filesystem found on any drive")
}

/// The files and subdirectories of the directory `path` names.
///
/// Fails with "Path points to a file, not a directory" when it names something else.
pub fn list_directory<D: DiskOperations>(fs: &mut Option<Fat32FileSystem<D>>, path: &str) -> (r: Result<Vec<FileEntry>, &'static str>)
    requires
        fs_inv(*old(fs)),
    ensures
        same_volume(*old(fs), *final(fs)),
        *old(fs) is None ==> r is Err,
        r matches Ok(v) ==> (*old(fs) matches Some(f)
            && list_spec(f.geometry(), f.disk_view(), path@) == Some(v@.map_values(|e: FileEntry| e@))),
        (*old(fs) matches Some(f) && resolve_spec(f.geometry(), f.disk_view(), path@, false) matches Some((_, Some(_)))) ==> r is Err,
        (*old(fs) matches Some(f) && resolve_spec(f.geometry(), f.disk_view(), path@, false) matches Some((_, Some(_)))
            && resolve_ok(f.geometry(), f.disk_view(), path@))
            ==> r == Err::<Vec<FileEntry>, &'static str>("Path points to a file, not a directory") || (r matches Err(e) && D::device_error(e)),
{
    let (dir_cluster, filename) = match resolve_path(fs, path) {
        Ok(p) => p,
        Err(e) => { return Err(e); },
    };
    if filename.is_some() {
        return Err("Path points to a file, not a directory");
    }
    match fs {
        Some(f) => {
            if f.is_root_directory(dir_cluster) {
                f.list_root_directory()
            } else {
                f.list_directory(dir_cluster)
            }
        },
        None => Err("Filesystem not initialized"),
    }
}

/// Looks up the file or directory `path` names within its directory.
///
/// Fails with "Path does not specify a filename" when the path names a
/// directory itself.
pub fn find_file<D: DiskOperations>(fs: &mut Option<Fat32FileSystem<D>>, path: &str) -> (r: Result<Option<FileEntry>, &'static str>)
    requires
        fs_inv(*old(fs)),
    ensures
        same_volume(*old(fs), *final(fs)),
        *old(fs) is None ==> r is Err,
        r matches Ok(o) ==> (*old(fs) matches Some(f) && find_spec(f.geometry(), f.disk_view(), path@) == Some(fev_opt(o))),
        (*old(fs) matches Some(f) && resolve_spec(f.geometry(), f.disk_view(), path@, false) matches Some((_, None))) ==> r is Err,
        (*old(fs) matches Some(f) && resolve_spec(f.geometry(), f.disk_view(), path@, false) matches Some((_, None))
            && resolve_ok(f.geometry(), f.disk_view(), path@))
            ==> r == Err::<Option<FileEntry>, &'static str>("Path does not specify a filename") || (r matches Err(e) && D::device_error(e)),
        (*old(fs) matches Some(f) && find_spec(f.geometry(), f.disk_view(), path@) is Some && resolve_ok(f.geometry(), f.disk_view(), path@))
            ==> (r matches Err(e) ==> D::device_error(e)),
{
    let (dir_cluster, filename) = match resolve_path(fs, path) {
        Ok(p) => p,
        Err(e) => { return Err(e); },
    };
    let filename = match filename {
        Some(name) => name,
        None => { return Err("Path does not specify a filename"); },
    };
    proof {
        if let Some(f) = *old(fs) {
            if find_spec(f.geometry(), f.disk_view(), path@) is Some && resolve_ok(f.geometry(), f.disk_view(), path@) {
                lemma_resolved_dir_ok(f.geometry(), f.disk_view(), path@, false);
            }
        }
    }
    match fs {
        Some(f) => f.find_file_in_directory(dir_cluster, filename.as_str()),
        None => Err("Filesystem not initialized"),
    }
}

/// The contents of the file `path` names.
///
/// Fails with "File not found" or "Path points to a directory, not a file".
pub fn read_file<D: DiskOperations>(fs: &mut Option<Fat32FileSystem<D>>, path: &str) -> (r: Result<Vec<u8>, &'static str>)
    requires
        fs_inv(*old(fs)),
    ensures
        same_volume(*old(fs), *final(fs)),
        *old(fs) is None ==> r is Err,
        r matches Ok(data) ==> (*old(fs) matches Some(f)
            && (find_spec(f.geometry(), f.disk_view(), path@) matches Some(Some(e))
            && !e.is_directory
            && data@ == read_chain(f.geometry(), f.disk_view(), e.first_cluster as int, e.size as nat))),
        (*old(fs) matches Some(f) && (find_spec(f.geometry(), f.disk_view(), path@) matches Some(o)
            && (o is None || o->0.is_directory))) ==> r is Err,
        (*old(fs) matches Some(f) && find_spec(f.geometry(), f.disk_view(), path@) == Some(None::<FileEntryView>)
            && resolve_ok(f.geometry(), f.disk_view(), path@))
            ==> r == Err::<Vec<u8>, &'static str>("File not found") || (r matches Err(e) && D::device_error(e)),
        (*old(fs) matches Some(f) && (find_spec(f.geometry(), f.disk_view(), path@) matches Some(Some(e)) && e.is_directory)
            && resolve_ok(f.geometry(), f.disk_view(), path@))
            ==> r == Err::<Vec<u8>, &'static str>("Path points to a directory, not a file") || (r matches Err(e) && D::device_error(e)),
        (*old(fs) matches Some(f) && (find_spec(f.geometry(), f.disk_view(), path@) matches Some(Some(e)) && !e.is_directory
            && e.first_cluster < CLUSTER_LIMIT) && resolve_ok(f.geometry(), f.disk_view(), path@))
            ==> (r matches Err(e) ==> D::device_error(e)),
{
    let file_entry = match find_file(fs, path) {
        Err(e) => { return Err(e); },
        Ok(None) => { return Err("File not found"); },
        Ok(Some(entry)) => entry,
    };
    if file_entry.is_directory {
        return Err("Path points to a directory, not a file");
    }
    match fs {
        Some(f) => f.read_file(file_entry.first_cluster, file_entry.size),
        None => Err("Filesystem not initialized"),
    }
}

/// The contents of the file `path` names, as text.
///
/// Fails as `read_file` does, and with "File is not valid UTF-8".
pub fn read_text_file<D: DiskOperations>(fs: &mut Option<Fat32FileSystem<D>>, path: &str) -> (r: Result<String, &'static str>)
    requires
        fs_inv(*old(fs)),
    ensures
        same_volume(*old(fs), *final(fs)),
        *old(fs) is None ==> r is Err,
        r matches Ok(text) ==> (*old(fs) matches Some(f)
            && (find_spec(f.geometry(), f.disk_view(), path@) matches Some(Some(e))
            && !e.is_directory
            && valid_utf8(read_chain(f.geometry(), f.disk_view(), e.first_cluster as int, e.size as nat))
            && text@ == decode_utf8(read_chain(f.geometry(), f.disk_view(), e.first_cluster as int, e.size as nat)))),
        (*old(fs) matches Some(f) && (find_spec(f.geometry(), f.disk_view(), path@) matches Some(o)
            && (o is None || o->0.is_directory))) ==> r is Err,
        (*old(fs) matches Some(f) && find_spec(f.geometry(), f.disk_view(), path@) == Some(None::<FileEntryView>)
            && resolve_ok(f.geometry(), f.disk_view(), path@))
            ==> r == Err::<String, &'static str>("File not found") || (r matches Err(e) && D::device_error(e)),
        (*old(fs) matches Some(f) && (find_spec(f.geometry(), f.disk_view(), path@) matches Some(Some(e)) && !e.is_directory
            && e.first_cluster < CLUSTER_LIMIT
            && !valid_utf8(read_chain(f.geometry(), f.disk_view(), e.first_cluster as int, e.size as nat)))
            && resolve_ok(f.geometry(), f.disk_view(), path@))
            ==> r == Err::<String, &'static str>("File is not valid UTF-8") || (r matches Err(e) && D::device_error(e)),
{
    let data = match read_file(fs, path) {
        Ok(d) => d,
        Err(e) => { return Err(e); },
    };
    match string_from_utf8(data) {
        Some(text) => Ok(text),
        None => Err("File is not valid UTF-8"),
    }
}


/// Creates the file `path` names, holding `data`, stamped with `now`.
///
/// Fails with "Path does not specify a filename" when the path names a
/// directory, and as `Fat32FileSystem::create_file` does.
pub fn create_file<D: DiskOperations>(fs: &mut Option<Fat32FileSystem<D>>, path: &str, data: &[u8], now: DateTime) -> (r: Result<(), &'static str>)
    requires
        fs_inv(*old(fs)),
        now.year >= 1980,
    ensures
        same_layout(*old(fs), *final(fs)),
        *old(fs) is None ==> r is Err,
        r is Ok ==> (*old(fs) matches Some(f) && find_spec(f.geometry(), f.disk_view(), path@) == Some(None::<FileEntryView>)),
        r is Ok ==> file_created_at(*old(fs), *final(fs), path@, data@, now),
        (*old(fs) matches Some(f) && (find_spec(f.geometry(), f.disk_view(), path@) matches Some(Some(_)))) ==> r is Err && same_volume(*old(fs), *final(fs)),
        (*old(fs) matches Some(f) && resolve_spec(f.geometry(), f.disk_view(), path@, false) matches Some((_, None))) ==> r is Err && same_volume(*old(fs), *final(fs)),
{
    let (dir_cluster, filename) = match resolve_path(fs, path) {
        Ok(p) => p,
        Err(e) => { return Err(e); },
    };
    let filename = match filename {
        Some(name) => name,
        None => { return Err("Path does not specify a filename"); },
    };
    match fs {
        Some(f) => {
            let ghost g = f.geometry();
            let ghost d = f.disk_view();
            let rr = f.create_file(dir_cluster, filename.as_str(), data, now);
            proof {
                if rr is Ok {
                    let first = choose|first: u32| #[trigger] entry_written(g, f.disk_view(), filename@, first, data@.len() as u32, false, now)
                        && (dir_volume_ok(g, d, dir_cluster as int) && data@.len() <= u32::MAX
                            ==> read_chain(g, f.disk_view(), first as int, data@.len()) == data@);
                    lemma_file_created_at(*old(fs), Some(*f), path@, data@, now, dir_cluster, filename@, first);
                }
            }
            rr
        },
        None => Err("Filesystem not initialized"),
    }
}

/// Creates the file `path` names, holding the UTF-8 bytes of `content`.
pub fn create_text_file<D: DiskOperations>(fs: &mut Option<Fat32FileSystem<D>>, path: &str, content: &str, now: DateTime) -> (r: Result<(), &'static str>)
    requires
        fs_inv(*old(fs)),
        now.year >= 1980,
    ensures
        same_layout(*old(fs), *final(fs)),
        *old(fs) is None ==> r is Err,
        r is Ok ==> (*old(fs) matches Some(f) && find_spec(f.geometry(), f.disk_view(), path@) == Some(None::<FileEntryView>)),
        r is Ok ==> file_created_at(*old(fs), *final(fs), path@, content.spec_bytes(), now),
        (*old(fs) matches Some(f) && (find_spec(f.geometry(), f.disk_view(), path@) matches Some(Some(_)))) ==> r is Err && same_volume(*old(fs), *final(fs)),
        (*old(fs) matches Some(f) && resolve_spec(f.geometry(), f.disk_view(), path@, false) matches Some((_, None))) ==> r is Err && same_volume(*old(fs), *final(fs)),
{
    create_file(fs, path, content.as_bytes(), now)
}

/// Deletes the file `path` names.
pub fn delete_file<D: DiskOperations>(fs: &mut Option<Fat32FileSystem<D>>, path: &str) -> (r: Result<(), &'static str>)
    requires
        fs_inv(*old(fs)),
    ensures
        same_layout(*old(fs), *final(fs)),
        *old(fs) is None ==> r is Err,
        r is Ok ==> (*old(fs) matches Some(f) && (find_spec(f.geometry(), f.disk_view(), path@) matches Some(Some(e)) && !e.is_directory)),
        r is Ok ==> path_deleted(*old(fs), *final(fs), path@, false),
        (*old(fs) matches Some(f) && (find_spec(f.geometry(), f.disk_view(), path@) matches Some(o)
            && (o is None || o->0.is_directory))) ==> r is Err && same_volume(*old(fs), *final(fs)),
{
    let (dir_cluster, filename) = match resolve_path(fs, path) {
        Ok(p) => p,
        Err(e) => { return Err(e); },
    };
    let filename = match filename {
        Some(name) => name,
        None => { return Err("Path does not specify a filename"); },
    };
    match fs {
        Some(f) => f.delete_file(dir_cluster, filename.as_str()),
        None => Err("Filesystem not initialized"),
    }
}

/// Creates the directory `path` names, stamped with `now`.
pub fn create_directory<D: DiskOperations>(fs: &mut Option<Fat32FileSystem<D>>, path: &str, now: DateTime) -> (r: Result<(), &'static str>)
    requires
        fs_inv(*old(fs)),
        now.year >= 1980,
    ensures
        same_layout(*old(fs), *final(fs)),
        *old(fs) is None ==> r is Err,
        r is Ok ==> (*old(fs) matches Some(f) && find_spec(f.geometry(), f.disk_view(), path@) == Some(None::<FileEntryView>)),
        r is Ok ==> created_at(*old(fs), *final(fs), path@, 0, true, now),
        (*old(fs) matches Some(f) && (find_spec(f.geometry(), f.disk_view(), path@) matches Some(Some(_)))) ==> r is Err && same_volume(*old(fs), *final(fs)),
        (*old(fs) matches Some(f) && resolve_spec(f.geometry(), f.disk_view(), path@, false) matches Some((_, None))) ==> r is Err && same_volume(*old(fs), *final(fs)),
{
    let (parent_cluster, dirname) = match resolve_path(fs, path) {
        Ok(p) => p,
        Err(e) => { return Err(e); },
    };
    let dirname = match dirname {
        Some(name) => name,
        None => { return Err("Path does not specify a directory name"); },
    };
    match fs {
        Some(f) => {
            let ghost g = f.geometry();
            let rr = f.create_directory(parent_cluster, dirname.as_str(), now);
            proof {
                if rr is Ok {
                    let first = choose|first: u32| #[trigger] entry_written(g, f.disk_view(), dirname@, first, 0, true, now);
                    lemma_created_at(*old(fs), Some(*f), path@, 0, true, now, parent_cluster, dirname@, first);
                }
            }
            rr
        },
        None => Err("Filesystem not initialized"),
    }
}

/// Deletes the empty directory `path` names.
///
/// Fails with "Cannot delete root directory" on the root.
pub fn delete_directory<D: DiskOperations>(fs: &mut Option<Fat32FileSystem<D>>, path: &str) -> (r: Result<(), &'static str>)
    requires
        fs_inv(*old(fs)),
    ensures
        same_layout(*old(fs), *final(fs)),
        *old(fs) is None ==> r is Err,
        path_components(path@).len() == 0 ==> r is Err && same_volume(*old(fs), *final(fs)),
        r is Ok ==> (*old(fs) matches Some(f)
            && (resolve_spec(f.geometry(), f.disk_view(), path@, true) matches Some((p, Some(n)))
            && (lookup(f.geometry(), f.disk_view(), p as int, n) matches Some(Some(e))
            && e.is_directory
            && (dir_short_entries(f.geometry(), f.disk_view(), e.first_cluster as int) matches Some(es) && only_dot_entries(es))))),
        r is Ok ==> path_deleted(*old(fs), *final(fs), path@, true),
{
    let (parent_cluster, dirname) = match resolve_path_for_operation(fs, path, true) {
        Ok(p) => p,
        Err(e) => { return Err(e); },
    };
    let dirname = match dirname {
        Some(name) => name,
        None => { return Err("Cannot delete root directory"); },
    };
    match fs {
        Some(f) => f.delete_directory(parent_cluster, dirname.as_str()),
        None => Err("Filesystem not initialized"),
    }
}

/// Writes `data` to the file `path` names: replaces its contents when it
/// exists, creates it otherwise.
///
/// Fails with "Path points to a directory, not a file" when it is a directory.
pub fn write_file<D: DiskOperations>(fs: &mut Option<Fat32FileSystem<D>>, path: &str, data: &[u8], now: DateTime) -> (r: Result<(), &'static str>)
    requires
        fs_inv(*old(fs)),
        now.year >= 1980,
    ensures
        same_layout(*old(fs), *final(fs)),
        *old(fs) is None ==> r is Err,
        r is Ok ==> (*old(fs) matches Some(f) && (find_spec(f.geometry(), f.disk_view(), path@) matches Some(o)
            && (o matches Some(e) ==> !e.is_directory))),
        (*old(fs) matches Some(f) && (find_spec(f.geometry(), f.disk_view(), path@) matches Some(Some(e)) && e.is_directory))
            ==> r is Err && same_volume(*old(fs), *final(fs)),
        r is Ok ==> (*old(fs) matches Some(f) && find_spec(f.geometry(), f.disk_view(), path@) == Some(None::<FileEntryView>)
            ==> file_created_at(*old(fs), *final(fs), path@, data@, now)),
        r is Ok ==> (*old(fs) matches Some(f) && (find_spec(f.geometry(), f.disk_view(), path@) matches Some(Some(_)))
            ==> rewritten_at(*old(fs), *final(fs), data@.len() as u32, now)),
{
    match find_file(fs, path) {
        Err(e) => Err(e),
        Ok(Some(file_entry)) => {
            if file_entry.is_directory {
                return Err("Path points to a directory, not a file");
            }
            let (dir_cluster, filename) = match resolve_path(fs, path) {
                Ok(p) => p,
                Err(e) => { return Err(e); },
            };
            let filename = match filename {
                Some(name) => name,
                None => { return Err("Invalid file path"); },
            };
            match fs {
                Some(f) => {
                    let ghost g = f.geometry();
                    let rr = f.update_file(dir_cluster, filename.as_str(), data, now);
                    proof {
                        if rr is Ok {
                            let first = choose|first: u32| #[trigger] entry_refreshed(g, f.disk_view(), first, data@.len() as u32, now);
                            lemma_rewritten_at(*old(fs), Some(*f), data@.len() as u32, now, first);
                        }
                    }
                    rr
                },
                None => Err("Filesystem not initialized"),
            }
        },
        Ok(None) => {
            let ghost mid = *fs;
            let rr = create_file(fs, path, data, now);
            proof {
                if rr is Ok {
                    lemma_file_created_at_same(*old(fs), mid, *fs, path@, data@, now);
                }
            }
            rr
        },
    }
}

/// Whether `path` names a directory (`Some(true)`), a file (`Some(false)`) or
/// nothing (`None`). `/` and the empty path name the root directory.
pub fn path_exists<D: DiskOperations>(fs: &mut Option<Fat32FileSystem<D>>, path: &str) -> (r: Result<Option<bool>, &'static str>)
    requires
        fs_inv(*old(fs)),
    ensures
        same_volume(*old(fs), *final(fs)),
        (path@ == seq!['/'] || path@.len() == 0) ==> r == Ok::<Option<bool>, &'static str>(Some(true)),
        !(path@ == seq!['/'] || path@.len() == 0) && *old(fs) is None ==> r is Err,
        r matches Ok(x) ==> (path@ == seq!['/'] || path@.len() == 0
            || (*old(fs) matches Some(f) && exists_spec(f.geometry(), f.disk_view(), path@) == Some(x))),
        (*old(fs) matches Some(f) && exists_spec(f.geometry(), f.disk_view(), path@) is Some && resolve_ok(f.geometry(), f.disk_view(), path@))
            ==> (r matches Err(e) ==> D::device_error(e)),
{
    let chars = chars_of(path);
    if chars.len() == 0 || (chars.len() == 1 && chars[0] == '/') {
        assert(chars@.len() == 0 || chars@ =~= seq!['/']);
        return Ok(Some(true));
    }
    let (dir_cluster, filename) = match resolve_path(fs, path) {
        Ok(p) => p,
        Err(e) => { return Err(e); },
    };
    let filename = match filename {
        Some(name) => name,
        None => { return Ok(Some(true)); },
    };
    proof {
        if let Some(f) = *old(fs) {
            if exists_spec(f.geometry(), f.disk_view(), path@) is Some && resolve_ok(f.geometry(), f.disk_view(), path@) {
                lemma_resolved_dir_ok(f.geometry(), f.disk_view(), path@, false);
            }
        }
    }
    let found = match fs {
        Some(f) => f.find_file_in_directory(dir_cluster, filename.as_str()),
        None => Err("Filesystem not initialized"),
    };
    match found {
        Err(e) => Err(e),
        Ok(Some(entry)) => Ok(Some(entry.is_directory)),
        Ok(None) => Ok(None),
    }
}

/// Whether `path` names a file (not a directory).
pub fn is_file<D: DiskOperations>(fs: &mut Option<Fat32FileSystem<D>>, path: &str) -> (r: Result<bool, &'static str>)
    requires
        fs_inv(*old(fs)),
    ensures
        same_volume(*old(fs), *final(fs)),
        *old(fs) is None ==> r is Err,
        r matches Ok(b) ==> (*old(fs) matches Some(f) && (resolve_spec(f.geometry(), f.disk_view(), path@, false) matches Some((c, n))
            && (n matches Some(name) ==> (lookup(f.geometry(), f.disk_view(), c as int, name) matches Some(o)
                && b == (o matches Some(e) && !e.is_directory)))
            && (n is None ==> !b))),
{
    let (dir_cluster, filename) = match resolve_path(fs, path) {
        Ok(p) => p,
        Err(e) => { return Err(e); },
    };
    match filename {
        Some(name) => match fs {
            Some(f) => f.is_file(dir_cluster, name.as_str()),
            None => Err("Filesystem not initialized"),
        },
        None => Ok(false),
    }
}


/// `p` without its trailing slashes.
pub open spec fn trim_trailing_slashes(p: Seq<char>) -> Seq<char>
    decreases p.len(),
{
    if p.len() > 0 && p.last() == '/' {
        trim_trailing_slashes(p.drop_last())
    } else {
        p
    }
}

/// Index of the last `/` in `p`.
pub open spec fn last_slash(p: Seq<char>) -> Option<int>
    decreases p.len(),
{
    if p.len() == 0 {
        None
    } else if p.last() == '/' {
        Some(p.len() - 1)
    } else {
        last_slash(p.drop_last())
    }
}

/// The path of the directory holding what `p` names (`/` for top-level items).
pub open spec fn parent_of(p: Seq<char>) -> Seq<char> {
    let t = trim_trailing_slashes(p);
    match last_slash(t) {
        Some(i) => if i == 0 { seq!['/'] } else { t.subrange(0, i) },
        None => seq!['/'],
    }
}

/// The path an item at `p` gets when renamed to `new_name`.
pub open spec fn rename_target(p: Seq<char>, new_name: Seq<char>) -> Seq<char> {
    child_path(parent_of(p), new_name)
}

proof fn lemma_same_layout_trans<D: DiskOperations>(a: Option<Fat32FileSystem<D>>, b: Option<Fat32FileSystem<D>>, c: Option<Fat32FileSystem<D>>)
    requires
        same_layout(a, b),
        same_layout(b, c),
    ensures
        same_layout(a, c),
{
}

proof fn lemma_same_volume_layout<D: DiskOperations>(a: Option<Fat32FileSystem<D>>, b: Option<Fat32FileSystem<D>>)
    requires
        same_volume(a, b),
    ensures
        same_layout(a, b),
{
}

/// An unchanged volume has the same layout.
pub proof fn lemma_same_volume_layout_pub<D: DiskOperations>(a: Option<Fat32FileSystem<D>>, b: Option<Fat32FileSystem<D>>)
    requires
        same_volume(a, b),
    ensures
        same_layout(a, b),
{
}

/// The path of `name` inside the directory at path `dir`.
fn join_path(dir: &[char], name: &[char]) -> (r: Vec<char>)
    ensures
        r@ == child_path(dir@, name@),
{
    let mut out: Vec<char> = Vec::new();
    let is_root = dir.len() == 1 && dir[0] == '/';
    assert(is_root == (dir@ == seq!['/'])) by {
        if dir@ == seq!['/'] {
            assert(dir@[0] == '/');
        }
        if is_root {
            assert(dir@ =~= seq!['/']);
        }
    }
    if is_root {
        out.push('/');
    } else {
        let mut i: usize = 0;
        while i < dir.len()
            invariant
                i <= dir@.len(),
                out@ == dir@.subrange(0, i as int),
            decreases dir@.len() - i,
        {
            out.push(dir[i]);
            i = i + 1;
        }
        out.push('/');
    }
    let ghost head = out@;
    let mut j: usize = 0;
    while j < name.len()
        invariant
            j <= name@.len(),
            out@ == head + name@.subrange(0, j as int),
        decreases name@.len() - j,
    {
        out.push(name[j]);
        j = j + 1;
    }
    assert(name@.subrange(0, name@.len() as int) =~= name@);
    assert(dir@.subrange(0, dir@.len() as int) =~= dir@);
    out
}

/// Copies the file `source_path` names to the new file `dest_path`.
///
/// Fails with "Source file not found", "Source path points to a directory,
/// not a file", or "Destination already exists".
pub fn copy_file<D: DiskOperations>(fs: &mut Option<Fat32FileSystem<D>>, source_path: &str, dest_path: &str, now: DateTime) -> (r: Result<(), &'static str>)
    requires
        fs_inv(*old(fs)),
        now.year >= 1980,
    ensures
        same_layout(*old(fs), *final(fs)),
        *old(fs) is None ==> r is Err,
        r is Ok ==> (*old(fs) matches Some(f) && (find_spec(f.geometry(), f.disk_view(), source_path@) matches Some(Some(e)) && !e.is_directory)),
        r is Ok ==> (*old(fs) matches Some(f) && (find_spec(f.geometry(), f.disk_view(), source_path@) matches Some(Some(e))
            && file_created_at(*old(fs), *final(fs), dest_path@,
                read_chain(f.geometry(), f.disk_view(), e.first_cluster as int, e.size as nat), now))),
        (*old(fs) matches Some(f) && (find_spec(f.geometry(), f.disk_view(), source_path@) matches Some(o)
            && (o is None || o->0.is_directory))) ==> r is Err && same_volume(*old(fs), *final(fs)),
        (*old(fs) matches Some(f) && find_spec(f.geometry(), f.disk_view(), source_path@) == Some(None::<FileEntryView>)
            && resolve_ok(f.geometry(), f.disk_view(), source_path@))
            ==> r == Err::<(), &'static str>("Source file not found") || (r matches Err(e) && D::device_error(e)),
        (*old(fs) matches Some(f) && (find_spec(f.geometry(), f.disk_view(), source_path@) matches Some(Some(e)) && e.is_directory)
            && resolve_ok(f.geometry(), f.disk_view(), source_path@))
            ==> r == Err::<(), &'static str>("Source path points to a directory, not a file") || (r matches Err(e) && D::device_error(e)),
{
    let source_entry = match find_file(fs, source_path) {
        Err(e) => { return Err(e); },
        Ok(None) => { return Err("Source file not found"); },
        Ok(Some(entry)) => entry,
    };
    if source_entry.is_directory {
        return Err("Source path points to a directory, not a file");
    }
    let ghost f1 = *fs;
    match path_exists(fs, dest_path) {
        Ok(Some(_)) => { return Err("Destination already exists"); },
        _ => {},
    }
    let ghost f2 = *fs;
    let data = match read_file(fs, source_path) {
        Ok(d) => d,
        Err(e) => {
            proof {
                lemma_same_volume_layout(*old(fs), f2);
                lemma_same_volume_layout(f2, *fs);
                lemma_same_layout_trans(*old(fs), f2, *fs);
            }
            return Err(e);
        },
    };
    let ghost f3 = *fs;
    let rr = create_file(fs, dest_path, data.as_slice(), now);
    proof {
        lemma_same_volume_layout(*old(fs), f2);
        lemma_same_volume_layout(f2, f3);
        lemma_same_layout_trans(*old(fs), f2, f3);
        lemma_same_layout_trans(*old(fs), f3, *fs);
        if rr is Ok {
            assert(same_volume(*old(fs), f3));
            lemma_file_created_at_same(*old(fs), f3, *fs, dest_path@, data@, now);
        }
    }
    rr
}

/// Copies the directory `source_path` names, and everything in it, to the new
/// directory `dest_path`.
///
/// Fails with "Source path points to a file, not a directory", "Source
/// directory not found", or "Destination already exists"; subdirectories are
/// followed at most `depth` levels deep ("Directory tree too deep").
fn copy_directory_within<D: DiskOperations>(fs: &mut Option<Fat32FileSystem<D>>, source_path: &str, dest_path: &str, now: DateTime, depth: u32) -> (r: Result<(), &'static str>)
    requires
        fs_inv(*old(fs)),
        now.year >= 1980,
    ensures
        fs_inv(*final(fs)),
        same_layout(*old(fs), *final(fs)),
        !(source_path@ == seq!['/'] || source_path@.len() == 0) && *old(fs) is None ==> r is Err,
        r is Ok ==> (source_path@ == seq!['/'] || source_path@.len() == 0
            || (*old(fs) matches Some(f) && exists_spec(f.geometry(), f.disk_view(), source_path@) == Some(Some(true)))),
        (*old(fs) matches Some(f) && (exists_spec(f.geometry(), f.disk_view(), source_path@) matches Some(x) && x != Some(true)))
            && !(source_path@ == seq!['/'] || source_path@.len() == 0) ==> r is Err && same_volume(*old(fs), *final(fs)),
    decreases depth,
{
    match path_exists(fs, source_path) {
        Err(e) => { return Err(e); },
        Ok(Some(true)) => {},
        Ok(Some(false)) => { return Err("Source path points to a file, not a directory"); },
        Ok(None) => { return Err("Source directory not found"); },
    }
    let ghost f1 = *fs;
    match path_exists(fs, dest_path) {
        Ok(Some(_)) => { return Err("Destination already exists"); },
        _ => {},
    }
    let ghost f2 = *fs;
    proof {
        lemma_same_volume_layout(*old(fs), f1);
        lemma_same_volume_layout(f1, f2);
        lemma_same_layout_trans(*old(fs), f1, f2);
    }
    let rr = create_directory(fs, dest_path, now);
    proof {
        lemma_same_layout_trans(*old(fs), f2, *fs);
    }
    if rr.is_err() {
        return rr;
    }
    let ghost f3 = *fs;
    let entries = match list_directory(fs, source_path) {
        Ok(v) => v,
        Err(e) => {
            proof {
                lemma_same_volume_layout(f3, *fs);
                lemma_same_layout_trans(*old(fs), f3, *fs);
            }
            return Err(e);
        },
    };
    proof {
        lemma_same_volume_layout(f3, *fs);
        lemma_same_layout_trans(*old(fs), f3, *fs);
    }
    let src = chars_of(source_path);
    let dst = chars_of(dest_path);
    let mut i: usize = 0;
    while i < entries.len()
        invariant
            fs_inv(*fs),
            same_layout(*old(fs), *fs),
            now.year >= 1980,
            source_path@ == seq!['/'] || source_path@.len() == 0
                || (*old(fs) matches Some(f) && exists_spec(f.geometry(), f.disk_view(), source_path@) == Some(Some(true))),
            i <= entries@.len(),
        decreases entries@.len() - i,
    {
        let name = chars_of(entries[i].name.as_str());
        let source_item = string_from_chars(join_path(src.as_slice(), name.as_slice()).as_slice());
        let dest_item = string_from_chars(join_path(dst.as_slice(), name.as_slice()).as_slice());
        let ghost before = *fs;
        if entries[i].is_directory {
            if depth == 0 {
                return Err("Directory tree too deep");
            }
            let rr = copy_directory_within(fs, source_item.as_str(), dest_item.as_str(), now, depth - 1);
            proof {
                lemma_same_layout_trans(*old(fs), before, *fs);
            }
            if rr.is_err() {
                return rr;
            }
        } else {
            let rr = copy_file(fs, source_item.as_str(), dest_item.as_str(), now);
            proof {
                lemma_same_layout_trans(*old(fs), before, *fs);
            }
            if rr.is_err() {
                return rr;
            }
        }
        i = i + 1;
    }
    Ok(())
}

/// How deep `copy_directory` follows subdirectories.
pub const MAX_COPY_DEPTH: u32 = 64;

/// Copies the directory `source_path` names, and everything in it, to the new
/// directory `dest_path` (subdirectories down to `MAX_COPY_DEPTH` levels).
///
/// Fails with "Source path points to a file, not a directory", "Source
/// directory not found", or "Destination already exists".
pub fn copy_directory<D: DiskOperations>(fs: &mut Option<Fat32FileSystem<D>>, source_path: &str, dest_path: &str, now: DateTime) -> (r: Result<(), &'static str>)
    requires
        fs_inv(*old(fs)),
        now.year >= 1980,
    ensures
        fs_inv(*final(fs)),
        same_layout(*old(fs), *final(fs)),
        !(source_path@ == seq!['/'] || source_path@.len() == 0) && *old(fs) is None ==> r is Err,
        r is Ok ==> (source_path@ == seq!['/'] || source_path@.len() == 0
            || (*old(fs) matches Some(f) && exists_spec(f.geometry(), f.disk_view(), source_path@) == Some(Some(true)))),
        (*old(fs) matches Some(f) && (exists_spec(f.geometry(), f.disk_view(), source_path@) matches Some(x) && x != Some(true)))
            && !(source_path@ == seq!['/'] || source_path@.len() == 0) ==> r is Err && same_volume(*old(fs), *final(fs)),
{
    copy_directory_within(fs, source_path, dest_path, now, MAX_COPY_DEPTH)
}


/// The checks before a move: the source exists and resolves to a name in its
/// directory, the destination does not exist and resolves likewise. Returns
/// whether the source is a directory.
#[verifier::rlimit(40)]
fn check_move<D: DiskOperations>(fs: &mut Option<Fat32FileSystem<D>>, source_path: &str, dest_path: &str) -> (r: Result<bool, &'static str>)
    requires
        fs_inv(*old(fs)),
    ensures
        same_volume(*old(fs), *final(fs)),
        r matches Ok(b) ==> (*old(fs) matches Some(f) && (resolve_spec(f.geometry(), f.disk_view(), source_path@, false) matches Some((_, Some(_))))
            && (source_path@ == seq!['/'] || source_path@.len() == 0 || exists_spec(f.geometry(), f.disk_view(), source_path@) == Some(Some(b)))),
        (*old(fs) matches Some(f) && exists_spec(f.geometry(), f.disk_view(), source_path@) == Some(None::<bool>))
            && !(source_path@ == seq!['/'] || source_path@.len() == 0) ==> r is Err,
{
    let is_directory = match path_exists(fs, source_path) {
        Err(e) => { return Err(e); },
        Ok(None) => { return Err("Source path not found"); },
        Ok(Some(b)) => b,
    };
    let ghost f1 = *fs;
    match path_exists(fs, dest_path) {
        Ok(Some(_)) => { return Err("Destination already exists"); },
        _ => {},
    }
    let (_, source_filename) = match resolve_path(fs, source_path) {
        Ok(p) => p,
        Err(e) => { return Err(e); },
    };
    if source_filename.is_none() {
        return Err("Invalid source path");
    }
    let (_, dest_filename) = match resolve_path(fs, dest_path) {
        Ok(p) => p,
        Err(e) => { return Err(e); },
    };
    if dest_filename.is_none() {
        return Err("Invalid destination path");
    }
    Ok(is_directory)
}

/// Moves the file `source_path` to `dest_path`: copies it, then deletes it.
fn move_file<D: DiskOperations>(fs: &mut Option<Fat32FileSystem<D>>, source_path: &str, dest_path: &str, now: DateTime) -> (r: Result<(), &'static str>)
    requires
        fs_inv(*old(fs)),
        now.year >= 1980,
    ensures
        fs_inv(*final(fs)),
        same_layout(*old(fs), *final(fs)),
        r is Ok ==> file_moved(*old(fs), *final(fs), source_path@, dest_path@, now),
{
    let rr = copy_file(fs, source_path, dest_path, now);
    if rr.is_err() {
        return rr;
    }
    let ghost f4 = *fs;
    let rr = delete_file(fs, source_path);
    proof {
        lemma_same_layout_trans(*old(fs), f4, *fs);
        if rr is Ok {
            reveal(file_moved);
            let f = old(fs).unwrap();
            let e = find_spec(f.geometry(), f.disk_view(), source_path@)->0->0;
            assert(file_created_at(*old(fs), f4, dest_path@, read_chain(f.geometry(), f.disk_view(), e.first_cluster as int, e.size as nat), now));
        }
    }
    rr
}

/// Moves the file or directory `source_path` names to the new path
/// `dest_path`: copies it there, then deletes the source.
///
/// Fails with "Source path not found", "Destination already exists",
/// "Invalid source path" (the source resolves to a directory itself) or
/// "Invalid destination path".
pub fn move_item<D: DiskOperations>(fs: &mut Option<Fat32FileSystem<D>>, source_path: &str, dest_path: &str, now: DateTime) -> (r: Result<(), &'static str>)
    requires
        fs_inv(*old(fs)),
        now.year >= 1980,
    ensures
        fs_inv(*final(fs)),
        same_layout(*old(fs), *final(fs)),
        r is Ok ==> (*old(fs) matches Some(f) && (resolve_spec(f.geometry(), f.disk_view(), source_path@, false) matches Some((_, Some(_))))
            && (source_path@ == seq!['/'] || source_path@.len() == 0 || exists_spec(f.geometry(), f.disk_view(), source_path@) matches Some(Some(_)))),
        (*old(fs) matches Some(f) && exists_spec(f.geometry(), f.disk_view(), source_path@) == Some(None::<bool>))
            && !(source_path@ == seq!['/'] || source_path@.len() == 0) ==> r is Err && same_volume(*old(fs), *final(fs)),
        r is Ok && !(source_path@ == seq!['/'] || source_path@.len() == 0)
            && (*old(fs) matches Some(f) && exists_spec(f.geometry(), f.disk_view(), source_path@) == Some(Some(false)))
            ==> file_moved(*old(fs), *final(fs), source_path@, dest_path@, now),
{
    let is_directory = match check_move(fs, source_path, dest_path) {
        Ok(b) => b,
        Err(e) => { return Err(e); },
    };
    let ghost f3 = *fs;
    proof {
        lemma_same_volume_layout(*old(fs), f3);
    }
    if is_directory {
        let rr = copy_directory(fs, source_path, dest_path, now);
        proof {
            lemma_same_layout_trans(*old(fs), f3, *fs);
        }
        if rr.is_err() {
            return rr;
        }
        let ghost f4 = *fs;
        let rr = delete_directory(fs, source_path);
        proof {
            lemma_same_layout_trans(*old(fs), f4, *fs);
        }
        rr
    } else {
        let rr = move_file(fs, source_path, dest_path, now);
        proof {
            lemma_same_layout_trans(*old(fs), f3, *fs);
            if rr is Ok {
                lemma_file_moved_same(*old(fs), f3, *fs, source_path@, dest_path@, now);
            }
        }
        rr
    }
}

/// The path of the directory holding what `p` names (see `parent_of`).
fn parent_path(p: &[char]) -> (r: Vec<char>)
    ensures
        r@ == parent_of(p@),
{
    let mut end = p.len();
    assert(p@.subrange(0, p@.len() as int) =~= p@);
    while end > 0 && p[end - 1] == '/'
        invariant
            end <= p@.len(),
            trim_trailing_slashes(p@) == trim_trailing_slashes(p@.subrange(0, end as int)),
        decreases end,
    {
        assert(p@.subrange(0, end as int).drop_last() =~= p@.subrange(0, end - 1));
        end = end - 1;
    }
    let ghost t = p@.subrange(0, end as int);
    assert(trim_trailing_slashes(t) == t);
    let mut k = end;
    assert(t.subrange(0, k as int) =~= t);
    while k > 0 && p[k - 1] != '/'
        invariant
            k <= end <= p@.len(),
            t == p@.subrange(0, end as int),
            last_slash(t) == last_slash(t.subrange(0, k as int)),
        decreases k,
    {
        assert(t.subrange(0, k as int).drop_last() =~= t.subrange(0, k - 1));
        k = k - 1;
    }
    if k == 0 || k == 1 {
        proof {
            if k == 1 {
                assert(t.subrange(0, 1).last() == '/');
            }
        }
        let mut r: Vec<char> = Vec::new();
        r.push('/');
        assert(r@ =~= seq!['/']);
        return r;
    }
    assert(last_slash(t) == Some(k - 1)) by {
        assert(t.subrange(0, k as int).last() == '/');
    }
    let mut r: Vec<char> = Vec::new();
    let mut i: usize = 0;
    while i < k - 1
        invariant
            i <= k - 1,
            k <= end <= p@.len(),
            r@ == p@.subrange(0, i as int),
        decreases k - 1 - i,
    {
        r.push(p[i]);
        i = i + 1;
    }
    assert(r@ =~= t.subrange(0, k - 1));
    r
}

/// Renames the item at `old_path` to `new_name`, keeping it in its directory
/// (a `move_item` to `rename_target(old_path, new_name)`).
///
/// Fails with "New name cannot contain path separators" when `new_name` holds a `/`.
pub fn rename_item<D: DiskOperations>(fs: &mut Option<Fat32FileSystem<D>>, old_path: &str, new_name: &str, now: DateTime) -> (r: Result<(), &'static str>)
    requires
        fs_inv(*old(fs)),
        now.year >= 1980,
    ensures
        fs_inv(*final(fs)),
        same_layout(*old(fs), *final(fs)),
        new_name@.contains('/') ==> r == Err::<(), &'static str>("New name cannot contain path separators")
            && same_volume(*old(fs), *final(fs)),
        r is Ok ==> (*old(fs) matches Some(f) && (resolve_spec(f.geometry(), f.disk_view(), old_path@, false) matches Some((_, Some(_))))
            && (old_path@ == seq!['/'] || old_path@.len() == 0 || exists_spec(f.geometry(), f.disk_view(), old_path@) matches Some(Some(_)))),
        r is Ok && !(old_path@ == seq!['/'] || old_path@.len() == 0)
            && (*old(fs) matches Some(f) && exists_spec(f.geometry(), f.disk_view(), old_path@) == Some(Some(false)))
            ==> file_moved(*old(fs), *final(fs), old_path@, rename_target(old_path@, new_name@), now),
{
    let name = chars_of(new_name);
    let mut i: usize = 0;
    while i < name.len()
        invariant
            i <= name@.len(),
            name@ == new_name@,
            *fs == *old(fs),
            fs_inv(*old(fs)),
            forall|j: int| 0 <= j < i ==> name@[j] != '/',
        decreases name@.len() - i,
    {
        if name[i] == '/' {
            assert(new_name@.contains('/')) by {
                assert(new_name@[i as int] == '/');
            }
            return Err("New name cannot contain path separators");
        }
        i = i + 1;
    }
    let old_chars = chars_of(old_path);
    let parent = parent_path(old_chars.as_slice());
    let new_path = string_from_chars(join_path(parent.as_slice(), name.as_slice()).as_slice());
    assert(new_path@ == rename_target(old_path@, new_name@));
    move_item(fs, old_path, new_path.as_str(), now)
}

} // verus!

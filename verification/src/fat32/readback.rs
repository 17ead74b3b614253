//! Reading back what was written along a cluster chain.
//!
//! A write along a chain changes only the clusters it passes through, and
//! when the data region lies after the FAT it leaves the FAT alone; so when
//! it passes through no cluster twice, as along a chain that ends, a read
//! from the same place gives back what was written.

use vstd::prelude::*;

verus! {

use crate::fat32::cluster::Cluster;
use crate::fat32::dir::File;
use crate::fat32::file::{
    next_cluster, read_along, write_along, step_len, Transfer, WriteOutcome, reserve, write_ok, file_written,
    read_transfer, read_max, write_runs_off, growable, data_written, with_entry_size,
};
use crate::fat32::volume::{
    VFatView, Status, status_of, lemma_cluster_write_read, lemma_split, lemma_chain_is_walk, lemma_walk_fuel,
    lemma_chain_extended, lemma_first_free, END_OF_CHAIN,
};
use crate::kernel_api::IoErrorKind;

/// The data region of the volume starts after the FAT sectors an entry
/// can be read from.
pub open spec fn data_after_fat(v: VFatView) -> bool {
    v.fat_start_sector + v.sectors_per_fat < v.data_start_sector
}

/// Sector `i` belongs to cluster `c`.
pub open spec fn in_cluster(v: VFatView, c: u32, i: int) -> bool {
    c >= 2 && v.first_sector(c) <= i < v.first_sector(c) + v.sectors_per_cluster
}

/// Sector `i` belongs to one of the clusters `s`.
pub open spec fn in_some(v: VFatView, s: Seq<u32>, i: int) -> bool {
    exists|j: int| 0 <= j < s.len() && #[trigger] in_cluster(v, s[j], i)
}

/// `w` is `v` with at most the sectors of the clusters `s` changed.
pub open spec fn kept_outside(v: VFatView, w: VFatView, s: Seq<u32>) -> bool {
    &&& w.same_geometry(v)
    &&& w.sectors.len() == v.sectors.len()
    &&& forall|i: int| 0 <= i < v.sectors.len() ==> (#[trigger] w.sectors[i]).len() == v.sectors[i].len()
    &&& forall|i: int, k: int|
        0 <= i < v.sectors.len() && 0 <= k < v.sectors[i].len() && !in_some(v, s, i) ==> #[trigger] w.byte(i, k)
            == v.byte(i, k)
}

/// The clusters a transfer of `want` bytes from byte `coff` of cluster
/// `cur` passes through, in order, as `read_along` and `write_along` walk
/// them.
pub open spec fn path_along(v: VFatView, cur: Option<Cluster>, coff: int, want: int) -> Seq<u32>
    decreases want,
{
    if want <= 0 || v.cluster_size() <= 0 || coff < 0 || coff >= v.cluster_size() {
        Seq::empty()
    } else {
        match cur {
            None => Seq::empty(),
            Some(c) => if !v.cluster_in_range(c.0) {
                Seq::empty()
            } else {
                let n = step_len(v, coff, want);
                if n == v.cluster_size() - coff {
                    match next_cluster(v, c) {
                        Err(_) => seq![c.0],
                        Ok(nx) => seq![c.0] + path_along(v, nx, 0, want - n),
                    }
                } else {
                    seq![c.0]
                }
            },
        }
    }
}

/// Two clusters that share a sector are the same cluster.
proof fn lemma_clusters_disjoint(v: VFatView, c: u32, d: u32, i: int)
    requires
        v.sectors_per_cluster > 0,
        in_cluster(v, c, i),
        in_cluster(v, d, i),
    ensures
        c == d,
{
    let spc = v.sectors_per_cluster as int;
    if c < d {
        assert((c - 2) * spc + spc <= (d - 2) * spc) by (nonlinear_arith)
            requires
                c < d,
                spc > 0,
        ;
    } else if d < c {
        assert((d - 2) * spc + spc <= (c - 2) * spc) by (nonlinear_arith)
            requires
                d < c,
                spc > 0,
        ;
    }
}

/// A sector before the data region belongs to no cluster.
proof fn lemma_before_data(v: VFatView, s: Seq<u32>, i: int)
    requires
        i < v.data_start_sector,
    ensures
        !in_some(v, s, i),
{
    assert forall|j: int| 0 <= j < s.len() implies !#[trigger] in_cluster(v, s[j], i) by {
        if s[j] >= 2 {
            assert((s[j] - 2) * v.sectors_per_cluster >= 0) by (nonlinear_arith)
                requires
                    s[j] >= 2,
            ;
        }
    }
}

/// Nothing changed is kept.
proof fn lemma_kept_same(v: VFatView)
    ensures
        kept_outside(v, v, Seq::empty()),
{
}

/// Changes in two steps stay within the clusters of both.
proof fn lemma_kept_trans(u: VFatView, v: VFatView, w: VFatView, s1: Seq<u32>, s2: Seq<u32>)
    requires
        kept_outside(u, v, s1),
        kept_outside(v, w, s2),
    ensures
        kept_outside(u, w, s1 + s2),
{
    assert forall|i: int, k: int|
        0 <= i < u.sectors.len() && 0 <= k < u.sectors[i].len() && !in_some(u, s1 + s2, i) implies #[trigger] w.byte(
            i,
            k,
        ) == u.byte(i, k) by {
        assert forall|j: int| 0 <= j < s1.len() implies !#[trigger] in_cluster(u, s1[j], i) by {
            assert((s1 + s2)[j] == s1[j]);
            if in_cluster(u, s1[j], i) {
                assert(in_cluster(u, (s1 + s2)[j], i));
            }
        }
        assert forall|j: int| 0 <= j < s2.len() implies !#[trigger] in_cluster(v, s2[j], i) by {
            assert((s1 + s2)[s1.len() + j] == s2[j]);
            if in_cluster(v, s2[j], i) {
                assert(in_cluster(u, (s1 + s2)[s1.len() + j], i));
            }
        }
        assert(!in_some(u, s1, i));
        assert(!in_some(v, s2, i));
        assert(w.byte(i, k) == v.byte(i, k));
    }
}

/// Writing bytes into cluster `c` keeps everything outside it.
proof fn lemma_kept_cluster(v: VFatView, c: u32, coff: int, data: Seq<u8>, n: int)
    requires
        c >= 2,
    ensures
        kept_outside(v, v.with_cluster_bytes(c, coff, data, n), seq![c]),
{
    let w = v.with_cluster_bytes(c, coff, data, n);
    assert forall|i: int, k: int|
        0 <= i < v.sectors.len() && 0 <= k < v.sectors[i].len() && !in_some(v, seq![c], i) implies #[trigger] w.byte(
            i,
            k,
        ) == v.byte(i, k) by {
        if in_cluster(v, c, i) {
            assert(in_cluster(v, seq![c][0], i));
        }
    }
}

/// A change kept outside clusters leaves every FAT entry as it was, when
/// the data region lies after the FAT.
proof fn lemma_fat_kept(v: VFatView, w: VFatView, s: Seq<u32>, c: u32)
    requires
        v.wf(),
        data_after_fat(v),
        kept_outside(v, w, s),
    ensures
        w.fat_raw(c) == v.fat_raw(c),
{
    let at = v.fat_start_sector + v.fat_sector(c);
    if v.fat_sector(c) <= v.sectors_per_fat && at < v.sectors.len() {
        lemma_before_data(v, s, at);
        assert forall|k: int| 0 <= k < v.sectors[at].len() implies #[trigger] w.sectors[at][k]
            == v.sectors[at][k] by {
            assert(w.byte(at, k) == v.byte(at, k));
        }
        assert(w.sectors[at] =~= v.sectors[at]);
    }
}

/// Volumes with the same geometry, sector count and FAT walk the same
/// path.
proof fn lemma_path_same(v: VFatView, w: VFatView, cur: Option<Cluster>, coff: int, want: int)
    requires
        w.same_geometry(v),
        w.sectors.len() == v.sectors.len(),
        forall|c: u32| #[trigger] w.fat_raw(c) == v.fat_raw(c),
    ensures
        path_along(w, cur, coff, want) == path_along(v, cur, coff, want),
    decreases want,
{
    if want > 0 && v.cluster_size() > 0 && 0 <= coff < v.cluster_size() {
        if let Some(c) = cur {
            if v.cluster_in_range(c.0) {
                let n = step_len(v, coff, want);
                assert(w.fat_raw(c.0) == v.fat_raw(c.0));
                if n == v.cluster_size() - coff {
                    if let Ok(nx) = next_cluster(v, c) {
                        lemma_path_same(v, w, nx, 0, want - n);
                    }
                }
            }
        }
    }
}

/// A written cluster keeps the volume's shape.
proof fn lemma_cluster_bytes_wf(v: VFatView, c: u32, coff: int, data: Seq<u8>, n: int)
    requires
        v.wf(),
    ensures
        v.with_cluster_bytes(c, coff, data, n).wf(),
        data_after_fat(v) ==> data_after_fat(v.with_cluster_bytes(c, coff, data, n)),
{
    let w = v.with_cluster_bytes(c, coff, data, n);
    assert forall|i: int| 0 <= i < w.sectors.len() implies (#[trigger] w.sectors[i]).len() == w.bytes_per_sector by {
        assert(v.sectors[i].len() == v.bytes_per_sector);
    }
}

/// A write along a chain keeps the volume's shape and changes only the
/// clusters it passes through.
proof fn lemma_write_frame(v: VFatView, cur: Option<Cluster>, coff: int, data: Seq<u8>)
    requires
        v.wf(),
        data_after_fat(v),
    ensures
        write_along(v, cur, coff, data).volume.wf(),
        data_after_fat(write_along(v, cur, coff, data).volume),
        kept_outside(v, write_along(v, cur, coff, data).volume, path_along(v, cur, coff, data.len() as int)),
    decreases data.len(),
{
    reveal(write_along);
    let o = write_along(v, cur, coff, data);
    if data.len() == 0 || v.cluster_size() <= 0 || coff < 0 || coff >= v.cluster_size() {
        lemma_kept_same(v);
    } else {
        match cur {
            None => {
                lemma_kept_same(v);
            },
            Some(c) => {
                if !v.cluster_in_range(c.0) {
                    lemma_kept_same(v);
                } else {
                    let n = step_len(v, coff, data.len() as int);
                    let v1 = v.with_cluster_bytes(c.0, coff, data, n);
                    lemma_kept_cluster(v, c.0, coff, data, n);
                    lemma_cluster_bytes_wf(v, c.0, coff, data, n);
                    assert(v1.fat_raw(c.0) == v.fat_raw(c.0)) by {
                        lemma_fat_kept(v, v1, seq![c.0], c.0);
                    }
                    if n == v.cluster_size() - coff {
                        match next_cluster(v1, c) {
                            Err(_) => {},
                            Ok(nx) => {
                                let rest = write_along(v1, nx, 0, data.skip(n));
                                lemma_write_frame(v1, nx, 0, data.skip(n));
                                assert forall|d: u32| #[trigger] v1.fat_raw(d) == v.fat_raw(d) by {
                                    lemma_fat_kept(v, v1, seq![c.0], d);
                                }
                                lemma_path_same(v, v1, nx, 0, data.len() - n);
                                lemma_kept_trans(v, v1, rest.volume, seq![c.0], path_along(v1, nx, 0, data.len() - n));
                            },
                        }
                    }
                }
            },
        }
    }
}

/// Reading back a write along a chain: when the data region lies after
/// the FAT, and a write of `data` from byte `coff` of cluster `cur` passes
/// through no cluster twice and writes all of `data` without an error, a
/// read of as many bytes from the same place afterwards gives back `data`
/// and ends in the same cluster.
pub proof fn lemma_write_read_back(v: VFatView, cur: Option<Cluster>, coff: int, data: Seq<u8>)
    requires
        v.wf(),
        data_after_fat(v),
        0 <= coff < v.cluster_size(),
        path_along(v, cur, coff, data.len() as int).no_duplicates(),
        write_along(v, cur, coff, data).error is None,
        write_along(v, cur, coff, data).written == data.len(),
    ensures
        read_along(write_along(v, cur, coff, data).volume, cur, coff, data.len() as int) == (Transfer {
            bytes: data,
            cluster: write_along(v, cur, coff, data).cluster,
            error: None,
        }),
    decreases data.len(),
{
    reveal(write_along);
    reveal(read_along);
    let o = write_along(v, cur, coff, data);
    if data.len() == 0 {
        assert(data =~= Seq::<u8>::empty());
    } else {
        let c = cur->0;
        let n = step_len(v, coff, data.len() as int);
        let v1 = v.with_cluster_bytes(c.0, coff, data, n);
        lemma_cluster_bytes_wf(v, c.0, coff, data, n);
        lemma_kept_cluster(v, c.0, coff, data, n);
        assert(v.cluster_written(v1, c.0, coff, data, v.cluster_fill(coff, data.len() as int)));
        lemma_cluster_write_read(v, v1, c.0, coff, data);
        assert(v1.cluster_read(c.0, coff, n) =~= data.take(n));
        if n < v.cluster_size() - coff {
            assert(data.take(n) =~= data);
        } else {
            assert forall|d: u32| #[trigger] v1.fat_raw(d) == v.fat_raw(d) by {
                lemma_fat_kept(v, v1, seq![c.0], d);
            }
            let nx = next_cluster(v1, c)->Ok_0;
            let rest = write_along(v1, nx, 0, data.skip(n));
            lemma_path_same(v, v1, nx, 0, data.len() - n);
            let s = path_along(v, cur, coff, data.len() as int);
            let p = path_along(v, nx, 0, data.len() - n);
            assert(s == seq![c.0] + p);
            assert(p.no_duplicates()) by {
                assert forall|i: int, j: int| 0 <= i < j < p.len() implies p[i] != p[j] by {
                    assert(s[i + 1] == p[i]);
                    assert(s[j + 1] == p[j]);
                }
            }
            lemma_write_frame(v1, nx, 0, data.skip(n));
            lemma_write_read_back(v1, nx, 0, data.skip(n));
            let w = rest.volume;
            assert forall|d: u32| #[trigger] w.fat_raw(d) == v1.fat_raw(d) by {
                lemma_fat_kept(v1, w, p, d);
            }
            assert forall|q: int| 0 <= q < n implies #[trigger] w.cluster_byte(c.0, coff + q) == v1.cluster_byte(
                c.0,
                coff + q,
            ) by {
                let pos = coff + q;
                lemma_split(pos, v.bytes_per_sector as int, v.sectors_per_cluster as int);
                let i = v.first_sector(c.0) + pos / (v.bytes_per_sector as int);
                let k = pos % (v.bytes_per_sector as int);
                assert(in_cluster(v1, c.0, i));
                assert forall|j: int| 0 <= j < p.len() implies !#[trigger] in_cluster(v1, p[j], i) by {
                    assert(s[j + 1] == p[j]);
                    if in_cluster(v1, p[j], i) {
                        lemma_clusters_disjoint(v1, c.0, p[j], i);
                        assert(s[0] == s[j + 1]);
                    }
                }
                assert(w.byte(i, k) == v1.byte(i, k));
            }
            assert(w.cluster_read(c.0, coff, n) =~= v1.cluster_read(c.0, coff, n));
            assert(data.take(n) + data.skip(n) =~= data);
        }
    }
}

/// A write that does not run off its chain and meets no error writes all
/// of its data.
proof fn lemma_written_all(v: VFatView, cur: Option<Cluster>, coff: int, data: Seq<u8>)
    requires
        v.wf(),
        0 <= coff < v.cluster_size(),
        !write_runs_off(v, cur, coff, data),
        write_along(v, cur, coff, data).error is None,
    ensures
        write_along(v, cur, coff, data).written == data.len(),
    decreases data.len(),
{
    reveal(write_along);
    reveal(write_runs_off);
    if data.len() > 0 {
        let c = cur->0;
        let n = step_len(v, coff, data.len() as int);
        if v.cluster_in_range(c.0) && n == v.cluster_size() - coff {
            let v1 = v.with_cluster_bytes(c.0, coff, data, n);
            lemma_cluster_bytes_wf(v, c.0, coff, data, n);
            if let Ok(nx) = next_cluster(v1, c) {
                lemma_written_all(v1, nx, 0, data.skip(n));
            }
        }
    }
}

/// A cluster outside the clusters `s` reads the same after a change kept
/// outside them.
proof fn lemma_cluster_kept(v: VFatView, w: VFatView, s: Seq<u32>, c: u32, off: int, len: int)
    requires
        v.wf(),
        v.cluster_in_range(c),
        kept_outside(v, w, s),
        forall|j: int| 0 <= j < s.len() ==> s[j] != c,
        0 <= off,
        0 <= len,
    ensures
        w.cluster_read(c, off, len) == v.cluster_read(c, off, len),
{
    let cs = v.cluster_size();
    let a = w.cluster_read(c, off, len);
    let b = v.cluster_read(c, off, len);
    assert(a.len() == b.len());
    assert forall|q: int| 0 <= q < b.len() implies #[trigger] a[q] == b[q] by {
        assert(off + q < cs);
        let pos = off + q;
        lemma_split(pos, v.bytes_per_sector as int, v.sectors_per_cluster as int);
        let i = v.first_sector(c) + pos / (v.bytes_per_sector as int);
        let k = pos % (v.bytes_per_sector as int);
        assert(in_cluster(v, c, i));
        assert forall|j: int| 0 <= j < s.len() implies !#[trigger] in_cluster(v, s[j], i) by {
            if in_cluster(v, s[j], i) {
                lemma_clusters_disjoint(v, c, s[j], i);
            }
        }
        assert(w.byte(i, k) == v.byte(i, k));
        assert(a[q] == w.cluster_byte(c, off + q));
    }
    assert(a =~= b);
}

/// Volumes with the same FAT walk the same chains.
proof fn lemma_walk_same(v: VFatView, w: VFatView, c: u32, f: nat)
    requires
        forall|d: u32| #[trigger] w.fat_raw(d) == v.fat_raw(d),
    ensures
        w.chain_walk(c, f) == v.chain_walk(c, f),
    decreases f,
{
    if f > 0 {
        assert(w.fat_raw(c) == v.fat_raw(c));
        if let Ok(raw) = v.fat_raw(c) {
            if let Status::Data(n) = status_of(raw) {
                lemma_walk_same(v, w, n.0, (f - 1) as nat);
            }
        }
    }
}

/// The bytes a chain write puts into `s`: as many as are left from `done`,
/// at most a cluster's worth for each cluster of `s`.
pub open spec fn chain_room(v: VFatView, data: Seq<u8>, done: int, s: Seq<u32>) -> int {
    if data.len() - done < s.len() * v.cluster_size() {
        data.len() - done
    } else {
        s.len() * v.cluster_size()
    }
}

/// One cluster at a time: a write along a chain that walks to its end
/// mark, through clusters that are distinct and inside the partition,
/// writes as much as the chain holds, changes only those clusters, and the
/// chain's data afterwards starts with what was written.
#[verifier::spinoff_prover]
#[verifier::rlimit(100)]
proof fn lemma_chain_write_walk(v: VFatView, c: u32, f: nat, data: Seq<u8>, done: nat)
    requires
        v.wf(),
        data_after_fat(v),
        v.cluster_size() % 512 == 0,
        v.chain_walk(c, f) is Some,
        (v.chain_walk(c, f)->0).1 is None,
        (v.chain_walk(c, f)->0).0.no_duplicates(),
        forall|j: int|
            0 <= j < (v.chain_walk(c, f)->0).0.len() ==> v.cluster_in_range(
                #[trigger] (v.chain_walk(c, f)->0).0[j],
            ),
        done <= data.len(),
    ensures
        ({
            let s = (v.chain_walk(c, f)->0).0;
            let out = v.chain_write(c, data, done);
            let k = chain_room(v, data, done as int, s);
            &&& out.1 == Ok::<int, IoErrorKind>(done + k)
            &&& out.0.wf()
            &&& data_after_fat(out.0)
            &&& kept_outside(v, out.0, s)
            &&& out.0.chain_data(s).1 is None
            &&& out.0.chain_data(s).0.take(k) == data.subrange(done as int, done + k)
        }),
    decreases f,
{
    let s = (v.chain_walk(c, f)->0).0;
    let cs = v.cluster_size();
    assert(cs > 0) by (nonlinear_arith)
        requires
            v.bytes_per_sector > 0,
            v.sectors_per_cluster > 0,
            cs == v.bytes_per_sector * v.sectors_per_cluster,
    ;
    assert((cs / 512) * 512 == cs) by (nonlinear_arith)
        requires
            cs % 512 == 0,
            cs > 0,
    ;
    let raw = v.fat_raw(c)->Ok_0;
    let st = status_of(raw);
    assert(s.len() >= 1 && s[0] == c);
    let rest = data.skip(done as int);
    let k1 = v.cluster_fill(0, rest.len() as int);
    if done >= data.len() {
        lemma_kept_same(v);
        lemma_chain_data_whole(v, s);
        assert(s.len() * cs >= 0) by (nonlinear_arith)
            requires
                cs > 0,
        ;
        assert(data.subrange(done as int, done as int) =~= Seq::<u8>::empty());
        return;
    }
    let w1 = v.with_cluster_bytes(c, 0, rest, k1);
    lemma_cluster_bytes_wf(v, c, 0, rest, k1);
    lemma_kept_cluster(v, c, 0, rest, k1);
    assert forall|d: u32| #[trigger] w1.fat_raw(d) == v.fat_raw(d) by {
        lemma_fat_kept(v, w1, seq![c], d);
    }
    assert(v.cluster_written(w1, c, 0, rest, v.cluster_fill(0, rest.len() as int)));
    lemma_cluster_write_read(v, w1, c, 0, rest);
    assert(w1.cluster_read(c, 0, rest.len() as int) == rest.take(k1));
    let part1 = w1.cluster_read(c, 0, cs);
    assert(part1.take(k1) =~= w1.cluster_read(c, 0, rest.len() as int));
    assert(rest.take(k1) =~= data.subrange(done as int, done + k1));
    match st {
        Status::Eoc(_) => {
            assert(s =~= seq![c]);
            assert(s.len() * cs == cs) by (nonlinear_arith)
                requires
                    s.len() == 1,
            ;
            assert(w1.chain_data(s.skip(1)) == (Seq::<u8>::empty(), None::<IoErrorKind>)) by {
                assert(s.skip(1) =~= Seq::<u32>::empty());
            }
            assert(w1.chain_data(s).0 =~= part1 + Seq::<u8>::empty());
        },
        Status::Data(n) => {
            let fp = (f - 1) as nat;
            let sp = (v.chain_walk(n.0, fp)->0).0;
            assert(s == seq![c] + sp);
            lemma_walk_same(v, w1, n.0, fp);
            assert forall|j: int| 0 <= j < sp.len() implies w1.cluster_in_range(#[trigger] sp[j]) by {
                assert(s[j + 1] == sp[j]);
            }
            assert(sp.no_duplicates()) by {
                assert forall|i: int, j: int| 0 <= i < j < sp.len() implies sp[i] != sp[j] by {
                    assert(s[i + 1] == sp[i]);
                    assert(s[j + 1] == sp[j]);
                }
            }
            let done2 = (done + k1) as nat;
            lemma_chain_write_walk(w1, n.0, fp, data, done2);
            let w = w1.chain_write(n.0, data, done2).0;
            let k2 = chain_room(w1, data, done2 as int, sp);
            lemma_kept_trans(v, w1, w, seq![c], sp);
            assert forall|j: int| 0 <= j < sp.len() implies sp[j] != c by {
                assert(s[j + 1] == sp[j]);
                assert(s[0] != s[j + 1]);
            }
            lemma_cluster_kept(w1, w, sp, c, 0, cs);
            assert(s.skip(1) =~= sp);
            assert(w.chain_data(s).0 == part1 + w.chain_data(sp).0);
            assert(s.len() * cs == cs + sp.len() * cs) by (nonlinear_arith)
                requires
                    s.len() == sp.len() + 1,
            ;
            assert(sp.len() * cs >= 0) by (nonlinear_arith)
                requires
                    cs > 0,
            ;
            assert(part1.len() == cs);
            lemma_chain_data_whole(w, sp);
            if k2 == 0 {
                assert((part1 + w.chain_data(sp).0).take(k1) =~= part1.take(k1));
                assert(data.subrange(done2 as int, done2 as int) =~= Seq::<u8>::empty());
            } else {
                assert(k1 == cs);
                assert((part1 + w.chain_data(sp).0).take(k1 + k2) =~= part1 + w.chain_data(sp).0.take(k2));
                assert(part1 =~= part1.take(k1));
                assert(data.subrange(done as int, done + k1 + k2) =~= data.subrange(done as int, done + k1)
                    + data.subrange(done2 as int, done2 + k2));
            }
        },
        _ => {},
    }
}

/// The data of a run of clusters inside the partition is read in full:
/// a cluster's worth for each cluster when clusters hold whole 512-byte
/// pieces.
proof fn lemma_chain_data_whole(v: VFatView, s: Seq<u32>)
    requires
        v.wf(),
        v.cluster_size() % 512 == 0,
        forall|j: int| 0 <= j < s.len() ==> v.cluster_in_range(#[trigger] s[j]),
    ensures
        v.chain_data(s).1 is None,
        v.chain_data(s).0.len() == s.len() * v.cluster_size(),
    decreases s.len(),
{
    let cs = v.cluster_size();
    assert(cs > 0) by (nonlinear_arith)
        requires
            v.bytes_per_sector > 0,
            v.sectors_per_cluster > 0,
            cs == v.bytes_per_sector * v.sectors_per_cluster,
    ;
    assert((cs / 512) * 512 == cs) by (nonlinear_arith)
        requires
            cs % 512 == 0,
            cs > 0,
    ;
    if s.len() > 0 {
        assert forall|j: int| 0 <= j < s.skip(1).len() implies v.cluster_in_range(#[trigger] s.skip(1)[j]) by {
            assert(s.skip(1)[j] == s[j + 1]);
        }
        lemma_chain_data_whole(v, s.skip(1));
        assert(s.len() * cs == cs + (s.len() - 1) * cs) by (nonlinear_arith);
    }
}

/// Reading back a chain write: when the data region lies after the FAT,
/// clusters hold whole 512-byte pieces, and the chain from `start` walks to
/// its end mark through clusters inside the partition, a write of
/// `data` along it writes as much as the chain holds, the chain is still
/// the same, and reading it gives back what was written first.
pub proof fn lemma_write_chain_read_back(v: VFatView, start: u32, data: Seq<u8>)
    requires
        v.wf(),
        data_after_fat(v),
        v.cluster_size() % 512 == 0,
        v.chain_ends(start),
        v.chain(start).1 is None,
        forall|j: int| 0 <= j < v.chain(start).0.len() ==> v.cluster_in_range(#[trigger] v.chain(start).0[j]),
    ensures
        ({
            let s = v.chain(start).0;
            let out = v.chain_write(start, data, 0);
            let n = chain_room(v, data, 0, s);
            &&& out.1 == Ok::<int, IoErrorKind>(n)
            &&& out.0.chain_ends(start)
            &&& out.0.chain(start) == v.chain(start)
            &&& out.0.chain_data(s).1 is None
            &&& out.0.chain_data(s).0.take(n) == data.take(n)
        }),
{
    let f = v.chain_fuel(start);
    let s = v.chain(start).0;
    lemma_walk_distinct(v, start, f);
    lemma_chain_write_walk(v, start, f, data, 0);
    let w = v.chain_write(start, data, 0).0;
    assert forall|d: u32| #[trigger] w.fat_raw(d) == v.fat_raw(d) by {
        lemma_fat_kept(v, w, s, d);
    }
    lemma_walk_same(v, w, start, f);
    lemma_chain_is_walk(w, start, f);
    let n = chain_room(v, data, 0, s);
    assert(data.subrange(0, n) =~= data.take(n));
}

/// Growing a chain keeps the volume's shape.
proof fn lemma_reserve_shape(v: VFatView, c: u32, target: int, fuel: nat)
    requires
        v.wf(),
    ensures
        reserve(v, c, target, fuel).0.wf(),
        reserve(v, c, target, fuel).0.same_geometry(v),
    decreases fuel,
{
    reveal(reserve);
    if fuel > 0 {
        let w = v.chain(c);
        if w.1 is None && w.0.len() * v.cluster_size() < target {
            if let Ok(n) = v.first_free(0, v.search_clusters()) {
                let v1 = v.with_fat_entry(w.0.last(), n);
                let v2 = v1.with_fat_entry(n, crate::fat32::volume::END_OF_CHAIN);
                assert(v1.wf()) by {
                    assert forall|i: int| 0 <= i < v1.sectors.len() implies (#[trigger] v1.sectors[i]).len()
                        == v1.bytes_per_sector by {
                        assert(v.sectors[i].len() == v.bytes_per_sector);
                    }
                }
                assert(v2.wf()) by {
                    assert forall|i: int| 0 <= i < v2.sectors.len() implies (#[trigger] v2.sectors[i]).len()
                        == v2.bytes_per_sector by {
                        assert(v1.sectors[i].len() == v1.bytes_per_sector);
                    }
                }
                lemma_reserve_shape(v2, c, target, (fuel - 1) as nat);
            }
        }
    }
}

/// The walk from a cluster of a walk is the rest of that walk.
proof fn lemma_walk_suffix(v: VFatView, x: u32, f: nat, i: int)
    requires
        v.chain_walk(x, f) is Some,
        0 <= i < (v.chain_walk(x, f)->0).0.len(),
    ensures
        i <= f,
        v.chain_walk((v.chain_walk(x, f)->0).0[i], (f - i) as nat) == Some::<(Seq<u32>, Option<IoErrorKind>)>(
            ((v.chain_walk(x, f)->0).0.skip(i), (v.chain_walk(x, f)->0).1),
        ),
    decreases i,
{
    let w = v.chain_walk(x, f)->0;
    if i == 0 {
        assert(w.0.skip(0) =~= w.0);
        assert(f > 0);
        assert(w.0[0] == x);
    } else {
        lemma_walk_suffix(v, x, f, i - 1);
        let y = w.0[i - 1];
        let g = (f - (i - 1)) as nat;
        let t = w.0.skip(i - 1);
        assert(t.len() >= 2);
        let raw = v.fat_raw(y)->Ok_0;
        if let Status::Data(n) = status_of(raw) {
            let r = v.chain_walk(n.0, (g - 1) as nat)->0;
            assert(t == seq![y] + r.0);
            assert(r.0 =~= t.skip(1));
            assert(t.skip(1) =~= w.0.skip(i));
            assert(r.0[0] == n.0);
            assert(w.0.skip(i)[0] == w.0[i]);
        }
    }
}

/// A walk that ends passes through no cluster twice.
proof fn lemma_walk_distinct(v: VFatView, x: u32, f: nat)
    requires
        v.chain_walk(x, f) is Some,
    ensures
        (v.chain_walk(x, f)->0).0.no_duplicates(),
{
    let s = (v.chain_walk(x, f)->0).0;
    assert forall|i: int, j: int| 0 <= i < j < s.len() implies s[i] != s[j] by {
        lemma_walk_suffix(v, x, f, i);
        lemma_walk_suffix(v, x, f, j);
        if s[i] == s[j] {
            lemma_walk_fuel(v, s[i], (f - i) as nat, (f - j) as nat);
            assert(s.skip(i).len() != s.skip(j).len());
        }
    }
}

/// The clusters a transfer passes through come first in the walk from its
/// cluster, when that walk reaches its end mark.
proof fn lemma_path_in_walk(v: VFatView, c: Cluster, coff: int, want: int, f: nat)
    requires
        v.chain_walk(c.0, f) is Some,
        (v.chain_walk(c.0, f)->0).1 is None,
    ensures
        path_along(v, Some(c), coff, want).len() <= (v.chain_walk(c.0, f)->0).0.len(),
        forall|k: int|
            0 <= k < path_along(v, Some(c), coff, want).len() ==> #[trigger] path_along(v, Some(c), coff, want)[k]
                == (v.chain_walk(c.0, f)->0).0[k],
    decreases want,
{
    let s = (v.chain_walk(c.0, f)->0).0;
    let p = path_along(v, Some(c), coff, want);
    assert(f > 0);
    assert(v.fat_raw(c.0) is Ok);
    let raw = v.fat_raw(c.0)->Ok_0;
    let st = status_of(raw);
    assert(st is Data || st is Eoc);
    assert(s.len() >= 1 && s[0] == c.0);
    if want > 0 && v.cluster_size() > 0 && 0 <= coff < v.cluster_size() && v.cluster_in_range(c.0) {
        let n = step_len(v, coff, want);
        if n == v.cluster_size() - coff {
            match st {
                Status::Data(nx) => {
                    let r = v.chain_walk(nx.0, (f - 1) as nat)->0;
                    assert(v.chain_walk(nx.0, (f - 1) as nat) is Some);
                    lemma_path_in_walk(v, nx, 0, want - n, (f - 1) as nat);
                    let q = path_along(v, Some(nx), 0, want - n);
                    assert(p == seq![c.0] + q);
                    assert(s == seq![c.0] + r.0);
                    assert forall|k: int| 0 <= k < p.len() implies #[trigger] p[k] == s[k] by {
                        if k > 0 {
                            assert(p[k] == q[k - 1]);
                            assert(s[k] == r.0[k - 1]);
                        }
                    }
                },
                _ => {
                    assert(next_cluster(v, c) == Ok::<Option<Cluster>, IoErrorKind>(None));
                    assert(path_along(v, None, 0, want - n) == Seq::<u32>::empty());
                    assert(p =~= seq![c.0]);
                },
            }
        } else {
            assert(p == seq![c.0]);
        }
    } else {
        assert(p.len() == 0);
    }
}

/// A volume with the FAT entry of `c` set reads as updated.
proof fn lemma_with_fat_entry_updated(v: VFatView, c: u32, value: u32)
    ensures
        v.fat_updated(v.with_fat_entry(c, value), c, value),
{
}

/// Growing a chain that walks to its end mark, when it succeeds, leaves a
/// chain from the same cluster that walks to its end mark.
proof fn lemma_reserve_ends(v: VFatView, c: u32, target: int, fuel: nat)
    requires
        v.wf(),
        growable(v),
        v.chain_ends(c),
        fuel > 0 || v.chain(c).1 is None,
        reserve(v, c, target, fuel).1 is None,
    ensures
        reserve(v, c, target, fuel).0.chain_ends(c),
        reserve(v, c, target, fuel).0.chain(c).1 is None,
    decreases fuel,
{
    reveal(reserve);
    if fuel > 0 {
        let w = v.chain(c);
        if w.1 is None && w.0.len() * v.cluster_size() < target {
            let n = v.first_free(0, v.search_clusters())->Ok_0;
            lemma_first_free(v, 0, v.search_clusters());
            if n < 2 {
                assert(v.reserves_first_clusters());
                assert(n == 0 || n == 1);
            }
            let mid = v.with_fat_entry(w.0.last(), n);
            let v2 = mid.with_fat_entry(n, END_OF_CHAIN);
            lemma_with_fat_entry_updated(v, w.0.last(), n);
            lemma_with_fat_entry_updated(mid, n, END_OF_CHAIN);
            lemma_chain_extended(v, mid, v2, c, n);
            lemma_reserve_ends(v2, c, target, (fuel - 1) as nat);
        }
    }
}

/// Nothing changed is kept, whatever clusters may have changed.
proof fn lemma_kept_refl(v: VFatView, s: Seq<u32>)
    ensures
        kept_outside(v, v, s),
{
}

/// A chain write changes only the clusters of the walk from its first
/// cluster, and keeps the volume's shape.
proof fn lemma_chain_write_frame(v: VFatView, c: u32, f: nat, data: Seq<u8>, done: nat)
    requires
        v.wf(),
        data_after_fat(v),
        v.chain_walk(c, f) is Some,
    ensures
        v.chain_write(c, data, done).0.wf(),
        data_after_fat(v.chain_write(c, data, done).0),
        kept_outside(v, v.chain_write(c, data, done).0, (v.chain_walk(c, f)->0).0),
    decreases f,
{
    let s = (v.chain_walk(c, f)->0).0;
    assert(v.cluster_size() > 0) by (nonlinear_arith)
        requires
            v.bytes_per_sector > 0,
            v.sectors_per_cluster > 0,
    ;
    lemma_kept_refl(v, s);
    if done < data.len() {
        if let Ok(raw) = v.fat_raw(c) {
            let st = status_of(raw);
            let rest = data.skip(done as int);
            let k = v.cluster_fill(0, rest.len() as int);
            if (st is Data || st is Eoc) && v.cluster_in_range(c) {
                let w1 = v.with_cluster_bytes(c, 0, rest, k);
                lemma_cluster_bytes_wf(v, c, 0, rest, k);
                lemma_kept_cluster(v, c, 0, rest, k);
                match st {
                    Status::Data(n) => {
                        let fp = (f - 1) as nat;
                        let sp = (v.chain_walk(n.0, fp)->0).0;
                        assert(s == seq![c] + sp);
                        assert forall|d: u32| #[trigger] w1.fat_raw(d) == v.fat_raw(d) by {
                            lemma_fat_kept(v, w1, seq![c], d);
                        }
                        lemma_walk_same(v, w1, n.0, fp);
                        lemma_chain_write_frame(w1, n.0, fp, data, (done + k) as nat);
                        lemma_kept_trans(v, w1, w1.chain_write(n.0, data, (done + k) as nat).0, seq![c], sp);
                    },
                    _ => {
                        assert(s =~= seq![c]);
                    },
                }
            }
        }
    }
}

/// A read along a chain sees the same bytes after a change kept outside
/// clusters it does not pass through.
proof fn lemma_read_frame(v: VFatView, w: VFatView, s: Seq<u32>, cur: Option<Cluster>, coff: int, want: int)
    requires
        v.wf(),
        data_after_fat(v),
        kept_outside(v, w, s),
        forall|j: int, k: int|
            0 <= j < path_along(v, cur, coff, want).len() && 0 <= k < s.len() ==> #[trigger] path_along(
                v,
                cur,
                coff,
                want,
            )[j] != #[trigger] s[k],
    ensures
        read_along(w, cur, coff, want) == read_along(v, cur, coff, want),
    decreases want,
{
    reveal(read_along);
    let p = path_along(v, cur, coff, want);
    if want > 0 && v.cluster_size() > 0 && 0 <= coff < v.cluster_size() && cur is Some && v.cluster_in_range(
        (cur->0).0,
    ) {
        let c = cur->0;
        let n = step_len(v, coff, want);
        assert(p[0] == c.0);
        assert forall|k: int| 0 <= k < s.len() implies s[k] != c.0 by {
            assert(p[0] != s[k]);
        }
        lemma_cluster_kept(v, w, s, c.0, coff, n);
        assert(w.fat_raw(c.0) == v.fat_raw(c.0)) by {
            lemma_fat_kept(v, w, s, c.0);
        }
        if n == v.cluster_size() - coff {
            if let Ok(nx) = next_cluster(v, c) {
                let q = path_along(v, nx, 0, want - n);
                assert(p == seq![c.0] + q);
                assert forall|j: int, k: int| 0 <= j < q.len() && 0 <= k < s.len() implies #[trigger] q[j]
                    != #[trigger] s[k] by {
                    assert(p[j + 1] == q[j]);
                }
                lemma_read_frame(v, w, s, nx, 0, want - n);
            }
        }
    }
}

/// Reading back a write to a file: after `buf` was written at the position
/// of `f0` without an error, a read of as many bytes from that position (in
/// the file grown to its new size) gives back `buf` and ends where the
/// write ended, when the data region lies after the FAT and the file's
/// clusters written are not among those of its parent directory (whose
/// entry the write may update).
pub proof fn lemma_file_write_read_back(
    f0: File,
    f1: File,
    w0: VFatView,
    w1: VFatView,
    buf: Seq<u8>,
    r: Result<usize, IoErrorKind>,
)
    requires
        write_ok(f0, w0, buf),
        file_written(f0, f1, w0, w1, buf, r),
        r is Ok,
        data_after_fat(w0),
        ({
            let target = f0.offset + buf.len();
            let v1 = reserve(w0, (f0.current_cluster->0).0, target, (target + 1) as nat).0;
            let p = path_along(v1, f0.current_cluster, (f0.offset % f0.bytes_per_cluster) as int, buf.len() as int);
            let w = data_written(f0, w0, buf);
            f0.parent_first_cluster matches Some(pc) ==> forall|j: int, k: int|
                0 <= j < p.len() && 0 <= k < w.chain(pc.0).0.len() ==> p[j] != w.chain(pc.0).0[k]
        }),
    ensures
        read_max(File { size: f1.size, ..f0 }, buf.len() as int) == buf.len(),
        read_transfer(File { size: f1.size, ..f0 }, w1, buf.len() as int) == (Transfer {
            bytes: buf,
            cluster: f1.current_cluster,
            error: None,
        }),
{
    let c = f0.current_cluster->0;
    let target = f0.offset + buf.len();
    let v1 = reserve(w0, c.0, target, (target + 1) as nat).0;
    lemma_reserve_shape(w0, c.0, target, (target + 1) as nat);
    assert(w0.cluster_size() > 0) by (nonlinear_arith)
        requires
            w0.bytes_per_sector > 0,
            w0.sectors_per_cluster > 0,
    ;
    let coff = (f0.offset % f0.bytes_per_cluster) as int;
    lemma_reserve_ends(w0, c.0, target, (target + 1) as nat);
    let fl = v1.chain_fuel(c.0);
    lemma_chain_is_walk(v1, c.0, fl);
    lemma_walk_distinct(v1, c.0, fl);
    lemma_path_in_walk(v1, c, coff, buf.len() as int, fl);
    let p = path_along(v1, f0.current_cluster, coff, buf.len() as int);
    let s = v1.chain(c.0).0;
    assert(p.no_duplicates()) by {
        assert forall|i: int, j: int| 0 <= i < j < p.len() implies p[i] != p[j] by {
            assert(p[i] == s[i]);
            assert(p[j] == s[j]);
        }
    }
    lemma_written_all(v1, f0.current_cluster, coff, buf);
    lemma_write_read_back(v1, f0.current_cluster, coff, buf);
    let w = write_along(v1, f0.current_cluster, coff, buf).volume;
    if target > f0.size && f0.parent_first_cluster is Some {
        let pc = f0.parent_first_cluster->0;
        lemma_write_frame(v1, f0.current_cluster, coff, buf);
        let fp = w.chain_fuel(pc.0);
        lemma_chain_is_walk(w, pc.0, fp);
        let sp = w.chain(pc.0).0;
        let d = w.chain_data(sp);
        let patched = with_entry_size(d.0, f0.first_cluster.0, target as u32);
        lemma_chain_write_frame(w, pc.0, fp, patched, 0);
        let w2 = w.chain_write(pc.0, patched, 0).0;
        assert forall|e: u32| #[trigger] w.fat_raw(e) == v1.fat_raw(e) by {
            lemma_fat_kept(v1, w, path_along(v1, f0.current_cluster, coff, buf.len() as int), e);
        }
        lemma_path_same(v1, w, f0.current_cluster, coff, buf.len() as int);
        lemma_read_frame(w, w2, sp, f0.current_cluster, coff, buf.len() as int);
    }
}
} // verus!

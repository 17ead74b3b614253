//! Reading, writing and seeking in a file of a FAT32 volume.

use vstd::prelude::*;

verus! {

use crate::fat32::cluster::Cluster;
use crate::fat32::dir::{Dir, DirIterator, File, SeekFrom, count_regular, entry_count, regular_at, VFatRegularDirEntry};
use crate::fat32::volume::{
    VFat, VFatView, Status, status_of, fat_status, lemma_cluster_written_is, lemma_fat_updated_is, lemma_first_free,
    lemma_chain_extended, lemma_fat_update_read, END_OF_CHAIN, le_bytes,
};
use crate::fat32::cluster::cluster_of;
use crate::fat32::bytes::copy_range;
use vstd::arithmetic::div_mod::lemma_fundamental_div_mod;
use crate::command::push_bytes;
use crate::kernel_api::IoErrorKind;

/// The outcome of a transfer along a chain: the bytes moved, the cluster
/// the position is in afterwards, and the error that stopped it, if any.
pub struct Transfer {
    pub bytes: Seq<u8>,
    pub cluster: Option<Cluster>,
    pub error: Option<IoErrorKind>,
}

/// The cluster after `c` once `c` has been used up to its end: the next
/// cluster of the chain, `None` at the end of the chain, or the error: an
/// entry that cannot be read gives its error, a free, reserved or bad one
/// `InvalidInput`.
pub open spec fn next_cluster(v: VFatView, c: Cluster) -> Result<Option<Cluster>, IoErrorKind> {
    match v.fat_raw(c.0) {
        Err(e) => Err(e),
        Ok(raw) => match status_of(raw) {
            Status::Data(n) => Ok(Some(n)),
            Status::Eoc(_) => Ok(None),
            _ => Err(IoErrorKind::InvalidInput),
        },
    }
}

/// Whether a read or write of `want` bytes from `coff` in cluster `cur`
/// reaches a cluster that does not exist (the position is past the end of
/// the chain) or a cluster that holds no data.
#[verifier::opaque]
pub open spec fn runs_off(v: VFatView, cur: Option<Cluster>, coff: int, want: int) -> bool
    decreases want,
{
    if want <= 0 || v.cluster_size() <= 0 || coff < 0 || coff >= v.cluster_size() {
        false
    } else {
        match cur {
            None => true,
            Some(c) => if c.0 < 2 {
                true
            } else if !v.cluster_in_range(c.0) {
                false
            } else {
                let n = if want < v.cluster_size() - coff { want } else { v.cluster_size() - coff };
                if n == v.cluster_size() - coff {
                    match next_cluster(v, c) {
                        Err(_) => false,
                        Ok(nx) => runs_off(v, nx, 0, want - n),
                    }
                } else {
                    false
                }
            },
        }
    }
}

/// Reading `want` bytes from byte `coff` of cluster `cur` on along its
/// chain: each cluster gives the bytes from the position to its end (or
/// as many as are still wanted), and a cluster used up to its end moves the
/// position to the next one. A cluster outside the partition is
/// `InvalidInput`.
#[verifier::opaque]
pub open spec fn read_along(v: VFatView, cur: Option<Cluster>, coff: int, want: int) -> Transfer
    decreases want,
{
    if want <= 0 || v.cluster_size() <= 0 || coff < 0 || coff >= v.cluster_size() {
        Transfer { bytes: Seq::empty(), cluster: cur, error: None }
    } else {
        match cur {
            None => Transfer { bytes: Seq::empty(), cluster: cur, error: None },
            Some(c) => if !v.cluster_in_range(c.0) {
                Transfer { bytes: Seq::empty(), cluster: cur, error: Some(IoErrorKind::InvalidInput) }
            } else {
                let n = if want < v.cluster_size() - coff { want } else { v.cluster_size() - coff };
                let data = v.cluster_read(c.0, coff, n);
                if n == v.cluster_size() - coff {
                    match next_cluster(v, c) {
                        Err(e) => Transfer { bytes: data, cluster: cur, error: Some(e) },
                        Ok(nx) => {
                            let rest = read_along(v, nx, 0, want - n);
                            Transfer { bytes: data + rest.bytes, cluster: rest.cluster, error: rest.error }
                        },
                    }
                } else {
                    Transfer { bytes: data, cluster: cur, error: None }
                }
            },
        }
    }
}

/// The bytes a read wants from a cluster: all that is wanted, or the rest
/// of the cluster.
pub open spec fn step_len(v: VFatView, coff: int, want: int) -> int {
    if want < v.cluster_size() - coff { want } else { v.cluster_size() - coff }
}

/// One step of a read along a chain.
proof fn lemma_read_step(v: VFatView, cur: Option<Cluster>, coff: int, want: int)
    requires
        v.wf(),
        want > 0,
        0 <= coff < v.cluster_size(),
        !runs_off(v, cur, coff, want),
    ensures
        cur is Some,
        (cur->0).0 >= 2,
        ({
            let c = cur->0;
            let n = step_len(v, coff, want);
            let data = v.cluster_read(c.0, coff, n);
            let t = read_along(v, cur, coff, want);
            &&& !v.cluster_in_range(c.0) ==> t == Transfer {
                bytes: Seq::empty(),
                cluster: cur,
                error: Some(IoErrorKind::InvalidInput),
            }
            &&& v.cluster_in_range(c.0) && n < v.cluster_size() - coff ==> t == Transfer {
                bytes: data,
                cluster: cur,
                error: None,
            }
            &&& v.cluster_in_range(c.0) && n == v.cluster_size() - coff ==> match next_cluster(v, c) {
                Err(e) => t == Transfer { bytes: data, cluster: cur, error: Some(e) },
                Ok(nx) => {
                    let rest = read_along(v, nx, 0, want - n);
                    &&& t == Transfer { bytes: data + rest.bytes, cluster: rest.cluster, error: rest.error }
                    &&& !runs_off(v, nx, 0, want - n)
                },
            }
        }),
{
    reveal(read_along);
    reveal(runs_off);
}

/// A read of nothing moves nothing.
proof fn lemma_read_none(v: VFatView, cur: Option<Cluster>, coff: int)
    ensures
        read_along(v, cur, coff, 0) == (Transfer { bytes: Seq::empty(), cluster: cur, error: None }),
        !runs_off(v, cur, coff, 0),
{
    reveal(read_along);
    reveal(runs_off);
}

/// A read that meets no error and does not run off its chain gives all
/// the bytes wanted.
proof fn lemma_read_len(v: VFatView, cur: Option<Cluster>, coff: int, want: int)
    requires
        v.wf(),
        0 <= coff < v.cluster_size(),
        want >= 0,
        read_along(v, cur, coff, want).error is None,
        !runs_off(v, cur, coff, want),
    ensures
        read_along(v, cur, coff, want).bytes.len() == want,
    decreases want,
{
    reveal(read_along);
    reveal(runs_off);
    if want > 0 {
        let c = cur->0;
        let n = step_len(v, coff, want);
        if n == v.cluster_size() - coff {
            if let Ok(nx) = next_cluster(v, c) {
                lemma_read_len(v, nx, 0, want - n);
            }
        }
    }
}

/// Reading `a + b` bytes is reading `a` bytes and then `b` bytes from
/// where the first read stopped.
proof fn lemma_read_split(v: VFatView, cur: Option<Cluster>, coff: int, a: int, b: int)
    requires
        v.wf(),
        0 <= coff < v.cluster_size(),
        a >= 0,
        b >= 0,
        read_along(v, cur, coff, a + b).error is None,
        !runs_off(v, cur, coff, a + b),
    ensures
        ({
            let t = read_along(v, cur, coff, a);
            let u = read_along(v, t.cluster, (coff + a) % v.cluster_size(), b);
            &&& t.error is None
            &&& !runs_off(v, cur, coff, a)
            &&& u.error is None
            &&& !runs_off(v, t.cluster, (coff + a) % v.cluster_size(), b)
            &&& read_along(v, cur, coff, a + b).bytes == t.bytes + u.bytes
            &&& read_along(v, cur, coff, a + b).cluster == u.cluster
        }),
    decreases a,
{
    reveal(read_along);
    reveal(runs_off);
    let cs = v.cluster_size();
    if a == 0 {
        assert(Seq::<u8>::empty() + read_along(v, cur, coff, b).bytes =~= read_along(v, cur, coff, b).bytes);
        vstd::arithmetic::div_mod::lemma_small_mod(coff as nat, cs as nat);
    } else {
        let c = cur->0;
        let na = step_len(v, coff, a);
        let nab = step_len(v, coff, a + b);
        if a < cs - coff {
            vstd::arithmetic::div_mod::lemma_small_mod((coff + a) as nat, cs as nat);
            let q = coff + a;
            assert(v.cluster_read(c.0, coff, na) =~= v.cluster_read(c.0, coff, a));
            if a + b < cs - coff {
                assert(v.cluster_read(c.0, coff, a + b) =~= v.cluster_read(c.0, coff, a) + v.cluster_read(
                    c.0,
                    q,
                    b,
                ));
                lemma_read_none(v, cur, q);
            } else {
                assert(v.cluster_read(c.0, coff, cs - coff) =~= v.cluster_read(c.0, coff, a) + v.cluster_read(
                    c.0,
                    q,
                    cs - q,
                ));
                if b == 0 {
                    lemma_read_none(v, cur, q);
                    assert(a == cs - coff);
                }
            }
        } else {
            assert(na == cs - coff);
            assert(nab == cs - coff);
            if let Ok(nx) = next_cluster(v, c) {
                lemma_read_split(v, nx, 0, a - na, b);
                assert(coff + a == cs + (a - na));
                vstd::arithmetic::div_mod::lemma_mod_add_multiples_vanish(a - na, cs);
                let d = v.cluster_read(c.0, coff, na);
                let t2 = read_along(v, nx, 0, a - na);
                let u = read_along(v, t2.cluster, (a - na) % cs, b);
                assert(d + (t2.bytes + u.bytes) =~= (d + t2.bytes) + u.bytes);
            }
        }
    }
}

/// The walk along a chain from a cluster that goes on to `nx`.
proof fn lemma_cluster_at_next(v: VFatView, c: Cluster, k: nat)
    ensures
        cluster_at(v, Some(c), k + 1) == match next_cluster(v, c) {
            Err(e) => Err(e),
            Ok(nx) => cluster_at(v, nx, k),
        },
    decreases k,
{
    if k == 0 {
        assert(cluster_at(v, Some(c), 0) == Ok::<Option<Cluster>, IoErrorKind>(Some(c)));
    } else {
        let km = (k - 1) as nat;
        lemma_cluster_at_next(v, c, km);
        let prev = cluster_at(v, Some(c), k);
        assert(cluster_at(v, Some(c), k + 1) == match prev {
            Err(e) => Err(e),
            Ok(None) => Ok(None),
            Ok(Some(d)) => next_cluster(v, d),
        });
        match next_cluster(v, c) {
            Err(e) => {
                assert(prev == Err::<Option<Cluster>, IoErrorKind>(e));
            },
            Ok(nx) => {
                assert(prev == cluster_at(v, nx, km));
                assert(cluster_at(v, nx, k) == match cluster_at(v, nx, km) {
                    Err(e) => Err(e),
                    Ok(None) => Ok(None),
                    Ok(Some(d)) => next_cluster(v, d),
                });
            },
        }
    }
}

/// A walk from past the end stays there.
proof fn lemma_cluster_at_none_from(v: VFatView, k: nat)
    ensures
        cluster_at(v, None, k) == Ok::<Option<Cluster>, IoErrorKind>(None),
    decreases k,
{
    if k > 0 {
        lemma_cluster_at_none_from(v, (k - 1) as nat);
    }
}

/// After reading `o` bytes from the start of a chain, the position is in
/// the cluster `o / cluster size` clusters along it.
proof fn lemma_read_cluster(v: VFatView, first: Cluster, o: int)
    requires
        v.wf(),
        o >= 0,
        read_along(v, Some(first), 0, o).error is None,
        !runs_off(v, Some(first), 0, o),
    ensures
        cluster_at(v, Some(first), (o / v.cluster_size()) as nat) == Ok::<Option<Cluster>, IoErrorKind>(
            read_along(v, Some(first), 0, o).cluster,
        ),
    decreases o,
{
    reveal(read_along);
    reveal(runs_off);
    let cs = v.cluster_size();
    assert(cs > 0) by (nonlinear_arith)
        requires
            v.bytes_per_sector > 0,
            v.sectors_per_cluster > 0,
            cs == v.bytes_per_sector * v.sectors_per_cluster,
    ;
    if o < cs {
        assert(o / cs == 0) by {
            vstd::arithmetic::div_mod::lemma_basic_div(o, cs);
        }
        if o == 0 {
            lemma_read_none(v, Some(first), 0);
        }
    } else {
        let nx = next_cluster(v, first)->Ok_0;
        vstd::arithmetic::div_mod::lemma_fundamental_div_mod(o - cs, cs);
        vstd::arithmetic::div_mod::lemma_mod_bound(o - cs, cs);
        let q = (o - cs) / cs;
        assert(o == cs * (q + 1) + (o - cs) % cs) by (nonlinear_arith)
            requires
                o - cs == cs * q + (o - cs) % cs,
        ;
        vstd::arithmetic::div_mod::lemma_fundamental_div_mod_converse(o, cs, q + 1, (o - cs) % cs);
        lemma_cluster_at_next(v, first, ((o - cs) / cs) as nat);
        match nx {
            Some(n) => {
                lemma_read_cluster(v, n, o - cs);
            },
            None => {
                lemma_read_none(v, None, 0);
                assert(o - cs == 0) by {
                    if o - cs > 0 {
                        assert(runs_off(v, None, 0, o - cs));
                    }
                }
            },
        }
    }
}

/// A read after a seek gives the file's bytes from there on: when the
/// chain from the file's first cluster can be read to the file's size
/// without an error, `n` bytes read from position `o` (with the position's
/// cluster found by walking the chain, as `seek` does) are the bytes
/// `o..o + n` of the file.
pub proof fn lemma_seek_then_read(v: VFatView, first: Cluster, size: int, o: int, n: int)
    requires
        v.wf(),
        0 <= o,
        0 <= n,
        o + n <= size,
        read_along(v, Some(first), 0, size).error is None,
        !runs_off(v, Some(first), 0, size),
    ensures
        cluster_at(v, Some(first), (o / v.cluster_size()) as nat) is Ok,
        ({
            let c = cluster_at(v, Some(first), (o / v.cluster_size()) as nat)->Ok_0;
            let t = read_along(v, c, o % v.cluster_size(), n);
            &&& t.error is None
            &&& !runs_off(v, c, o % v.cluster_size(), n)
            &&& t.bytes == read_along(v, Some(first), 0, size).bytes.subrange(o, o + n)
        }),
{
    let cs = v.cluster_size();
    assert(cs > 0) by (nonlinear_arith)
        requires
            v.bytes_per_sector > 0,
            v.sectors_per_cluster > 0,
            cs == v.bytes_per_sector * v.sectors_per_cluster,
    ;
    lemma_read_split(v, Some(first), 0, o, size - o);
    let t = read_along(v, Some(first), 0, o);
    lemma_read_cluster(v, first, o);
    lemma_read_len(v, Some(first), 0, o);
    let c = t.cluster;
    let off = o % cs;
    vstd::arithmetic::div_mod::lemma_mod_bound(o, cs);
    lemma_read_split(v, c, off, n, size - o - n);
    lemma_read_len(v, c, off, n);
    let u = read_along(v, c, off, n);
    let w = read_along(v, c, off, size - o);
    let whole = read_along(v, Some(first), 0, size).bytes;
    assert(whole == t.bytes + w.bytes);
    assert(w.bytes == u.bytes + read_along(v, u.cluster, (off + n) % cs, size - o - n).bytes);
    assert(whole.subrange(o, o + n) =~= u.bytes);
}

/// The outcome of a write along a chain: the volume afterwards, the bytes
/// written, the cluster the position is in afterwards, and the error that
/// stopped it, if any.
pub struct WriteOutcome {
    pub volume: VFatView,
    pub written: int,
    pub cluster: Option<Cluster>,
    pub error: Option<IoErrorKind>,
}

/// Writing `data` from byte `coff` of cluster `cur` on along its chain:
/// each cluster takes the bytes from the position to its end (or as many
/// as are left), and a cluster filled to its end moves the position to the
/// next one, looked up in the volume as written so far. A cluster outside
/// the partition is `InvalidInput`.
#[verifier::opaque]
pub open spec fn write_along(v: VFatView, cur: Option<Cluster>, coff: int, data: Seq<u8>) -> WriteOutcome
    decreases data.len(),
{
    if data.len() == 0 || v.cluster_size() <= 0 || coff < 0 || coff >= v.cluster_size() {
        WriteOutcome { volume: v, written: 0, cluster: cur, error: None }
    } else {
        match cur {
            None => WriteOutcome { volume: v, written: 0, cluster: cur, error: None },
            Some(c) => if !v.cluster_in_range(c.0) {
                WriteOutcome { volume: v, written: 0, cluster: cur, error: Some(IoErrorKind::InvalidInput) }
            } else {
                let n = step_len(v, coff, data.len() as int);
                let v1 = v.with_cluster_bytes(c.0, coff, data, n);
                if n == v.cluster_size() - coff {
                    match next_cluster(v1, c) {
                        Err(e) => WriteOutcome { volume: v1, written: n, cluster: cur, error: Some(e) },
                        Ok(nx) => {
                            let rest = write_along(v1, nx, 0, data.skip(n));
                            WriteOutcome {
                                volume: rest.volume,
                                written: n + rest.written,
                                cluster: rest.cluster,
                                error: rest.error,
                            }
                        },
                    }
                } else {
                    WriteOutcome { volume: v1, written: n, cluster: cur, error: None }
                }
            },
        }
    }
}

/// Whether writing `data` from `coff` in cluster `cur` reaches a cluster
/// that does not exist (past the end of the chain) or that holds no data.
#[verifier::opaque]
pub open spec fn write_runs_off(v: VFatView, cur: Option<Cluster>, coff: int, data: Seq<u8>) -> bool
    decreases data.len(),
{
    if data.len() == 0 || v.cluster_size() <= 0 || coff < 0 || coff >= v.cluster_size() {
        false
    } else {
        match cur {
            None => true,
            Some(c) => if c.0 < 2 {
                true
            } else if !v.cluster_in_range(c.0) {
                false
            } else {
                let n = step_len(v, coff, data.len() as int);
                let v1 = v.with_cluster_bytes(c.0, coff, data, n);
                if n == v.cluster_size() - coff {
                    match next_cluster(v1, c) {
                        Err(_) => false,
                        Ok(nx) => write_runs_off(v1, nx, 0, data.skip(n)),
                    }
                } else {
                    false
                }
            },
        }
    }
}

/// One step of a write along a chain.
proof fn lemma_write_step(v: VFatView, cur: Option<Cluster>, coff: int, data: Seq<u8>)
    requires
        v.wf(),
        data.len() > 0,
        0 <= coff < v.cluster_size(),
        !write_runs_off(v, cur, coff, data),
    ensures
        cur is Some,
        (cur->0).0 >= 2,
        ({
            let c = cur->0;
            let n = step_len(v, coff, data.len() as int);
            let v1 = v.with_cluster_bytes(c.0, coff, data, n);
            let o = write_along(v, cur, coff, data);
            &&& !v.cluster_in_range(c.0) ==> o == WriteOutcome {
                volume: v,
                written: 0,
                cluster: cur,
                error: Some(IoErrorKind::InvalidInput),
            }
            &&& v.cluster_in_range(c.0) && n < v.cluster_size() - coff ==> o == WriteOutcome {
                volume: v1,
                written: n,
                cluster: cur,
                error: None,
            }
            &&& v.cluster_in_range(c.0) && n == v.cluster_size() - coff ==> match next_cluster(v1, c) {
                Err(e) => o == WriteOutcome { volume: v1, written: n, cluster: cur, error: Some(e) },
                Ok(nx) => {
                    let rest = write_along(v1, nx, 0, data.skip(n));
                    &&& o == WriteOutcome {
                        volume: rest.volume,
                        written: n + rest.written,
                        cluster: rest.cluster,
                        error: rest.error,
                    }
                    &&& !write_runs_off(v1, nx, 0, data.skip(n))
                },
            }
        }),
{
    reveal(write_along);
    reveal(write_runs_off);
}

/// Writing nothing changes nothing.
proof fn lemma_write_none(v: VFatView, cur: Option<Cluster>, coff: int, data: Seq<u8>)
    requires
        data.len() == 0,
    ensures
        write_along(v, cur, coff, data) == (WriteOutcome { volume: v, written: 0, cluster: cur, error: None }),
        !write_runs_off(v, cur, coff, data),
{
    reveal(write_along);
    reveal(write_runs_off);
}

/// The position a seek to `pos` aims at, from the start of file `f`.
pub open spec fn seek_target(f: File, pos: SeekFrom) -> int {
    match pos {
        SeekFrom::Start(o) => o as int,
        SeekFrom::End(o) => f.size + o,
        SeekFrom::Current(o) => f.offset + o,
    }
}

/// The cluster `k` clusters along the chain from `cur`: `None` past the
/// end of the chain, or the error met on the way.
pub open spec fn cluster_at(v: VFatView, cur: Option<Cluster>, k: nat) -> Result<Option<Cluster>, IoErrorKind>
    decreases k,
{
    if k == 0 {
        Ok(cur)
    } else {
        match cluster_at(v, cur, (k - 1) as nat) {
            Err(e) => Err(e),
            Ok(None) => Ok(None),
            Ok(Some(c)) => next_cluster(v, c),
        }
    }
}

/// The cluster `steps` clusters along the chain from `first`.
pub fn walk_clusters(vfat: &VFat, first: Cluster, steps: usize) -> (r: Result<Option<Cluster>, IoErrorKind>)
    requires
        vfat@.wf(),
    ensures
        r == cluster_at(vfat@, Some(first), steps as nat),
{
    let mut cur: Option<Cluster> = Some(first);
    let mut i: usize = 0;
    while i < steps && cur.is_some()
        invariant
            vfat@.wf(),
            i <= steps,
            cluster_at(vfat@, Some(first), i as nat) == Ok::<Option<Cluster>, IoErrorKind>(cur),
        decreases steps - i,
    {
        let c = cur.unwrap();
        let raw = match vfat.fat_entry(c) {
            Ok(raw) => raw,
            Err(e) => {
                proof {
                    lemma_cluster_at_err(vfat@, Some(first), (i + 1) as nat, steps as nat);
                }
                return Err(e);
            },
        };
        match fat_status(raw) {
            Status::Data(n) => {
                cur = Some(n);
            },
            Status::Eoc(_) => {
                cur = None;
            },
            _ => {
                proof {
                    lemma_cluster_at_err(vfat@, Some(first), (i + 1) as nat, steps as nat);
                }
                return Err(IoErrorKind::InvalidInput);
            },
        }
        i = i + 1;
    }
    proof {
        if i < steps {
            lemma_cluster_at_none(vfat@, Some(first), i as nat, steps as nat);
        }
    }
    Ok(cur)
}

/// Past the end of a chain the walk stays past it.
proof fn lemma_cluster_at_none(v: VFatView, cur: Option<Cluster>, i: nat, k: nat)
    requires
        i <= k,
        cluster_at(v, cur, i) == Ok::<Option<Cluster>, IoErrorKind>(None),
    ensures
        cluster_at(v, cur, k) == Ok::<Option<Cluster>, IoErrorKind>(None),
    decreases k - i,
{
    if i < k {
        lemma_cluster_at_none(v, cur, i + 1, k);
    }
}

/// An error on the way stays the walk's outcome.
proof fn lemma_cluster_at_err(v: VFatView, cur: Option<Cluster>, i: nat, k: nat)
    requires
        i <= k,
        cluster_at(v, cur, i) is Err,
    ensures
        cluster_at(v, cur, k) == cluster_at(v, cur, i),
    decreases k - i,
{
    if i < k {
        lemma_cluster_at_err(v, cur, i + 1, k);
    }
}

/// The error a read of `len` bytes of `f` on `v` meets, if any: a
/// position whose cluster is unknown is `InvalidInput` when there is
/// something to read; otherwise the error met along the chain.
pub open spec fn read_error(f: File, v: VFatView, len: int) -> Option<IoErrorKind> {
    if f.current_cluster is None && read_max(f, len) > 0 {
        Some(IoErrorKind::InvalidInput)
    } else {
        read_transfer(f, v, len).error
    }
}

/// What reading `len` bytes of file `f0` on volume `v` does: `f1` is the
/// file afterwards and `r` the result. At most the bytes left before the
/// file's size are read, along the chain from the cluster of the position;
/// on an error (see [`read_error`]) nothing moves.
pub open spec fn file_read(f0: File, f1: File, v: VFatView, len: int, r: Result<Vec<u8>, IoErrorKind>) -> bool {
    let max = read_max(f0, len);
    let t = read_transfer(f0, v, len);
    match read_error(f0, v, len) {
        Some(e) => r == Err::<Vec<u8>, IoErrorKind>(e) && f1 == f0,
        None => (r matches Ok(bytes) && bytes@ == t.bytes && bytes@.len() == max) && f1 == (File {
            offset: (f0.offset + max) as usize,
            current_cluster: t.cluster,
            ..f0
        }),
    }
}

/// File `f` can be read `len` bytes on volume `v`: its position lies
/// within its size and, where the cluster of the position is known, the
/// chain from it holds the bytes the read takes.
pub open spec fn read_ok(f: File, v: VFatView, len: int) -> bool {
    &&& v.wf()
    &&& f.offset <= f.size
    &&& f.bytes_per_cluster == v.cluster_size()
    &&& f.current_cluster is Some ==> !runs_off(v, f.current_cluster, (f.offset % f.bytes_per_cluster) as int, read_max(f, len))
}

/// How many bytes a read of `len` bytes of `f` takes: at most those left
/// before its size.
pub open spec fn read_max(f: File, len: int) -> int {
    if f.size - f.offset < len { f.size - f.offset } else { len }
}

/// The transfer a read of `len` bytes of `f` on `v` makes: along the chain
/// from the cluster of the position.
pub open spec fn read_transfer(f: File, v: VFatView, len: int) -> Transfer {
    read_along(v, f.current_cluster, (f.offset % f.bytes_per_cluster) as int, read_max(f, len))
}

/// A read after a seek gives the file's own bytes: when the chain from the
/// file's first cluster can be read up to the file's size without an
/// error, a seek that succeeds, to position `t`, followed by a read of
/// `len` bytes can be made, returns the bytes `t..t + n` of the file (`n`
/// the smaller of `len` and what is left before the size) and leaves the
/// position at `t + n`.
pub proof fn lemma_file_seek_read(
    v: VFatView,
    f0: File,
    pos: SeekFrom,
    f1: File,
    r1: Result<u64, IoErrorKind>,
    len: int,
    f2: File,
    r2: Result<Vec<u8>, IoErrorKind>,
)
    requires
        v.wf(),
        f0.bytes_per_cluster == v.cluster_size(),
        read_along(v, Some(f0.first_cluster), 0, f0.size as int).error is None,
        !runs_off(v, Some(f0.first_cluster), 0, f0.size as int),
        file_seeked(f0, v, pos, f1, r1),
        r1 is Ok,
        len >= 0,
        file_read(f1, f2, v, len, r2),
    ensures
        read_ok(f1, v, len),
        ({
            let t = seek_target(f0, pos);
            let n = if f0.size - t < len { f0.size - t } else { len };
            &&& r2 matches Ok(bytes) && bytes@ == read_along(v, Some(f0.first_cluster), 0, f0.size as int).bytes.subrange(t, t + n)
            &&& f2.offset == t + n
        }),
{
    let t = seek_target(f0, pos);
    let n = if f0.size - t < len { f0.size - t } else { len };
    lemma_seek_then_read(v, f0.first_cluster, f0.size as int, t, n);
    let c = cluster_at(v, Some(f0.first_cluster), (t / v.cluster_size()) as nat)->Ok_0;
    assert(f1.current_cluster == c);
    assert(read_max(f1, len) == n);
    if c is None && n > 0 {
        let cs = v.cluster_size();
        assert(cs > 0) by (nonlinear_arith)
            requires
                v.bytes_per_sector > 0,
                v.sectors_per_cluster > 0,
                cs == v.bytes_per_sector * v.sectors_per_cluster,
        ;
        vstd::arithmetic::div_mod::lemma_mod_bound(t, cs);
        reveal(runs_off);
        assert(runs_off(v, c, t % cs, n));
    }
}

/// A read from the start of a file as it was opened (position 0, in its
/// first cluster) gives the file's first bytes: when the chain can be
/// read up to the file's size without an error, a read of `len` bytes can
/// be made, returns the bytes `0..n` of the file (`n` the smaller of `len`
/// and the size) and leaves the position at `n`.
pub proof fn lemma_file_read_from_start(v: VFatView, f0: File, len: int, f1: File, r: Result<Vec<u8>, IoErrorKind>)
    requires
        v.wf(),
        f0.bytes_per_cluster == v.cluster_size(),
        f0.offset == 0,
        f0.current_cluster == Some(f0.first_cluster),
        read_along(v, Some(f0.first_cluster), 0, f0.size as int).error is None,
        !runs_off(v, Some(f0.first_cluster), 0, f0.size as int),
        len >= 0,
        file_read(f0, f1, v, len, r),
    ensures
        read_ok(f0, v, len),
        ({
            let n = if f0.size < len { f0.size as int } else { len };
            &&& r matches Ok(bytes) && bytes@ == read_along(v, Some(f0.first_cluster), 0, f0.size as int).bytes.subrange(0, n)
            &&& f1.offset == n
        }),
{
    let n = if f0.size < len { f0.size as int } else { len };
    let cs = v.cluster_size();
    assert(cs > 0) by (nonlinear_arith)
        requires
            v.bytes_per_sector > 0,
            v.sectors_per_cluster > 0,
            cs == v.bytes_per_sector * v.sectors_per_cluster,
    ;
    lemma_seek_then_read(v, f0.first_cluster, f0.size as int, 0, n);
    vstd::arithmetic::div_mod::lemma_small_mod(0, cs as nat);
    assert(0int / cs == 0) by {
        vstd::arithmetic::div_mod::lemma_basic_div(0, cs);
    }
    assert(read_max(f0, len) == n);
}

/// The cluster position `t` of file `f` lies in, found by walking the chain
/// from the file's first cluster; `None` past the end of the chain or when
/// the walk meets a FAT entry it cannot follow.
pub open spec fn seek_cluster(v: VFatView, f: File, t: int) -> Option<Cluster> {
    match cluster_at(v, Some(f.first_cluster), (t / f.bytes_per_cluster as int) as nat) {
        Ok(c) => c,
        Err(_) => None,
    }
}

/// What seeking file `f0` to `pos` on volume `v` does: `f1` is the file
/// afterwards and `r` the result. A target before the start or beyond the
/// end is `InvalidInput` and moves nothing; any other target, the end
/// included, becomes the position, with the cluster it lies in.
pub open spec fn file_seeked(f0: File, v: VFatView, pos: SeekFrom, f1: File, r: Result<u64, IoErrorKind>) -> bool {
    let t = seek_target(f0, pos);
    if t < 0 || t > f0.size {
        r == Err::<u64, IoErrorKind>(IoErrorKind::InvalidInput) && f1 == f0
    } else {
        r == Ok::<u64, IoErrorKind>(t as u64) && f1 == (File {
            offset: t as usize,
            current_cluster: seek_cluster(v, f0, t),
            ..f0
        })
    }
}

impl File {
    /// Moves the position. A position before the start or beyond the end
    /// of the file is `InvalidInput` and moves nothing; the end itself is
    /// allowed. The cluster the new position lies in is found by walking
    /// the chain from the file's first cluster, so that a read goes on
    /// from there; when the chain cannot be walked that far the cluster is
    /// left unknown (`None`), and a later read or write reports the error.
    /// Returns the new position.
    ///
    /// Panics (excluded by the precondition) when the arithmetic leaves 64 bits.
    pub fn seek(&mut self, vfat: &VFat, pos: SeekFrom) -> (r: Result<u64, IoErrorKind>)
        requires
            vfat@.wf(),
            old(self).bytes_per_cluster == vfat@.cluster_size(),
            old(self).size <= i64::MAX,
            old(self).offset <= i64::MAX,
            pos matches SeekFrom::End(o) ==> i64::MIN <= old(self).size + o <= i64::MAX,
            pos matches SeekFrom::Current(o) ==> i64::MIN <= old(self).offset + o <= i64::MAX,
        ensures
            file_seeked(*old(self), vfat@, pos, *final(self), r),
    {
        let t: i64 = match pos {
            SeekFrom::Start(o) => {
                if o > self.size as u64 {
                    return Err(IoErrorKind::InvalidInput);
                }
                o as i64
            },
            SeekFrom::End(o) => self.size as i64 + o,
            SeekFrom::Current(o) => self.offset as i64 + o,
        };
        if t < 0 || t > self.size as i64 {
            return Err(IoErrorKind::InvalidInput);
        }
        let bpc = self.bytes_per_cluster;
        proof {
            assert(vfat@.cluster_size() > 0) by (nonlinear_arith)
                requires
                    vfat@.bytes_per_sector > 0,
                    vfat@.sectors_per_cluster > 0,
            ;
        }
        let steps: usize = (t as usize) / bpc;
        let cur = match walk_clusters(vfat, self.first_cluster, steps) {
            Ok(c) => c,
            Err(_) => None,
        };
        self.offset = t as usize;
        self.current_cluster = cur;
        Ok(t as u64)
    }

    /// Reads at most `len` bytes from the position, stopping at the end of
    /// the file: the bytes come from the cluster the position is in and
    /// the clusters after it, and the position advances past them. A
    /// position whose cluster is unknown (a seek could not walk the chain
    /// to it) is `InvalidInput` when there is something to read. On an
    /// error the position does not move.
    ///
    /// Panics (excluded by the precondition) when the position is past the end of
    /// the file, or the read runs past the end of the chain.
    pub fn read(&mut self, vfat: &VFat, len: usize) -> (r: Result<Vec<u8>, IoErrorKind>)
        requires
            read_ok(*old(self), vfat@, len as int),
        ensures
            file_read(*old(self), *final(self), vfat@, len as int, r),
    {
        let avail = self.size - self.offset;
        let max: usize = if avail < len { avail } else { len };
        let bpc = self.bytes_per_cluster;
        proof {
            assert(vfat@.cluster_size() > 0) by (nonlinear_arith)
                requires
                    vfat@.bytes_per_sector > 0,
                    vfat@.sectors_per_cluster > 0,
            ;
        }
        if max > 0 && self.current_cluster.is_none() {
            return Err(IoErrorKind::InvalidInput);
        }
        proof {
            if self.current_cluster is None {
                lemma_read_none(vfat@, None, (self.offset % bpc) as int);
            }
        }
        let mut current = self.current_cluster;
        let mut cluster_offset: usize = self.offset % bpc;
        let mut out: Vec<u8> = Vec::new();
        let ghost t0 = read_along(vfat@, self.current_cluster, cluster_offset as int, max as int);
        while out.len() < max
            invariant
                vfat@.wf(),
                self == old(self),
                max == (if old(self).size - old(self).offset < len {
                    old(self).size - old(self).offset
                } else {
                    len as int
                }),
                t0 == read_along(
                    vfat@,
                    old(self).current_cluster,
                    (old(self).offset % old(self).bytes_per_cluster) as int,
                    max as int,
                ),
                bpc == vfat@.cluster_size(),
                bpc > 0,
                cluster_offset < bpc,
                out@.len() <= max,
                !(old(self).current_cluster is None && max > 0),
                !runs_off(vfat@, current, cluster_offset as int, max - out@.len()),
                ({
                    let t = read_along(vfat@, current, cluster_offset as int, max - out@.len());
                    &&& t0.error == t.error
                    &&& t0.cluster == t.cluster
                    &&& t.error is None ==> t0.bytes == out@ + t.bytes
                }),
            decreases max - out@.len(),
        {
            let want: usize = max - out.len();
            proof {
                lemma_read_step(vfat@, current, cluster_offset as int, want as int);
            }
            let c = match current {
                Some(c) => c,
                None => {
                    return Err(IoErrorKind::InvalidInput);
                },
            };
            let data = match vfat.read_cluster(c, cluster_offset, want) {
                Ok(d) => d,
                Err(e) => {
                    return Err(e);
                },
            };
            let n = data.len();
            let ghost before = out@;
            push_bytes(&mut out, data.as_slice());
            if n == bpc - cluster_offset {
                let raw = match vfat.fat_entry(c) {
                    Ok(raw) => raw,
                    Err(e) => {
                        return Err(e);
                    },
                };
                match fat_status(raw) {
                    Status::Data(next) => {
                        current = Some(next);
                        proof {
                            assert(before + data@ + read_along(vfat@, current, 0, want - n).bytes =~= before + (data@
                                + read_along(vfat@, current, 0, want - n).bytes));
                        }
                    },
                    Status::Eoc(_) => {
                        current = None;
                        proof {
                            assert(before + data@ + read_along(vfat@, current, 0, want - n).bytes =~= before + (data@
                                + read_along(vfat@, current, 0, want - n).bytes));
                        }
                    },
                    _ => {
                        return Err(IoErrorKind::InvalidInput);
                    },
                }
            } else {
                proof {
                    lemma_read_none(vfat@, current, 0);
                    assert(out@ + Seq::<u8>::empty() =~= out@);
                }
            }
            cluster_offset = 0;
        }
        proof {
            lemma_read_none(vfat@, current, cluster_offset as int);
            assert(out@ =~= out@ + Seq::<u8>::empty());
        }
        self.current_cluster = current;
        self.offset = self.offset + max;
        Ok(out)
    }
}

impl File {
    /// Writes `buf` from the position along the chain, without moving the
    /// position: the bytes go into the cluster the position is in and the
    /// clusters after it. Returns the number written and the cluster the
    /// position is in afterwards; on an error the clusters written so far
    /// stay written.
    ///
    /// Panics (excluded by the precondition) when the write runs past the end of the
    /// chain.
    pub fn write_data(&self, vfat: &mut VFat, buf: &[u8]) -> (r: Result<(usize, Option<Cluster>), IoErrorKind>)
        requires
            old(vfat)@.wf(),
            self.bytes_per_cluster == old(vfat)@.cluster_size(),
            !write_runs_off(
                old(vfat)@,
                self.current_cluster,
                (self.offset % self.bytes_per_cluster) as int,
                buf@,
            ),
        ensures
            final(vfat)@.wf(),
            ({
                let o = write_along(
                    old(vfat)@,
                    self.current_cluster,
                    (self.offset % self.bytes_per_cluster) as int,
                    buf@,
                );
                &&& final(vfat)@ == o.volume
                &&& match o.error {
                    Some(e) => r == Err::<(usize, Option<Cluster>), IoErrorKind>(e),
                    None => r == Ok::<(usize, Option<Cluster>), IoErrorKind>((buf@.len() as usize, o.cluster)),
                }
            }),
    {
        let bpc = self.bytes_per_cluster;
        proof {
            assert(vfat@.cluster_size() > 0) by (nonlinear_arith)
                requires
                    vfat@.bytes_per_sector > 0,
                    vfat@.sectors_per_cluster > 0,
            ;
        }
        let mut current = self.current_cluster;
        let mut cluster_offset: usize = self.offset % bpc;
        let mut written: usize = 0;
        let len = buf.len();
        let ghost o0 = write_along(vfat@, current, cluster_offset as int, buf@);
        assert(buf@.skip(0) =~= buf@);
        while written < len
            invariant
                vfat@.wf(),
                len == buf@.len(),
                o0 == write_along(
                    old(vfat)@,
                    self.current_cluster,
                    (self.offset % self.bytes_per_cluster) as int,
                    buf@,
                ),
                bpc == vfat@.cluster_size(),
                bpc > 0,
                cluster_offset < bpc,
                written <= len,
                !write_runs_off(vfat@, current, cluster_offset as int, buf@.skip(written as int)),
                ({
                    let o = write_along(vfat@, current, cluster_offset as int, buf@.skip(written as int));
                    &&& o0.volume == o.volume
                    &&& o0.error == o.error
                    &&& o0.cluster == o.cluster
                }),
            decreases len - written,
        {
            let ghost rest = buf@.skip(written as int);
            proof {
                lemma_write_step(vfat@, current, cluster_offset as int, rest);
            }
            let c = match current {
                Some(c) => c,
                None => {
                    return Err(IoErrorKind::InvalidInput);
                },
            };
            let tail = vstd::slice::slice_subrange(buf, written, len);
            assert(tail@ == rest);
            let ghost v0 = vfat@;
            let bytes = match vfat.write_cluster(c, cluster_offset, tail) {
                Ok(b) => b,
                Err(e) => {
                    return Err(e);
                },
            };
            proof {
                lemma_cluster_written_is(v0, vfat@, c.0, cluster_offset as int, rest, bytes as int);
                assert(rest.skip(bytes as int) =~= buf@.skip(written + bytes));
            }
            if bytes == bpc - cluster_offset {
                let raw = match vfat.fat_entry(c) {
                    Ok(raw) => raw,
                    Err(e) => {
                        return Err(e);
                    },
                };
                match fat_status(raw) {
                    Status::Data(next) => {
                        current = Some(next);
                    },
                    Status::Eoc(_) => {
                        current = None;
                    },
                    _ => {
                        return Err(IoErrorKind::InvalidInput);
                    },
                }
            } else {
                proof {
                    lemma_write_none(vfat@, current, 0, buf@.skip(written + bytes));
                }
            }
            written = written + bytes;
            cluster_offset = 0;
        }
        proof {
            lemma_write_none(vfat@, current, cluster_offset as int, buf@.skip(written as int));
        }
        Ok((written, current))
    }
}

/// Growing the chain from `c` until it holds at least `target` bytes:
/// while it is shorter, the first free cluster is appended (the entry of the
/// last cluster names it, its own entry ends the chain). Stops with the
/// walk's error when the chain cannot be walked, and with the search's
/// error when no cluster is free. At most `fuel` clusters are appended.
#[verifier::opaque]
pub open spec fn reserve(v: VFatView, c: u32, target: int, fuel: nat) -> (VFatView, Option<IoErrorKind>)
    decreases fuel,
{
    let w = v.chain(c);
    if fuel == 0 {
        (v, None)
    } else {
        match w.1 {
            Some(e) => (v, Some(e)),
            None => if w.0.len() * v.cluster_size() >= target {
                (v, None)
            } else {
                match v.first_free(0, v.search_clusters()) {
                    Err(e) => (v, Some(e)),
                    Ok(n) => reserve(
                        v.with_fat_entry(w.0.last(), n).with_fat_entry(n, END_OF_CHAIN),
                        c,
                        target,
                        (fuel - 1) as nat,
                    ),
                }
            },
        }
    }
}

proof fn lemma_reserve_step(v: VFatView, c: u32, target: int, fuel: nat)
    requires
        fuel > 0,
    ensures
        ({
            let w = v.chain(c);
            reserve(v, c, target, fuel) == match w.1 {
                Some(e) => (v, Some(e)),
                None => if w.0.len() * v.cluster_size() >= target {
                    (v, None)
                } else {
                    match v.first_free(0, v.search_clusters()) {
                        Err(e) => (v, Some(e)),
                        Ok(n) => reserve(
                            v.with_fat_entry(w.0.last(), n).with_fat_entry(n, END_OF_CHAIN),
                            c,
                            target,
                            (fuel - 1) as nat,
                        ),
                    }
                },
            }
        }),
{
    reveal(reserve);
}

/// The volume is valid FAT32 for growing chains: clusters 0 and 1 are
/// reserved, and the clusters searched for a free one are below the
/// reserved cluster numbers.
pub open spec fn growable(v: VFatView) -> bool {
    &&& v.reserves_first_clusters()
    &&& v.search_clusters() <= 0x0FFF_FFF0
}

impl File {
    /// Grows the chain from `cluster` until it holds at least `target`
    /// bytes.
    ///
    /// Panics (excluded by the precondition) when the sizes overflow; does not return
    /// (excluded by the precondition) when the chain goes round in a cycle.
    #[verifier::spinoff_prover]
    #[verifier::rlimit(50)]
    pub fn reserve(vfat: &mut VFat, cluster: Cluster, target: usize) -> (r: Result<(), IoErrorKind>)
        requires
            old(vfat)@.wf(),
            growable(old(vfat)@),
            cluster.0 < 0x1000_0000,
            old(vfat)@.chain_ends(cluster.0),
            old(vfat)@.chain(cluster.0).0.len() * old(vfat)@.cluster_size() <= usize::MAX,
            target + old(vfat)@.cluster_size() <= usize::MAX,
        ensures
            final(vfat)@.wf(),
            final(vfat)@.cluster_size() == old(vfat)@.cluster_size(),
            ({
                let (w, e) = reserve(old(vfat)@, cluster.0, target as int, (target + 1) as nat);
                &&& final(vfat)@ == w
                &&& match e {
                    Some(err) => r == Err::<(), IoErrorKind>(err),
                    None => r is Ok,
                }
            }),
    {
        let ghost v0 = vfat@;
        let ghost f0: nat = (target + 1) as nat;
        let ghost mut fuel: nat = f0;
        proof {
            assert(vfat@.cluster_size() > 0) by (nonlinear_arith)
                requires
                    vfat@.bytes_per_sector > 0,
                    vfat@.sectors_per_cluster > 0,
            ;
            assert(crate::fat32::cluster::cluster_of(cluster.0) == cluster.0);
        }
        loop
            invariant
                vfat@.wf(),
                growable(vfat@),
                vfat@.cluster_size() == v0.cluster_size(),
                vfat@.cluster_size() > 0,
                cluster.0 < 0x1000_0000,
                v0 == old(vfat)@,
                f0 == (target + 1) as nat,
                crate::fat32::cluster::cluster_of(cluster.0) == cluster.0,
                vfat@.chain_ends(cluster.0),
                vfat@.chain(cluster.0).0.len() * vfat@.cluster_size() <= usize::MAX,
                target + vfat@.cluster_size() <= usize::MAX,
                fuel + vfat@.chain(cluster.0).0.len() >= target + 1,
                fuel >= 1,
                reserve(vfat@, cluster.0, target as int, fuel) == reserve(v0, cluster.0, target as int, f0),
            decreases fuel,
        {
            let ghost v = vfat@;
            proof {
                lemma_reserve_step(v, cluster.0, target as int, fuel);
            }
            let size = match vfat.size_to_chain_end(cluster.fat_address()) {
                Ok(size) => size,
                Err(e) => {
                    return Err(e);
                },
            };
            if size >= target {
                return Ok(());
            }
            proof {
                assert(v.chain(cluster.0).0.len() < target) by (nonlinear_arith)
                    requires
                        v.chain(cluster.0).0.len() * v.cluster_size() < target,
                        v.cluster_size() > 0,
                ;
            }
            let new_cluster = match vfat.find_free_cluster() {
                Ok(c) => c,
                Err(e) => {
                    return Err(e);
                },
            };
            proof {
                lemma_first_free(v, 0, v.search_clusters());
            }
            match vfat.add_cluster_to_chain(cluster, new_cluster) {
                Ok(()) => {},
                Err(e) => {
                    return Err(e);
                },
            }
            proof {
                let n = new_cluster.0;
                let last = v.chain(cluster.0).0.last();
                let mid = choose|mid: VFatView|
                    v.fat_updated(mid, last, n) && #[trigger] mid.fat_updated(vfat@, n, END_OF_CHAIN);
                assert(n >= 2) by {
                    if n == 0 || n == 1 {
                        assert(false);
                    }
                }
                lemma_chain_extended(v, mid, vfat@, cluster.0, n);
                lemma_fat_updated_is(v, mid, last, n);
                lemma_fat_updated_is(mid, vfat@, n, END_OF_CHAIN);
                assert((v.chain(cluster.0).0.len() + 1) * v.cluster_size() <= target + v.cluster_size())
                    by (nonlinear_arith)
                    requires
                        v.chain(cluster.0).0.len() * v.cluster_size() < target,
                        v.cluster_size() > 0,
                ;
                fuel = (fuel - 1) as nat;
            }
        }
    }
}

/// File `f` can take `buf` at its position on volume `v`: the volume can
/// grow, the sizes fit, and the chain from the position's cluster ends and
/// holds the bytes once grown.
pub open spec fn write_ok(f: File, v: VFatView, buf: Seq<u8>) -> bool {
    &&& v.wf()
    &&& growable(v)
    &&& f.bytes_per_cluster == v.cluster_size()
    &&& f.offset + buf.len() + v.cluster_size() <= usize::MAX
    &&& f.current_cluster matches Some(c) ==> {
        let (v1, e) = reserve(v, c.0, f.offset + buf.len(), (f.offset + buf.len() + 1) as nat);
        &&& c.0 < 0x1000_0000
        &&& v.chain_ends(c.0)
        &&& v.chain(c.0).0.len() * v.cluster_size() <= usize::MAX
        &&& e is None ==> !write_runs_off(v1, f.current_cluster, (f.offset % f.bytes_per_cluster) as int, buf)
        &&& f.parent_first_cluster matches Some(pc) ==> {
            let w = data_written(f, v, buf);
            &&& pc.0 >= 2
            &&& w.chain_ends(pc.0)
            &&& (w.chain(pc.0).0.len() + 1) * w.cluster_size() <= usize::MAX
        }
    }
}

/// What writing `buf` at the position of file `f` on `v` returns.
pub open spec fn write_outcome(f: File, v: VFatView, buf: Seq<u8>) -> Result<usize, IoErrorKind> {
    match f.current_cluster {
        None => Err(IoErrorKind::InvalidInput),
        Some(c) => {
            let target = f.offset + buf.len();
            let (v1, e) = reserve(v, c.0, target, (target + 1) as nat);
            match e {
                Some(err) => Err(err),
                None => {
                    let o = write_along(v1, f.current_cluster, (f.offset % f.bytes_per_cluster) as int, buf);
                    match o.error {
                        Some(err) => Err(err),
                        None => if target > f.size && f.parent_first_cluster is Some {
                            entry_update_outcome(f, f.parent_first_cluster->0, target as u32, o.volume, buf.len() as usize)
                        } else {
                            Ok(buf.len() as usize)
                        },
                    }
                },
            }
        },
    }
}

/// Entry `i` of the directory bytes `b` is the regular entry of a file
/// whose data starts at cluster `c`: in use, not a long-name entry, not a
/// directory.
pub open spec fn is_entry_of(b: Seq<u8>, i: int, c: u32) -> bool {
    &&& 0 <= i
    &&& 32 * i + 32 <= b.len()
    &&& b[32 * i] != 0
    &&& b[32 * i] != 0xE5
    &&& b[32 * i + 11] != 0x0F
    &&& !regular_at(b, 32 * i).is_dir_spec()
    &&& cluster_of(regular_at(b, 32 * i).cluster_spec()) == c
}

/// The directory bytes `b` with the size field (bytes 28-31, least
/// significant first) of every entry of the file at cluster `c` set to
/// `size`.
pub open spec fn with_entry_size(b: Seq<u8>, c: u32, size: u32) -> Seq<u8> {
    Seq::new(
        b.len(),
        |k: int|
            if is_entry_of(b, k / 32, c) && 28 <= k % 32 {
                le_bytes(size)[k % 32 - 28]
            } else {
                b[k]
            },
    )
}

/// The directory bytes `dir` with the size of the entries of the file at
/// cluster `c` set to `size`.
pub fn set_entry_size(dir: &[u8], c: Cluster, size: u32) -> (r: Vec<u8>)
    ensures
        r@ == with_entry_size(dir@, c.0, size),
{
    let len = dir.len();
    let n = len / 32;
    let mut out = copy_range(dir, 0, len);
    assert(out@ =~= dir@);
    let le: [u8; 4] = [
        (size % 0x100) as u8,
        ((size / 0x100) % 0x100) as u8,
        ((size / 0x1_0000) % 0x100) as u8,
        (size / 0x100_0000) as u8,
    ];
    assert(le@ =~= le_bytes(size));
    proof {
        lemma_fundamental_div_mod(len as int, 32);
    }
    let mut i: usize = 0;
    while i < n
        invariant
            len == dir@.len(),
            n == len / 32,
            32 * n <= len < 32 * n + 32,
            i <= n,
            le@ == le_bytes(size),
            out@.len() == len,
            forall|k: int|
                0 <= k < len ==> #[trigger] out@[k] == if k / 32 < i && is_entry_of(dir@, k / 32, c.0) && 28 <= k
                    % 32 {
                    le_bytes(size)[k % 32 - 28]
                } else {
                    dir@[k]
                },
        decreases n - i,
    {
        let base = 32 * i;
        let ghost before = out@;
        let matched = if dir[base] != 0 && dir[base] != 0xE5 && dir[base + 11] != 0x0F {
            let reg = VFatRegularDirEntry::parse(dir, base);
            !reg.is_dir() && Cluster::from_raw(reg.cluster()).0 == c.0
        } else {
            false
        };
        assert(matched == is_entry_of(dir@, i as int, c.0));
        if matched {
            out.set(base + 28, le[0]);
            out.set(base + 29, le[1]);
            out.set(base + 30, le[2]);
            out.set(base + 31, le[3]);
        }
        assert forall|k: int|
            0 <= k < len implies #[trigger] out@[k] == if k / 32 < i + 1 && is_entry_of(dir@, k / 32, c.0) && 28
                <= k % 32 {
                le_bytes(size)[k % 32 - 28]
            } else {
                dir@[k]
            } by {
            lemma_fundamental_div_mod(k, 32);
            if k / 32 == i {
                assert(k == base + k % 32);
            } else {
                assert(k < base || k >= base + 32);
                assert(out@[k] == before[k]);
            }
        }
        i = i + 1;
    }
    assert forall|k: int| 0 <= k < len implies #[trigger] out@[k] == with_entry_size(dir@, c.0, size)[k] by {
        lemma_fundamental_div_mod(k, 32);
        if is_entry_of(dir@, k / 32, c.0) {
            assert(k / 32 < n);
        }
    }
    assert(out@ =~= with_entry_size(dir@, c.0, size));
    out
}

/// The volume after the data of `buf` is written at the position of `f`
/// (when neither growing the chain nor the write meets an error).
pub open spec fn data_written(f: File, v: VFatView, buf: Seq<u8>) -> VFatView {
    let target = f.offset + buf.len();
    let v1 = reserve(v, (f.current_cluster->0).0, target, (target + 1) as nat).0;
    write_along(v1, f.current_cluster, (f.offset % f.bytes_per_cluster) as int, buf).volume
}

/// After a write that grows file `f0` to `size` on volume `w` (the data
/// written), its entry in the parent directory `pc` gets the new size:
/// the directory's chain is read, every entry of the file gets `size`,
/// and the bytes are written back along the chain. `r` is the outcome and
/// `w1` the volume afterwards; a chain that cannot be read or written
/// gives its error, and what was written stays.
pub open spec fn entry_updated(
    f0: File,
    pc: Cluster,
    size: u32,
    w: VFatView,
    w1: VFatView,
    ok: usize,
    r: Result<usize, IoErrorKind>,
) -> bool {
    let ch = w.chain(pc.0);
    let d = w.chain_data(ch.0);
    match d.1 {
        Some(e) => r == Err::<usize, IoErrorKind>(e) && w1 == w,
        None => match ch.1 {
            Some(e) => r == Err::<usize, IoErrorKind>(e) && w1 == w,
            None => {
                let out = w.chain_write(pc.0, with_entry_size(d.0, f0.first_cluster.0, size), 0);
                &&& w1 == out.0
                &&& match out.1 {
                    Ok(_) => r == Ok::<usize, IoErrorKind>(ok),
                    Err(e) => r == Err::<usize, IoErrorKind>(e),
                }
            },
        },
    }
}

/// What updating the parent's entry of `f0` (see [`entry_updated`])
/// returns.
pub open spec fn entry_update_outcome(f0: File, pc: Cluster, size: u32, w: VFatView, ok: usize) -> Result<usize, IoErrorKind> {
    let ch = w.chain(pc.0);
    let d = w.chain_data(ch.0);
    match d.1 {
        Some(e) => Err(e),
        None => match ch.1 {
            Some(e) => Err(e),
            None => match w.chain_write(pc.0, with_entry_size(d.0, f0.first_cluster.0, size), 0).1 {
                Ok(_) => Ok(ok),
                Err(e) => Err(e),
            },
        },
    }
}

/// What writing `buf` at the position of file `f0` does: `f1` is the file
/// and `w1` the volume afterwards (from `w0`), `r` the result. The chain
/// from the cluster of the position grows until it holds the position plus
/// the bytes (counted from that cluster); then the bytes are written there
/// and in the clusters after it, the position moves past them and the size
/// grows to it. When the size grows and the parent directory is known, the
/// file's entry there gets the new size. On an error while growing or
/// writing the data the file does not move; what was written or allocated
/// stays.
pub open spec fn file_written(
    f0: File,
    f1: File,
    w0: VFatView,
    w1: VFatView,
    buf: Seq<u8>,
    r: Result<usize, IoErrorKind>,
) -> bool {
    match f0.current_cluster {
        None => r == Err::<usize, IoErrorKind>(IoErrorKind::InvalidInput) && w1 == w0 && f1 == f0,
        Some(c) => {
            let target = f0.offset + buf.len();
            let (v1, e) = reserve(w0, c.0, target, (target + 1) as nat);
            match e {
                Some(err) => r == Err::<usize, IoErrorKind>(err) && w1 == v1 && f1 == f0,
                None => {
                    let o = write_along(
                        v1,
                        f0.current_cluster,
                        (f0.offset % f0.bytes_per_cluster) as int,
                        buf,
                    );
                    match o.error {
                        Some(err) => r == Err::<usize, IoErrorKind>(err) && f1 == f0 && w1 == o.volume,
                        None => {
                            &&& f1 == (File {
                                offset: target as usize,
                                current_cluster: o.cluster,
                                size: if target > f0.size { target as usize } else { f0.size },
                                ..f0
                            })
                            &&& if target > f0.size && f0.parent_first_cluster is Some {
                                entry_updated(
                                    f0,
                                    f0.parent_first_cluster->0,
                                    target as u32,
                                    o.volume,
                                    w1,
                                    buf.len() as usize,
                                    r,
                                )
                            } else {
                                r == Ok::<usize, IoErrorKind>(buf.len() as usize) && w1 == o.volume
                            }
                        },
                    }
                },
            }
        },
    }
}

impl File {
    /// Writes `buf` at the position. First the chain from the cluster the
    /// position is in grows until it holds the position plus the bytes of
    /// `buf` (counted from that cluster); then the bytes are written there
    /// and in the clusters after it, the position moves past them, and the
    /// size grows to the position when it was smaller. A file with no
    /// cluster for its position is `InvalidInput`. On an error the position
    /// and size do not move; what was written or allocated stays.
    ///
    /// Panics (excluded by the precondition) when the sizes overflow or the write runs
    /// past the end of the chain; does not return (excluded by the precondition) when
    /// the chain goes round in a cycle.
    pub fn write(&mut self, vfat: &mut VFat, buf: &[u8]) -> (r: Result<usize, IoErrorKind>)
        requires
            write_ok(*old(self), old(vfat)@, buf@),
        ensures
            final(vfat)@.wf(),
            file_written(*old(self), *final(self), old(vfat)@, final(vfat)@, buf@, r),
            r == write_outcome(*old(self), old(vfat)@, buf@),
    {
        let c = match self.current_cluster {
            Some(c) => c,
            None => {
                return Err(IoErrorKind::InvalidInput);
            },
        };
        let target = self.offset + buf.len();
        match File::reserve(vfat, c, target) {
            Ok(()) => {},
            Err(e) => {
                return Err(e);
            },
        }
        let (written, cur) = match self.write_data(vfat, buf) {
            Ok(x) => x,
            Err(e) => {
                return Err(e);
            },
        };
        self.current_cluster = cur;
        self.offset = self.offset + written;
        if self.offset > self.size {
            self.size = self.offset;
            if let Some(pc) = self.parent_first_cluster {
                let mut dir: Vec<u8> = Vec::new();
                match vfat.read_chain(pc, &mut dir) {
                    Ok(_) => {},
                    Err(e) => {
                        return Err(e);
                    },
                }
                assert(dir@ =~= Seq::<u8>::empty() + dir@);
                let patched = set_entry_size(dir.as_slice(), self.first_cluster, self.size as u32);
                match vfat.write_chain(pc, &patched) {
                    Ok(_) => {},
                    Err(e) => {
                        return Err(e);
                    },
                }
            }
        }
        Ok(written)
    }
}

impl Dir {
    /// The entries of this directory: its cluster chain read in full and
    /// taken as raw directory entries.
    ///
    /// Panics (excluded by the precondition) for clusters 0 and 1; does not return
    /// (excluded by the precondition) when the chain goes round in a cycle.
    pub fn entries(&self, vfat: &VFat) -> (r: Result<DirIterator, IoErrorKind>)
        requires
            vfat@.wf(),
            self.first_cluster.0 >= 2,
            vfat@.chain_ends(self.first_cluster.0),
            (vfat@.chain(self.first_cluster.0).0.len() + 1) * vfat@.cluster_size() <= usize::MAX,
        ensures
            ({
                let w = vfat@.chain(self.first_cluster.0);
                let d = vfat@.chain_data(w.0);
                match (d.1, w.1) {
                    (Some(e), _) => r == Err::<DirIterator, IoErrorKind>(e),
                    (None, Some(e)) => r == Err::<DirIterator, IoErrorKind>(e),
                    (None, None) => r matches Ok(it) && it.wf() && it@.bytes == d.0 && it@.idx == 0 && it@.offset
                        == 0 && it@.len == count_regular(d.0, entry_count(d.0), 0) && it@.bytes_per_cluster
                        == vfat@.cluster_size(),
                }
            }),
    {
        let mut chain: Vec<u8> = Vec::new();
        match vfat.read_chain(self.first_cluster, &mut chain) {
            Ok(_) => {},
            Err(e) => {
                return Err(e);
            },
        }
        assert(Seq::<u8>::empty() + chain@ =~= chain@);
        let bpc = vfat.bytes_per_cluster();
        Ok(DirIterator::from_chain(chain, bpc))
    }
}

} // verus!

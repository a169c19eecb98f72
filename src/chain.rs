use vstd::prelude::*;

use crate::error::FatError;
use crate::layout::le16;
use crate::sector::{read_sector, sector_bytes};

verus! {

/// Link values from here up mark the end of a chain.
pub const END_OF_CHAIN: u16 = 0xFF8;

/// Link value of a cluster marked unusable.
pub const BAD_CLUSTER: u16 = 0xFF7;

/// Link values from here up to the bad-cluster marker are reserved.
pub const RESERVED_MIN: u16 = 0xFF0;

/// Number of data clusters, 2 through 0xFEF: a chain that visits no cluster
/// twice is never longer.
pub const MAX_CHAIN: u64 = 0xFEE;

/// The table holds both bytes of the packed entry of cluster `c`.
pub open spec fn link_in_table(fat: Seq<u8>, c: int) -> bool {
    c * 3 / 2 + 1 < fat.len()
}

/// The 12-bit link of cluster `c`: the little-endian word at `c * 3 / 2`,
/// its low 12 bits for an even cluster, its high 12 bits for an odd one.
pub open spec fn fat_link(fat: Seq<u8>, c: int) -> int {
    let w = le16(fat, c * 3 / 2);
    if c % 2 == 0 {
        w % 4096
    } else {
        w / 16
    }
}

/// First sector of data cluster `c`.
pub open spec fn cluster_lba(spc: int, data_lba: int, c: int) -> int {
    data_lba + (c - 2) * spc
}

pub open spec fn prepend(a: Seq<u8>, r: Result<Seq<u8>, FatError>) -> Result<Seq<u8>, FatError> {
    match r {
        Ok(s) => Ok(a + s),
        Err(e) => Err(e),
    }
}

/// The bytes of the chain from cluster `c` on, following at most `fuel`
/// clusters, or the first failure met on the way.
pub open spec fn walk(
    d: Seq<u8>,
    bps: int,
    spc: int,
    data_lba: int,
    fat: Seq<u8>,
    c: int,
    fuel: nat,
) -> Result<Seq<u8>, FatError>
    decreases fuel,
{
    if fuel == 0 {
        Err(FatError::ChainTooLong)
    } else if c < 2 || c >= RESERVED_MIN {
        Err(FatError::InvalidCluster)
    } else {
        match sector_bytes(d, bps, cluster_lba(spc, data_lba, c), spc) {
            None => Err(FatError::OutOfBounds),
            Some(data) => if !link_in_table(fat, c) {
                Err(FatError::OutOfBounds)
            } else {
                let n = fat_link(fat, c);
                if n >= END_OF_CHAIN {
                    Ok(data)
                } else if n == BAD_CLUSTER {
                    Err(FatError::BadCluster)
                } else if n >= RESERVED_MIN {
                    Err(FatError::ReservedCluster)
                } else {
                    prepend(data, walk(d, bps, spc, data_lba, fat, n, (fuel - 1) as nat))
                }
            },
        }
    }
}

/// `r` is the outcome `s` with its bytes held in a vector.
pub open spec fn same_outcome(r: Result<Vec<u8>, FatError>, s: Result<Seq<u8>, FatError>) -> bool {
    match s {
        Ok(b) => r is Ok && r->Ok_0@ == b,
        Err(e) => r == Err::<Vec<u8>, FatError>(e),
    }
}

/// Resolves the next cluster of `cluster` from the packed table. Fails with
/// `OutOfBounds` exactly when the table does not hold the entry.
pub fn fat_entry(fat: &[u8], cluster: u16) -> (r: Result<u16, FatError>)
    ensures
        link_in_table(fat@, cluster as int) ==> r == Ok::<u16, FatError>(
            fat_link(fat@, cluster as int) as u16,
        ),
        !link_in_table(fat@, cluster as int) ==> r == Err::<u16, FatError>(FatError::OutOfBounds),
        r is Ok ==> r->Ok_0 < 4096,
{
    let idx: usize = (cluster as usize) * 3 / 2;
    if idx >= fat.len() || fat.len() - idx < 2 {
        return Err(FatError::OutOfBounds);
    }
    let w: u32 = fat[idx] as u32 + (fat[idx + 1] as u32) * 256;
    assert(w == le16(fat@, cluster * 3 / 2));
    if cluster % 2 == 0 {
        Ok((w % 4096) as u16)
    } else {
        Ok((w / 16) as u16)
    }
}

proof fn lemma_prepend_assoc(a: Seq<u8>, b: Seq<u8>, r: Result<Seq<u8>, FatError>)
    ensures
        prepend(a, prepend(b, r)) == prepend(a + b, r),
{
    match r {
        Ok(s) => {
            assert((a + b) + s =~= a + (b + s));
        },
        Err(_) => {},
    }
}

/// Follows the chain that starts at `start`, appending `sectors_per_cluster`
/// sectors of data per cluster, until a link reaches an end-of-chain marker.
/// A link to the bad-cluster marker or into the reserved range is an error,
/// as is a chain longer than the number of data clusters.
pub fn follow_chain(
    disk: &[u8],
    bytes_per_sector: u16,
    sectors_per_cluster: u8,
    data_lba: u32,
    fat: &[u8],
    start: u16,
) -> (r: Result<Vec<u8>, FatError>)
    ensures
        same_outcome(
            r,
            walk(
                disk@,
                bytes_per_sector as int,
                sectors_per_cluster as int,
                data_lba as int,
                fat@,
                start as int,
                MAX_CHAIN as nat,
            ),
        ),
{
    let ghost whole = walk(
        disk@,
        bytes_per_sector as int,
        sectors_per_cluster as int,
        data_lba as int,
        fat@,
        start as int,
        MAX_CHAIN as nat,
    );
    let mut out: Vec<u8> = Vec::new();
    let mut cluster: u16 = start;
    let mut fuel: u64 = MAX_CHAIN;
    assert(out@ + Seq::<u8>::empty() =~= Seq::<u8>::empty());
    proof {
        match whole {
            Ok(s) => {
                assert(out@ + s =~= s);
            },
            Err(_) => {},
        }
    }
    while fuel > 0
        invariant
            fuel <= MAX_CHAIN,
            whole == prepend(
                out@,
                walk(
                    disk@,
                    bytes_per_sector as int,
                    sectors_per_cluster as int,
                    data_lba as int,
                    fat@,
                    cluster as int,
                    fuel as nat,
                ),
            ),
            whole == walk(
                disk@,
                bytes_per_sector as int,
                sectors_per_cluster as int,
                data_lba as int,
                fat@,
                start as int,
                MAX_CHAIN as nat,
            ),
        decreases fuel,
    {
        if cluster < 2 || cluster >= RESERVED_MIN {
            return Err(FatError::InvalidCluster);
        }
        let spc = sectors_per_cluster as u64;
        let steps = cluster as u64 - 2;
        assert(steps * spc <= 0xFFFF * 0xFF) by (nonlinear_arith)
            requires
                steps <= 0xFFFF,
                spc <= 0xFF,
        ;
        let offset: u64 = steps * spc;
        let lba: u64 = data_lba as u64 + offset;
        let mut data = match read_sector(disk, bytes_per_sector, lba, sectors_per_cluster as u64) {
            Ok(v) => v,
            Err(e) => return Err(e),
        };
        let next = match fat_entry(fat, cluster) {
            Ok(n) => n,
            Err(e) => return Err(e),
        };
        let ghost prev = out@;
        let ghost chunk = data@;
        out.append(&mut data);
        if next >= END_OF_CHAIN {
            return Ok(out);
        }
        if next == BAD_CLUSTER {
            return Err(FatError::BadCluster);
        }
        if next >= RESERVED_MIN {
            return Err(FatError::ReservedCluster);
        }
        proof {
            lemma_prepend_assoc(
                prev,
                chunk,
                walk(
                    disk@,
                    bytes_per_sector as int,
                    sectors_per_cluster as int,
                    data_lba as int,
                    fat@,
                    next as int,
                    (fuel - 1) as nat,
                ),
            );
        }
        cluster = next;
        fuel = fuel - 1;
    }
    Err(FatError::ChainTooLong)
}

/// The bytes of data cluster `c`.
pub open spec fn cluster_data(d: Seq<u8>, bps: int, spc: int, data_lba: int, c: int) -> Seq<u8> {
    let start = cluster_lba(spc, data_lba, c) * bps;
    d.subrange(start, start + spc * bps)
}

/// The data of the clusters `cs`, one after another.
pub open spec fn chain_data(d: Seq<u8>, bps: int, spc: int, data_lba: int, cs: Seq<int>) -> Seq<u8>
    decreases cs.len(),
{
    if cs.len() == 0 {
        Seq::empty()
    } else {
        cluster_data(d, bps, spc, data_lba, cs[0]) + chain_data(d, bps, spc, data_lba, cs.drop_first())
    }
}

/// `cs` is a well-formed chain: data clusters, each one's sectors inside the
/// image and its entry inside the table, each linking to the next, the last
/// linking to an end-of-chain marker.
pub open spec fn is_chain(d: Seq<u8>, bps: int, spc: int, data_lba: int, fat: Seq<u8>, cs: Seq<int>) -> bool {
    &&& cs.len() >= 1
    &&& forall|i: int| 0 <= i < cs.len() ==> 2 <= #[trigger] cs[i] < RESERVED_MIN
    &&& forall|i: int| 0 <= i < cs.len() ==> link_in_table(fat, #[trigger] cs[i])
    &&& forall|i: int| 0 <= i < cs.len() ==>
        cluster_lba(spc, data_lba, #[trigger] cs[i]) * bps + spc * bps <= d.len()
    &&& forall|i: int| 0 <= i < cs.len() - 1 ==> fat_link(fat, #[trigger] cs[i]) == cs[i + 1]
    &&& fat_link(fat, cs.last()) >= END_OF_CHAIN
}

proof fn lemma_walk_chain(
    d: Seq<u8>,
    bps: int,
    spc: int,
    data_lba: int,
    fat: Seq<u8>,
    cs: Seq<int>,
    fuel: nat,
)
    requires
        bps >= 0,
        spc >= 0,
        data_lba >= 0,
        is_chain(d, bps, spc, data_lba, fat, cs),
        fuel >= cs.len(),
    ensures
        walk(d, bps, spc, data_lba, fat, cs[0], fuel) == Ok::<Seq<u8>, FatError>(
            chain_data(d, bps, spc, data_lba, cs),
        ),
        chain_data(d, bps, spc, data_lba, cs).len() == cs.len() * (spc * bps),
    decreases cs.len(),
{
    let c = cs[0];
    let lba = cluster_lba(spc, data_lba, c);
    assert(0 <= lba * bps && 0 <= spc * bps) by (nonlinear_arith)
        requires
            lba >= 0,
            bps >= 0,
            spc >= 0,
    ;
    assert(lba >= 0 && c >= 2);
    let rest = cs.drop_first();
    if cs.len() == 1 {
        assert(rest.len() == 0);
        assert(chain_data(d, bps, spc, data_lba, rest) == Seq::<u8>::empty());
        assert(chain_data(d, bps, spc, data_lba, cs) =~= cluster_data(d, bps, spc, data_lba, c));
    } else {
        assert(is_chain(d, bps, spc, data_lba, fat, rest)) by {
            assert forall|i: int| 0 <= i < rest.len() - 1 implies fat_link(fat, #[trigger] rest[i])
                == rest[i + 1] by {
                assert(rest[i] == cs[i + 1]);
            }
            assert(rest.last() == cs.last());
        }
        assert(fat_link(fat, cs[0]) == cs[1]);
        lemma_walk_chain(d, bps, spc, data_lba, fat, rest, (fuel - 1) as nat);
        let k = spc * bps;
        assert(k + (cs.len() - 1) * k == cs.len() * k) by (nonlinear_arith);
    }
}

/// A chain of `cs.len()` data clusters that ends at any end-of-chain marker
/// is followed to its end: the walk succeeds and returns exactly the data of
/// those clusters, in chain order, `cs.len()` clusters' worth of bytes.
pub proof fn lemma_chain_yields_its_clusters(
    d: Seq<u8>,
    bps: u16,
    spc: u8,
    data_lba: u32,
    fat: Seq<u8>,
    cs: Seq<int>,
)
    requires
        is_chain(d, bps as int, spc as int, data_lba as int, fat, cs),
        cs.len() <= MAX_CHAIN,
    ensures
        walk(d, bps as int, spc as int, data_lba as int, fat, cs[0], MAX_CHAIN as nat) == Ok::<
            Seq<u8>,
            FatError,
        >(chain_data(d, bps as int, spc as int, data_lba as int, cs)),
        chain_data(d, bps as int, spc as int, data_lba as int, cs).len() == cs.len() * (spc * bps),
{
    lemma_walk_chain(d, bps as int, spc as int, data_lba as int, fat, cs, MAX_CHAIN as nat);
}

} // verus!

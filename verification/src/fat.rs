//! The File Allocation Table: one 32-bit entry per cluster, linking the
//! clusters of each stream into a chain.

use crate::image::{range_of, read_at};
use crate::mem::{le32, read_u32_le};
use crate::param::Params;
use crate::text::{decimal, numbered};
use vstd::prelude::*;
use vstd::string::StringExecFns;

verus! {

/// Entry of a cluster that belongs to no chain.
pub const FREE: u32 = 0;

/// Entry of a cluster that must not be used.
pub const BAD: u32 = 0xFFFF_FFF7;

/// Entry of the last cluster of a chain.
pub const END_OF_CHAIN: u32 = 0xFFFF_FFFF;

/// Why a FAT could not be loaded.
#[derive(Debug, Clone, Copy, PartialEq, Eq)]
pub enum LoadError {
    /// The region of the FAT copy with this index lies outside the image.
    ReadFailed(usize),
    /// The region is too short to hold an entry for every cluster.
    TooShort,
}

/// Why a cluster chain could not be followed to its end.
#[derive(Debug, Clone, Copy, PartialEq, Eq)]
pub enum ChainError {
    /// The chain was asked to start at an index that names no cluster.
    InvalidStart(usize),
    /// The entry of this cluster marks it as free.
    FreeCluster(usize),
    /// The entry of this cluster marks it as bad.
    BadCluster(usize),
    /// The entry of this cluster names no cluster and is no marker.
    InvalidNext(usize),
    /// The chain comes back to a cluster that it has already visited.
    Cycle,
}

impl LoadError {
    /// The message of the error.
    pub open spec fn message(&self) -> Seq<char> {
        match self {
            LoadError::ReadFailed(index) => "cannot read FAT #"@ + decimal(*index as nat),
            LoadError::TooShort => "FAT is too short for the cluster heap"@,
        }
    }

    /// The message of the error.
    pub fn to_string(&self) -> (r: String)
        ensures
            r@ == self.message(),
    {
        match self {
            LoadError::ReadFailed(index) => numbered("cannot read FAT #", *index),
            LoadError::TooShort => String::from_str("FAT is too short for the cluster heap"),
        }
    }
}

impl ChainError {
    /// The message of the error.
    pub open spec fn message(&self) -> Seq<char> {
        match self {
            ChainError::InvalidStart(cluster) => "cluster heap has no cluster #"@ + decimal(
                *cluster as nat,
            ),
            ChainError::FreeCluster(cluster) => "cluster chain has free cluster #"@ + decimal(
                *cluster as nat,
            ),
            ChainError::BadCluster(cluster) => "cluster chain has bad cluster #"@ + decimal(
                *cluster as nat,
            ),
            ChainError::InvalidNext(cluster) => "invalid FAT entry of cluster #"@ + decimal(
                *cluster as nat,
            ),
            ChainError::Cycle => "cluster chain has a cycle"@,
        }
    }

    /// The message of the error.
    pub fn to_string(&self) -> (r: String)
        ensures
            r@ == self.message(),
    {
        match self {
            ChainError::InvalidStart(cluster) => numbered(
                "cluster heap has no cluster #",
                *cluster,
            ),
            ChainError::FreeCluster(cluster) => numbered(
                "cluster chain has free cluster #",
                *cluster,
            ),
            ChainError::BadCluster(cluster) => numbered(
                "cluster chain has bad cluster #",
                *cluster,
            ),
            ChainError::InvalidNext(cluster) => numbered(
                "invalid FAT entry of cluster #",
                *cluster,
            ),
            ChainError::Cycle => String::from_str("cluster chain has a cycle"),
        }
    }
}

/// `c` is the index of a cluster in a heap of `count` clusters.
pub open spec fn is_cluster(count: int, c: int) -> bool {
    2 <= c <= count + 1
}

/// The entry `e` names the next cluster of a chain: it is no marker and it
/// is the index of a cluster.
pub open spec fn is_link(count: int, e: u32) -> bool {
    e != END_OF_CHAIN && e != FREE && e != BAD && is_cluster(count, e as int)
}

/// The table that the bytes of a FAT region hold for a heap of `count`
/// clusters: entry `i` is the little-endian value at offset `4 * i`.
pub open spec fn decode_spec(region: Seq<u8>, count: int) -> Result<Seq<u32>, LoadError> {
    if region.len() < 4 * (count + 2) {
        Err(LoadError::TooShort)
    } else {
        Ok(Seq::new((count + 2) as nat, |i: int| le32(region, 4 * i) as u32))
    }
}

/// Offset in bytes of the FAT copy `index`.
pub open spec fn region_offset(params: Params, index: int) -> int {
    (params.fat_offset + index * params.fat_length) * params.bytes_per_sector
}

/// Length in bytes of each FAT copy.
pub open spec fn region_len(params: Params) -> int {
    params.fat_length * params.bytes_per_sector
}

/// The table of the FAT copy `index` of `image`.
pub open spec fn load_spec(params: Params, image: Seq<u8>, index: usize) -> Result<
    Seq<u32>,
    LoadError,
> {
    match range_of(image, region_offset(params, index as int), region_len(params)) {
        None => Err(LoadError::ReadFailed(index)),
        Some(region) => decode_spec(region, params.cluster_count as int),
    }
}

/// The chain that starts at cluster `cur`, followed for at most `budget`
/// clusters: `cur`, then the cluster that the entry of `cur` names, and so on
/// up to the cluster whose entry is the end-of-chain marker.
pub open spec fn walk(fat: Seq<u32>, cur: usize, budget: nat) -> Result<Seq<usize>, ChainError>
    decreases budget,
{
    let next = fat[cur as int];
    if next == END_OF_CHAIN {
        Ok(seq![cur])
    } else if next == FREE {
        Err(ChainError::FreeCluster(cur))
    } else if next == BAD {
        Err(ChainError::BadCluster(cur))
    } else if !is_cluster(fat.len() - 2, next as int) {
        Err(ChainError::InvalidNext(cur))
    } else if budget <= 1 {
        Err(ChainError::Cycle)
    } else {
        match walk(fat, next as usize, (budget - 1) as nat) {
            Ok(rest) => Ok(seq![cur] + rest),
            Err(e) => Err(e),
        }
    }
}

/// The cluster chain that starts at `first`. A chain of distinct clusters has
/// at most as many clusters as the heap, so one that goes on beyond that
/// number has come back to a cluster of its own.
pub open spec fn chain_spec(fat: Seq<u32>, first: usize) -> Result<Seq<usize>, ChainError> {
    if !is_cluster(fat.len() - 2, first as int) {
        Err(ChainError::InvalidStart(first))
    } else {
        walk(fat, first, (fat.len() - 2) as nat)
    }
}

/// `chain` is a cluster chain of `fat`: its clusters are clusters of the
/// heap, the entry of each names the next, and the entry of the last is the
/// end-of-chain marker.
pub open spec fn is_chain(fat: Seq<u32>, chain: Seq<usize>) -> bool {
    &&& chain.len() >= 1
    &&& forall|i: int|
        0 <= i < chain.len() ==> is_cluster(fat.len() - 2, #[trigger] chain[i] as int)
    &&& forall|i: int|
        0 <= i < chain.len() - 1 ==> is_link(fat.len() - 2, fat[#[trigger] chain[i] as int])
            && fat[chain[i] as int] == chain[i + 1]
    &&& fat[chain.last() as int] == END_OF_CHAIN
}

/// `done` followed by what `rest` holds, or the error of `rest`.
pub open spec fn continued(done: Seq<usize>, rest: Result<Seq<usize>, ChainError>) -> Result<
    Seq<usize>,
    ChainError,
> {
    match rest {
        Ok(s) => Ok(done + s),
        Err(e) => Err(e),
    }
}

/// A FAT in memory: the entries of the clusters, by cluster index. The
/// entries 0 and 1 belong to no cluster.
#[derive(Debug)]
pub struct Fat {
    entries: Vec<u32>,
}

impl View for Fat {
    type V = Seq<u32>;

    closed spec fn view(&self) -> Seq<u32> {
        self.entries@
    }
}

impl Fat {
    /// The table has the two entries that belong to no cluster.
    #[verifier::type_invariant]
    spec fn has_unused_entries(&self) -> bool {
        self.entries@.len() >= 2
    }

    /// The table has the two entries that belong to no cluster.
    pub open spec fn wf(&self) -> bool {
        self@.len() >= 2
    }

    /// Number of clusters that the table has entries for.
    pub open spec fn spec_cluster_count(&self) -> int {
        self@.len() - 2
    }

    /// Number of clusters that the table has entries for.
    pub fn cluster_count(&self) -> (r: usize)
        ensures
            r == self.spec_cluster_count(),
            self.wf(),
    {
        proof {
            use_type_invariant(self);
        }
        self.entries.len() - 2
    }

    /// Decodes the bytes of a FAT region for a heap of `count` clusters.
    pub fn decode(region: &[u8], count: usize) -> (r: Result<Fat, LoadError>)
        ensures
            match r {
                Ok(fat) => decode_spec(region@, count as int) == Ok::<_, LoadError>(fat@)
                    && fat.wf(),
                Err(e) => decode_spec(region@, count as int) == Err::<Seq<u32>, _>(e),
            },
    {
        if region.len() / 4 < 2 || region.len() / 4 - 2 < count {
            return Err(LoadError::TooShort);
        }
        let total: usize = count + 2;
        let mut entries: Vec<u32> = Vec::with_capacity(total);
        let mut i: usize = 0;
        while i < total
            invariant
                i <= total,
                total == count + 2,
                4 * total <= region.len(),
                entries@.len() == i,
                forall|j: int| 0 <= j < i ==> entries@[j] == le32(region@, 4 * j) as u32,
            decreases total - i,
        {
            entries.push(read_u32_le(region, 4 * i));
            i += 1;
        }
        assert(entries@ =~= decode_spec(region@, count as int).unwrap());
        Ok(Fat { entries })
    }

    /// Loads the FAT copy `index` of a volume.
    pub fn load(params: &Params, image: &[u8], index: usize) -> (r: Result<Fat, LoadError>)
        requires
            params.wf(),
        ensures
            match r {
                Ok(fat) => load_spec(*params, image@, index) == Ok::<_, LoadError>(fat@)
                    && fat.wf() && fat.spec_cluster_count() == params.cluster_count,
                Err(e) => load_spec(*params, image@, index) == Err::<Seq<u32>, _>(e),
            },
    {
        proof {
            crate::param::lemma_geometry_bounds(*params);
            lemma_region_offset(*params, index as int);
            assert(image@.len() == image.len());
        }
        let len: u64 = params.fat_length * params.bytes_per_sector;
        let skipped = match (index as u64).checked_mul(len) {
            Some(v) => v,
            None => {
                return Err(LoadError::ReadFailed(index));
            },
        };
        let offset = match skipped.checked_add(params.fat_offset * params.bytes_per_sector) {
            Some(v) => v,
            None => {
                return Err(LoadError::ReadFailed(index));
            },
        };
        match read_at(image, offset, len) {
            Some(region) => Fat::decode(region, params.cluster_count),
            None => Err(LoadError::ReadFailed(index)),
        }
    }

    /// Follows the cluster chain that starts at `first` to its end.
    pub fn get_cluster_chain(&self, first: usize) -> (r: Result<Vec<usize>, ChainError>)
        ensures
            self.wf(),
            match r {
                Ok(chain) => chain_spec(self@, first) == Ok::<_, ChainError>(chain@) && is_chain(
                    self@,
                    chain@,
                ),
                Err(e) => chain_spec(self@, first) == Err::<Seq<usize>, _>(e),
            },
    {
        proof {
            use_type_invariant(self);
        }
        let count: usize = self.entries.len() - 2;
        if first < 2 || first - 2 >= count {
            return Err(ChainError::InvalidStart(first));
        }
        let mut chain: Vec<usize> = Vec::new();
        let mut cur: usize = first;
        let mut budget: usize = count;
        loop
            invariant
                self.wf(),
                count == self@.len() - 2,
                is_cluster(count as int, cur as int),
                budget >= 1,
                chain_spec(self@, first) == continued(chain@, walk(self@, cur, budget as nat)),
            decreases budget,
        {
            let next: u32 = self.entries[cur];
            if next == END_OF_CHAIN {
                assert(chain@.push(cur) =~= chain@ + seq![cur]);
                chain.push(cur);
                proof {
                    lemma_chain_linked(self@, first);
                }
                return Ok(chain);
            }
            if next == FREE {
                return Err(ChainError::FreeCluster(cur));
            }
            if next == BAD {
                return Err(ChainError::BadCluster(cur));
            }
            if next < 2 || next as usize - 2 >= count {
                return Err(ChainError::InvalidNext(cur));
            }
            if budget <= 1 {
                return Err(ChainError::Cycle);
            }
            proof {
                let rest = walk(self@, next as usize, (budget - 1) as nat);
                match rest {
                    Ok(s) => {
                        assert(chain@.push(cur) + s =~= chain@ + (seq![cur] + s));
                    },
                    Err(_) => {},
                }
            }
            chain.push(cur);
            cur = next as usize;
            budget -= 1;
        }
    }
}

/// The region of either FAT lies below 2^45.
pub proof fn lemma_region_fits(params: Params)
    requires
        params.wf(),
    ensures
        0 <= region_len(params) <= 0x1000_0000_0000,
        forall|index: int|
            0 <= index <= 1 ==> 0 <= #[trigger] region_offset(params, index)
                <= 0x2000_0000_0000,
        0 <= params.fat_offset + params.fat_length <= 0x2_0000_0000,
        0 <= (params.fat_offset + params.fat_length) * params.bytes_per_sector
            <= 0x2000_0000_0000,
        0 <= params.fat_offset * params.bytes_per_sector <= 0x2000_0000_0000,
{
    crate::param::lemma_geometry_bounds(params);
    lemma_region_offset(params, 0);
    lemma_region_offset(params, 1);
    assert(1 * region_len(params) == region_len(params));
    assert(0 * region_len(params) == 0);
    assert((params.fat_offset + 1 * params.fat_length) * params.bytes_per_sector == (
    params.fat_offset + params.fat_length) * params.bytes_per_sector);
}

/// The offset of a FAT region as a sum of two products, and their sizes.
proof fn lemma_region_offset(params: Params, index: int)
    requires
        params.wf(),
        index >= 0,
    ensures
        region_offset(params, index) == index * region_len(params) + params.fat_offset
            * params.bytes_per_sector,
        0 <= params.fat_offset * params.bytes_per_sector <= 0x1000_0000_0000,
        0 <= region_len(params) <= 0x1000_0000_0000,
{
    crate::param::lemma_geometry_bounds(params);
    assert(params.fat_offset * params.bytes_per_sector <= 0x1000_0000_0000) by (nonlinear_arith)
        requires
            0 <= params.fat_offset <= 0xFFFF_FFFF,
            0 <= params.bytes_per_sector <= 4096,
    ;
    assert(params.fat_length * params.bytes_per_sector <= 0x1000_0000_0000) by (nonlinear_arith)
        requires
            0 <= params.fat_length <= 0xFFFF_FFFF,
            0 <= params.bytes_per_sector <= 4096,
    ;
    assert((params.fat_offset + index * params.fat_length) * params.bytes_per_sector == index * (
    params.fat_length * params.bytes_per_sector) + params.fat_offset * params.bytes_per_sector)
        by (nonlinear_arith);
    assert(params.fat_offset * params.bytes_per_sector >= 0) by (nonlinear_arith)
        requires
            params.fat_offset >= 0,
            params.bytes_per_sector >= 0,
    ;
    assert(params.fat_length * params.bytes_per_sector >= 0) by (nonlinear_arith)
        requires
            params.fat_length >= 0,
            params.bytes_per_sector >= 0,
    ;
}

/// What `walk` gives from a cluster on is a chain that starts with that
/// cluster and has no more clusters than the budget allows.
pub proof fn lemma_walk_linked(fat: Seq<u32>, cur: usize, budget: nat)
    requires
        is_cluster(fat.len() - 2, cur as int),
        walk(fat, cur, budget) is Ok,
    ensures
        is_chain(fat, walk(fat, cur, budget).unwrap()),
        walk(fat, cur, budget).unwrap()[0] == cur,
        walk(fat, cur, budget).unwrap().len() <= budget || walk(fat, cur, budget).unwrap().len()
            == 1,
    decreases budget,
{
    let next = fat[cur as int];
    if next != END_OF_CHAIN {
        let rest = walk(fat, next as usize, (budget - 1) as nat).unwrap();
        lemma_walk_linked(fat, next as usize, (budget - 1) as nat);
        let chain = seq![cur] + rest;
        assert forall|i: int| 0 <= i < chain.len() implies is_cluster(
            fat.len() - 2,
            #[trigger] chain[i] as int,
        ) by {
            if i > 0 {
                assert(chain[i] == rest[i - 1]);
            }
        }
        assert forall|i: int| 0 <= i < chain.len() - 1 implies is_link(
            fat.len() - 2,
            fat[#[trigger] chain[i] as int],
        ) && fat[chain[i] as int] == chain[i + 1] by {
            assert(chain[i + 1] == rest[i]);
            if i > 0 {
                assert(chain[i] == rest[i - 1]);
            }
        }
        assert(chain.last() == rest.last());
    }
}

/// A chain that `chain_spec` gives is a chain of the table: it starts at
/// `first`, each of its clusters is a cluster of the heap whose entry names
/// the next, and the entry of the last is the end-of-chain marker.
pub proof fn lemma_chain_linked(fat: Seq<u32>, first: usize)
    requires
        chain_spec(fat, first) is Ok,
    ensures
        is_chain(fat, chain_spec(fat, first).unwrap()),
        chain_spec(fat, first).unwrap()[0] == first,
        chain_spec(fat, first).unwrap().len() <= fat.len() - 2,
{
    lemma_walk_linked(fat, first, (fat.len() - 2) as nat);
}

/// A chain that starts at a cluster whose entry is the end-of-chain marker
/// has exactly that cluster.
pub proof fn lemma_single_cluster_chain(fat: Seq<u32>, first: usize)
    requires
        is_cluster(fat.len() - 2, first as int),
        fat[first as int] == END_OF_CHAIN,
    ensures
        chain_spec(fat, first) == Ok::<_, ChainError>(seq![first]),
{
}

/// `path` follows the entries of `fat` from cluster to cluster, and the entry
/// of its last cluster leads back to its cluster number `back`.
pub open spec fn is_loop(fat: Seq<u32>, path: Seq<usize>, back: int) -> bool {
    &&& 0 <= back < path.len()
    &&& forall|i: int|
        0 <= i < path.len() ==> is_cluster(fat.len() - 2, #[trigger] path[i] as int) && is_link(
            fat.len() - 2,
            fat[path[i] as int],
        )
    &&& forall|i: int| 0 <= i < path.len() - 1 ==> fat[#[trigger] path[i] as int] == path[i + 1]
    &&& fat[path.last() as int] == path[back]
}

/// From a cluster of a path that leads back into itself, no budget reaches
/// an end.
pub proof fn lemma_walk_in_loop(fat: Seq<u32>, path: Seq<usize>, back: int, i: int, budget: nat)
    requires
        is_loop(fat, path, back),
        0 <= i < path.len(),
    ensures
        walk(fat, path[i], budget) == Err::<Seq<usize>, _>(ChainError::Cycle),
    decreases budget,
{
    if budget > 1 {
        if i < path.len() - 1 {
            lemma_walk_in_loop(fat, path, back, i + 1, (budget - 1) as nat);
        } else {
            lemma_walk_in_loop(fat, path, back, back, (budget - 1) as nat);
        }
    }
}

/// A chain that comes back to one of its own clusters is rejected as a
/// cycle.
pub proof fn lemma_cycle_rejected(fat: Seq<u32>, path: Seq<usize>, back: int)
    requires
        is_loop(fat, path, back),
    ensures
        chain_spec(fat, path[0]) == Err::<Seq<usize>, _>(ChainError::Cycle),
{
    lemma_walk_in_loop(fat, path, back, 0, (fat.len() - 2) as nat);
}

/// Two clusters whose entries name each other make a cycle: the chain that
/// starts at either is rejected.
pub proof fn lemma_two_cycle_rejected(fat: Seq<u32>, a: usize, b: usize)
    requires
        is_cluster(fat.len() - 2, a as int),
        is_cluster(fat.len() - 2, b as int),
        is_link(fat.len() - 2, fat[a as int]),
        is_link(fat.len() - 2, fat[b as int]),
        fat[a as int] == b,
        fat[b as int] == a,
    ensures
        chain_spec(fat, a) == Err::<Seq<usize>, _>(ChainError::Cycle),
        chain_spec(fat, b) == Err::<Seq<usize>, _>(ChainError::Cycle),
{
    assert(is_loop(fat, seq![a, b], 0));
    lemma_cycle_rejected(fat, seq![a, b], 0);
    assert(is_loop(fat, seq![b, a], 0));
    lemma_cycle_rejected(fat, seq![b, a], 0);
}

/// In a chain, the clusters from two places with the same cluster on are the
/// same.
proof fn lemma_chain_repeats(fat: Seq<u32>, chain: Seq<usize>, i: int, j: int, k: int)
    requires
        is_chain(fat, chain),
        0 <= i < j,
        0 <= k,
        j + k < chain.len(),
        chain[i] == chain[j],
    ensures
        chain[i + k] == chain[j + k],
    decreases k,
{
    if k > 0 {
        lemma_chain_repeats(fat, chain, i, j, k - 1);
        assert(fat[chain[i + k - 1] as int] == chain[i + k - 1 + 1]);
        assert(fat[chain[j + k - 1] as int] == chain[j + k - 1 + 1]);
    }
}

/// No cluster occurs twice in a chain.
pub proof fn lemma_chain_distinct(fat: Seq<u32>, chain: Seq<usize>)
    requires
        is_chain(fat, chain),
    ensures
        chain.no_duplicates(),
{
    assert forall|i: int, j: int| 0 <= i < chain.len() && 0 <= j < chain.len() && i != j implies chain[i]
        != chain[j] by {
        if chain[i] == chain[j] {
            let (lo, hi) = if i < j {
                (i, j)
            } else {
                (j, i)
            };
            let k = chain.len() - 1 - hi;
            lemma_chain_repeats(fat, chain, lo, hi, k);
            assert(chain[lo + k] == chain.last());
            assert(is_link(fat.len() - 2, fat[chain[lo + k] as int]));
        }
    }
}

/// A chain has at most as many clusters as the heap.
pub proof fn lemma_chain_fits(fat: Seq<u32>, chain: Seq<usize>)
    requires
        is_chain(fat, chain),
    ensures
        chain.len() <= fat.len() - 2,
{
    lemma_chain_distinct(fat, chain);
    let indices = chain.map_values(|c: usize| c as int);
    assert forall|i: int, j: int|
        0 <= i < indices.len() && 0 <= j < indices.len() && i != j implies indices[i]
        != indices[j] by {
        assert(chain[i] != chain[j]);
    }
    indices.unique_seq_to_set();
    let clusters = vstd::set_lib::set_int_range(2, fat.len() as int);
    vstd::set_lib::lemma_int_range(2, fat.len() as int);
    assert forall|c: int| indices.to_set().contains(c) implies clusters.contains(c) by {
        let i = choose|i: int| 0 <= i < indices.len() && indices[i] == c;
        assert(is_cluster(fat.len() - 2, chain[i] as int));
    }
    vstd::set_lib::lemma_len_subset(indices.to_set(), clusters);
}

/// With a budget of at least its length, `walk` finds a chain from its first
/// cluster.
proof fn lemma_walk_finds(fat: Seq<u32>, chain: Seq<usize>, budget: nat)
    requires
        is_chain(fat, chain),
        budget >= chain.len(),
    ensures
        walk(fat, chain[0], budget) == Ok::<_, ChainError>(chain),
    decreases chain.len(),
{
    if chain.len() == 1 {
        assert(chain =~= seq![chain[0]]);
    } else {
        let rest = chain.skip(1);
        assert(fat[chain[0] as int] == chain[1]);
        assert forall|i: int| 0 <= i < rest.len() implies is_cluster(
            fat.len() - 2,
            #[trigger] rest[i] as int,
        ) by {
            assert(rest[i] == chain[i + 1]);
        }
        assert forall|i: int| 0 <= i < rest.len() - 1 implies is_link(
            fat.len() - 2,
            fat[#[trigger] rest[i] as int],
        ) && fat[rest[i] as int] == rest[i + 1] by {
            assert(rest[i] == chain[i + 1]);
            assert(rest[i + 1] == chain[i + 1 + 1]);
        }
        assert(rest.last() == chain.last());
        lemma_walk_finds(fat, rest, (budget - 1) as nat);
        assert(seq![chain[0]] + rest =~= chain);
    }
}

/// Every chain of the table is what `chain_spec` gives from its first
/// cluster: the limit on the number of clusters cuts no chain short.
pub proof fn lemma_chain_found(fat: Seq<u32>, chain: Seq<usize>)
    requires
        is_chain(fat, chain),
    ensures
        chain_spec(fat, chain[0]) == Ok::<_, ChainError>(chain),
{
    lemma_chain_fits(fat, chain);
    lemma_walk_finds(fat, chain, (fat.len() - 2) as nat);
}

} // verus!

//! The cluster heap: where in the image each cluster lies.

use crate::fat::is_cluster;
use crate::image::{range_of, read_at};
use crate::param::{lemma_geometry_bounds, Params};
use vstd::prelude::*;

verus! {

impl Params {
    /// Size of a cluster in bytes.
    pub open spec fn spec_cluster_size(&self) -> int {
        self.sectors_per_cluster * self.bytes_per_sector
    }

    /// Size of a cluster in bytes: at least 512, at most 32 MiB.
    pub fn cluster_size(&self) -> (r: u64)
        requires
            self.wf(),
        ensures
            r == self.spec_cluster_size(),
            512 <= r <= 0x200_0000,
    {
        proof {
            lemma_geometry_bounds(*self);
        }
        self.sectors_per_cluster * self.bytes_per_sector
    }

    /// Offset in bytes of the cluster with index `cluster`. The heap starts
    /// with cluster 2.
    pub open spec fn spec_cluster_offset(&self, cluster: int) -> int {
        (self.cluster_heap_offset + (cluster - 2) * self.sectors_per_cluster)
            * self.bytes_per_sector
    }

    /// Offset in bytes of the cluster with index `cluster`, which must be one
    /// of the clusters of the heap.
    pub fn cluster_offset(&self, cluster: usize) -> (r: u64)
        requires
            self.wf(),
            is_cluster(self.cluster_count as int, cluster as int),
        ensures
            r == self.spec_cluster_offset(cluster as int),
    {
        proof {
            lemma_geometry_bounds(*self);
            lemma_cluster_offset_fits(*self, cluster as int);
        }
        let sector: u64 = self.cluster_heap_offset + (cluster as u64 - 2)
            * self.sectors_per_cluster;
        sector * self.bytes_per_sector
    }
}

/// The bytes of the cluster with index `cluster`, where the image holds all
/// of them.
pub open spec fn cluster_spec(params: Params, image: Seq<u8>, cluster: int) -> Option<Seq<u8>> {
    range_of(image, params.spec_cluster_offset(cluster), params.spec_cluster_size())
}

/// Reads the cluster with index `cluster`, which must be one of the clusters
/// of the heap. The read fails where the cluster lies beyond the end of the
/// image.
pub fn read_cluster<'a>(params: &Params, image: &'a [u8], cluster: usize) -> (r: Option<&'a [u8]>)
    requires
        params.wf(),
        is_cluster(params.cluster_count as int, cluster as int),
    ensures
        match r {
            Some(bytes) => cluster_spec(*params, image@, cluster as int) == Some(bytes@),
            None => cluster_spec(*params, image@, cluster as int) is None,
        },
{
    read_at(image, params.cluster_offset(cluster), params.cluster_size())
}

/// The offset of every cluster of the heap fits in 64 bits.
pub proof fn lemma_cluster_offset_fits(p: Params, cluster: int)
    requires
        p.wf(),
        is_cluster(p.cluster_count as int, cluster),
    ensures
        0 <= (cluster - 2) * p.sectors_per_cluster <= 0xFFFF_FFFF * 0x1_0000,
        0 <= p.cluster_heap_offset + (cluster - 2) * p.sectors_per_cluster <= 0x1_0000_FFFF_0000,
        0 <= p.spec_cluster_offset(cluster) <= 0x1_0000_FFFF_0000 * 0x1000,
{
    lemma_geometry_bounds(p);
    let n = cluster - 2;
    let spc = p.sectors_per_cluster as int;
    let bps = p.bytes_per_sector as int;
    assert(0 <= n * spc <= 0xFFFF_FFFF * 0x1_0000) by (nonlinear_arith)
        requires
            0 <= n <= 0xFFFF_FFFF,
            0 <= spc <= 0x1_0000,
    ;
    let sector = p.cluster_heap_offset + n * spc;
    assert(0 <= sector * bps <= 0x1_0000_FFFF_0000 * 0x1000) by (nonlinear_arith)
        requires
            0 <= sector <= 0x1_0000_FFFF_0000,
            0 <= bps <= 0x1000,
    ;
}

} // verus!

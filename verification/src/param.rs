//! The geometry of a volume, as the main boot sector declares it.

use crate::mem::{
    le16, le32, lemma_le16_put, lemma_le32_put, put_le, read_u16_le, read_u32_le, read_u8,
    write_u16_le, write_u32_le,
};
use crate::OpenError;
use vstd::arithmetic::power2::pow2;
use vstd::prelude::*;

verus! {

/// Length of the main boot sector in bytes.
pub const BOOT_SECTOR_SIZE: usize = 512;

/// The volume flags of the boot sector.
#[derive(Debug, Clone, Copy, PartialEq, Eq)]
pub struct VolumeFlags(pub u16);

impl VolumeFlags {
    /// Index of the FAT, and of the allocation bitmap, that is in use: the
    /// lowest bit of the flags.
    pub open spec fn spec_active_fat(self) -> usize {
        (self.0 % 2) as usize
    }

    /// Index of the FAT, and of the allocation bitmap, that is in use.
    #[verifier::when_used_as_spec(spec_active_fat)]
    pub fn active_fat(self) -> (r: usize)
        ensures
            r == self.spec_active_fat(),
    {
        (self.0 % 2) as usize
    }
}

/// The geometry of a volume. Offsets and lengths of regions count sectors.
#[derive(Debug, Clone, Copy, PartialEq, Eq)]
pub struct Params {
    /// First sector of the first FAT.
    pub fat_offset: u64,
    /// Number of sectors of each FAT.
    pub fat_length: u64,
    /// First sector of the cluster heap, where cluster 2 starts.
    pub cluster_heap_offset: u64,
    /// Number of clusters in the heap; they have the indices from 2 to
    /// `cluster_count + 1`.
    pub cluster_count: usize,
    /// Index of the first cluster of the root directory.
    pub first_cluster_of_root_directory: usize,
    /// The volume flags.
    pub volume_flags: VolumeFlags,
    /// Sector size in bytes, a power of two from 512 to 4096.
    pub bytes_per_sector: u64,
    /// Cluster size in sectors, a power of two; a cluster has at most 32 MiB.
    pub sectors_per_cluster: u64,
    /// Number of FATs, 1 or 2.
    pub number_of_fats: u8,
}

/// The number of times that `v` can be halved before it reaches 1: the
/// exponent of `v` where `v` is a power of two.
pub open spec fn shift_of(v: nat) -> nat
    decreases v,
{
    if v <= 1 {
        0
    } else {
        1 + shift_of(v / 2)
    }
}

/// The bytes from 3 to 10 spell `EXFAT` and three spaces.
pub open spec fn has_signature(b: Seq<u8>) -> bool {
    &&& b[3] == 0x45
    &&& b[4] == 0x58
    &&& b[5] == 0x46
    &&& b[6] == 0x41
    &&& b[7] == 0x54
    &&& b[8] == 0x20
    &&& b[9] == 0x20
    &&& b[10] == 0x20
}

/// The bytes from 11 to 63 are all zero.
pub open spec fn reserved_is_zero(b: Seq<u8>) -> bool {
    forall|i: int| 11 <= i < 64 ==> b[i] == 0
}

impl Params {
    /// What every geometry that comes out of a boot sector satisfies.
    pub open spec fn wf(&self) -> bool {
        &&& self.fat_offset <= u32::MAX
        &&& self.fat_length <= u32::MAX
        &&& self.cluster_heap_offset <= u32::MAX
        &&& self.cluster_count <= u32::MAX
        &&& self.first_cluster_of_root_directory <= u32::MAX
        &&& 9 <= shift_of(self.bytes_per_sector as nat) <= 12
        &&& self.bytes_per_sector == pow2(shift_of(self.bytes_per_sector as nat))
        &&& shift_of(self.sectors_per_cluster as nat) + shift_of(self.bytes_per_sector as nat)
            <= 25
        &&& self.sectors_per_cluster == pow2(shift_of(self.sectors_per_cluster as nat))
        &&& 1 <= self.number_of_fats <= 2
    }

    /// The geometry that the boot sector `b` declares, or the first check
    /// that `b` fails.
    pub open spec fn parse_spec(b: Seq<u8>) -> Result<Params, OpenError> {
        if !has_signature(b) || !reserved_is_zero(b) {
            Err(OpenError::NotExFat)
        } else if !(9 <= b[108] <= 12) {
            Err(OpenError::InvalidBytesPerSectorShift)
        } else if b[109] > 25 - b[108] {
            Err(OpenError::InvalidSectorsPerClusterShift)
        } else if b[110] != 1 && b[110] != 2 {
            Err(OpenError::InvalidNumberOfFats)
        } else {
            Ok(
                Params {
                    fat_offset: le32(b, 80) as u64,
                    fat_length: le32(b, 84) as u64,
                    cluster_heap_offset: le32(b, 88) as u64,
                    cluster_count: le32(b, 92) as usize,
                    first_cluster_of_root_directory: le32(b, 96) as usize,
                    volume_flags: VolumeFlags(le16(b, 106) as u16),
                    bytes_per_sector: pow2(b[108] as nat) as u64,
                    sectors_per_cluster: pow2(b[109] as nat) as u64,
                    number_of_fats: b[110],
                },
            )
        }
    }

    /// Decodes the main boot sector of a volume.
    pub fn parse(boot: &[u8]) -> (r: Result<Params, OpenError>)
        requires
            boot.len() == BOOT_SECTOR_SIZE,
        ensures
            r == Params::parse_spec(boot@),
            r matches Ok(p) ==> p.wf(),
    {
        if boot[3] != 0x45 || boot[4] != 0x58 || boot[5] != 0x46 || boot[6] != 0x41 || boot[7]
            != 0x54 || boot[8] != 0x20 || boot[9] != 0x20 || boot[10] != 0x20 {
            return Err(OpenError::NotExFat);
        }
        let mut i: usize = 11;
        while i < 64
            invariant
                11 <= i <= 64,
                boot.len() == BOOT_SECTOR_SIZE,
                forall|j: int| 11 <= j < i ==> boot@[j] == 0,
            decreases 64 - i,
        {
            if boot[i] != 0 {
                return Err(OpenError::NotExFat);
            }
            i += 1;
        }
        let sector_shift = read_u8(boot, 108);
        if sector_shift < 9 || sector_shift > 12 {
            return Err(OpenError::InvalidBytesPerSectorShift);
        }
        let cluster_shift = read_u8(boot, 109);
        if cluster_shift > 25 - sector_shift {
            return Err(OpenError::InvalidSectorsPerClusterShift);
        }
        let number_of_fats = read_u8(boot, 110);
        if number_of_fats != 1 && number_of_fats != 2 {
            return Err(OpenError::InvalidNumberOfFats);
        }
        proof {
            lemma_shift_of_pow2(sector_shift as nat);
            lemma_shift_of_pow2(cluster_shift as nat);
            lemma_pow2_fits(sector_shift as nat);
            lemma_pow2_fits(cluster_shift as nat);
            vstd::bits::lemma_u64_shl_is_mul(1, sector_shift as u64);
            vstd::bits::lemma_u64_shl_is_mul(1, cluster_shift as u64);
        }
        Ok(
            Params {
                fat_offset: read_u32_le(boot, 80) as u64,
                fat_length: read_u32_le(boot, 84) as u64,
                cluster_heap_offset: read_u32_le(boot, 88) as u64,
                cluster_count: read_u32_le(boot, 92) as usize,
                first_cluster_of_root_directory: read_u32_le(boot, 96) as usize,
                volume_flags: VolumeFlags(read_u16_le(boot, 106)),
                bytes_per_sector: 1u64 << sector_shift,
                sectors_per_cluster: 1u64 << cluster_shift,
                number_of_fats,
            },
        )
    }
}

/// The boot sector with the signature and nothing else.
pub open spec fn blank_boot_sector() -> Seq<u8> {
    Seq::new(
        BOOT_SECTOR_SIZE as nat,
        |i: int|
            if i == 3 {
                0x45u8
            } else if i == 4 {
                0x58u8
            } else if i == 5 {
                0x46u8
            } else if i == 6 {
                0x41u8
            } else if i == 7 {
                0x54u8
            } else if 8 <= i <= 10 {
                0x20u8
            } else {
                0u8
            },
    )
}

/// Computes the exponent of a power of two.
fn shift(v: u64) -> (r: u8)
    requires
        shift_of(v as nat) <= 25,
    ensures
        r == shift_of(v as nat),
{
    let mut r: u8 = 0;
    let mut rest: u64 = v;
    while rest > 1
        invariant
            r + shift_of(rest as nat) == shift_of(v as nat),
            shift_of(v as nat) <= 25,
        decreases rest,
    {
        rest = rest / 2;
        r += 1;
    }
    r
}

impl Params {
    /// The boot sector that declares this geometry: the signature, the fields
    /// of the geometry at their offsets, and zero everywhere else.
    pub open spec fn boot_sector_spec(&self) -> Seq<u8> {
        let b = blank_boot_sector();
        let b = put_le(b, 80, self.fat_offset as nat, 4);
        let b = put_le(b, 84, self.fat_length as nat, 4);
        let b = put_le(b, 88, self.cluster_heap_offset as nat, 4);
        let b = put_le(b, 92, self.cluster_count as nat, 4);
        let b = put_le(b, 96, self.first_cluster_of_root_directory as nat, 4);
        let b = put_le(b, 106, self.volume_flags.0 as nat, 2);
        b.update(108, shift_of(self.bytes_per_sector as nat) as u8).update(
            109,
            shift_of(self.sectors_per_cluster as nat) as u8,
        ).update(110, self.number_of_fats)
    }

    /// Encodes the geometry as a boot sector. Decoding the result gives the
    /// geometry back.
    pub fn to_boot_sector(&self) -> (r: [u8; 512])
        requires
            self.wf(),
        ensures
            r@ == self.boot_sector_spec(),
            Params::parse_spec(r@) == Ok::<_, OpenError>(*self),
    {
        let mut boot: [u8; 512] = [0u8; 512];
        boot[3] = 0x45;
        boot[4] = 0x58;
        boot[5] = 0x46;
        boot[6] = 0x41;
        boot[7] = 0x54;
        boot[8] = 0x20;
        boot[9] = 0x20;
        boot[10] = 0x20;
        assert(boot@ =~= blank_boot_sector());
        write_u32_le(&mut boot, 80, self.fat_offset as u32);
        write_u32_le(&mut boot, 84, self.fat_length as u32);
        write_u32_le(&mut boot, 88, self.cluster_heap_offset as u32);
        write_u32_le(&mut boot, 92, self.cluster_count as u32);
        write_u32_le(&mut boot, 96, self.first_cluster_of_root_directory as u32);
        write_u16_le(&mut boot, 106, self.volume_flags.0);
        boot[108] = shift(self.bytes_per_sector);
        boot[109] = shift(self.sectors_per_cluster);
        boot[110] = self.number_of_fats;
        proof {
            lemma_boot_sector_round_trip(*self);
        }
        boot
    }
}

/// Every geometry that is decoded from a boot sector is well formed.
pub proof fn lemma_parsed_wf(b: Seq<u8>)
    requires
        Params::parse_spec(b) is Ok,
    ensures
        Params::parse_spec(b).unwrap().wf(),
{
    lemma_shift_of_pow2(b[108] as nat);
    lemma_shift_of_pow2(b[109] as nat);
    lemma_pow2_fits(b[108] as nat);
    lemma_pow2_fits(b[109] as nat);
}

/// Decoding the boot sector that declares a geometry gives that geometry.
pub proof fn lemma_boot_sector_round_trip(p: Params)
    requires
        p.wf(),
    ensures
        Params::parse_spec(p.boot_sector_spec()) == Ok::<_, OpenError>(p),
{
    let b0 = blank_boot_sector();
    let b1 = put_le(b0, 80, p.fat_offset as nat, 4);
    let b2 = put_le(b1, 84, p.fat_length as nat, 4);
    let b3 = put_le(b2, 88, p.cluster_heap_offset as nat, 4);
    let b4 = put_le(b3, 92, p.cluster_count as nat, 4);
    let b5 = put_le(b4, 96, p.first_cluster_of_root_directory as nat, 4);
    let b6 = put_le(b5, 106, p.volume_flags.0 as nat, 2);
    let b = p.boot_sector_spec();
    lemma_le32_put(b0, 80, p.fat_offset as nat);
    lemma_le32_put(b1, 84, p.fat_length as nat);
    lemma_le32_put(b2, 88, p.cluster_heap_offset as nat);
    lemma_le32_put(b3, 92, p.cluster_count as nat);
    lemma_le32_put(b4, 96, p.first_cluster_of_root_directory as nat);
    lemma_le16_put(b5, 106, p.volume_flags.0 as nat);
    assert(le32(b, 80) == le32(b1, 80));
    assert(le32(b, 84) == le32(b2, 84));
    assert(le32(b, 88) == le32(b3, 88));
    assert(le32(b, 92) == le32(b4, 92));
    assert(le32(b, 96) == le32(b5, 96));
    assert(le16(b, 106) == le16(b6, 106));
    assert(has_signature(b));
    assert(reserved_is_zero(b));
}

/// A boot sector with a byte of the reserved region that is not zero is not
/// accepted as exFAT, whatever else it holds.
pub proof fn lemma_reserved_byte_rejected(b: Seq<u8>, i: int)
    requires
        11 <= i < 64,
        b[i] != 0,
    ensures
        Params::parse_spec(b) == Err::<Params, _>(OpenError::NotExFat),
{
}

/// A boot sector with the signature and a zero reserved region is rejected
/// for its sector size exactly where the shift is below 9 or above 12.
pub proof fn lemma_sector_shift_bounds(b: Seq<u8>)
    requires
        has_signature(b),
        reserved_is_zero(b),
    ensures
        Params::parse_spec(b) == Err::<Params, _>(OpenError::InvalidBytesPerSectorShift) <==> b[108]
            < 9 || b[108] > 12,
{
}

/// With a valid sector shift and number of FATs, the largest cluster shift
/// that is accepted is 25 less the sector shift: the next one is rejected.
pub proof fn lemma_cluster_shift_bound(b: Seq<u8>)
    requires
        has_signature(b),
        reserved_is_zero(b),
        9 <= b[108] <= 12,
        b[110] == 1 || b[110] == 2,
    ensures
        b[109] == 25 - b[108] ==> Params::parse_spec(b) is Ok,
        b[109] == 26 - b[108] ==> Params::parse_spec(b) == Err::<Params, _>(
            OpenError::InvalidSectorsPerClusterShift,
        ),
        Params::parse_spec(b) is Ok <==> b[109] <= 25 - b[108],
{
}

/// Halving a power of two as often as its exponent says gives 1.
pub proof fn lemma_shift_of_pow2(k: nat)
    ensures
        shift_of(pow2(k)) == k,
    decreases k,
{
    vstd::arithmetic::power2::lemma_pow2_pos(k);
    if k > 0 {
        vstd::arithmetic::power2::lemma_pow2_unfold(k);
        lemma_shift_of_pow2((k - 1) as nat);
        assert(pow2(k) / 2 == pow2((k - 1) as nat));
    } else {
        vstd::arithmetic::power2::lemma2_to64();
    }
}

/// A power of two with an exponent of at most 25 is at most 32 Mi.
pub proof fn lemma_pow2_fits(k: nat)
    requires
        k <= 25,
    ensures
        0 < pow2(k) <= 0x200_0000,
{
    vstd::arithmetic::power2::lemma2_to64();
    vstd::arithmetic::power2::lemma_pow2_pos(k);
    if k < 25 {
        vstd::arithmetic::power2::lemma_pow2_strictly_increases(k, 25);
    }
}

/// The sizes of a geometry in numbers: a sector has 512 to 4096 bytes, and a
/// cluster has at least one sector and at most 32 MiB.
pub proof fn lemma_geometry_bounds(p: Params)
    requires
        p.wf(),
    ensures
        512 <= p.bytes_per_sector <= 4096,
        1 <= p.sectors_per_cluster <= 0x1_0000,
        p.bytes_per_sector % 4 == 0,
        p.sectors_per_cluster * p.bytes_per_sector == pow2(
            shift_of(p.sectors_per_cluster as nat) + shift_of(p.bytes_per_sector as nat),
        ),
        512 <= p.sectors_per_cluster * p.bytes_per_sector <= 0x200_0000,
{
    let s = shift_of(p.bytes_per_sector as nat);
    let c = shift_of(p.sectors_per_cluster as nat);
    vstd::arithmetic::power2::lemma2_to64();
    vstd::arithmetic::power2::lemma_pow2_adds(c, s);
    lemma_pow2_fits(c + s);
    lemma_pow2_fits(c);
    assert(p.bytes_per_sector == 512 || p.bytes_per_sector == 1024 || p.bytes_per_sector == 2048
        || p.bytes_per_sector == 4096);
    if c < 16 {
        vstd::arithmetic::power2::lemma_pow2_strictly_increases(c, 16);
    }
    if c + s > 9 {
        vstd::arithmetic::power2::lemma_pow2_strictly_increases(9, c + s);
    }
}

} // verus!

//! Directory streams: sequences of 32-byte entries grouped into entry sets.
//!
//! The stream of a directory is the content of the clusters of its chain, one
//! after the other. An entry set is a primary entry and the secondary entries
//! that follow it. The allocation bitmap, the up-case table and the volume
//! label are primary entries without secondaries and without a checksum;
//! every other primary entry gives the number of its secondaries in byte 1
//! and the checksum of its set in the bytes 2 and 3.

use crate::cluster::{cluster_spec, read_cluster};
use crate::fat::{chain_spec, is_cluster, lemma_chain_linked, ChainError, Fat};
use crate::mem::{le16, le32, le64, read_u16_le, read_u32_le, read_u64_le};
use crate::param::Params;
use crate::text::{decimal, numbered};
use crate::utf16::{decode_spec, string_from_utf16};
use vstd::prelude::*;
use vstd::slice::slice_subrange;
use vstd::string::StringExecFns;

verus! {

/// Size of a directory entry in bytes.
pub const ENTRY_SIZE: usize = 32;

/// Type of the entry that describes an allocation bitmap.
pub const ALLOCATION_BITMAP: u8 = 0x81;

/// Type of the entry that describes the up-case table.
pub const UPCASE_TABLE: u8 = 0x82;

/// Type of the entry that holds the volume label.
pub const VOLUME_LABEL: u8 = 0x83;

/// Largest number of code units in a volume label.
pub const MAX_LABEL_UNITS: u8 = 11;

/// Why a directory could not be loaded.
#[derive(Debug, Clone, Copy, PartialEq, Eq)]
pub enum LoadEntriesError {
    /// The directory's cluster chain is corrupt.
    InvalidChain(ChainError),
    /// The cluster with this index lies outside the image.
    ReadClusterFailed(usize),
    /// The entry set that starts at this entry does not have the entries
    /// that its primary entry announces.
    MalformedEntrySet(usize),
    /// The entry set that starts at this entry does not match its checksum.
    ChecksumMismatch(usize),
    /// The volume label at this entry is too long or is not valid UTF-16.
    InvalidVolumeLabel(usize),
}

impl LoadEntriesError {
    /// The message of the error.
    pub open spec fn message(&self) -> Seq<char> {
        match self {
            LoadEntriesError::InvalidChain(_) => "cannot follow cluster chain"@,
            LoadEntriesError::ReadClusterFailed(cluster) => "cannot read cluster #"@ + decimal(
                *cluster as nat,
            ),
            LoadEntriesError::MalformedEntrySet(slot) => "malformed entry set at entry #"@
                + decimal(*slot as nat),
            LoadEntriesError::ChecksumMismatch(slot) => "invalid checksum of entry set at entry #"@
                + decimal(*slot as nat),
            LoadEntriesError::InvalidVolumeLabel(slot) => "invalid volume label at entry #"@
                + decimal(*slot as nat),
        }
    }

    /// The message of the error.
    pub fn to_string(&self) -> (r: String)
        ensures
            r@ == self.message(),
    {
        match self {
            LoadEntriesError::InvalidChain(_) => String::from_str("cannot follow cluster chain"),
            LoadEntriesError::ReadClusterFailed(cluster) => numbered(
                "cannot read cluster #",
                *cluster,
            ),
            LoadEntriesError::MalformedEntrySet(slot) => numbered(
                "malformed entry set at entry #",
                *slot,
            ),
            LoadEntriesError::ChecksumMismatch(slot) => numbered(
                "invalid checksum of entry set at entry #",
                *slot,
            ),
            LoadEntriesError::InvalidVolumeLabel(slot) => numbered(
                "invalid volume label at entry #",
                *slot,
            ),
        }
    }
}

/// Where a stream lies in the cluster heap.
#[derive(Debug, Clone, Copy, PartialEq, Eq)]
pub struct ClusterAllocation {
    /// Index of the first cluster of the stream.
    pub first_cluster: usize,
    /// Length of the stream in bytes.
    pub data_length: u64,
}

/// Where the up-case table lies, and its checksum.
#[derive(Debug, Clone, Copy, PartialEq, Eq)]
pub struct UpcaseTable {
    /// Checksum of the table.
    pub checksum: u32,
    /// Where the table lies.
    pub allocation: ClusterAllocation,
}

/// What a directory holds besides files: the volume label, the allocation
/// bitmap of each FAT, and the up-case table.
#[derive(Debug)]
pub struct EntrySet {
    /// The volume label, where the directory has one that is not empty.
    pub volume_label: Option<String>,
    /// The allocation bitmaps, by the index of the FAT that each belongs to.
    pub allocation_bitmaps: [Option<ClusterAllocation>; 2],
    /// The up-case table.
    pub upcase_table: Option<UpcaseTable>,
}

/// An [`EntrySet`] as a value of mathematics.
pub struct EntrySetView {
    pub volume_label: Option<Seq<char>>,
    pub allocation_bitmaps: Seq<Option<ClusterAllocation>>,
    pub upcase_table: Option<UpcaseTable>,
}

/// The text of a label, if there is one.
pub open spec fn label_view(label: Option<String>) -> Option<Seq<char>> {
    match label {
        Some(text) => Some(text@),
        None => None,
    }
}

impl View for EntrySet {
    type V = EntrySetView;

    open spec fn view(&self) -> EntrySetView {
        EntrySetView {
            volume_label: label_view(self.volume_label),
            allocation_bitmaps: self.allocation_bitmaps@,
            upcase_table: self.upcase_table,
        }
    }
}

/// The directory without a label, a bitmap or an up-case table.
pub open spec fn nothing_found() -> EntrySetView {
    EntrySetView {
        volume_label: None,
        allocation_bitmaps: seq![None, None],
        upcase_table: None,
    }
}

/// The entry is in use: bit 7 of its type is set.
pub open spec fn is_in_use(ty: u8) -> bool {
    ty >= 0x80
}

/// The entry is a secondary entry: bit 6 of its type is set.
pub open spec fn is_secondary(ty: u8) -> bool {
    ty / 0x40 % 2 == 1
}

/// The entry is benign, not critical: bit 5 of its type is set.
pub open spec fn is_benign(ty: u8) -> bool {
    ty / 0x20 % 2 == 1
}

/// The code of the entry among those of its category: the low five bits of
/// its type.
pub open spec fn type_code(ty: u8) -> u8 {
    ty % 0x20
}

/// The type of a directory entry: its first byte.
#[derive(Debug, Clone, Copy, PartialEq, Eq)]
pub struct EntryType(pub u8);

impl EntryType {
    /// Whether the entry is in use.
    pub fn is_in_use(self) -> (r: bool)
        ensures
            r == is_in_use(self.0),
    {
        self.0 >= 0x80
    }

    /// Whether the entry is a secondary entry, not a primary one.
    pub fn is_secondary(self) -> (r: bool)
        ensures
            r == is_secondary(self.0),
    {
        self.0 / 0x40 % 2 == 1
    }

    /// Whether the entry is benign, not critical.
    pub fn is_benign(self) -> (r: bool)
        ensures
            r == is_benign(self.0),
    {
        self.0 / 0x20 % 2 == 1
    }

    /// The code of the entry among those of its category.
    pub fn code(self) -> (r: u8)
        ensures
            r == type_code(self.0),
    {
        self.0 % 0x20
    }
}

/// Number of whole entries in a stream.
pub open spec fn slot_count(stream: Seq<u8>) -> int {
    stream.len() as int / 32
}

/// The bytes of the entry with index `slot`.
pub open spec fn entry_at(stream: Seq<u8>, slot: int) -> Seq<u8> {
    stream.subrange(32 * slot, 32 * slot + 32)
}

/// One step of the checksum: the sum rotated right by one bit, plus the
/// byte, in 16 bits.
pub open spec fn rotate_add(sum: u16, byte: u8) -> u16 {
    (((sum % 2) * 0x8000 + sum / 2 + byte) % 0x1_0000) as u16
}

/// The checksum of the first `n` bytes of an entry set. The bytes 2 and 3,
/// which hold the checksum itself, do not count.
pub open spec fn checksum_of(set: Seq<u8>, n: int) -> u16
    decreases n,
{
    if n <= 0 {
        0
    } else if n - 1 == 2 || n - 1 == 3 {
        checksum_of(set, n - 1)
    } else {
        rotate_add(checksum_of(set, n - 1), set[n - 1])
    }
}

/// The checksum of an entry set.
pub open spec fn set_checksum(set: Seq<u8>) -> u16 {
    checksum_of(set, set.len() as int)
}

/// The code units of the volume label in `entry`: byte 1 gives their number,
/// and they follow from byte 2 on.
pub open spec fn label_units(entry: Seq<u8>) -> Seq<u16> {
    Seq::new(entry[1] as nat, |i: int| le16(entry, 2 + 2 * i) as u16)
}

/// The volume label that `entry` declares: `None` where it is invalid, and
/// no label where it is empty.
pub open spec fn label_spec(entry: Seq<u8>) -> Option<Option<Seq<char>>> {
    if entry[1] > MAX_LABEL_UNITS {
        None
    } else if entry[1] == 0 {
        Some(None)
    } else {
        match decode_spec(label_units(entry)) {
            Some(text) => Some(Some(text)),
            None => None,
        }
    }
}

/// The stream that `entry` locates: the first cluster in the bytes from 20,
/// the length in the bytes from 24.
pub open spec fn allocation_spec(entry: Seq<u8>) -> ClusterAllocation {
    ClusterAllocation {
        first_cluster: le32(entry, 20) as usize,
        data_length: le64(entry, 24) as u64,
    }
}

/// The up-case table that `entry` describes.
pub open spec fn upcase_spec(entry: Seq<u8>) -> UpcaseTable {
    UpcaseTable { checksum: le32(entry, 4) as u32, allocation: allocation_spec(entry) }
}

/// The `count` entries after `slot` are secondary entries in use.
pub open spec fn secondaries_follow(stream: Seq<u8>, slot: int, count: int) -> bool {
    forall|k: int|
        1 <= k <= count ==> is_in_use(#[trigger] stream[32 * (slot + k)]) && is_secondary(
            stream[32 * (slot + k)],
        )
}

/// The bytes of the entry set of `count + 1` entries that starts at `slot`.
pub open spec fn set_at(stream: Seq<u8>, slot: int, count: int) -> Seq<u8> {
    stream.subrange(32 * slot, 32 * (slot + 1 + count))
}

/// What the entries of `stream` from `slot` on add to `found`.
///
/// The listing ends at an entry of type 0 or at the end of the stream. An
/// entry that is not in use is passed over. A later allocation bitmap for the
/// same FAT, up-case table or volume label replaces an earlier one.
pub open spec fn parse_from(stream: Seq<u8>, slot: int, found: EntrySetView) -> Result<
    EntrySetView,
    LoadEntriesError,
>
    decreases slot_count(stream) - slot,
{
    let entry = entry_at(stream, slot);
    let ty = entry[0];
    if slot < 0 || slot >= slot_count(stream) || ty == 0 {
        Ok(found)
    } else if !is_in_use(ty) {
        parse_from(stream, slot + 1, found)
    } else if is_secondary(ty) {
        Err(LoadEntriesError::MalformedEntrySet(slot as usize))
    } else if ty == ALLOCATION_BITMAP {
        parse_from(
            stream,
            slot + 1,
            EntrySetView {
                allocation_bitmaps: found.allocation_bitmaps.update(
                    entry[1] as int % 2,
                    Some(allocation_spec(entry)),
                ),
                ..found
            },
        )
    } else if ty == UPCASE_TABLE {
        parse_from(
            stream,
            slot + 1,
            EntrySetView { upcase_table: Some(upcase_spec(entry)), ..found },
        )
    } else if ty == VOLUME_LABEL {
        match label_spec(entry) {
            Some(label) => parse_from(
                stream,
                slot + 1,
                EntrySetView { volume_label: label, ..found },
            ),
            None => Err(LoadEntriesError::InvalidVolumeLabel(slot as usize)),
        }
    } else {
        let count = entry[1] as int;
        if slot + 1 + count > slot_count(stream) || !secondaries_follow(stream, slot, count) {
            Err(LoadEntriesError::MalformedEntrySet(slot as usize))
        } else if set_checksum(set_at(stream, slot, count)) != le16(entry, 2) {
            Err(LoadEntriesError::ChecksumMismatch(slot as usize))
        } else {
            parse_from(stream, slot + 1 + count, found)
        }
    }
}

/// What the directory with the stream `stream` holds.
pub open spec fn parse_spec(stream: Seq<u8>) -> Result<EntrySetView, LoadEntriesError> {
    parse_from(stream, 0, nothing_found())
}

/// The content of the clusters of `chain`, one after the other.
pub open spec fn stream_spec(params: Params, image: Seq<u8>, chain: Seq<usize>) -> Result<
    Seq<u8>,
    LoadEntriesError,
>
    decreases chain.len(),
{
    if chain.len() == 0 {
        Ok(Seq::empty())
    } else {
        match stream_spec(params, image, chain.drop_last()) {
            Err(e) => Err(e),
            Ok(head) => match cluster_spec(params, image, chain.last() as int) {
                Some(bytes) => Ok(head + bytes),
                None => Err(LoadEntriesError::ReadClusterFailed(chain.last())),
            },
        }
    }
}

/// What the directory whose stream starts at cluster `first` holds.
pub open spec fn load_spec(params: Params, fat: Seq<u32>, image: Seq<u8>, first: usize) -> Result<
    EntrySetView,
    LoadEntriesError,
> {
    match chain_spec(fat, first) {
        Err(e) => Err(LoadEntriesError::InvalidChain(e)),
        Ok(chain) => match stream_spec(params, image, chain) {
            Err(e) => Err(e),
            Ok(stream) => parse_spec(stream),
        },
    }
}

/// Computes the checksum of an entry set.
pub fn entry_set_checksum(set: &[u8]) -> (r: u16)
    ensures
        r == set_checksum(set@),
{
    let mut sum: u16 = 0;
    let mut i: usize = 0;
    while i < set.len()
        invariant
            i <= set.len(),
            sum == checksum_of(set@, i as int),
        decreases set.len() - i,
    {
        if i != 2 && i != 3 {
            let rotated: u32 = (sum % 2) as u32 * 0x8000 + (sum / 2) as u32;
            sum = ((rotated + set[i] as u32) % 0x1_0000) as u16;
        }
        i += 1;
    }
    sum
}

/// Decodes the volume label of a volume label entry.
fn read_label(entry: &[u8]) -> (r: Option<Option<String>>)
    requires
        entry.len() == ENTRY_SIZE,
    ensures
        match r {
            Some(label) => label_spec(entry@) == Some(label_view(label)),
            None => label_spec(entry@) is None,
        },
{
    let count: u8 = entry[1];
    if count > MAX_LABEL_UNITS {
        return None;
    }
    if count == 0 {
        return Some(None);
    }
    let mut units: Vec<u16> = Vec::new();
    let mut i: usize = 0;
    while i < count as usize
        invariant
            i <= count <= MAX_LABEL_UNITS,
            entry.len() == ENTRY_SIZE,
            units@.len() == i,
            forall|j: int| 0 <= j < i ==> units@[j] == le16(entry@, 2 + 2 * j) as u16,
        decreases count - i,
    {
        units.push(read_u16_le(entry, 2 + 2 * i));
        i += 1;
    }
    assert(units@ =~= label_units(entry@));
    match string_from_utf16(units.as_slice()) {
        Some(text) => Some(Some(text)),
        None => None,
    }
}

/// Decodes the location of a stream from a primary entry.
fn read_allocation(entry: &[u8]) -> (r: ClusterAllocation)
    requires
        entry.len() == ENTRY_SIZE,
    ensures
        r == allocation_spec(entry@),
{
    ClusterAllocation {
        first_cluster: read_u32_le(entry, 20) as usize,
        data_length: read_u64_le(entry, 24),
    }
}

/// Checks that the `count` entries after `slot` are secondary entries in use.
fn check_secondaries(stream: &[u8], slot: usize, count: usize) -> (r: bool)
    requires
        slot + 1 + count <= slot_count(stream@),
    ensures
        r == secondaries_follow(stream@, slot as int, count as int),
{
    let mut k: usize = 1;
    while k <= count
        invariant
            1 <= k <= count + 1,
            slot + 1 + count <= slot_count(stream@),
            stream@.len() == stream.len(),
            secondaries_follow(stream@, slot as int, k - 1),
        decreases count + 1 - k,
    {
        let ty = EntryType(stream[ENTRY_SIZE * (slot + k)]);
        if !ty.is_in_use() || !ty.is_secondary() {
            return false;
        }
        k += 1;
    }
    true
}

impl EntrySet {
    /// Decodes the stream of a directory.
    pub fn parse(stream: &[u8]) -> (r: Result<EntrySet, LoadEntriesError>)
        ensures
            match r {
                Ok(set) => parse_spec(stream@) == Ok::<_, LoadEntriesError>(set@),
                Err(e) => parse_spec(stream@) == Err::<EntrySetView, _>(e),
            },
    {
        let slots: usize = stream.len() / ENTRY_SIZE;
        let mut volume_label: Option<String> = None;
        let mut allocation_bitmaps: [Option<ClusterAllocation>; 2] = [None, None];
        let mut upcase_table: Option<UpcaseTable> = None;
        let mut slot: usize = 0;
        assert(allocation_bitmaps@ =~= nothing_found().allocation_bitmaps);
        while slot < slots
            invariant
                slot <= slots,
                slots == slot_count(stream@),
                stream@.len() == stream.len(),
                parse_spec(stream@) == parse_from(
                    stream@,
                    slot as int,
                    (EntrySet { volume_label, allocation_bitmaps, upcase_table })@,
                ),
            decreases slots - slot,
        {
            let entry = slice_subrange(stream, ENTRY_SIZE * slot, ENTRY_SIZE * slot + ENTRY_SIZE);
            let ty = EntryType(entry[0]);
            if ty.0 == 0 {
                return Ok(EntrySet { volume_label, allocation_bitmaps, upcase_table });
            }
            if !ty.is_in_use() {
                slot += 1;
            } else if ty.is_secondary() {
                return Err(LoadEntriesError::MalformedEntrySet(slot));
            } else if ty.0 == ALLOCATION_BITMAP {
                let index: usize = (entry[1] % 2) as usize;
                allocation_bitmaps[index] = Some(read_allocation(entry));
                slot += 1;
            } else if ty.0 == UPCASE_TABLE {
                upcase_table =
                Some(
                    UpcaseTable {
                        checksum: read_u32_le(entry, 4),
                        allocation: read_allocation(entry),
                    },
                );
                slot += 1;
            } else if ty.0 == VOLUME_LABEL {
                match read_label(entry) {
                    Some(label) => {
                        volume_label = label;
                    },
                    None => {
                        return Err(LoadEntriesError::InvalidVolumeLabel(slot));
                    },
                }
                slot += 1;
            } else {
                let count: usize = entry[1] as usize;
                if count > slots - slot - 1 || !check_secondaries(stream, slot, count) {
                    return Err(LoadEntriesError::MalformedEntrySet(slot));
                }
                let set = slice_subrange(
                    stream,
                    ENTRY_SIZE * slot,
                    ENTRY_SIZE * (slot + 1 + count),
                );
                if entry_set_checksum(set) != read_u16_le(entry, 2) {
                    return Err(LoadEntriesError::ChecksumMismatch(slot));
                }
                slot += 1 + count;
            }
        }
        Ok(EntrySet { volume_label, allocation_bitmaps, upcase_table })
    }

    /// Loads the directory whose stream starts at cluster `first`: follows
    /// the chain of `first`, reads its clusters and decodes the entries.
    pub fn load(params: &Params, fat: &Fat, image: &[u8], first: usize) -> (r: Result<
        EntrySet,
        LoadEntriesError,
    >)
        requires
            params.wf(),
            fat.spec_cluster_count() == params.cluster_count,
        ensures
            match r {
                Ok(set) => load_spec(*params, fat@, image@, first) == Ok::<_, LoadEntriesError>(
                    set@,
                ),
                Err(e) => load_spec(*params, fat@, image@, first) == Err::<EntrySetView, _>(e),
            },
    {
        let chain = match fat.get_cluster_chain(first) {
            Ok(chain) => chain,
            Err(e) => {
                return Err(LoadEntriesError::InvalidChain(e));
            },
        };
        proof {
            lemma_chain_linked(fat@, first);
        }
        let stream = match read_stream(params, image, chain.as_slice()) {
            Ok(stream) => stream,
            Err(e) => {
                return Err(e);
            },
        };
        EntrySet::parse(stream.as_slice())
    }
}

/// Reads the clusters of `chain`, one after the other.
pub fn read_stream(params: &Params, image: &[u8], chain: &[usize]) -> (r: Result<
    Vec<u8>,
    LoadEntriesError,
>)
    requires
        params.wf(),
        forall|i: int|
            0 <= i < chain@.len() ==> is_cluster(params.cluster_count as int, #[trigger] chain@[i] as int),
    ensures
        match r {
            Ok(stream) => stream_spec(*params, image@, chain@) == Ok::<_, LoadEntriesError>(
                stream@,
            ),
            Err(e) => stream_spec(*params, image@, chain@) == Err::<Seq<u8>, _>(e),
        },
{
    let mut stream: Vec<u8> = Vec::new();
    let mut i: usize = 0;
    assert(chain@.take(0) =~= Seq::<usize>::empty());
    while i < chain.len()
        invariant
            i <= chain.len(),
            chain@.len() == chain.len(),
            params.wf(),
            forall|i: int|
                0 <= i < chain@.len() ==> is_cluster(
                    params.cluster_count as int,
                    #[trigger] chain@[i] as int,
                ),
            stream_spec(*params, image@, chain@.take(i as int)) == Ok::<_, LoadEntriesError>(
                stream@,
            ),
        decreases chain.len() - i,
    {
        let ghost before = stream@;
        assert(chain@.take(i + 1).drop_last() =~= chain@.take(i as int));
        assert(chain@.take(i + 1).last() == chain@[i as int]);
        match read_cluster(params, image, chain[i]) {
            Some(bytes) => {
                stream.extend_from_slice(bytes);
                assert(stream@ =~= before + bytes@);
            },
            None => {
                proof {
                    lemma_stream_fails_on(*params, image@, chain@, i + 1);
                }
                return Err(LoadEntriesError::ReadClusterFailed(chain[i]));
            },
        }
        i += 1;
    }
    assert(chain@.take(i as int) =~= chain@);
    Ok(stream)
}

/// Where the clusters of a prefix of a chain cannot be read, those of the
/// whole chain cannot, and the same cluster is missing.
pub proof fn lemma_stream_fails_on(params: Params, image: Seq<u8>, chain: Seq<usize>, n: int)
    requires
        0 <= n <= chain.len(),
        stream_spec(params, image, chain.take(n)) is Err,
    ensures
        stream_spec(params, image, chain) == stream_spec(params, image, chain.take(n)),
    decreases chain.len() - n,
{
    if n < chain.len() {
        assert(chain.take(n + 1).drop_last() =~= chain.take(n));
        lemma_stream_fails_on(params, image, chain, n + 1);
    } else {
        assert(chain.take(n) =~= chain);
    }
}

/// The checksum of an entry set does not depend on the bytes 2 and 3.
pub proof fn lemma_checksum_skips_itself(a: Seq<u8>, b: Seq<u8>, n: int)
    requires
        n <= a.len() == b.len(),
        forall|i: int| 0 <= i < a.len() && i != 2 && i != 3 ==> a[i] == b[i],
    ensures
        checksum_of(a, n) == checksum_of(b, n),
    decreases n,
{
    if n > 0 {
        lemma_checksum_skips_itself(a, b, n - 1);
    }
}

/// The entry at `slot` starts an entry set with a checksum, and the set is
/// whole and matches its checksum.
pub open spec fn is_intact_set(stream: Seq<u8>, slot: int) -> bool {
    let entry = entry_at(stream, slot);
    let count = entry[1] as int;
    &&& 0 <= slot < slot_count(stream)
    &&& is_in_use(entry[0])
    &&& !is_secondary(entry[0])
    &&& entry[0] != ALLOCATION_BITMAP
    &&& entry[0] != UPCASE_TABLE
    &&& entry[0] != VOLUME_LABEL
    &&& slot + 1 + count <= slot_count(stream)
    &&& secondaries_follow(stream, slot, count)
    &&& set_checksum(set_at(stream, slot, count)) == le16(entry, 2)
}

/// Changing one of the two checksum bytes of an intact entry set makes the
/// directory fail with a checksum mismatch at that set, whatever was found
/// before it.
pub proof fn lemma_corrupt_checksum_rejected(
    stream: Seq<u8>,
    slot: int,
    which: int,
    byte: u8,
    found: EntrySetView,
)
    requires
        is_intact_set(stream, slot),
        which == 2 || which == 3,
        byte != stream[32 * slot + which],
    ensures
        parse_from(stream.update(32 * slot + which, byte), slot, found) == Err::<EntrySetView, _>(
            LoadEntriesError::ChecksumMismatch(slot as usize),
        ),
{
    let corrupt = stream.update(32 * slot + which, byte);
    let count = entry_at(stream, slot)[1] as int;
    assert(entry_at(corrupt, slot)[0] == entry_at(stream, slot)[0]);
    assert(entry_at(corrupt, slot)[1] == entry_at(stream, slot)[1]);
    assert forall|k: int| 1 <= k <= count implies is_in_use(
        #[trigger] corrupt[32 * (slot + k)],
    ) && is_secondary(corrupt[32 * (slot + k)]) by {
        assert(is_in_use(stream[32 * (slot + k)]));
    }
    lemma_checksum_skips_itself(
        set_at(stream, slot, count),
        set_at(corrupt, slot, count),
        set_at(stream, slot, count).len() as int,
    );
    assert(le16(entry_at(corrupt, slot), 2) != le16(entry_at(stream, slot), 2)) by {
        assert(entry_at(corrupt, slot)[which] == byte);
        assert(entry_at(stream, slot)[which] == stream[32 * slot + which]);
        assert(entry_at(corrupt, slot)[5 - which] == entry_at(stream, slot)[5 - which]);
    }
}

/// An allocation bitmap that a directory is found to have, and that was not
/// found before, has its entry in the stream: an allocation bitmap entry
/// whose flags select that FAT.
pub proof fn lemma_bitmap_has_entry(stream: Seq<u8>, slot: int, found: EntrySetView, index: int)
    requires
        0 <= slot,
        0 <= index < 2,
        found.allocation_bitmaps.len() == 2,
        found.allocation_bitmaps[index] is None,
        parse_from(stream, slot, found) is Ok,
        parse_from(stream, slot, found).unwrap().allocation_bitmaps[index] is Some,
    ensures
        exists|k: int|
            slot <= k < slot_count(stream) && #[trigger] stream[32 * k] == ALLOCATION_BITMAP
                && stream[32 * k + 1] % 2 == index,
    decreases slot_count(stream) - slot,
{
    let entry = entry_at(stream, slot);
    let ty = entry[0];
    if slot >= slot_count(stream) || ty == 0 {
    } else if !is_in_use(ty) {
        lemma_bitmap_has_entry(stream, slot + 1, found, index);
    } else if ty == ALLOCATION_BITMAP {
        if entry[1] as int % 2 == index {
            assert(stream[32 * slot] == ALLOCATION_BITMAP);
            assert(stream[32 * slot + 1] == entry[1]);
        } else {
            let next = EntrySetView {
                allocation_bitmaps: found.allocation_bitmaps.update(
                    entry[1] as int % 2,
                    Some(allocation_spec(entry)),
                ),
                ..found
            };
            lemma_bitmap_has_entry(stream, slot + 1, next, index);
        }
    } else if ty == UPCASE_TABLE {
        lemma_bitmap_has_entry(
            stream,
            slot + 1,
            EntrySetView { upcase_table: Some(upcase_spec(entry)), ..found },
            index,
        );
    } else if ty == VOLUME_LABEL {
        lemma_bitmap_has_entry(
            stream,
            slot + 1,
            EntrySetView { volume_label: label_spec(entry).unwrap(), ..found },
            index,
        );
    } else {
        lemma_bitmap_has_entry(stream, slot + 1 + entry[1] as int, found, index);
    }
}

/// A directory whose stream has no allocation bitmap entry for a FAT is
/// found to have no allocation bitmap for that FAT.
pub proof fn lemma_bitmap_needs_entry(stream: Seq<u8>, index: int)
    requires
        0 <= index < 2,
        parse_spec(stream) is Ok,
        forall|k: int|
            0 <= k < slot_count(stream) ==> !(#[trigger] stream[32 * k] == ALLOCATION_BITMAP
                && stream[32 * k + 1] % 2 == index),
    ensures
        parse_spec(stream).unwrap().allocation_bitmaps[index] is None,
{
    if parse_spec(stream).unwrap().allocation_bitmaps[index] is Some {
        lemma_bitmap_has_entry(stream, 0, nothing_found(), index);
    }
}

} // verus!

//! A read-only driver for exFAT volume images, with the small byte-level
//! helpers and host-side loaders that go with it.

use crate::directory::entry::{label_view, EntrySet, EntrySetView};
use crate::fat::Fat;
use crate::image::{range_of, read_at};
use crate::param::{Params, BOOT_SECTOR_SIZE};
use vstd::prelude::*;
use vstd::string::StringExecFns;

pub mod cluster;
pub mod codegen;
pub mod directory;
pub mod exe;
pub mod fat;
pub mod image;
pub mod mem;
pub mod mount;
pub mod param;
pub mod privilege;
pub mod text;
pub mod utf16;

verus! {

/// Why a volume image could not be mounted.
#[derive(Debug, Clone, Copy, PartialEq, Eq)]
pub enum OpenError {
    /// The image is too short to hold the main boot sector.
    ReadMainBootFailed,
    /// The signature is wrong or the reserved region is not all zero.
    NotExFat,
    /// The bytes-per-sector shift is outside 9 to 12.
    InvalidBytesPerSectorShift,
    /// The cluster would be larger than 32 MiB.
    InvalidSectorsPerClusterShift,
    /// The number of FATs is neither 1 nor 2, or the volume flags select a
    /// second FAT that the volume does not have.
    InvalidNumberOfFats,
    /// The active FAT could not be loaded.
    ReadFatRegionFailed(fat::LoadError),
    /// The root directory could not be loaded.
    ReadRootFailed(directory::entry::LoadEntriesError),
    /// The root directory has no allocation bitmap for the active FAT.
    NoAllocationBitmap,
}

impl OpenError {
    /// The message of the error.
    pub open spec fn message(&self) -> Seq<char> {
        match self {
            OpenError::ReadMainBootFailed => "cannot read main boot region"@,
            OpenError::NotExFat => "image is not exFAT"@,
            OpenError::InvalidBytesPerSectorShift => "invalid BytesPerSectorShift"@,
            OpenError::InvalidSectorsPerClusterShift => "invalid SectorsPerClusterShift"@,
            OpenError::InvalidNumberOfFats => "invalid NumberOfFats"@,
            OpenError::ReadFatRegionFailed(_) => "cannot read FAT region"@,
            OpenError::ReadRootFailed(_) => "cannot read root directory"@,
            OpenError::NoAllocationBitmap => "no Allocation Bitmap available for active FAT"@,
        }
    }

    /// The message of the error.
    pub fn to_string(&self) -> (r: String)
        ensures
            r@ == self.message(),
    {
        match self {
            OpenError::ReadMainBootFailed => String::from_str("cannot read main boot region"),
            OpenError::NotExFat => String::from_str("image is not exFAT"),
            OpenError::InvalidBytesPerSectorShift => String::from_str(
                "invalid BytesPerSectorShift",
            ),
            OpenError::InvalidSectorsPerClusterShift => String::from_str(
                "invalid SectorsPerClusterShift",
            ),
            OpenError::InvalidNumberOfFats => String::from_str("invalid NumberOfFats"),
            OpenError::ReadFatRegionFailed(_) => String::from_str("cannot read FAT region"),
            OpenError::ReadRootFailed(_) => String::from_str("cannot read root directory"),
            OpenError::NoAllocationBitmap => String::from_str(
                "no Allocation Bitmap available for active FAT",
            ),
        }
    }
}

/// A mounted volume as a value of mathematics.
pub struct VolumeView {
    /// The geometry of the volume.
    pub params: Params,
    /// The table of the active FAT.
    pub fat: Seq<u32>,
    /// The volume label, where the root directory has one.
    pub volume_label: Option<Seq<char>>,
}

/// What mounting keeps of a volume: its geometry, the active FAT and the
/// volume label.
#[derive(Debug)]
pub struct Volume {
    /// The geometry of the volume.
    pub params: Params,
    /// The active FAT.
    pub fat: Fat,
    /// The volume label, where the root directory has one that is not empty.
    pub volume_label: Option<String>,
}

impl View for Volume {
    type V = VolumeView;

    open spec fn view(&self) -> VolumeView {
        VolumeView {
            params: self.params,
            fat: self.fat@,
            volume_label: label_view(self.volume_label),
        }
    }
}

/// A mounted volume together with the image that it was read from.
#[derive(Debug)]
pub struct ExFat<I> {
    image: I,
    volume: Volume,
}

impl<I> View for ExFat<I> {
    type V = VolumeView;

    closed spec fn view(&self) -> VolumeView {
        self.volume@
    }
}

/// Index of the allocation bitmap that a volume with this number of FATs
/// must have: the second where it has two FATs, the first otherwise.
pub open spec fn required_bitmap(number_of_fats: u8) -> int {
    if number_of_fats == 2 {
        1
    } else {
        0
    }
}

/// What mounting loads from an image before it looks for the allocation
/// bitmap.
pub struct LoadedView {
    /// The geometry of the volume.
    pub params: Params,
    /// The table of the active FAT.
    pub fat: Seq<u32>,
    /// What the root directory holds.
    pub root: EntrySetView,
}

/// The geometry, the active FAT and the root directory of the volume that
/// `image` holds, or the first step of loading them that fails: reading the
/// boot sector, decoding the geometry, selecting and loading the active FAT,
/// and loading the root directory. The second FAT can be active only where
/// the volume has two.
pub open spec fn loaded_spec(image: Seq<u8>) -> Result<LoadedView, OpenError> {
    match range_of(image, 0, BOOT_SECTOR_SIZE as int) {
        None => Err(OpenError::ReadMainBootFailed),
        Some(boot) => match Params::parse_spec(boot) {
            Err(e) => Err(e),
            Ok(params) => {
                let active = params.volume_flags.spec_active_fat();
                if active != 0 && params.number_of_fats != 2 {
                    Err(OpenError::InvalidNumberOfFats)
                } else {
                    match crate::fat::load_spec(params, image, active) {
                        Err(e) => Err(OpenError::ReadFatRegionFailed(e)),
                        Ok(fat) => match crate::directory::entry::load_spec(
                            params,
                            fat,
                            image,
                            params.first_cluster_of_root_directory,
                        ) {
                            Err(e) => Err(OpenError::ReadRootFailed(e)),
                            Ok(root) => Ok(LoadedView { params, fat, root }),
                        },
                    }
                }
            },
        },
    }
}

/// What is kept of a volume whose geometry, FAT and root directory are
/// loaded: the root directory must have the allocation bitmap that the
/// number of FATs asks for.
pub open spec fn validated_spec(params: Params, fat: Seq<u32>, root: EntrySetView) -> Result<
    VolumeView,
    OpenError,
> {
    if root.allocation_bitmaps[required_bitmap(params.number_of_fats)] is None {
        Err(OpenError::NoAllocationBitmap)
    } else {
        Ok(VolumeView { params, fat, volume_label: root.volume_label })
    }
}

/// The volume that `image` holds, or the first step of mounting that fails.
pub open spec fn mount_spec(image: Seq<u8>) -> Result<VolumeView, OpenError> {
    match loaded_spec(image) {
        Err(e) => Err(e),
        Ok(loaded) => validated_spec(loaded.params, loaded.fat, loaded.root),
    }
}

/// Checks that a root directory has the allocation bitmap that the number of
/// FATs asks for, and keeps its volume label.
pub fn validate(params: Params, fat: Fat, root: EntrySet) -> (r: Result<Volume, OpenError>)
    ensures
        match r {
            Ok(volume) => validated_spec(params, fat@, root@) == Ok::<_, OpenError>(volume@)
                && volume.params == params && volume.fat == fat,
            Err(e) => validated_spec(params, fat@, root@) == Err::<VolumeView, _>(e),
        },
{
    if params.number_of_fats == 2 {
        if root.allocation_bitmaps[1].is_none() {
            return Err(OpenError::NoAllocationBitmap);
        }
    } else if root.allocation_bitmaps[0].is_none() {
        return Err(OpenError::NoAllocationBitmap);
    }
    Ok(Volume { params, fat, volume_label: root.volume_label })
}

impl<I> ExFat<I> {
    /// The image that the volume was read from.
    pub closed spec fn spec_image(&self) -> I {
        self.image
    }

    /// Joins a mounted volume and the image that it was read from.
    pub fn new(image: I, volume: Volume) -> (r: Self)
        ensures
            r@ == volume@,
            r.spec_image() == image,
    {
        ExFat { image, volume }
    }

    /// The volume label, where the root directory has one that is not empty.
    pub fn volume_label(&self) -> (r: Option<&str>)
        ensures
            match r {
                Some(text) => self@.volume_label == Some(text@),
                None => self@.volume_label is None,
            },
    {
        match &self.volume.volume_label {
            Some(text) => Some(text.as_str()),
            None => None,
        }
    }
}

impl ExFat<Vec<u8>> {
    /// Mounts the volume that `image` holds.
    pub fn open(image: Vec<u8>) -> (r: Result<Self, OpenError>)
        ensures
            match r {
                Ok(volume) => mount_spec(image@) == Ok::<_, OpenError>(volume@)
                    && volume.spec_image() == image,
                Err(e) => mount_spec(image@) == Err::<VolumeView, _>(e),
            },
    {
        let boot = match read_at(image.as_slice(), 0, BOOT_SECTOR_SIZE as u64) {
            Some(boot) => boot,
            None => {
                return Err(OpenError::ReadMainBootFailed);
            },
        };
        let params = match Params::parse(boot) {
            Ok(params) => params,
            Err(e) => {
                return Err(e);
            },
        };
        let active_fat = params.volume_flags.active_fat();
        let fat = if active_fat == 0 || params.number_of_fats == 2 {
            match Fat::load(&params, image.as_slice(), active_fat) {
                Ok(fat) => fat,
                Err(e) => {
                    return Err(OpenError::ReadFatRegionFailed(e));
                },
            }
        } else {
            return Err(OpenError::InvalidNumberOfFats);
        };
        let root_cluster = params.first_cluster_of_root_directory;
        let entries = match EntrySet::load(&params, &fat, image.as_slice(), root_cluster) {
            Ok(entries) => entries,
            Err(e) => {
                return Err(OpenError::ReadRootFailed(e));
            },
        };
        match validate(params, fat, entries) {
            Ok(volume) => Ok(ExFat { image, volume }),
            Err(e) => Err(e),
        }
    }
}

/// A volume with two FATs whose root directory has no allocation bitmap for
/// the second FAT is not mounted, whether or not it has one for the first.
pub proof fn lemma_second_bitmap_required(image: Seq<u8>)
    requires
        loaded_spec(image) is Ok,
        loaded_spec(image).unwrap().params.number_of_fats == 2,
        loaded_spec(image).unwrap().root.allocation_bitmaps[1] is None,
    ensures
        mount_spec(image) == Err::<VolumeView, _>(OpenError::NoAllocationBitmap),
{
}

/// A volume is mounted exactly where it can be loaded and its root directory
/// has the allocation bitmap that the number of FATs asks for. The volume
/// label of the mounted volume is then the one of the root directory.
pub proof fn lemma_mounted_has_bitmap(image: Seq<u8>)
    ensures
        mount_spec(image) is Ok <==> loaded_spec(image) is Ok && loaded_spec(
            image,
        ).unwrap().root.allocation_bitmaps[required_bitmap(
            loaded_spec(image).unwrap().params.number_of_fats,
        )] is Some,
        mount_spec(image) is Ok ==> mount_spec(image).unwrap().volume_label == loaded_spec(
            image,
        ).unwrap().root.volume_label,
{
}

} // verus!

//! Mounting step by step, for an image that is read on demand.
//!
//! A mount says what it needs to be read next, and takes what was read to
//! move to its next state. It goes from reading the boot sector through
//! validating the geometry, loading the active FAT, loading the root
//! directory and validating the allocation bitmaps to a mounted volume, and
//! from any of these to a failure. No state is entered twice.

use crate::cluster::lemma_cluster_offset_fits;
use crate::directory::entry::{
    lemma_stream_fails_on, parse_spec, stream_spec, EntrySet, EntrySetView, LoadEntriesError,
};
use crate::fat::{
    chain_spec, decode_spec, is_cluster, lemma_chain_linked, lemma_region_fits, region_len,
    region_offset, Fat, LoadError,
};
use crate::image::range_of;
use crate::param::{lemma_geometry_bounds, lemma_parsed_wf, Params, BOOT_SECTOR_SIZE};
use crate::{mount_spec, validate, validated_spec, OpenError, Volume, VolumeView};
use vstd::prelude::*;
use vstd::slice::slice_to_vec;

verus! {

/// A range of the image that a mount needs to be read.
#[derive(Debug, Clone, Copy, PartialEq, Eq)]
pub struct Request {
    /// Offset of the first byte.
    pub offset: u64,
    /// Number of bytes.
    pub len: u64,
}

/// The states of a mount.
#[derive(Debug)]
enum State {
    /// The boot sector is needed.
    ReadingBootSector,
    /// The boot sector is read, and the geometry is to be decoded from it.
    ValidatingGeometry { boot: Vec<u8> },
    /// The geometry is valid, and the region of the active FAT is needed.
    LoadingFat { params: Params },
    /// The FAT is loaded. The clusters of `chain` before number `loaded` are
    /// read into `stream`, and the cluster with that number is needed.
    LoadingRootDirectory {
        params: Params,
        fat: Fat,
        chain: Vec<usize>,
        loaded: usize,
        stream: Vec<u8>,
    },
    /// The root directory is loaded, and its allocation bitmaps are to be
    /// checked.
    ValidatingBitmaps { params: Params, fat: Fat, root: EntrySet },
    /// The volume is mounted.
    Mounted(Volume),
    /// Mounting has failed.
    Failed(OpenError),
}

/// A mount: it says which range of the image it needs next, and takes what
/// was read there to move on.
#[derive(Debug)]
pub struct Mount {
    state: State,
}

/// The state of a [`Mount`] as a value of mathematics.
pub enum MountView {
    ReadingBootSector,
    ValidatingGeometry { boot: Seq<u8> },
    LoadingFat { params: Params },
    LoadingRootDirectory {
        params: Params,
        fat: Seq<u32>,
        chain: Seq<usize>,
        loaded: int,
        stream: Seq<u8>,
    },
    ValidatingBitmaps { params: Params, fat: Seq<u32>, root: EntrySetView },
    Mounted(VolumeView),
    Failed(OpenError),
}

impl View for State {
    type V = MountView;

    closed spec fn view(&self) -> MountView {
        match self {
            State::ReadingBootSector => MountView::ReadingBootSector,
            State::ValidatingGeometry { boot } => MountView::ValidatingGeometry { boot: boot@ },
            State::LoadingFat { params } => MountView::LoadingFat { params: *params },
            State::LoadingRootDirectory {
                params,
                fat,
                chain,
                loaded,
                stream,
            } => MountView::LoadingRootDirectory {
                params: *params,
                fat: fat@,
                chain: chain@,
                loaded: *loaded as int,
                stream: stream@,
            },
            State::ValidatingBitmaps { params, fat, root } => MountView::ValidatingBitmaps {
                params: *params,
                fat: fat@,
                root: root@,
            },
            State::Mounted(volume) => MountView::Mounted(volume@),
            State::Failed(e) => MountView::Failed(*e),
        }
    }
}

impl View for Mount {
    type V = MountView;

    closed spec fn view(&self) -> MountView {
        self.state@
    }
}

impl MountView {
    /// What every state that a mount reaches satisfies.
    pub open spec fn wf(self) -> bool {
        match self {
            MountView::ReadingBootSector => true,
            MountView::ValidatingGeometry { boot } => boot.len() == BOOT_SECTOR_SIZE,
            MountView::LoadingFat { params } => params.wf() && (
            params.volume_flags.spec_active_fat() == 0 || params.number_of_fats == 2),
            MountView::LoadingRootDirectory { params, fat, chain, loaded, stream } => {
                &&& params.wf()
                &&& fat.len() == params.cluster_count + 2
                &&& 0 <= loaded < chain.len()
                &&& forall|i: int|
                    0 <= i < chain.len() ==> is_cluster(
                        params.cluster_count as int,
                        #[trigger] chain[i] as int,
                    )
            },
            MountView::ValidatingBitmaps { params, fat, root } => root.allocation_bitmaps.len()
                == 2,
            MountView::Mounted(_) => true,
            MountView::Failed(_) => true,
        }
    }

    /// Mounting has come to its end, one way or the other.
    pub open spec fn is_done(self) -> bool {
        self is Mounted || self is Failed
    }

    /// The range of the image that the state needs to be read. The states
    /// that validate, and those at the end, need none.
    pub open spec fn request(self) -> Option<Request> {
        match self {
            MountView::ReadingBootSector => Some(
                Request { offset: 0, len: BOOT_SECTOR_SIZE as u64 },
            ),
            MountView::LoadingFat { params } => Some(
                Request {
                    offset: region_offset(params, params.volume_flags.spec_active_fat() as int) as u64,
                    len: region_len(params) as u64,
                },
            ),
            MountView::LoadingRootDirectory { params, fat, chain, loaded, stream } => Some(
                Request {
                    offset: params.spec_cluster_offset(chain[loaded] as int) as u64,
                    len: params.spec_cluster_size() as u64,
                },
            ),
            _ => None,
        }
    }

    /// The state that follows when `data` comes in answer to the request of
    /// the state. An answer of another length than the request asks for
    /// counts as a failed read, as does none.
    pub open spec fn step(self, data: Option<Seq<u8>>) -> MountView {
        let read = match (self.request(), data) {
            (Some(request), Some(bytes)) => if bytes.len() == request.len {
                Some(bytes)
            } else {
                None
            },
            _ => None,
        };
        match self {
            MountView::ReadingBootSector => match read {
                Some(boot) => MountView::ValidatingGeometry { boot },
                None => MountView::Failed(OpenError::ReadMainBootFailed),
            },
            MountView::ValidatingGeometry { boot } => match Params::parse_spec(boot) {
                Err(e) => MountView::Failed(e),
                Ok(params) => if params.volume_flags.spec_active_fat() != 0
                    && params.number_of_fats != 2 {
                    MountView::Failed(OpenError::InvalidNumberOfFats)
                } else {
                    MountView::LoadingFat { params }
                },
            },
            MountView::LoadingFat { params } => match read {
                None => MountView::Failed(
                    OpenError::ReadFatRegionFailed(
                        LoadError::ReadFailed(params.volume_flags.spec_active_fat()),
                    ),
                ),
                Some(region) => match decode_spec(region, params.cluster_count as int) {
                    Err(e) => MountView::Failed(OpenError::ReadFatRegionFailed(e)),
                    Ok(fat) => match chain_spec(fat, params.first_cluster_of_root_directory) {
                        Err(e) => MountView::Failed(
                            OpenError::ReadRootFailed(LoadEntriesError::InvalidChain(e)),
                        ),
                        Ok(chain) => MountView::LoadingRootDirectory {
                            params,
                            fat,
                            chain,
                            loaded: 0,
                            stream: Seq::empty(),
                        },
                    },
                },
            },
            MountView::LoadingRootDirectory { params, fat, chain, loaded, stream } => match read {
                None => MountView::Failed(
                    OpenError::ReadRootFailed(LoadEntriesError::ReadClusterFailed(chain[loaded])),
                ),
                Some(bytes) => if loaded + 1 < chain.len() {
                    MountView::LoadingRootDirectory {
                        params,
                        fat,
                        chain,
                        loaded: loaded + 1,
                        stream: stream + bytes,
                    }
                } else {
                    match parse_spec(stream + bytes) {
                        Err(e) => MountView::Failed(OpenError::ReadRootFailed(e)),
                        Ok(root) => MountView::ValidatingBitmaps { params, fat, root },
                    }
                },
            },
            MountView::ValidatingBitmaps { params, fat, root } => match validated_spec(
                params,
                fat,
                root,
            ) {
                Ok(volume) => MountView::Mounted(volume),
                Err(e) => MountView::Failed(e),
            },
            MountView::Mounted(volume) => self,
            MountView::Failed(e) => self,
        }
    }
}

/// What was read, as a value of mathematics.
pub open spec fn data_view(data: Option<&[u8]>) -> Option<Seq<u8>> {
    match data {
        Some(bytes) => Some(bytes@),
        None => None,
    }
}

impl Mount {
    /// The state is one that a mount reaches.
    #[verifier::type_invariant]
    spec fn reachable(&self) -> bool {
        self.state@.wf()
    }

    /// A mount at its start.
    pub fn new() -> (r: Mount)
        ensures
            r@ == MountView::ReadingBootSector,
    {
        Mount { state: State::ReadingBootSector }
    }

    /// Whether mounting has come to its end.
    pub fn is_done(&self) -> (r: bool)
        ensures
            r == self@.is_done(),
    {
        match &self.state {
            State::Mounted(_) => true,
            State::Failed(_) => true,
            _ => false,
        }
    }

    /// The range of the image that is to be read and handed to the next
    /// step, if the state needs any.
    pub fn request(&self) -> (r: Option<Request>)
        ensures
            self@.wf(),
            r == self@.request(),
            r matches Some(request) ==> match self@ {
                MountView::LoadingFat { params } => request.offset == region_offset(
                    params,
                    params.volume_flags.spec_active_fat() as int,
                ) && request.len == region_len(params),
                MountView::LoadingRootDirectory {
                    params,
                    fat,
                    chain,
                    loaded,
                    stream,
                } => request.offset == params.spec_cluster_offset(chain[loaded] as int)
                    && request.len == params.spec_cluster_size(),
                _ => true,
            },
    {
        proof {
            use_type_invariant(self);
        }
        match &self.state {
            State::ReadingBootSector => Some(Request { offset: 0, len: BOOT_SECTOR_SIZE as u64 }),
            State::LoadingFat { params } => {
                proof {
                    lemma_geometry_bounds(*params);
                    lemma_region_fits(*params);
                }
                let len: u64 = params.fat_length * params.bytes_per_sector;
                let first: u64 = if params.volume_flags.active_fat() == 0 {
                    params.fat_offset
                } else {
                    params.fat_offset + params.fat_length
                };
                assert(first == params.fat_offset + params.volume_flags.spec_active_fat()
                    * params.fat_length) by (nonlinear_arith)
                    requires
                        first == if params.volume_flags.spec_active_fat() == 0 {
                            params.fat_offset as int
                        } else {
                            params.fat_offset + params.fat_length
                        },
                        0 <= params.volume_flags.spec_active_fat() <= 1,
                ;
                Some(Request { offset: first * params.bytes_per_sector, len })
            },
            State::LoadingRootDirectory { params, fat, chain, loaded, stream } => Some(
                Request {
                    offset: params.cluster_offset(chain[*loaded]),
                    len: params.cluster_size(),
                },
            ),
            _ => None,
        }
    }

    /// Takes what was read in answer to the request of the state, or `None`
    /// where it could not be read or nothing was asked for, and moves to the
    /// next state.
    pub fn step(self, data: Option<&[u8]>) -> (r: Mount)
        ensures
            r@ == self@.step(data_view(data)),
            self@.wf(),
            r@.wf(),
    {
        proof {
            use_type_invariant(&self);
        }
        let wanted = self.request();
        let read: Option<&[u8]> = match (wanted, data) {
            (Some(request), Some(bytes)) => if bytes.len() as u64 == request.len {
                Some(bytes)
            } else {
                None
            },
            _ => None,
        };
        let state = match self.state {
            State::ReadingBootSector => match read {
                Some(boot) => State::ValidatingGeometry { boot: slice_to_vec(boot) },
                None => State::Failed(OpenError::ReadMainBootFailed),
            },
            State::ValidatingGeometry { boot } => match Params::parse(boot.as_slice()) {
                Err(e) => State::Failed(e),
                Ok(params) => if params.volume_flags.active_fat() != 0 && params.number_of_fats
                    != 2 {
                    State::Failed(OpenError::InvalidNumberOfFats)
                } else {
                    State::LoadingFat { params }
                },
            },
            State::LoadingFat { params } => match read {
                None => State::Failed(
                    OpenError::ReadFatRegionFailed(
                        LoadError::ReadFailed(params.volume_flags.active_fat()),
                    ),
                ),
                Some(region) => match Fat::decode(region, params.cluster_count) {
                    Err(e) => State::Failed(OpenError::ReadFatRegionFailed(e)),
                    Ok(fat) => match fat.get_cluster_chain(
                        params.first_cluster_of_root_directory,
                    ) {
                        Err(e) => State::Failed(
                            OpenError::ReadRootFailed(LoadEntriesError::InvalidChain(e)),
                        ),
                        Ok(chain) => State::LoadingRootDirectory {
                            params,
                            fat,
                            chain,
                            loaded: 0,
                            stream: Vec::new(),
                        },
                    },
                },
            },
            State::LoadingRootDirectory { params, fat, chain, loaded, stream } => match read {
                None => State::Failed(
                    OpenError::ReadRootFailed(LoadEntriesError::ReadClusterFailed(chain[loaded])),
                ),
                Some(bytes) => {
                    let clusters = chain.len();
                    let mut stream = stream;
                    let ghost before = stream@;
                    stream.extend_from_slice(bytes);
                    assert(stream@ =~= before + bytes@);
                    if loaded + 1 < clusters {
                        State::LoadingRootDirectory {
                            params,
                            fat,
                            chain,
                            loaded: loaded + 1,
                            stream,
                        }
                    } else {
                        match EntrySet::parse(stream.as_slice()) {
                            Err(e) => State::Failed(OpenError::ReadRootFailed(e)),
                            Ok(root) => State::ValidatingBitmaps { params, fat, root },
                        }
                    }
                },
            },
            State::ValidatingBitmaps { params, fat, root } => match validate(params, fat, root) {
                Ok(volume) => State::Mounted(volume),
                Err(e) => State::Failed(e),
            },
            State::Mounted(volume) => State::Mounted(volume),
            State::Failed(e) => State::Failed(e),
        };
        Mount { state }
    }

    /// The volume, or why there is none, once mounting has come to its end.
    pub fn finish(self) -> (r: Option<Result<Volume, OpenError>>)
        ensures
            match r {
                Some(Ok(volume)) => self@ == MountView::Mounted(volume@),
                Some(Err(e)) => self@ == MountView::Failed(e),
                None => !self@.is_done(),
            },
    {
        match self.state {
            State::Mounted(volume) => Some(Ok(volume)),
            State::Failed(e) => Some(Err(e)),
            _ => None,
        }
    }
}

impl MountView {
    /// How far the state is from the end: the states come in one order.
    pub open spec fn phase(self) -> nat {
        match self {
            MountView::ReadingBootSector => 5,
            MountView::ValidatingGeometry { .. } => 4,
            MountView::LoadingFat { .. } => 3,
            MountView::LoadingRootDirectory { .. } => 2,
            MountView::ValidatingBitmaps { .. } => 1,
            _ => 0,
        }
    }

    /// Number of clusters of the root directory that are still to be read.
    pub open spec fn remaining(self) -> nat {
        match self {
            MountView::LoadingRootDirectory { chain, loaded, .. } => (chain.len() - loaded) as nat,
            _ => 0,
        }
    }

    /// The volume, or why there is none, once mounting has come to its end.
    pub open spec fn outcome(self) -> Option<Result<VolumeView, OpenError>> {
        match self {
            MountView::Mounted(volume) => Some(Ok(volume)),
            MountView::Failed(e) => Some(Err(e)),
            _ => None,
        }
    }
}

/// What `image` answers to a request: its bytes in the range, where it holds
/// all of them.
pub open spec fn answer(image: Seq<u8>, request: Option<Request>) -> Option<Seq<u8>> {
    match request {
        Some(request) => range_of(image, request.offset as int, request.len as int),
        None => None,
    }
}

/// The state in which a mount ends when it starts in `state` and every
/// request is answered from `image`.
pub open spec fn run(state: MountView, image: Seq<u8>) -> MountView
    decreases state.phase(), state.remaining(),
{
    if state.is_done() {
        state
    } else {
        run(state.step(answer(image, state.request())), image)
    }
}

/// The state in which a mount ends whose root directory has the stream
/// `stream`, or cannot be read.
pub open spec fn end_of_root(
    params: Params,
    fat: Seq<u32>,
    stream: Result<Seq<u8>, LoadEntriesError>,
) -> MountView {
    match stream {
        Err(e) => MountView::Failed(OpenError::ReadRootFailed(e)),
        Ok(stream) => match parse_spec(stream) {
            Err(e) => MountView::Failed(OpenError::ReadRootFailed(e)),
            Ok(root) => match validated_spec(params, fat, root) {
                Ok(volume) => MountView::Mounted(volume),
                Err(e) => MountView::Failed(e),
            },
        },
    }
}

/// A mount that is loading the root directory, and has read the clusters
/// before the next one from the image, ends as the whole stream of the
/// directory says.
pub proof fn lemma_run_root(
    params: Params,
    fat: Seq<u32>,
    chain: Seq<usize>,
    loaded: int,
    stream: Seq<u8>,
    image: Seq<u8>,
)
    requires
        (MountView::LoadingRootDirectory { params, fat, chain, loaded, stream }).wf(),
        stream_spec(params, image, chain.take(loaded)) == Ok::<_, LoadEntriesError>(stream),
    ensures
        run(MountView::LoadingRootDirectory { params, fat, chain, loaded, stream }, image)
            == end_of_root(params, fat, stream_spec(params, image, chain)),
    decreases chain.len() - loaded,
{
    let state = MountView::LoadingRootDirectory { params, fat, chain, loaded, stream };
    let cluster = chain[loaded];
    lemma_geometry_bounds(params);
    lemma_cluster_offset_fits(params, cluster as int);
    let read = answer(image, state.request());
    let next = state.step(read);
    assert(run(state, image) == run(next, image));
    assert(chain.take(loaded + 1).drop_last() =~= chain.take(loaded));
    assert(chain.take(loaded + 1).last() == cluster);
    match read {
        None => {
            lemma_stream_fails_on(params, image, chain, loaded + 1);
        },
        Some(bytes) => {
            if loaded + 1 < chain.len() {
                lemma_run_root(params, fat, chain, loaded + 1, stream + bytes, image);
            } else {
                assert(chain.take(loaded + 1) =~= chain);
                match parse_spec(stream + bytes) {
                    Err(e) => {},
                    Ok(root) => {
                        assert(run(next, image) == run(next.step(None), image));
                    },
                }
            }
        },
    }
}

/// A mount whose requests are all answered from an image ends with the
/// volume that the image holds, or with the error that keeps the image from
/// being mounted.
pub proof fn lemma_run_mounts(image: Seq<u8>)
    ensures
        run(MountView::ReadingBootSector, image).outcome() == Some(mount_spec(image)),
{
    let reading = MountView::ReadingBootSector;
    let validating = reading.step(answer(image, reading.request()));
    assert(run(reading, image) == run(validating, image));
    if let MountView::ValidatingGeometry { boot } = validating {
        let loading = validating.step(None);
        assert(run(validating, image) == run(loading, image));
        if let MountView::LoadingFat { params } = loading {
            lemma_parsed_wf(boot);
            lemma_region_fits(params);
            let active = params.volume_flags.spec_active_fat();
            assert(0 <= active <= 1);
            let region = answer(image, loading.request());
            assert(region == range_of(
                image,
                region_offset(params, active as int),
                region_len(params),
            ));
            let root = loading.step(region);
            assert(run(loading, image) == run(root, image));
            if let MountView::LoadingRootDirectory { params, fat, chain, loaded, stream } = root {
                lemma_chain_linked(fat, params.first_cluster_of_root_directory);
                assert(chain.take(0) =~= Seq::<usize>::empty());
                lemma_run_root(params, fat, chain, 0, Seq::empty(), image);
            }
        }
    }
}

} // verus!

//! Executable files: a SELF header and its segment headers, followed by an
//! ELF file.

use crate::image::read_at;
use crate::mem::{le16, le64, read_u16_le, read_u64_le, read_u8};
use crate::text::{decimal, numbered};
use vstd::prelude::*;
use vstd::string::StringExecFns;

verus! {

/// Size of the SELF header, and of each SELF segment header, in bytes.
pub const SELF_HEADER_SIZE: u64 = 32;

/// Size of the 64-bit ELF header in bytes.
pub const ELF_HEADER_SIZE: u64 = 64;

/// Size of an ELF program header in bytes.
pub const PROGRAM_HEADER_SIZE: u64 = 0x38;

/// Size of an ELF section header in bytes.
pub const SECTION_HEADER_SIZE: u64 = 64;

/// Why an executable could not be loaded.
#[derive(Debug, Clone, Copy, PartialEq, Eq)]
pub enum LoadError {
    /// The file is too short to hold the SELF header.
    ReadSelfHeaderFailed,
    /// The file does not start as a SELF file does.
    InvalidSelfMagic,
    /// The file ends before the end of the SELF segment header with this
    /// index.
    ReadSelfSegmentHeaderFailed(usize),
    /// The file ends before the end of the ELF header.
    ReadElfHeaderFailed,
    /// The ELF header does not start as an ELF file does.
    InvalidElfMagic,
    /// The ELF file is not a 64-bit little-endian one.
    UnsupportedArchitecture,
    /// The file ends before the end of the program header with this index.
    ReadProgramHeaderFailed(usize),
    /// The file ends before the end of the section header with this index.
    ReadSectionHeaderFailed(usize),
}

/// A loaded executable, by the architecture of its ELF file.
#[derive(Debug, Clone, Copy, PartialEq, Eq)]
pub enum Executable {
    /// A 64-bit little-endian executable.
    Little64(Little64),
}

/// A 64-bit little-endian executable.
#[derive(Debug, Clone, Copy, PartialEq, Eq)]
pub struct Little64 {}

/// The file starts with the eight bytes of a SELF file, and holds 0x22 at
/// offset 0x1a.
pub open spec fn has_self_magic(file: Seq<u8>) -> bool {
    &&& file[0] == 0x4f
    &&& file[1] == 0x15
    &&& file[2] == 0x3d
    &&& file[3] == 0x1d
    &&& file[4] == 0x00
    &&& file[5] == 0x01
    &&& file[6] == 0x01
    &&& file[7] == 0x12
    &&& le16(file, 0x1a) == 0x22
}

/// The four bytes at `at` are those that an ELF file starts with.
pub open spec fn has_elf_magic(file: Seq<u8>, at: int) -> bool {
    &&& file[at] == 0x7f
    &&& file[at + 1] == 0x45
    &&& file[at + 2] == 0x4c
    &&& file[at + 3] == 0x46
}

/// Index of the first of `count` records of `size` bytes each, laid out from
/// `start` on, that a file of `len` bytes does not hold to its end.
pub open spec fn first_missing(len: int, start: int, size: int, count: int) -> Option<int> {
    if count <= 0 || start + size * count <= len {
        None
    } else if start >= len {
        Some(0)
    } else {
        Some((len - start) / size)
    }
}

/// What loading the 64-bit little-endian ELF file at `elf` gives: the rest
/// of the header, then every program header, then every section header are
/// read, and the first that the file does not hold fails the load.
pub open spec fn little64_spec(file: Seq<u8>, elf: int) -> Result<Little64, LoadError> {
    if elf + ELF_HEADER_SIZE > file.len() {
        Err(LoadError::ReadElfHeaderFailed)
    } else {
        let e_phoff = le64(file, elf + 0x20);
        let e_shoff = le64(file, elf + 0x28);
        let e_phnum = le16(file, elf + 0x38);
        let e_shnum = le16(file, elf + 0x3c);
        match first_missing(
            file.len() as int,
            elf + e_phoff,
            PROGRAM_HEADER_SIZE as int,
            e_phnum as int,
        ) {
            Some(i) => Err(LoadError::ReadProgramHeaderFailed(i as usize)),
            None => match first_missing(
                file.len() as int,
                elf + e_shoff,
                SECTION_HEADER_SIZE as int,
                e_shnum as int,
            ) {
                Some(i) => Err(LoadError::ReadSectionHeaderFailed(i as usize)),
                None => Ok(Little64 {  }),
            },
        }
    }
}

/// What loading the executable in `file` gives: the SELF header is read and
/// checked, the segment headers that it counts at offset 0x18 are read, and
/// the ELF file behind them is loaded by its class and byte order.
pub open spec fn load_spec(file: Seq<u8>) -> Result<Executable, LoadError> {
    if file.len() < SELF_HEADER_SIZE {
        Err(LoadError::ReadSelfHeaderFailed)
    } else if !has_self_magic(file) {
        Err(LoadError::InvalidSelfMagic)
    } else {
        let segments = le16(file, 0x18) as int;
        match first_missing(
            file.len() as int,
            SELF_HEADER_SIZE as int,
            SELF_HEADER_SIZE as int,
            segments,
        ) {
            Some(i) => Err(LoadError::ReadSelfSegmentHeaderFailed(i as usize)),
            None => {
                let elf = SELF_HEADER_SIZE + SELF_HEADER_SIZE * segments;
                if elf + 16 > file.len() {
                    Err(LoadError::ReadElfHeaderFailed)
                } else if !has_elf_magic(file, elf) {
                    Err(LoadError::InvalidElfMagic)
                } else if file[elf + 4] != 2 || file[elf + 5] != 1 {
                    Err(LoadError::UnsupportedArchitecture)
                } else {
                    match little64_spec(file, elf) {
                        Ok(exe) => Ok(Executable::Little64(exe)),
                        Err(e) => Err(e),
                    }
                }
            },
        }
    }
}

/// Reads `count` records of `size` bytes each from `start` on, and gives the
/// index of the first that the file does not hold to its end. `start` is
/// `None` where the offset does not fit in 64 bits.
fn read_records(file: &[u8], start: Option<u64>, size: u64, count: u16) -> (r: Option<usize>)
    requires
        0 < size <= 64,
    ensures
        match start {
            Some(start) => match r {
                Some(i) => first_missing(
                    file@.len() as int,
                    start as int,
                    size as int,
                    count as int,
                ) == Some(i as int),
                None => first_missing(file@.len() as int, start as int, size as int, count as int)
                    is None,
            },
            None => r == if count > 0 {
                Some(0usize)
            } else {
                None
            },
        },
{
    let first: u64 = match start {
        Some(first) => first,
        None => {
            return if count > 0 {
                Some(0)
            } else {
                None
            };
        },
    };
    let len: u64 = file.len() as u64;
    let mut i: u16 = 0;
    while i < count
        invariant
            i <= count,
            0 < size <= 64,
            len == file@.len(),
            start == Some(first),
            i > 0 ==> first + size * i <= len,
        decreases count - i,
    {
        assert(size * i <= 64 * 0xFFFF) by (nonlinear_arith)
            requires
                0 < size <= 64,
                0 <= i <= 0xFFFF,
        ;
        assert(size * (i + 1) == size * i + size) by (nonlinear_arith);
        let fits = match first.checked_add(size * i as u64) {
            Some(at) => read_at(file, at, size).is_some(),
            None => false,
        };
        if !fits {
            proof {
                lemma_first_missing(len as int, first as int, size as int, count as int, i as int);
            }
            return Some(i as usize);
        }
        i += 1;
    }
    assert(size * count == size * i);
    None
}

/// The record `i` is the first missing one where the records before it fit
/// and it does not.
pub proof fn lemma_first_missing(len: int, start: int, size: int, count: int, i: int)
    requires
        0 <= len,
        0 <= start,
        0 < size,
        0 <= i < count,
        i > 0 ==> start + size * i <= len,
        start + size * (i + 1) > len,
    ensures
        first_missing(len, start, size, count) == Some(i),
{
    assert(size * count >= size * (i + 1)) by (nonlinear_arith)
        requires
            count >= i + 1,
            size > 0,
    ;
    if start < len {
        assert(size * (i + 1) == size * i + size) by (nonlinear_arith);
        if i == 0 {
            assert(size * 0 == 0);
            assert(len - start < size);
            vstd::arithmetic::div_mod::lemma_basic_div(len - start, size);
        } else {
            let rest = len - start - size * i;
            assert(0 <= rest < size);
            vstd::arithmetic::div_mod::lemma_fundamental_div_mod_converse(
                len - start,
                size,
                i,
                rest,
            );
        }
    } else {
        if i > 0 {
            assert(size * i >= size) by (nonlinear_arith)
                requires
                    i >= 1,
                    size > 0,
            ;
        }
    }
}

impl Little64 {
    /// Loads the 64-bit little-endian ELF file whose header starts at
    /// `hdr_offset`.
    fn load(file: &[u8], hdr_offset: u64) -> (r: Result<Little64, LoadError>)
        ensures
            r == little64_spec(file@, hdr_offset as int),
    {
        let header = match read_at(file, hdr_offset, ELF_HEADER_SIZE) {
            Some(header) => header,
            None => {
                return Err(LoadError::ReadElfHeaderFailed);
            },
        };
        let e_phoff = read_u64_le(header, 0x20);
        let e_shoff = read_u64_le(header, 0x28);
        let e_phnum = read_u16_le(header, 0x38);
        let e_shnum = read_u16_le(header, 0x3c);
        assert(e_phoff == le64(file@, hdr_offset + 0x20));
        assert(e_shoff == le64(file@, hdr_offset + 0x28));
        assert(e_phnum == le16(file@, hdr_offset + 0x38));
        assert(e_shnum == le16(file@, hdr_offset + 0x3c));
        proof {
            assert(file@.len() == file.len());
            if hdr_offset + e_phoff > u64::MAX {
                lemma_beyond(
                    file@.len() as int,
                    hdr_offset + e_phoff,
                    PROGRAM_HEADER_SIZE as int,
                    e_phnum as int,
                );
            }
            if hdr_offset + e_shoff > u64::MAX {
                lemma_beyond(
                    file@.len() as int,
                    hdr_offset + e_shoff,
                    SECTION_HEADER_SIZE as int,
                    e_shnum as int,
                );
            }
        }
        if let Some(i) = read_records(
            file,
            hdr_offset.checked_add(e_phoff),
            PROGRAM_HEADER_SIZE,
            e_phnum,
        ) {
            return Err(LoadError::ReadProgramHeaderFailed(i));
        }
        if let Some(i) = read_records(
            file,
            hdr_offset.checked_add(e_shoff),
            SECTION_HEADER_SIZE,
            e_shnum,
        ) {
            return Err(LoadError::ReadSectionHeaderFailed(i));
        }
        Ok(Little64 {  })
    }
}

/// Records that start at or behind the end of the file are missing from the
/// first on.
proof fn lemma_beyond(len: int, start: int, size: int, count: int)
    requires
        start >= len,
        size > 0,
    ensures
        first_missing(len, start, size, count) == if count > 0 {
            Some(0int)
        } else {
            None
        },
{
    if count > 0 {
        assert(size * count > 0) by (nonlinear_arith)
            requires
                size > 0,
                count > 0,
        ;
    }
}

impl Executable {
    /// Loads the executable that `file` holds.
    pub fn load(file: &[u8]) -> (r: Result<Executable, LoadError>)
        ensures
            r == load_spec(file@),
    {
        let header = match read_at(file, 0, SELF_HEADER_SIZE) {
            Some(header) => header,
            None => {
                return Err(LoadError::ReadSelfHeaderFailed);
            },
        };
        let unknown = read_u16_le(header, 0x1a);
        if header[0] != 0x4f || header[1] != 0x15 || header[2] != 0x3d || header[3] != 0x1d
            || header[4] != 0x00 || header[5] != 0x01 || header[6] != 0x01 || header[7] != 0x12
            || unknown != 0x22 {
            assert(le16(header@, 0x1a) == le16(file@, 0x1a));
            return Err(LoadError::InvalidSelfMagic);
        }
        assert(le16(header@, 0x1a) == le16(file@, 0x1a));
        let segments = read_u16_le(header, 0x18);
        assert(segments == le16(file@, 0x18));
        if let Some(i) = read_records(file, Some(SELF_HEADER_SIZE), SELF_HEADER_SIZE, segments) {
            return Err(LoadError::ReadSelfSegmentHeaderFailed(i));
        }
        let hdr_offset: u64 = SELF_HEADER_SIZE + SELF_HEADER_SIZE * segments as u64;
        let ident = match read_at(file, hdr_offset, 16) {
            Some(ident) => ident,
            None => {
                return Err(LoadError::ReadElfHeaderFailed);
            },
        };
        if ident[0] != 0x7f || ident[1] != 0x45 || ident[2] != 0x4c || ident[3] != 0x46 {
            return Err(LoadError::InvalidElfMagic);
        }
        if read_u8(ident, 4) == 2 && read_u8(ident, 5) == 1 {
            match Little64::load(file, hdr_offset) {
                Ok(exe) => Ok(Executable::Little64(exe)),
                Err(e) => Err(e),
            }
        } else {
            Err(LoadError::UnsupportedArchitecture)
        }
    }
}

impl LoadError {
    /// The message of the error.
    pub open spec fn message(&self) -> Seq<char> {
        match self {
            LoadError::ReadSelfHeaderFailed => "cannot read SELF header"@,
            LoadError::InvalidSelfMagic => "invalid SELF magic"@,
            LoadError::ReadSelfSegmentHeaderFailed(i) => "cannot read header for SELF segment #"@
                + decimal(*i as nat),
            LoadError::ReadElfHeaderFailed => "cannot read ELF header"@,
            LoadError::InvalidElfMagic => "invalid ELF magic"@,
            LoadError::UnsupportedArchitecture => "unsupported architecture"@,
            LoadError::ReadProgramHeaderFailed(i) => "cannot read program header #"@ + decimal(
                *i as nat,
            ),
            LoadError::ReadSectionHeaderFailed(i) => "cannot read section header #"@ + decimal(
                *i as nat,
            ),
        }
    }

    /// The message of the error.
    pub fn to_string(&self) -> (r: String)
        ensures
            r@ == self.message(),
    {
        match self {
            LoadError::ReadSelfHeaderFailed => String::from_str("cannot read SELF header"),
            LoadError::InvalidSelfMagic => String::from_str("invalid SELF magic"),
            LoadError::ReadSelfSegmentHeaderFailed(i) => numbered(
                "cannot read header for SELF segment #",
                *i,
            ),
            LoadError::ReadElfHeaderFailed => String::from_str("cannot read ELF header"),
            LoadError::InvalidElfMagic => String::from_str("invalid ELF magic"),
            LoadError::UnsupportedArchitecture => String::from_str("unsupported architecture"),
            LoadError::ReadProgramHeaderFailed(i) => numbered("cannot read program header #", *i),
            LoadError::ReadSectionHeaderFailed(i) => numbered("cannot read section header #", *i),
        }
    }
}

} // verus!

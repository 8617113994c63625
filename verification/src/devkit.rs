//! The header of a development-kit disk image, which names its partitions.

use vstd::prelude::*;

use crate::cursor::{be_u16, be_u32, spec_be_u16, spec_be_u32};
use crate::errors::DiskError;
use crate::geometry::SECTOR_SIZE;
use crate::partition::{spec_decode_partition, Partition, PartitionView};

verus! {

/// Bytes in the header.
pub const MIN_DISK_LENGTH: usize = 0x18;

/// The header as the contracts see it.
pub struct DevkitView {
    pub major: u16,
    pub minor: u16,
    pub revision: u16,
    pub patch: u16,
    /// The data partition, then the system partition.
    pub partitions: Seq<PartitionView>,
}

/// The big-endian `u16` at `pos` of the header.
pub open spec fn spec_header_u16(image: Seq<u8>, pos: int) -> u16 {
    spec_be_u16(image.subrange(pos, pos + 2)) as u16
}

/// The byte offset or length that the sector number at `pos` of the header
/// stands for.
pub open spec fn spec_header_bytes(image: Seq<u8>, pos: int) -> int {
    spec_be_u32(image.subrange(pos, pos + 4)) * 0x200
}

/// What decoding the header and the two partitions gives: both partitions,
/// or the first error, the data partition being decoded first.
pub open spec fn spec_decode_devkit(image: Seq<u8>) -> Result<DevkitView, DiskError> {
    if image.len() < MIN_DISK_LENGTH {
        Err(
            DiskError::InvalidDiskLength {
                expected: MIN_DISK_LENGTH as u64,
                actual: image.len() as u64,
            },
        )
    } else {
        match spec_decode_partition(
            image,
            spec_header_bytes(image, 0x08),
            spec_header_bytes(image, 0x0C),
            "Data"@,
        ) {
            Err(e) => Err(e),
            Ok(data) => match spec_decode_partition(
                image,
                spec_header_bytes(image, 0x10),
                spec_header_bytes(image, 0x14),
                "System"@,
            ) {
                Err(e) => Err(e),
                Ok(system) => Ok(
                    DevkitView {
                        major: spec_header_u16(image, 0x00),
                        minor: spec_header_u16(image, 0x02),
                        revision: spec_header_u16(image, 0x04),
                        patch: spec_header_u16(image, 0x06),
                        partitions: seq![data, system],
                    },
                ),
            },
        }
    }
}

/// Partitions as the contracts see them.
pub open spec fn spec_partition_views(partitions: Seq<Partition>) -> Seq<PartitionView> {
    partitions.map_values(|p: Partition| p@)
}

/// The version of a development-kit disk image and its two partitions.
pub struct DevkitHddInfo<'a> {
    major: u16,
    minor: u16,
    revision: u16,
    patch: u16,
    partitions: [Partition<'a>; 2],
}

impl<'a> View for DevkitHddInfo<'a> {
    type V = DevkitView;

    closed spec fn view(&self) -> DevkitView {
        DevkitView {
            major: self.major,
            minor: self.minor,
            revision: self.revision,
            patch: self.patch,
            partitions: spec_partition_views(self.partitions@),
        }
    }
}

impl<'a> DevkitHddInfo<'a> {
    /// What holds of every header that `devkit_partitions` returns.
    pub closed spec fn wf(&self) -> bool {
        forall|i: int| 0 <= i < 2 ==> (#[trigger] self.partitions@[i]).wf()
    }

    /// The data partition, then the system partition.
    pub fn partitions(&self) -> (r: &[Partition<'a>])
        requires
            self.wf(),
        ensures
            spec_partition_views(r@) == self@.partitions,
            r@.len() == 2,
            forall|i: int| 0 <= i < 2 ==> (#[trigger] r@[i]).wf(),
    {
        self.partitions.as_slice()
    }

    pub fn major(&self) -> (r: u16)
        ensures
            r == self@.major,
    {
        self.major
    }

    pub fn minor(&self) -> (r: u16)
        ensures
            r == self@.minor,
    {
        self.minor
    }

    pub fn revision(&self) -> (r: u16)
        ensures
            r == self@.revision,
    {
        self.revision
    }

    pub fn patch(&self) -> (r: u16)
        ensures
            r == self@.patch,
    {
        self.patch
    }
}

/// Decodes the partition that the header names at `pos`: a start sector,
/// then a sector count.
fn header_partition<'a>(data: &'a [u8], pos: usize, name: &'static str) -> (r: Result<
    Partition<'a>,
    DiskError,
>)
    requires
        data@.len() >= MIN_DISK_LENGTH,
        pos == 0x08 || pos == 0x10,
    ensures
        match r {
            Ok(p) => p.wf() && spec_decode_partition(
                data@,
                spec_header_bytes(data@, pos as int),
                spec_header_bytes(data@, pos + 4),
                name@,
            ) == Ok::<PartitionView, DiskError>(p@),
            Err(e) => spec_decode_partition(
                data@,
                spec_header_bytes(data@, pos as int),
                spec_header_bytes(data@, pos + 4),
                name@,
            ) == Err::<PartitionView, DiskError>(e),
        },
{
    let sector: u32 = be_u32(&data[pos..pos + 4]);
    let sectors: u32 = be_u32(&data[pos + 4..pos + 8]);
    let offset: u64 = sector as u64 * SECTOR_SIZE;
    let length: u64 = sectors as u64 * SECTOR_SIZE;
    if length > usize::MAX as u64 {
        return Err(
            DiskError::InvalidDiskLength { expected: offset + length, actual: data.len() as u64 },
        );
    }
    Partition::new(data, offset, length as usize, name)
}

/// Decodes the header at the start of the image `data` and the superblocks
/// of the two partitions that it names.
pub fn devkit_partitions<'a>(data: &'a [u8]) -> (r: Result<DevkitHddInfo<'a>, DiskError>)
    ensures
        match r {
            Ok(info) => info.wf() && spec_decode_devkit(data@) == Ok::<DevkitView, DiskError>(
                info@,
            ),
            Err(e) => spec_decode_devkit(data@) == Err::<DevkitView, DiskError>(e),
        },
{
    if data.len() < MIN_DISK_LENGTH {
        return Err(
            DiskError::InvalidDiskLength {
                expected: MIN_DISK_LENGTH as u64,
                actual: data.len() as u64,
            },
        );
    }
    let major: u16 = be_u16(&data[0..2]);
    let minor: u16 = be_u16(&data[2..4]);
    let revision: u16 = be_u16(&data[4..6]);
    let patch: u16 = be_u16(&data[6..8]);
    let first: Partition<'a> = match header_partition(data, 0x08, "Data") {
        Ok(p) => p,
        Err(e) => {
            return Err(e);
        },
    };
    let second: Partition<'a> = match header_partition(data, 0x10, "System") {
        Ok(p) => p,
        Err(e) => {
            return Err(e);
        },
    };
    let ghost views = seq![first@, second@];
    let info = DevkitHddInfo { major, minor, revision, patch, partitions: [first, second] };
    proof {
        assert(info@.partitions =~= views);
    }
    Ok(info)
}

} // verus!

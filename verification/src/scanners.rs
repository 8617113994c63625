//! The carving scan: a sweep of a byte range for records of deleted files
//! and for the signatures of well-known containers.

use vstd::prelude::*;

use crate::attributes::{ATTR_DIRECTORY, ATTR_NONE};
use crate::cursor::{be_u32, in_image, read_bytes, spec_be_u32};
use crate::entry::{spec_parse_record, Entry, EntryView, ParsedRecord, ParsedRecordView};
use crate::partition::{Partition, PartitionView};
use crate::record::{DELETED_FILE_FLAG, ENTRY_SIZE};

verus! {

/// The number of shards that a range is split into, unless another is asked
/// for.
pub const SHARD_COUNT: u64 = 8;

/// The distance between two positions that are probed.
pub const SCAN_STRIDE: u64 = 0x10;

/// The bytes `XEX2`, read as a big-endian number.
pub const MAGIC_XEX2: u32 = 0x5845_5832;

/// The bytes `CON ` (with the space), read as a big-endian number.
pub const MAGIC_CON: u32 = 0x434F_4E20;

/// The bytes `LIVE`, read as a big-endian number.
pub const MAGIC_LIVE: u32 = 0x4C49_5645;

/// The bytes `PIRS`, read as a big-endian number.
pub const MAGIC_PIRS: u32 = 0x5049_5253;

/// The bytes `BIKi`, read as a big-endian number.
pub const MAGIC_BIK: u32 = 0x4249_4B69;

/// Bytes that a signature probe reads: the signature and the two bytes
/// after it.
pub const SIGNATURE_PROBE_LEN: u64 = 6;

/// A find of the scan, as the contracts see it.
pub enum DeletedFileView {
    XEX(int),
    STFS(int),
    FatxEntry(EntryView),
    Bink(int),
}

/// Something that the scan found: the record of a deleted file, or the
/// offset of a container's signature.
#[derive(Debug, Clone)]
pub enum DeletedFileType {
    XEX(u64),
    STFS(u64),
    FatxEntry(Entry),
    Bink(u64),
}

impl View for DeletedFileType {
    type V = DeletedFileView;

    open spec fn view(&self) -> DeletedFileView {
        match self {
            DeletedFileType::XEX(offset) => DeletedFileView::XEX(*offset as int),
            DeletedFileType::STFS(offset) => DeletedFileView::STFS(*offset as int),
            DeletedFileType::FatxEntry(entry) => DeletedFileView::FatxEntry(entry@),
            DeletedFileType::Bink(offset) => DeletedFileView::Bink(*offset as int),
        }
    }
}

/// Finds as the contracts see them.
pub open spec fn spec_found_views(found: Seq<DeletedFileType>) -> Seq<DeletedFileView> {
    found.map_values(|f: DeletedFileType| f@)
}

/// The offsets of the records of `entries`.
pub open spec fn spec_known_offsets(entries: Seq<Entry>) -> Seq<int> {
    entries.map_values(|e: Entry| e@.offset)
}

/// The find that a signature at `pos` stands for, if `magic` is one.
pub open spec fn spec_signature(magic: int, pos: int) -> Option<DeletedFileView> {
    if magic == MAGIC_XEX2 {
        Some(DeletedFileView::XEX(pos))
    } else if magic == MAGIC_BIK {
        Some(DeletedFileView::Bink(pos))
    } else if magic == MAGIC_CON || magic == MAGIC_LIVE || magic == MAGIC_PIRS {
        Some(DeletedFileView::STFS(pos))
    } else {
        None
    }
}

/// Whether the attribute byte of a record is one that the scan accepts: no
/// attribute at all, or the directory flag alone.
pub open spec fn spec_plausible_attributes(byte: u8) -> bool {
    byte == ATTR_NONE || byte == ATTR_DIRECTORY
}

/// The record of a deleted file at `pos`, if there is one: 64 bytes inside
/// the image that start with the deleted flag and a plausible attribute
/// byte, and that parse to an entry.
pub open spec fn spec_probe_record(partition: PartitionView, image: Seq<u8>, pos: int) -> Option<
    DeletedFileView,
> {
    if in_image(image.len(), pos, ENTRY_SIZE as int) && image[pos] == DELETED_FILE_FLAG
        && spec_plausible_attributes(image[pos + 1]) {
        match spec_parse_record(partition, image.subrange(pos, pos + ENTRY_SIZE), pos) {
            Ok(ParsedRecordView::Entry(entry)) => Some(DeletedFileView::FatxEntry(entry)),
            _ => None,
        }
    } else {
        None
    }
}

/// The container whose signature stands at `pos`, if there is one: the six
/// bytes from `pos` on lie inside the image, the first four are a signature,
/// the sixth is neither a space nor a full stop, and `pos` is not the offset
/// of a known entry.
pub open spec fn spec_probe_signature(image: Seq<u8>, known: Seq<int>, pos: int) -> Option<
    DeletedFileView,
> {
    if in_image(image.len(), pos, SIGNATURE_PROBE_LEN as int) && image[pos + 5] != 0x20 && image[pos
        + 5] != 0x2E && !known.contains(pos) {
        spec_signature(spec_be_u32(image.subrange(pos, pos + 4)), pos)
    } else {
        None
    }
}

/// No find, or the one find.
pub open spec fn spec_found(found: Option<DeletedFileView>) -> Seq<DeletedFileView> {
    match found {
        Some(f) => seq![f],
        None => Seq::empty(),
    }
}

/// What the two probes find at `pos`: the record first, the signature second.
pub open spec fn spec_scan_position(
    partition: PartitionView,
    image: Seq<u8>,
    known: Seq<int>,
    pos: int,
) -> Seq<DeletedFileView> {
    spec_found(spec_probe_record(partition, image, pos)) + spec_found(
        spec_probe_signature(image, known, pos),
    )
}

/// What the probes find at `lo`, `lo + 16`, `lo + 32` and so on below `hi`,
/// in this order.
pub open spec fn spec_scan_range(
    partition: PartitionView,
    image: Seq<u8>,
    known: Seq<int>,
    lo: int,
    hi: int,
) -> Seq<DeletedFileView>
    decreases hi - lo + 0x10,
{
    if lo >= hi {
        Seq::empty()
    } else {
        spec_scan_position(partition, image, known, lo) + spec_scan_range(
            partition,
            image,
            known,
            lo + 0x10,
            hi,
        )
    }
}

/// The length of each of the `shards` shards of the range from `start` to
/// `end`.
pub open spec fn spec_shard_len(start: int, end: int, shards: int) -> int {
    (end - start) / shards
}

/// Where shard `shard` starts: at its share of the range, moved down to a
/// multiple of 16.
pub open spec fn spec_shard_start(start: int, end: int, shards: int, shard: int) -> int {
    let share = start + spec_shard_len(start, end, shards) * shard;
    share - share % 0x10
}

/// What the scan of shard `shard` finds.
pub open spec fn spec_scan_shard(
    partition: PartitionView,
    image: Seq<u8>,
    known: Seq<int>,
    start: int,
    end: int,
    shards: int,
    shard: int,
) -> Seq<DeletedFileView> {
    spec_scan_range(
        partition,
        image,
        known,
        spec_shard_start(start, end, shards, shard),
        spec_shard_start(start, end, shards, shard) + spec_shard_len(start, end, shards),
    )
}

/// What the scans of the first `done` of `shards` shards find, one shard
/// after the other.
pub open spec fn spec_scan_shards(
    partition: PartitionView,
    image: Seq<u8>,
    known: Seq<int>,
    start: int,
    end: int,
    shards: int,
    done: nat,
) -> Seq<DeletedFileView>
    decreases done,
{
    if done == 0 {
        Seq::empty()
    } else {
        spec_scan_shards(partition, image, known, start, end, shards, (done - 1) as nat)
            + spec_scan_shard(partition, image, known, start, end, shards, done - 1)
    }
}

/// What the scan of the range from `start` to `end` finds: the finds of its
/// `SHARD_COUNT` shards, one shard after the other.
pub open spec fn spec_find_deleted(
    partition: PartitionView,
    image: Seq<u8>,
    known: Seq<int>,
    start: int,
    end: int,
) -> Seq<DeletedFileView> {
    spec_scan_shards(
        partition,
        image,
        known,
        start,
        end,
        SHARD_COUNT as int,
        SHARD_COUNT as nat,
    )
}

/// A signature whose second byte after it is a space or a full stop is no
/// find, whatever the signature.
pub proof fn lemma_signature_in_text(image: Seq<u8>, known: Seq<int>, pos: int)
    requires
        in_image(image.len(), pos, SIGNATURE_PROBE_LEN as int),
        image[pos + 5] == 0x20 || image[pos + 5] == 0x2E,
    ensures
        spec_probe_signature(image, known, pos) is None,
{
}

/// A signature at the offset of a known entry is no find.
pub proof fn lemma_signature_at_known_offset(image: Seq<u8>, known: Seq<int>, pos: int)
    requires
        known.contains(pos),
    ensures
        spec_probe_signature(image, known, pos) is None,
{
}

/// Every shard starts at a multiple of 16: the one at or next below its
/// share of the range.
pub proof fn lemma_shard_start_aligned(start: int, end: int, shards: int, shard: int)
    requires
        0 <= start <= end,
        1 <= shards,
        0 <= shard,
    ensures
        spec_shard_start(start, end, shards, shard) % 16 == 0,
        spec_shard_start(start, end, shards, shard) <= start + spec_shard_len(start, end, shards)
            * shard < spec_shard_start(start, end, shards, shard) + 16,
{
    let len = spec_shard_len(start, end, shards);
    assert(len >= 0) by (nonlinear_arith)
        requires
            len == (end - start) / shards,
            end - start >= 0,
            shards >= 1,
    ;
    let share = start + len * shard;
    assert(share >= 0) by (nonlinear_arith)
        requires
            share == start + len * shard,
            start >= 0,
            len >= 0,
            shard >= 0,
    ;
}

/// The shards lie inside the range: none starts before the multiple of 16
/// at or next below the range's start, and none ends after the range's end.
pub proof fn lemma_shard_in_range(start: int, end: int, shards: int, shard: int)
    requires
        0 <= start <= end,
        0 <= shard < shards,
    ensures
        start - start % 16 <= spec_shard_start(start, end, shards, shard),
        spec_shard_start(start, end, shards, shard) + spec_shard_len(start, end, shards) <= end,
{
    let len = spec_shard_len(start, end, shards);
    assert(0 <= len * shards <= end - start) by (nonlinear_arith)
        requires
            len == (end - start) / shards,
            end - start >= 0,
            shards >= 1,
    ;
    assert(0 <= len * shard && len * shard + len <= len * shards) by (nonlinear_arith)
        requires
            0 <= shard < shards,
            len * shards >= 0,
            shards >= 1,
    ;
}

/// Nothing is found at or past the end of the image.
proof fn lemma_nothing_past_image(
    partition: PartitionView,
    image: Seq<u8>,
    known: Seq<int>,
    lo: int,
    hi: int,
)
    requires
        lo >= image.len(),
    ensures
        spec_scan_range(partition, image, known, lo, hi) == Seq::<DeletedFileView>::empty(),
    decreases hi - lo + 0x10,
{
    if lo < hi {
        lemma_nothing_past_image(partition, image, known, lo + 0x10, hi);
        assert(spec_scan_position(partition, image, known, lo) =~= Seq::<DeletedFileView>::empty());
        assert(Seq::<DeletedFileView>::empty() + Seq::<DeletedFileView>::empty() =~= Seq::<
            DeletedFileView,
        >::empty());
    }
}

/// Whether `pos` is the offset of the record of one of `known_files`.
pub fn is_known(known_files: &[Entry], pos: u64) -> (known: bool)
    ensures
        known == spec_known_offsets(known_files@).contains(pos as int),
{
    let mut i: usize = 0;
    while i < known_files.len()
        invariant
            i <= known_files@.len(),
            forall|k: int| 0 <= k < i ==> spec_known_offsets(known_files@)[k] != pos,
        decreases known_files@.len() - i,
    {
        if known_files[i].offset() == pos {
            proof {
                assert(spec_known_offsets(known_files@)[i as int] == pos);
            }
            return true;
        }
        i += 1;
    }
    false
}

/// The find that a signature at `pos` stands for, if `magic` is one.
pub fn signature(magic: u32, pos: u64) -> (found: Option<DeletedFileType>)
    ensures
        match found {
            Some(f) => spec_signature(magic as int, pos as int) == Some(f@),
            None => spec_signature(magic as int, pos as int).is_none(),
        },
{
    if magic == MAGIC_XEX2 {
        Some(DeletedFileType::XEX(pos))
    } else if magic == MAGIC_BIK {
        Some(DeletedFileType::Bink(pos))
    } else if magic == MAGIC_CON || magic == MAGIC_LIVE || magic == MAGIC_PIRS {
        Some(DeletedFileType::STFS(pos))
    } else {
        None
    }
}

/// Looks for the record of a deleted file at `pos`.
pub fn probe_record(data: &[u8], pos: u64, partition: &Partition) -> (found: Option<
    DeletedFileType,
>)
    requires
        partition.wf(),
    ensures
        match found {
            Some(f) => spec_probe_record(partition@, data@, pos as int) == Some(f@),
            None => spec_probe_record(partition@, data@, pos as int).is_none(),
        },
{
    let record: &[u8] = match read_bytes(data, pos, ENTRY_SIZE as u64) {
        Ok(record) => record,
        Err(_) => {
            return None;
        },
    };
    if record[0] != DELETED_FILE_FLAG {
        return None;
    }
    let attributes: u8 = record[1];
    if attributes != ATTR_NONE && attributes != ATTR_DIRECTORY {
        return None;
    }
    match Entry::parse(partition, record, pos) {
        Ok(ParsedRecord::Entry(entry)) => Some(DeletedFileType::FatxEntry(entry)),
        _ => None,
    }
}

/// Looks for the signature of a container at `pos`.
pub fn probe_signature(data: &[u8], pos: u64, known_files: &[Entry]) -> (found: Option<
    DeletedFileType,
>)
    ensures
        match found {
            Some(f) => spec_probe_signature(data@, spec_known_offsets(known_files@), pos as int)
                == Some(f@),
            None => spec_probe_signature(
                data@,
                spec_known_offsets(known_files@),
                pos as int,
            ).is_none(),
        },
{
    let probe: &[u8] = match read_bytes(data, pos, SIGNATURE_PROBE_LEN) {
        Ok(probe) => probe,
        Err(_) => {
            return None;
        },
    };
    let magic: u32 = be_u32(&probe[0..4]);
    proof {
        assert(probe@.subrange(0, 4) =~= data@.subrange(pos as int, pos + 4));
    }
    match signature(magic, pos) {
        None => None,
        Some(found) => {
            let after: u8 = probe[5];
            if after == 0x20 || after == 0x2E || is_known(known_files, pos) {
                None
            } else {
                Some(found)
            }
        },
    }
}

/// Probes the positions `lo`, `lo + 16`, `lo + 32` and so on below `hi`.
pub fn scan_range(data: &[u8], lo: u64, hi: u64, known_files: &[Entry], partition: &Partition) -> (found:
    Vec<DeletedFileType>)
    requires
        partition.wf(),
    ensures
        spec_found_views(found@) == spec_scan_range(
            partition@,
            data@,
            spec_known_offsets(known_files@),
            lo as int,
            hi as int,
        ),
{
    let ghost known = spec_known_offsets(known_files@);
    let image_len: u64 = data.len() as u64;
    let mut found: Vec<DeletedFileType> = Vec::new();
    let mut pos: u64 = lo;
    proof {
        assert(spec_found_views(found@) + spec_scan_range(
            partition@,
            data@,
            known,
            pos as int,
            hi as int,
        ) =~= spec_scan_range(partition@, data@, known, pos as int, hi as int));
    }
    while pos < hi && pos < image_len
        invariant
            partition.wf(),
            known == spec_known_offsets(known_files@),
            image_len == data@.len(),
            spec_scan_range(partition@, data@, known, lo as int, hi as int) == spec_found_views(
                found@,
            ) + spec_scan_range(partition@, data@, known, pos as int, hi as int),
        decreases image_len - pos,
    {
        let ghost before = spec_found_views(found@);
        let ghost rest = spec_scan_range(partition@, data@, known, pos + SCAN_STRIDE, hi as int);
        let record: Option<DeletedFileType> = probe_record(data, pos, partition);
        let container: Option<DeletedFileType> = probe_signature(data, pos, known_files);
        let ghost here = spec_scan_position(partition@, data@, known, pos as int);
        match record {
            Some(f) => {
                found.push(f);
            },
            None => {},
        }
        match container {
            Some(f) => {
                found.push(f);
            },
            None => {},
        }
        proof {
            assert(spec_found_views(found@) =~= before + here);
            assert((before + here) + rest =~= before + (here + rest));
        }
        if image_len - pos <= SCAN_STRIDE {
            proof {
                lemma_nothing_past_image(partition@, data@, known, pos + SCAN_STRIDE, hi as int);
                assert(spec_found_views(found@) + Seq::<DeletedFileView>::empty()
                    =~= spec_found_views(found@));
            }
            return found;
        }
        pos += SCAN_STRIDE;
    }
    proof {
        if pos < hi {
            lemma_nothing_past_image(partition@, data@, known, pos as int, hi as int);
        }
        assert(spec_found_views(found@) + Seq::<DeletedFileView>::empty() =~= spec_found_views(
            found@,
        ));
    }
    found
}

/// Where shard `shard` of the `shards` shards of the range from
/// `start_offset` to `end_offset` starts: at the multiple of 16 at or next
/// below its share of the range.
pub fn shard_start(start_offset: u64, end_offset: u64, shards: u64, shard: u64) -> (r: u64)
    requires
        start_offset <= end_offset,
        shard < shards,
    ensures
        r == spec_shard_start(
            start_offset as int,
            end_offset as int,
            shards as int,
            shard as int,
        ),
        r % SCAN_STRIDE == 0,
        r <= start_offset + spec_shard_len(start_offset as int, end_offset as int, shards as int)
            * shard < r + SCAN_STRIDE,
        r + spec_shard_len(start_offset as int, end_offset as int, shards as int) <= end_offset,
{
    let len: u64 = (end_offset - start_offset) / shards;
    proof {
        lemma_shard_in_range(start_offset as int, end_offset as int, shards as int, shard as int);
        assert(0 <= len * shard) by (nonlinear_arith);
    }
    let share: u64 = start_offset + len * shard;
    share - share % SCAN_STRIDE
}

/// Scans one of the `shards` shards of the range from `start_offset` to
/// `end_offset`.
pub fn scan_shard(
    data: &[u8],
    start_offset: u64,
    end_offset: u64,
    shards: u64,
    shard: u64,
    known_files: &[Entry],
    partition: &Partition,
) -> (found: Vec<DeletedFileType>)
    requires
        partition.wf(),
        start_offset <= end_offset,
        shard < shards,
    ensures
        spec_found_views(found@) == spec_scan_shard(
            partition@,
            data@,
            spec_known_offsets(known_files@),
            start_offset as int,
            end_offset as int,
            shards as int,
            shard as int,
        ),
{
    let len: u64 = (end_offset - start_offset) / shards;
    let lo: u64 = shard_start(start_offset, end_offset, shards, shard);
    scan_range(data, lo, lo + len, known_files, partition)
}

/// Scans the range from `start_offset` to `end_offset` in `shards` shards of
/// equal length, one after the other.
pub fn find_deleted_files_in(
    data: &[u8],
    start_offset: u64,
    end_offset: u64,
    shards: u64,
    known_files: &[Entry],
    partition: &Partition,
) -> (found: Vec<DeletedFileType>)
    requires
        partition.wf(),
        start_offset <= end_offset,
    ensures
        spec_found_views(found@) == spec_scan_shards(
            partition@,
            data@,
            spec_known_offsets(known_files@),
            start_offset as int,
            end_offset as int,
            shards as int,
            shards as nat,
        ),
{
    let ghost known = spec_known_offsets(known_files@);
    let mut found: Vec<DeletedFileType> = Vec::new();
    let mut shard: u64 = 0;
    proof {
        assert(spec_found_views(found@) =~= Seq::<DeletedFileView>::empty());
    }
    while shard < shards
        invariant
            partition.wf(),
            start_offset <= end_offset,
            shard <= shards,
            known == spec_known_offsets(known_files@),
            spec_found_views(found@) == spec_scan_shards(
                partition@,
                data@,
                known,
                start_offset as int,
                end_offset as int,
                shards as int,
                shard as nat,
            ),
        decreases shards - shard,
    {
        let mut part: Vec<DeletedFileType> = scan_shard(
            data,
            start_offset,
            end_offset,
            shards,
            shard,
            known_files,
            partition,
        );
        proof {
            assert(spec_found_views(found@ + part@) =~= spec_found_views(found@)
                + spec_found_views(part@));
        }
        found.append(&mut part);
        shard += 1;
    }
    found
}

/// Scans the range from `start_offset` to `end_offset` of the image `data`
/// for the records of deleted files and for container signatures.
/// `known_files` are the live entries: a signature at the offset of one of
/// them is no find.
///
/// The range is split into `SHARD_COUNT` shards of equal length, each of
/// which starts at a multiple of 16. The finds of the shards follow one
/// another.
pub fn find_deleted_files(
    data: &[u8],
    start_offset: u64,
    end_offset: u64,
    known_files: &[Entry],
    partition: &Partition,
) -> (found: Vec<DeletedFileType>)
    requires
        partition.wf(),
        start_offset <= end_offset,
    ensures
        spec_found_views(found@) == spec_find_deleted(
            partition@,
            data@,
            spec_known_offsets(known_files@),
            start_offset as int,
            end_offset as int,
        ),
{
    find_deleted_files_in(data, start_offset, end_offset, SHARD_COUNT, known_files, partition)
}

} // verus!

//! The entries that directory records describe.

use vstd::prelude::*;

use crate::attributes::{spec_decode_attributes, spec_is_directory, EntryAttributes, ATTR_DIRECTORY};
use crate::chain::{contiguous_chain, retain_in_image, spec_entry_chain};
use crate::cursor::be_u32;
use crate::errors::{DiskError, IoErrorKind};
use crate::partition::{spec_indices, Partition, PartitionView};
use crate::record::{
    lemma_name_end_bounds, lemma_name_end_found, lemma_record_fields, name_allowed,
    recovered_name_len, spec_allowed_name_byte, spec_ends_name, spec_name_allowed,
    spec_name_field, spec_record_bytes, spec_record_first_cluster,
    spec_record_name_len, spec_record_size, DELETED_FILE_FLAG, ENTRY_SIZE, MAX_FILENAME_LEN,
    MAX_FILE_SIZE, NAME_FIELD_END, NAME_FIELD_START, SIZE_FIELD_END, SIZE_FIELD_START,
};
use crate::text::{ascii_string, spec_ascii_chars};

verus! {

/// An entry as the contracts see it.
pub struct EntryView {
    /// Where the entry's record lies in the image.
    pub offset: int,
    pub is_deleted: bool,
    pub name: Seq<char>,
    /// The file's size in bytes.
    pub size: int,
    pub first_cluster: int,
    /// The attribute set, as the bits of one byte.
    pub attributes: u8,
    /// The clusters that hold the contents, in order.
    pub cluster_chain: Seq<int>,
}

/// What a directory record turned out to be.
pub enum ParsedRecordView {
    /// The record ends its directory.
    Terminator,
    /// The record holds no entry; the records after it may.
    Skipped,
    Entry(EntryView),
}

/// What the record `record`, found at `offset` in the image, turns out to be.
/// The rules are tried in this order.
pub open spec fn spec_parse_record(partition: PartitionView, record: Seq<u8>, offset: int) -> Result<
    ParsedRecordView,
    DiskError,
> {
    let name_len = spec_record_name_len(record);
    let is_deleted = record[0] == DELETED_FILE_FLAG;
    let first_cluster = spec_record_first_cluster(record);
    let size = spec_record_size(record);
    if record.len() < ENTRY_SIZE {
        Err(DiskError::IoError(IoErrorKind::UnexpectedEof))
    } else if record[0] == 0x00 || record[0] == 0xFF {
        Ok(ParsedRecordView::Terminator)
    } else if name_len == 0 {
        Ok(ParsedRecordView::Terminator)
    } else if name_len > MAX_FILENAME_LEN {
        Ok(ParsedRecordView::Skipped)
    } else if !spec_name_allowed(spec_name_field(record), name_len) {
        Ok(ParsedRecordView::Skipped)
    } else if size > MAX_FILE_SIZE {
        Ok(ParsedRecordView::Skipped)
    } else {
        match spec_entry_chain(partition, is_deleted, first_cluster, size) {
            Err(e) => Err(e),
            Ok(cluster_chain) => Ok(
                ParsedRecordView::Entry(
                    EntryView {
                        offset,
                        is_deleted,
                        name: spec_ascii_chars(spec_name_field(record).subrange(0, name_len)),
                        size,
                        first_cluster,
                        attributes: spec_decode_attributes(record[1]),
                        cluster_chain,
                    },
                ),
            ),
        }
    }
}

/// The entry with the given fields and the cluster chain that the partition
/// gives it, or the error of reading that chain.
pub open spec fn spec_entry_of(
    partition: PartitionView,
    offset: int,
    is_deleted: bool,
    attributes: u8,
    name: Seq<u8>,
    first_cluster: int,
    size: int,
) -> Result<ParsedRecordView, DiskError> {
    match spec_entry_chain(partition, is_deleted, first_cluster, size) {
        Err(e) => Err(e),
        Ok(cluster_chain) => Ok(
            ParsedRecordView::Entry(
                EntryView {
                    offset,
                    is_deleted,
                    name: spec_ascii_chars(name),
                    size,
                    first_cluster,
                    attributes: spec_decode_attributes(attributes),
                    cluster_chain,
                },
            ),
        ),
    }
}

/// Whether a character may stand in a file name.
pub open spec fn spec_allowed_name_char(c: char) -> bool {
    (c as int) < 0x80 && spec_allowed_name_byte(c as u8)
}

/// What holds of every entry that a record parses to: its name has between
/// one and `MAX_FILENAME_LEN` characters, all of them allowed, and its size
/// is at most `MAX_FILE_SIZE`.
pub open spec fn spec_valid_parsed_entry(entry: EntryView) -> bool {
    &&& 1 <= entry.name.len() <= MAX_FILENAME_LEN
    &&& forall|i: int|
        0 <= i < entry.name.len() ==> spec_allowed_name_char(#[trigger] entry.name[i])
    &&& 0 <= entry.size <= MAX_FILE_SIZE
}

/// The entry that stands for the root directory of a partition.
pub open spec fn spec_root_entry(partition: PartitionView) -> Result<EntryView, DiskError> {
    match partition.chain_from(partition.root_cluster) {
        Err(e) => Err(e),
        Ok(cluster_chain) => Ok(
            EntryView {
                offset: partition.data_region_offset,
                is_deleted: false,
                name: Seq::empty(),
                size: 0,
                first_cluster: partition.root_cluster,
                attributes: ATTR_DIRECTORY,
                cluster_chain,
            },
        ),
    }
}

/// Every entry that a record parses to has a name of between one and
/// `MAX_FILENAME_LEN` allowed characters and a size of at most
/// `MAX_FILE_SIZE`.
pub proof fn lemma_parsed_entry_valid(
    partition: PartitionView,
    record: Seq<u8>,
    offset: int,
    entry: EntryView,
)
    requires
        spec_parse_record(partition, record, offset) == Ok::<ParsedRecordView, DiskError>(
            ParsedRecordView::Entry(entry),
        ),
    ensures
        spec_valid_parsed_entry(entry),
{
    let field = spec_name_field(record);
    if record[0] == DELETED_FILE_FLAG {
        lemma_name_end_bounds(field, 0);
    }
    assert forall|i: int| 0 <= i < entry.name.len() implies spec_allowed_name_char(
        #[trigger] entry.name[i],
    ) by {
        assert(spec_allowed_name_byte(field[i]));
        assert(entry.name[i] == field[i] as char);
    }
}

/// The record of a live file parses to the entry it was made from: the name,
/// the attributes, the first cluster and the size are those written, and the
/// cluster chain is the one that the allocation table gives.
pub proof fn lemma_live_record_round_trip(
    partition: PartitionView,
    offset: int,
    attributes: u8,
    name: Seq<u8>,
    first_cluster: u32,
    size: u32,
    tail: Seq<u8>,
)
    requires
        1 <= name.len() <= MAX_FILENAME_LEN,
        spec_name_allowed(name, name.len() as int),
        tail.len() == 12,
    ensures
        spec_parse_record(
            partition,
            spec_record_bytes(name.len() as u8, attributes, name, first_cluster, size, tail),
            offset,
        ) == spec_entry_of(
            partition,
            offset,
            false,
            attributes,
            name,
            first_cluster as int,
            size as int,
        ),
{
    let flag = name.len() as u8;
    let record = spec_record_bytes(flag, attributes, name, first_cluster, size, tail);
    lemma_record_fields(flag, attributes, name, first_cluster, size, tail);
    let field = spec_name_field(record);
    assert forall|i: int| 0 <= i < name.len() implies spec_allowed_name_byte(
        #[trigger] field[i],
    ) by {
        assert(field[i] == name[i]);
    }
    assert(field.subrange(0, name.len() as int) =~= name);
}

/// The record of a deleted file parses to the entry it was made from, with
/// the name recovered from the name field and the cluster chain taken to be
/// contiguous. The name is shorter than the field, so that a byte ends it.
pub proof fn lemma_deleted_record_round_trip(
    partition: PartitionView,
    offset: int,
    attributes: u8,
    name: Seq<u8>,
    first_cluster: u32,
    size: u32,
    tail: Seq<u8>,
)
    requires
        1 <= name.len() < MAX_FILENAME_LEN,
        spec_name_allowed(name, name.len() as int),
        tail.len() == 12,
    ensures
        spec_parse_record(
            partition,
            spec_record_bytes(DELETED_FILE_FLAG, attributes, name, first_cluster, size, tail),
            offset,
        ) == spec_entry_of(
            partition,
            offset,
            true,
            attributes,
            name,
            first_cluster as int,
            size as int,
        ),
{
    let record = spec_record_bytes(DELETED_FILE_FLAG, attributes, name, first_cluster, size, tail);
    lemma_record_fields(DELETED_FILE_FLAG, attributes, name, first_cluster, size, tail);
    let field = spec_name_field(record);
    assert forall|i: int| 0 <= i < name.len() implies spec_allowed_name_byte(
        #[trigger] field[i],
    ) && !spec_ends_name(field[i]) by {
        assert(field[i] == name[i]);
    }
    assert(field[name.len() as int] == 0xFF);
    lemma_name_end_found(field, 0, name.len() as int);
    assert(field.subrange(0, name.len() as int) =~= name);
}

/// The record of a deleted file whose name field starts with a byte that
/// ends the name holds no entry: it is a terminator.
pub proof fn lemma_deleted_record_without_name(
    partition: PartitionView,
    record: Seq<u8>,
    offset: int,
)
    requires
        record.len() >= ENTRY_SIZE,
        record[0] == DELETED_FILE_FLAG,
        spec_ends_name(record[2]),
    ensures
        spec_parse_record(partition, record, offset) == Ok::<ParsedRecordView, DiskError>(
            ParsedRecordView::Terminator,
        ),
{
    let field = spec_name_field(record);
    assert(field[0] == record[2]);
}

/// A file or directory that a directory record describes.
#[derive(Debug)]
pub struct Entry {
    offset: u64,
    is_deleted: bool,
    name: String,
    size: usize,
    block: usize,
    attr: EntryAttributes,
    block_chain: Vec<usize>,
}

impl View for Entry {
    type V = EntryView;

    closed spec fn view(&self) -> EntryView {
        EntryView {
            offset: self.offset as int,
            is_deleted: self.is_deleted,
            name: self.name@,
            size: self.size as int,
            first_cluster: self.block as int,
            attributes: self.attr@,
            cluster_chain: spec_indices(self.block_chain@),
        }
    }
}

impl Clone for Entry {
    fn clone(&self) -> (copy: Entry)
        ensures
            copy@ == self@,
    {
        let block_chain: Vec<usize> = self.block_chain.clone();
        proof {
            assert(block_chain@ =~= self.block_chain@);
        }
        Entry {
            offset: self.offset,
            is_deleted: self.is_deleted,
            name: self.name.clone(),
            size: self.size,
            block: self.block,
            attr: self.attr,
            block_chain,
        }
    }
}

/// What a directory record turned out to be.
#[derive(Debug)]
pub enum ParsedRecord {
    /// The record ends its directory.
    Terminator,
    /// The record holds no entry; the records after it may.
    Skipped,
    Entry(Entry),
}

impl View for ParsedRecord {
    type V = ParsedRecordView;

    open spec fn view(&self) -> ParsedRecordView {
        match self {
            ParsedRecord::Terminator => ParsedRecordView::Terminator,
            ParsedRecord::Skipped => ParsedRecordView::Skipped,
            ParsedRecord::Entry(e) => ParsedRecordView::Entry(e@),
        }
    }
}

/// What a parse returned, with the entry as the contracts see it.
pub open spec fn spec_parsed_result(r: Result<ParsedRecord, DiskError>) -> Result<
    ParsedRecordView,
    DiskError,
> {
    match r {
        Ok(parsed) => Ok(parsed@),
        Err(e) => Err(e),
    }
}

impl Entry {
    /// The entry that stands for the root directory of `partition`.
    pub fn new_root(partition: &Partition) -> (r: Result<Entry, DiskError>)
        requires
            partition.wf(),
        ensures
            match r {
                Ok(entry) => spec_root_entry(partition@) == Ok::<EntryView, DiskError>(entry@),
                Err(e) => spec_root_entry(partition@) == Err::<EntryView, DiskError>(e),
            },
    {
        match partition.block_chain_from_root(partition.root_cluster()) {
            Err(e) => Err(e),
            Ok(block_chain) => Ok(
                Entry {
                    offset: partition.data_start(),
                    is_deleted: false,
                    name: String::new(),
                    size: 0,
                    block: partition.root_cluster(),
                    attr: EntryAttributes::directory(),
                    block_chain,
                },
            ),
        }
    }

    /// Decodes the directory record `data`, which was found `offset` bytes
    /// into the image.
    pub fn parse(partition: &Partition, data: &[u8], offset: u64) -> (r: Result<
        ParsedRecord,
        DiskError,
    >)
        requires
            partition.wf(),
        ensures
            spec_parsed_result(r) == spec_parse_record(partition@, data@, offset as int),
            r matches Ok(ParsedRecord::Entry(entry)) ==> spec_valid_parsed_entry(entry@),
    {
        if data.len() < ENTRY_SIZE {
            return Err(DiskError::unexpected_eof());
        }
        let flag: u8 = data[0];
        if flag == 0x00 || flag == 0xFF {
            return Ok(ParsedRecord::Terminator);
        }
        let is_deleted: bool = flag == DELETED_FILE_FLAG;
        let field: &[u8] = &data[NAME_FIELD_START..NAME_FIELD_END];
        let name_len: usize = if is_deleted {
            recovered_name_len(field)
        } else {
            flag as usize
        };
        if name_len == 0 {
            return Ok(ParsedRecord::Terminator);
        }
        if name_len > MAX_FILENAME_LEN {
            return Ok(ParsedRecord::Skipped);
        }
        let name_bytes: &[u8] = &field[0..name_len];
        proof {
            assert forall|i: int| 0 <= i < name_len implies name_bytes@[i] == field@[i] by {}
        }
        if !name_allowed(name_bytes) {
            return Ok(ParsedRecord::Skipped);
        }
        let first: u32 = be_u32(&data[NAME_FIELD_END..SIZE_FIELD_START]);
        let size: u32 = be_u32(&data[SIZE_FIELD_START..SIZE_FIELD_END]);
        if size as u64 > MAX_FILE_SIZE {
            return Ok(ParsedRecord::Skipped);
        }
        let block_chain: Vec<usize> = if is_deleted {
            contiguous_chain(partition, first, size)
        } else {
            match partition.block_chain_from_root(first as usize) {
                Ok(chain) => retain_in_image(partition, &chain),
                Err(e) => {
                    return Err(e);
                },
            }
        };
        let entry = Entry {
            offset,
            is_deleted,
            name: ascii_string(name_bytes),
            size: size as usize,
            block: first as usize,
            attr: EntryAttributes::decode(data[1]),
            block_chain,
        };
        proof {
            lemma_parsed_entry_valid(partition@, data@, offset as int, entry@);
        }
        Ok(ParsedRecord::Entry(entry))
    }

    /// Where the entry's record lies in the image.
    pub fn offset(&self) -> (r: u64)
        ensures
            r == self@.offset,
    {
        self.offset
    }

    pub fn name(&self) -> (r: &str)
        ensures
            r@ == self@.name,
    {
        self.name.as_str()
    }

    /// The file's size in bytes.
    pub fn size(&self) -> (r: usize)
        ensures
            r == self@.size,
    {
        self.size
    }

    pub fn first_cluster(&self) -> (r: usize)
        ensures
            r == self@.first_cluster,
    {
        self.block
    }

    pub fn attributes(&self) -> (r: EntryAttributes)
        ensures
            r@ == self@.attributes,
    {
        self.attr
    }

    /// Whether the record was that of a deleted file.
    pub fn is_deleted(&self) -> (r: bool)
        ensures
            r == self@.is_deleted,
    {
        self.is_deleted
    }

    /// Whether the entry is a directory.
    pub fn is_dir(&self) -> (r: bool)
        ensures
            r == spec_is_directory(self@.attributes),
    {
        self.attr.is_directory()
    }

    /// The clusters that hold the contents, in order.
    pub fn block_chain(&self) -> (r: &[usize])
        ensures
            spec_indices(r@) == self@.cluster_chain,
    {
        self.block_chain.as_slice()
    }
}

} // verus!

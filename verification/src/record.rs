//! The layout of a directory record: 64 bytes that hold a name, attributes,
//! a first cluster and a size.

use vstd::prelude::*;

use crate::cursor::spec_be_u32;

verus! {

/// Bytes in a directory record.
pub const ENTRY_SIZE: usize = 0x40;

/// The name-length byte of a record whose file was deleted.
pub const DELETED_FILE_FLAG: u8 = 0xE5;

/// The longest name a record can hold, in bytes.
pub const MAX_FILENAME_LEN: usize = 0x2A;

/// The largest file size a record may give: 4 GiB.
pub const MAX_FILE_SIZE: u64 = 0x1_0000_0000;

/// Where the name field of a record starts.
pub const NAME_FIELD_START: usize = 0x02;

/// Where the name field of a record ends and its first cluster starts.
pub const NAME_FIELD_END: usize = 0x2C;

/// Where the size of a record starts.
pub const SIZE_FIELD_START: usize = 0x30;

/// Where the size of a record ends.
pub const SIZE_FIELD_END: usize = 0x34;

/// Whether a byte may stand in a file name.
pub open spec fn spec_allowed_name_byte(b: u8) -> bool {
    ||| b == 0x20
    ||| b == 0x24
    ||| b == 0x2E
    ||| 0x30 <= b <= 0x39
    ||| 0x41 <= b <= 0x5A
    ||| b == 0x5F
    ||| 0x61 <= b <= 0x7A
}

/// Whether each of the first `len` bytes of `field` may stand in a file name.
pub open spec fn spec_name_allowed(field: Seq<u8>, len: int) -> bool {
    forall|i: int| 0 <= i < len ==> spec_allowed_name_byte(#[trigger] field[i])
}

/// Whether a byte ends the name in a name field.
pub open spec fn spec_ends_name(b: u8) -> bool {
    b == 0xFF || b == 0x00
}

/// The index of the first byte of `field` at or after `from` that ends the
/// name, or the length of `field` where there is none.
pub open spec fn spec_name_end(field: Seq<u8>, from: int) -> int
    decreases field.len() - from,
{
    if from < 0 || from >= field.len() {
        field.len() as int
    } else if spec_ends_name(field[from]) {
        from
    } else {
        spec_name_end(field, from + 1)
    }
}

/// The name length of a deleted record, whose name-length byte was
/// overwritten: the index of the first byte of the name field that ends the
/// name, and the field's last index where no byte does.
pub open spec fn spec_recovered_name_len(field: Seq<u8>) -> int {
    let end = spec_name_end(field, 0);
    if end < field.len() - 1 {
        end
    } else {
        field.len() - 1
    }
}

/// The name field of a record.
pub open spec fn spec_name_field(record: Seq<u8>) -> Seq<u8> {
    record.subrange(0x02, 0x2C)
}

/// The first cluster that a record gives.
pub open spec fn spec_record_first_cluster(record: Seq<u8>) -> int {
    spec_be_u32(record.subrange(0x2C, 0x30))
}

/// The file size that a record gives.
pub open spec fn spec_record_size(record: Seq<u8>) -> int {
    spec_be_u32(record.subrange(0x30, 0x34))
}

/// The length of the name that a record of at least `ENTRY_SIZE` bytes holds.
pub open spec fn spec_record_name_len(record: Seq<u8>) -> int {
    if record[0] == DELETED_FILE_FLAG {
        spec_recovered_name_len(spec_name_field(record))
    } else {
        record[0] as int
    }
}

/// The four bytes of a number, the most significant first.
pub open spec fn spec_u32_be_bytes(value: u32) -> Seq<u8> {
    seq![
        (value / 0x100_0000) as u8,
        (value / 0x1_0000 % 0x100) as u8,
        (value / 0x100 % 0x100) as u8,
        (value % 0x100) as u8,
    ]
}

/// The name field that holds `name`: the name, then bytes 0xFF up to the
/// field's length.
pub open spec fn spec_padded_name(name: Seq<u8>) -> Seq<u8> {
    name + Seq::new((MAX_FILENAME_LEN - name.len()) as nat, |i: int| 0xFFu8)
}

/// The bytes of a record with the given fields. `tail` stands for the twelve
/// bytes after the size, which hold time stamps.
pub open spec fn spec_record_bytes(
    flag: u8,
    attributes: u8,
    name: Seq<u8>,
    first_cluster: u32,
    size: u32,
    tail: Seq<u8>,
) -> Seq<u8> {
    seq![flag, attributes] + spec_padded_name(name) + spec_u32_be_bytes(first_cluster)
        + spec_u32_be_bytes(size) + tail
}

/// The end of a name lies between where the search starts and the end of
/// the field.
pub proof fn lemma_name_end_bounds(field: Seq<u8>, from: int)
    requires
        0 <= from <= field.len(),
    ensures
        from <= spec_name_end(field, from) <= field.len(),
    decreases field.len() - from,
{
    if from < field.len() && !spec_ends_name(field[from]) {
        lemma_name_end_bounds(field, from + 1);
    }
}

/// No byte before the end of a name ends the name, and the byte at the end
/// does, unless the end is that of the field.
pub proof fn lemma_name_end_is_first(field: Seq<u8>, from: int)
    requires
        0 <= from <= field.len(),
    ensures
        forall|j: int| from <= j < spec_name_end(field, from) ==> !spec_ends_name(#[trigger] field[j]),
        spec_name_end(field, from) < field.len() ==> spec_ends_name(
            field[spec_name_end(field, from)],
        ),
    decreases field.len() - from,
{
    if from < field.len() && !spec_ends_name(field[from]) {
        lemma_name_end_is_first(field, from + 1);
    }
}

/// The end of a name is the index `end` if the byte there ends the name and
/// no byte from `from` up to it does.
pub proof fn lemma_name_end_found(field: Seq<u8>, from: int, end: int)
    requires
        0 <= from <= end < field.len(),
        forall|j: int| from <= j < end ==> !spec_ends_name(#[trigger] field[j]),
        spec_ends_name(field[end]),
    ensures
        spec_name_end(field, from) == end,
    decreases end - from,
{
    if from < end {
        lemma_name_end_found(field, from + 1, end);
    }
}

/// Four bytes made from a number read back as that number.
pub proof fn lemma_u32_be_bytes_round_trip(value: u32)
    ensures
        spec_be_u32(spec_u32_be_bytes(value)) == value,
        spec_u32_be_bytes(value).len() == 4,
{
}

/// A record made from fields gives those fields back.
pub proof fn lemma_record_fields(
    flag: u8,
    attributes: u8,
    name: Seq<u8>,
    first_cluster: u32,
    size: u32,
    tail: Seq<u8>,
)
    requires
        name.len() <= MAX_FILENAME_LEN,
        tail.len() == 12,
    ensures
        spec_record_bytes(flag, attributes, name, first_cluster, size, tail).len() == ENTRY_SIZE,
        spec_record_bytes(flag, attributes, name, first_cluster, size, tail)[0] == flag,
        spec_record_bytes(flag, attributes, name, first_cluster, size, tail)[1] == attributes,
        spec_name_field(spec_record_bytes(flag, attributes, name, first_cluster, size, tail))
            == spec_padded_name(name),
        spec_record_first_cluster(
            spec_record_bytes(flag, attributes, name, first_cluster, size, tail),
        ) == first_cluster,
        spec_record_size(spec_record_bytes(flag, attributes, name, first_cluster, size, tail))
            == size,
{
    let record = spec_record_bytes(flag, attributes, name, first_cluster, size, tail);
    lemma_u32_be_bytes_round_trip(first_cluster);
    lemma_u32_be_bytes_round_trip(size);
    assert(spec_name_field(record) =~= spec_padded_name(name));
    assert(record.subrange(0x2C, 0x30) =~= spec_u32_be_bytes(first_cluster));
    assert(record.subrange(0x30, 0x34) =~= spec_u32_be_bytes(size));
}

/// Whether a byte may stand in a file name.
pub fn allowed_name_byte(b: u8) -> (ok: bool)
    ensures
        ok == spec_allowed_name_byte(b),
{
    b == 0x20 || b == 0x24 || b == 0x2E || (0x30 <= b && b <= 0x39) || (0x41 <= b && b <= 0x5A) || b
        == 0x5F || (0x61 <= b && b <= 0x7A)
}

/// Whether every byte of `name` may stand in a file name.
pub fn name_allowed(name: &[u8]) -> (ok: bool)
    ensures
        ok == spec_name_allowed(name@, name@.len() as int),
{
    let mut i: usize = 0;
    while i < name.len()
        invariant
            i <= name@.len(),
            spec_name_allowed(name@, i as int),
        decreases name@.len() - i,
    {
        if !allowed_name_byte(name[i]) {
            return false;
        }
        i += 1;
    }
    true
}

/// The name length of a deleted record, from its name field.
pub fn recovered_name_len(field: &[u8]) -> (len: usize)
    requires
        field@.len() >= 1,
    ensures
        len == spec_recovered_name_len(field@),
{
    let last: usize = field.len() - 1;
    let mut i: usize = 0;
    while i < last && field[i] != 0xFF && field[i] != 0x00
        invariant
            last == field@.len() - 1,
            i <= last,
            spec_name_end(field@, 0) == spec_name_end(field@, i as int),
        decreases last - i,
    {
        i += 1;
    }
    proof {
        if i == last {
            if !spec_ends_name(field@[i as int]) {
                assert(spec_name_end(field@, i + 1) == field@.len());
            }
        }
    }
    i
}

} // verus!

//! The arithmetic that lays a volume out: cluster size, allocation-table
//! entry width, and the size of the allocation table.

use vstd::arithmetic::power2::{lemma2_to64, lemma_pow2_strictly_increases, pow2};
use vstd::bits::{lemma_u32_shl_is_mul, lemma_u32_shr_is_div, lemma_u64_shr_is_div};
use vstd::prelude::*;
use vstd::std_specs::bits::axiom_u32_leading_zeros;

verus! {

/// Bytes in a sector.
pub const SECTOR_SIZE: u64 = 0x200;

/// Bytes from the start of a partition to its allocation table; the table's
/// size is a multiple of it as well.
pub const FAT_TABLE_OFFSET: u64 = 0x1000;

/// The most sectors a cluster can have with its size still a `u32`.
pub const MAX_SECTORS_PER_CLUSTER: u32 = 0x40_0000;

/// The entry count from which on the allocation table has 32-bit entries.
pub const FAT32_THRESHOLD: u64 = 0xFFF0;

/// Bytes in a cluster of `sectors_per_cluster` sectors.
pub open spec fn spec_cluster_size(sectors_per_cluster: int) -> int {
    sectors_per_cluster * 0x200
}

/// Whether a superblock may name this many sectors per cluster: the cluster
/// size has to be a power of two that a `u32` holds.
pub open spec fn spec_valid_sectors_per_cluster(sectors_per_cluster: int) -> bool {
    exists|shift: nat|
        9 <= shift <= 31 && spec_cluster_size(sectors_per_cluster) == #[trigger] pow2(shift)
}

/// How many entries the allocation table of a partition of `length` bytes has.
pub open spec fn spec_entry_count(length: int, cluster_size: int) -> int {
    length / cluster_size + 1
}

/// Bytes in one entry of an allocation table of `entry_count` entries.
pub open spec fn spec_entry_width(entry_count: int) -> int {
    if entry_count < 0xFFF0 {
        2
    } else {
        4
    }
}

/// `x` rounded up to a multiple of 0x1000.
pub open spec fn spec_align_up(x: int) -> int {
    (x + 0xFFF) / 0x1000 * 0x1000
}

/// Bytes the allocation table takes: its entries, rounded up to a multiple
/// of 0x1000, of which the low 32 bits are kept.
pub open spec fn spec_alloc_table_size(entry_count: int) -> int {
    spec_align_up(entry_count * spec_entry_width(entry_count)) % 0x1_0000_0000
}

/// The width of the entries of an allocation table.
#[derive(Debug, Clone, Copy, PartialEq, Eq, Structural)]
pub enum EntrySize {
    Fat16,
    Fat32,
}

impl EntrySize {
    /// Bytes in one entry.
    pub open spec fn spec_width(self) -> int {
        match self {
            EntrySize::Fat16 => 2,
            EntrySize::Fat32 => 4,
        }
    }

    /// Bytes in one entry.
    pub fn width(&self) -> (w: u64)
        ensures
            w == self.spec_width(),
    {
        match self {
            EntrySize::Fat16 => 2,
            EntrySize::Fat32 => 4,
        }
    }
}

/// The sector counts that a superblock may name are those from 1 to
/// `MAX_SECTORS_PER_CLUSTER`, and their clusters have 512 bytes or more.
pub proof fn lemma_valid_sectors_bounds(sectors_per_cluster: int)
    requires
        spec_valid_sectors_per_cluster(sectors_per_cluster),
    ensures
        1 <= sectors_per_cluster <= 0x40_0000,
        0x200 <= spec_cluster_size(sectors_per_cluster) <= 0x8000_0000,
{
    let shift = choose|shift: nat|
        9 <= shift <= 31 && spec_cluster_size(sectors_per_cluster) == #[trigger] pow2(shift);
    lemma2_to64();
    if shift > 9 {
        lemma_pow2_strictly_increases(9, shift);
    }
    if shift < 31 {
        lemma_pow2_strictly_increases(shift, 31);
    }
}

/// A cluster size between two neighbouring powers of two is the lower one
/// or no power of two at all.
proof fn lemma_pow2_between(size: int, shift: nat, other: nat)
    requires
        pow2(shift) <= size < pow2(shift + 1),
        size == pow2(other),
    ensures
        other == shift,
{
    if other < shift {
        lemma_pow2_strictly_increases(other, shift);
    } else if other > shift {
        if other > shift + 1 {
            lemma_pow2_strictly_increases(shift + 1, other);
        }
    }
}

/// The base-2 logarithm of the cluster size, for the sector counts that a
/// superblock may name.
pub fn cluster_shift(sectors_per_cluster: u32) -> (r: Option<u32>)
    ensures
        r.is_some() == spec_valid_sectors_per_cluster(sectors_per_cluster as int),
        r matches Some(shift) ==> 9 <= shift <= 31 && spec_cluster_size(sectors_per_cluster as int)
            == pow2(shift as nat),
{
    proof {
        lemma2_to64();
    }
    if sectors_per_cluster == 0 || sectors_per_cluster > MAX_SECTORS_PER_CLUSTER {
        proof {
            if spec_valid_sectors_per_cluster(sectors_per_cluster as int) {
                let k = choose|k: nat|
                    9 <= k <= 31 && spec_cluster_size(sectors_per_cluster as int) == #[trigger] pow2(
                        k,
                    );
                if k < 31 {
                    lemma_pow2_strictly_increases(k, 31);
                }
                lemma_pow2_strictly_increases(0, k);
            }
        }
        return None;
    }
    let size: u32 = sectors_per_cluster * 0x200;
    let zeros: u32 = size.leading_zeros();
    proof {
        axiom_u32_leading_zeros(size);
    }
    let shift: u32 = 31 - zeros;
    proof {
        lemma_pow2_strictly_increases(shift as nat, 32);
        lemma_u32_shl_is_mul(1u32, shift);
    }
    let bit: u32 = 1u32 << shift;
    if size != bit {
        proof {
            if spec_valid_sectors_per_cluster(sectors_per_cluster as int) {
                let k = choose|k: nat|
                    9 <= k <= 31 && spec_cluster_size(sectors_per_cluster as int) == #[trigger] pow2(
                        k,
                    );
                let top: u32 = size >> shift;
                assert(top & 1u32 != 0u32);
                assert(top >= 1) by (bit_vector)
                    requires
                        top & 1u32 != 0u32,
                ;
                lemma_u32_shr_is_div(size, shift);
                vstd::arithmetic::power2::lemma_pow2_pos(shift as nat);
                assert(size >= pow2(shift as nat)) by (nonlinear_arith)
                    requires
                        size as nat / pow2(shift as nat) >= 1,
                        pow2(shift as nat) > 0,
                ;
                if shift < 31 {
                    let next: u32 = (shift + 1) as u32;
                    assert(size >> next == 0);
                    lemma_u32_shr_is_div(size, next);
                    vstd::arithmetic::power2::lemma_pow2_pos(next as nat);
                    assert(size < pow2(next as nat)) by (nonlinear_arith)
                        requires
                            size as nat / pow2(next as nat) == 0,
                            pow2(next as nat) > 0,
                    ;
                }
                lemma_pow2_between(size as int, shift as nat, k);
            }
        }
        return None;
    }
    proof {
        if shift < 9 {
            lemma_pow2_strictly_increases(shift as nat, 9);
        }
        assert(spec_cluster_size(sectors_per_cluster as int) == pow2(shift as nat));
    }
    Some(shift)
}

/// The number of allocation-table entries of a partition of `length` bytes
/// whose clusters have `2^shift` bytes.
pub fn entry_count(length: u64, shift: u32) -> (count: u64)
    requires
        9 <= shift <= 31,
    ensures
        count == spec_entry_count(length as int, pow2(shift as nat) as int),
        count <= 0x80_0000_0000_0000,
{
    proof {
        lemma_u64_shr_is_div(length, shift as u64);
        lemma2_to64();
        lemma_pow2_strictly_increases(8, shift as nat);
        assert(length as nat / pow2(shift as nat) <= 0x7F_FFFF_FFFF_FFFF) by (nonlinear_arith)
            requires
                pow2(shift as nat) >= 0x200,
                length <= 0xFFFF_FFFF_FFFF_FFFF,
        ;
    }
    (length >> (shift as u64)) + 1
}

/// The entry width of an allocation table of `count` entries.
pub fn entry_size(count: u64) -> (size: EntrySize)
    ensures
        size.spec_width() == spec_entry_width(count as int),
{
    if count < FAT32_THRESHOLD {
        EntrySize::Fat16
    } else {
        EntrySize::Fat32
    }
}

/// The size in bytes of an allocation table of `count` entries.
pub fn alloc_table_size(count: u64) -> (size: u64)
    requires
        count <= 0x80_0000_0000_0000,
    ensures
        size == spec_alloc_table_size(count as int),
        size <= 0xFFFF_F000,
        size % 0x1000 == 0,
{
    let width: u64 = entry_size(count).width();
    let bytes: u64 = count * width;
    let aligned: u64 = (bytes + 0xFFF) / 0x1000 * 0x1000;
    aligned % 0x1_0000_0000
}

} // verus!

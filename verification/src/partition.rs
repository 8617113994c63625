//! A partition of the image: its superblock, its allocation table and its
//! data clusters.

use vstd::arithmetic::div_mod::lemma_mod_multiples_basic;
use vstd::prelude::*;

use crate::cursor::{read_u16_be, read_u32_be, spec_read_u16_be, spec_read_u32_be};
use crate::errors::{DiskError, IoErrorKind};
use crate::geometry::{
    alloc_table_size, cluster_shift, entry_count, entry_size, lemma_valid_sectors_bounds,
    spec_alloc_table_size, spec_cluster_size, spec_entry_count, spec_entry_width,
    spec_valid_sectors_per_cluster, EntrySize, FAT_TABLE_OFFSET,
};

verus! {

/// The four bytes `XTAF` that open a superblock, read as a big-endian number.
pub const XTAF_MAGIC: u32 = 0x5854_4146;

/// An upper bound on the bytes that lie between the start of a partition and
/// its first data cluster.
pub const MAX_TABLE_SPAN: u64 = 0x1_0000_1000;

/// A partition as the contracts see it.
pub struct PartitionView {
    /// The whole image that the partition lies in.
    pub image: Seq<u8>,
    pub name: Seq<char>,
    /// Where the partition starts in the image, in bytes.
    pub start_offset: int,
    /// The partition's length in bytes.
    pub length: int,
    pub sectors_per_cluster: int,
    /// The first cluster of the root directory.
    pub root_cluster: int,
    /// Bytes in one entry of the allocation table: 2 or 4.
    pub entry_width: int,
    /// Where the first data cluster starts in the image, in bytes.
    pub data_region_offset: int,
}

impl PartitionView {
    /// Bytes in a cluster.
    pub open spec fn cluster_size(self) -> int {
        spec_cluster_size(self.sectors_per_cluster)
    }

    /// Entries in the allocation table.
    pub open spec fn entry_count(self) -> int {
        spec_entry_count(self.length, self.cluster_size())
    }

    /// Where the allocation table starts in the image.
    pub open spec fn table_start(self) -> int {
        self.start_offset + 0x1000
    }

    /// Where the partition ends in the image.
    pub open spec fn end_offset(self) -> int {
        self.start_offset + self.length
    }

    /// Where cluster `index` starts in the image. Clusters count from 1.
    pub open spec fn cluster_offset(self, index: int) -> int {
        self.data_region_offset + (index - 1) * self.cluster_size()
    }

    /// Whether an allocation-table entry of this value ends a chain.
    pub open spec fn is_terminator(self, index: int) -> bool {
        if self.entry_width == 2 {
            index == 0 || index == 0xFFF8 || index == 0xFFFF
        } else {
            index == 0 || index == 0xFFFF_FFF8 || index == 0xFFFF_FFFF
        }
    }

    /// Where the allocation-table entry of cluster `index` lies in the image.
    pub open spec fn fat_entry_offset(self, index: int) -> int {
        self.table_start() + index * self.entry_width
    }

    /// The allocation-table entry of cluster `index`: the cluster that
    /// follows it, or a terminator. Reading outside the image is an error.
    pub open spec fn fat_entry(self, index: int) -> Result<int, DiskError> {
        if self.entry_width == 2 {
            match spec_read_u16_be(self.image, self.fat_entry_offset(index)) {
                Ok(v) => Ok(v as int),
                Err(e) => Err(e),
            }
        } else {
            match spec_read_u32_be(self.image, self.fat_entry_offset(index)) {
                Ok(v) => Ok(v as int),
                Err(e) => Err(e),
            }
        }
    }

    /// The most clusters a chain is followed for: the number of entries of
    /// the allocation table.
    pub open spec fn chain_limit(self) -> nat {
        self.entry_count() as nat
    }

    /// The chain that starts at `next`, followed for at most `budget`
    /// clusters: `next`, its allocation-table entry, that one's entry, and so
    /// on up to the first terminator.
    pub open spec fn walk(self, next: int, budget: nat) -> Result<Seq<int>, DiskError>
        decreases budget,
    {
        if budget == 0 || self.is_terminator(next) {
            Ok(Seq::empty())
        } else {
            match self.fat_entry(next) {
                Err(e) => Err(e),
                Ok(following) => spec_prepend(
                    seq![next],
                    self.walk(following, (budget - 1) as nat),
                ),
            }
        }
    }

    /// The cluster chain of the file or directory whose first cluster is
    /// `root`, cut off at `chain_limit` clusters.
    pub open spec fn chain_from(self, root: int) -> Result<Seq<int>, DiskError> {
        self.walk(root, self.chain_limit())
    }

    /// Whether the chain that starts at `next` comes to a terminator within
    /// `budget` clusters, with every allocation-table entry on the way read
    /// inside the image.
    pub open spec fn walk_reaches_end(self, next: int, budget: nat) -> bool
        decreases budget,
    {
        if self.is_terminator(next) {
            true
        } else if budget == 0 {
            false
        } else {
            match self.fat_entry(next) {
                Err(_) => false,
                Ok(following) => self.walk_reaches_end(following, (budget - 1) as nat),
            }
        }
    }

    /// Whether cluster `index` is a data cluster that starts inside the
    /// image or at its end.
    pub open spec fn cluster_in_image(self, index: int) -> bool {
        index >= 1 && self.cluster_offset(index) <= self.image.len()
    }

    /// The predicate `cluster_in_image`, as a value.
    pub open spec fn in_image_pred(self) -> spec_fn(int) -> bool {
        |index: int| self.cluster_in_image(index)
    }

    /// Whether all of cluster `index` can be read: it is a data cluster that
    /// starts no later than the partition ends and lies inside the image.
    pub open spec fn cluster_readable(self, index: int) -> bool {
        &&& index >= 1
        &&& self.cluster_offset(index) <= self.end_offset()
        &&& self.cluster_offset(index) + self.cluster_size() <= self.image.len()
    }

    /// The bytes of cluster `index`.
    pub open spec fn cluster_data(self, index: int) -> Seq<u8> {
        self.image.subrange(
            self.cluster_offset(index),
            self.cluster_offset(index) + self.cluster_size(),
        )
    }

    /// What holds of every partition that was decoded from an image.
    pub open spec fn wf(self) -> bool {
        &&& self.image.len() <= usize::MAX
        &&& 0 <= self.start_offset
        &&& 0 <= self.length
        &&& self.end_offset() <= self.image.len()
        &&& spec_valid_sectors_per_cluster(self.sectors_per_cluster)
        &&& 0 <= self.root_cluster <= u32::MAX
        &&& self.entry_width == spec_entry_width(self.entry_count())
        &&& self.data_region_offset == self.table_start() + spec_alloc_table_size(
            self.entry_count(),
        )
        &&& self.data_region_offset <= u64::MAX
    }
}

/// A chain with `prefix` put before it; an error stays what it is.
pub open spec fn spec_prepend(prefix: Seq<int>, rest: Result<Seq<int>, DiskError>) -> Result<
    Seq<int>,
    DiskError,
> {
    match rest {
        Ok(chain) => Ok(prefix + chain),
        Err(e) => Err(e),
    }
}

/// Cluster indices as mathematical integers.
pub open spec fn spec_indices(chain: Seq<usize>) -> Seq<int> {
    chain.map_values(|index: usize| index as int)
}

/// What a function that returns a chain or an error returned, with the
/// chain as mathematical integers.
pub open spec fn spec_chain_result(r: Result<Vec<usize>, DiskError>) -> Result<
    Seq<int>,
    DiskError,
> {
    match r {
        Ok(chain) => Ok(spec_indices(chain@)),
        Err(e) => Err(e),
    }
}

/// The partition that a valid superblock describes.
pub open spec fn spec_layout(
    image: Seq<u8>,
    name: Seq<char>,
    offset: int,
    length: int,
    sectors_per_cluster: int,
    root_cluster: int,
) -> PartitionView {
    let count = spec_entry_count(length, spec_cluster_size(sectors_per_cluster));
    PartitionView {
        image,
        name,
        start_offset: offset,
        length,
        sectors_per_cluster,
        root_cluster,
        entry_width: spec_entry_width(count),
        data_region_offset: offset + 0x1000 + spec_alloc_table_size(count),
    }
}

/// What decoding the partition of `length` bytes at `offset` gives: the
/// partition, or the first error in the order in which the checks are made.
pub open spec fn spec_decode_partition(
    image: Seq<u8>,
    offset: int,
    length: int,
    name: Seq<char>,
) -> Result<PartitionView, DiskError> {
    if image.len() < offset + length {
        Err(
            DiskError::InvalidDiskLength {
                expected: (offset + length) as u64,
                actual: image.len() as u64,
            },
        )
    } else {
        match spec_read_u32_be(image, offset) {
            Err(e) => Err(e),
            Ok(magic) => if magic != XTAF_MAGIC {
                Err(DiskError::InvalidFilesystemMagic { magic, offset: (offset + 4) as u64 })
            } else {
                match spec_read_u32_be(image, offset + 8) {
                    Err(e) => Err(e),
                    Ok(sectors) => match spec_read_u32_be(image, offset + 12) {
                        Err(e) => Err(e),
                        Ok(root) => if !spec_valid_sectors_per_cluster(sectors as int) {
                            Err(DiskError::IoError(IoErrorKind::InvalidData))
                        } else {
                            Ok(spec_layout(image, name, offset, length, sectors as int, root as int))
                        },
                    },
                }
            },
        }
    }
}

/// Every data cluster starts a whole number of clusters after the first one.
pub proof fn lemma_cluster_offset_aligned(partition: PartitionView, index: int)
    requires
        partition.wf(),
        index >= 1,
    ensures
        (partition.cluster_offset(index) - partition.data_region_offset)
            % partition.cluster_size() == 0,
{
    lemma_valid_sectors_bounds(partition.sectors_per_cluster);
    lemma_mod_multiples_basic(index - 1, partition.cluster_size());
}

/// A chain follows the allocation table: it starts with the cluster that it
/// was asked for, no cluster of it is a terminator, and the allocation-table
/// entry of each cluster is the cluster after it.
pub proof fn lemma_walk_follows_table(partition: PartitionView, start: int, budget: nat)
    requires
        partition.walk(start, budget) is Ok,
    ensures
        partition.walk(start, budget).unwrap().len() <= budget,
        partition.walk(start, budget).unwrap().len() > 0 ==> partition.walk(
            start,
            budget,
        ).unwrap()[0] == start,
        forall|i: int|
            0 <= i < partition.walk(start, budget).unwrap().len() ==> !partition.is_terminator(
                #[trigger] partition.walk(start, budget).unwrap()[i],
            ),
        forall|i: int|
            0 <= i < partition.walk(start, budget).unwrap().len() - 1 ==> partition.fat_entry(
                #[trigger] partition.walk(start, budget).unwrap()[i],
            ) == Ok::<int, DiskError>(partition.walk(start, budget).unwrap()[i + 1]),
    decreases budget,
{
    let chain = partition.walk(start, budget).unwrap();
    if budget > 0 && !partition.is_terminator(start) {
        let following = partition.fat_entry(start).unwrap();
        let rest = partition.walk(following, (budget - 1) as nat).unwrap();
        lemma_walk_follows_table(partition, following, (budget - 1) as nat);
        assert(chain =~= seq![start] + rest);
        assert forall|i: int| 0 <= i < chain.len() implies !partition.is_terminator(
            #[trigger] chain[i],
        ) by {
            if i > 0 {
                assert(chain[i] == rest[i - 1]);
            }
        }
        assert forall|i: int| 0 <= i < chain.len() - 1 implies partition.fat_entry(
            #[trigger] chain[i],
        ) == Ok::<int, DiskError>(chain[i + 1]) by {
            if i > 0 {
                assert(chain[i] == rest[i - 1]);
                assert(chain[i + 1] == rest[i]);
            } else {
                assert(chain[1] == rest[0]);
            }
        }
    }
}

/// A chain that comes to a terminator is read without error, and is no
/// longer than the budget.
pub proof fn lemma_walk_complete(partition: PartitionView, start: int, budget: nat)
    requires
        partition.walk_reaches_end(start, budget),
    ensures
        partition.walk(start, budget) is Ok,
        partition.walk(start, budget).unwrap().len() <= budget,
    decreases budget,
{
    if budget > 0 && !partition.is_terminator(start) {
        let following = partition.fat_entry(start).unwrap();
        lemma_walk_complete(partition, following, (budget - 1) as nat);
    }
}

/// A chain that comes to a terminator ends in a cluster whose
/// allocation-table entry is a terminator.
pub proof fn lemma_walk_ends_at_terminator(partition: PartitionView, start: int, budget: nat)
    requires
        partition.walk_reaches_end(start, budget),
        partition.walk(start, budget).unwrap().len() > 0,
    ensures
        partition.fat_entry(partition.walk(start, budget).unwrap().last()) is Ok,
        partition.is_terminator(
            partition.fat_entry(partition.walk(start, budget).unwrap().last()).unwrap(),
        ),
    decreases budget,
{
    lemma_walk_complete(partition, start, budget);
    let following = partition.fat_entry(start).unwrap();
    let rest = partition.walk(following, (budget - 1) as nat);
    lemma_walk_complete(partition, following, (budget - 1) as nat);
    let chain = partition.walk(start, budget).unwrap();
    assert(chain =~= seq![start] + rest.unwrap());
    if rest.unwrap().len() > 0 {
        lemma_walk_ends_at_terminator(partition, following, (budget - 1) as nat);
        assert(chain.last() == rest.unwrap().last());
    } else {
        assert(chain.last() == start);
        assert(partition.walk_reaches_end(following, (budget - 1) as nat));
        if !partition.is_terminator(following) {
            let beyond = partition.fat_entry(following).unwrap();
            lemma_walk_complete(partition, beyond, (budget - 2) as nat);
            assert(rest.unwrap() =~= seq![following] + partition.walk(
                beyond,
                (budget - 2) as nat,
            ).unwrap());
        }
    }
}

/// A chain that comes to a terminator is the same whatever the budget that
/// it was followed with.
pub proof fn lemma_walk_budget(partition: PartitionView, start: int, one: nat, other: nat)
    requires
        partition.walk_reaches_end(start, one),
        partition.walk_reaches_end(start, other),
    ensures
        partition.walk(start, one) == partition.walk(start, other),
    decreases one,
{
    if !partition.is_terminator(start) {
        let following = partition.fat_entry(start).unwrap();
        lemma_walk_budget(partition, following, (one - 1) as nat, (other - 1) as nat);
    }
}

/// From any of its clusters on, a chain that comes to a terminator is the
/// chain that starts at that cluster.
pub proof fn lemma_walk_suffix(partition: PartitionView, start: int, budget: nat, k: int)
    requires
        partition.walk_reaches_end(start, budget),
        0 <= k < partition.walk(start, budget).unwrap().len(),
    ensures
        k < budget,
        partition.walk_reaches_end(partition.walk(start, budget).unwrap()[k], (budget - k) as nat),
        partition.walk(partition.walk(start, budget).unwrap()[k], (budget - k) as nat) == Ok::<
            Seq<int>,
            DiskError,
        >(
            partition.walk(start, budget).unwrap().subrange(
                k,
                partition.walk(start, budget).unwrap().len() as int,
            ),
        ),
    decreases k,
{
    lemma_walk_complete(partition, start, budget);
    let chain = partition.walk(start, budget).unwrap();
    let following = partition.fat_entry(start).unwrap();
    lemma_walk_complete(partition, following, (budget - 1) as nat);
    let rest = partition.walk(following, (budget - 1) as nat).unwrap();
    assert(chain =~= seq![start] + rest);
    if k == 0 {
        assert(chain.subrange(0, chain.len() as int) =~= chain);
    } else {
        lemma_walk_suffix(partition, following, (budget - 1) as nat, k - 1);
        assert(chain[k] == rest[k - 1]);
        assert(chain.subrange(k, chain.len() as int) =~= rest.subrange(k - 1, rest.len() as int));
    }
}

/// No cluster occurs twice in a chain that comes to a terminator. So no two
/// clusters that follow one another in it are the same.
pub proof fn lemma_walk_no_duplicates(partition: PartitionView, start: int, budget: nat)
    requires
        partition.walk_reaches_end(start, budget),
    ensures
        partition.walk(start, budget).unwrap().no_duplicates(),
        forall|i: int|
            0 <= i < partition.walk(start, budget).unwrap().len() - 1 ==> partition.walk(
                start,
                budget,
            ).unwrap()[i] != #[trigger] partition.walk(start, budget).unwrap()[i + 1],
    decreases budget,
{
    lemma_walk_complete(partition, start, budget);
    let chain = partition.walk(start, budget).unwrap();
    if chain.len() > 0 {
        let following = partition.fat_entry(start).unwrap();
        let shorter = (budget - 1) as nat;
        lemma_walk_complete(partition, following, shorter);
        lemma_walk_no_duplicates(partition, following, shorter);
        let rest = partition.walk(following, shorter).unwrap();
        assert(chain =~= seq![start] + rest);
        assert forall|k: int| 0 <= k < rest.len() implies rest[k] != start by {
            if rest[k] == start {
                lemma_walk_suffix(partition, following, shorter, k);
                lemma_walk_budget(partition, start, (shorter - k) as nat, budget);
                assert(rest.subrange(k, rest.len() as int).len() == chain.len());
            }
        }
        assert forall|i: int, j: int| 0 <= i < chain.len() && 0 <= j < chain.len() && i
            != j implies chain[i] != chain[j] by {
            if i > 0 && j > 0 {
                assert(rest[i - 1] != rest[j - 1]);
            }
        }
    }
}

/// A partition of an image, with the geometry that its superblock gives.
pub struct Partition<'a> {
    offset: u64,
    len: usize,
    name: &'static str,
    data: &'a [u8],
    sectors_per_cluster: usize,
    root_dir_cluster: usize,
    entry_size: EntrySize,
    data_offset: u64,
}

impl<'a> View for Partition<'a> {
    type V = PartitionView;

    closed spec fn view(&self) -> PartitionView {
        PartitionView {
            image: self.data@,
            name: self.name@,
            start_offset: self.offset as int,
            length: self.len as int,
            sectors_per_cluster: self.sectors_per_cluster as int,
            root_cluster: self.root_dir_cluster as int,
            entry_width: self.entry_size.spec_width(),
            data_region_offset: self.data_offset as int,
        }
    }
}

impl<'a> Partition<'a> {
    /// What holds of every partition that `new` returns.
    pub open spec fn wf(&self) -> bool {
        self@.wf()
    }

    /// Decodes the superblock of the partition of `len` bytes that starts
    /// `offset` bytes into the image `data`.
    pub fn new(data: &'a [u8], offset: u64, len: usize, name: &'static str) -> (r: Result<
        Partition<'a>,
        DiskError,
    >)
        requires
            offset + len + MAX_TABLE_SPAN <= u64::MAX,
        ensures
            match r {
                Ok(p) => p.wf() && spec_decode_partition(data@, offset as int, len as int, name@)
                    == Ok::<PartitionView, DiskError>(p@),
                Err(e) => spec_decode_partition(data@, offset as int, len as int, name@) == Err::<
                    PartitionView,
                    DiskError,
                >(e),
            },
    {
        let image_len: u64 = data.len() as u64;
        let extent: u64 = offset + len as u64;
        if image_len < extent {
            return Err(DiskError::InvalidDiskLength { expected: extent, actual: image_len });
        }
        let magic: u32 = match read_u32_be(data, offset) {
            Ok(v) => v,
            Err(e) => {
                return Err(e);
            },
        };
        if magic != XTAF_MAGIC {
            return Err(DiskError::InvalidFilesystemMagic { magic, offset: offset + 4 });
        }
        let sectors: u32 = match read_u32_be(data, offset + 8) {
            Ok(v) => v,
            Err(e) => {
                return Err(e);
            },
        };
        let root: u32 = match read_u32_be(data, offset + 12) {
            Ok(v) => v,
            Err(e) => {
                return Err(e);
            },
        };
        let shift: u32 = match cluster_shift(sectors) {
            Some(s) => s,
            None => {
                return Err(DiskError::IoError(IoErrorKind::InvalidData));
            },
        };
        let count: u64 = entry_count(len as u64, shift);
        let width: EntrySize = entry_size(count);
        let table: u64 = alloc_table_size(count);
        proof {
            lemma_valid_sectors_bounds(sectors as int);
        }
        Ok(
            Partition {
                offset,
                len,
                name,
                data,
                sectors_per_cluster: sectors as usize,
                root_dir_cluster: root as usize,
                entry_size: width,
                data_offset: offset + FAT_TABLE_OFFSET + table,
            },
        )
    }

    /// Where the partition starts in the image, in bytes.
    pub fn offset(&self) -> (r: u64)
        ensures
            r == self@.start_offset,
    {
        self.offset
    }

    /// The partition's length in bytes.
    pub fn len(&self) -> (r: usize)
        ensures
            r == self@.length,
    {
        self.len
    }

    pub fn sectors_per_cluster(&self) -> (r: usize)
        ensures
            r == self@.sectors_per_cluster,
    {
        self.sectors_per_cluster
    }

    /// Bytes in a cluster.
    pub fn cluster_size(&self) -> (r: usize)
        requires
            self.wf(),
        ensures
            r == self@.cluster_size(),
            0x200 <= r <= 0x8000_0000,
    {
        proof {
            lemma_valid_sectors_bounds(self.sectors_per_cluster as int);
        }
        self.sectors_per_cluster * 0x200
    }

    /// The first cluster of the root directory.
    pub fn root_cluster(&self) -> (r: usize)
        ensures
            r == self@.root_cluster,
    {
        self.root_dir_cluster
    }

    /// The width of the entries of the allocation table.
    pub fn entry_size(&self) -> (r: EntrySize)
        ensures
            r.spec_width() == self@.entry_width,
    {
        self.entry_size
    }

    /// Where the first data cluster starts in the image, in bytes.
    pub fn data_start(&self) -> (r: u64)
        ensures
            r == self@.data_region_offset,
    {
        self.data_offset
    }

    /// The whole image that the partition lies in.
    pub fn data(&self) -> (r: &'a [u8])
        ensures
            r@ == self@.image,
    {
        self.data
    }

    pub fn name(&self) -> (r: &'static str)
        ensures
            r@ == self@.name,
    {
        self.name
    }

    /// Whether an allocation-table entry of this value ends a chain.
    pub fn is_terminator(&self, index: usize) -> (b: bool)
        ensures
            b == self@.is_terminator(index as int),
    {
        match self.entry_size {
            EntrySize::Fat16 => index == 0 || index == 0xFFF8 || index == 0xFFFF,
            EntrySize::Fat32 => index == 0 || index == 0xFFFF_FFF8 || index == 0xFFFF_FFFF,
        }
    }

    /// Reads the allocation-table entry of cluster `index`.
    pub fn fat_entry(&self, index: usize) -> (r: Result<usize, DiskError>)
        requires
            self.wf(),
        ensures
            match r {
                Ok(following) => self@.fat_entry(index as int) == Ok::<int, DiskError>(
                    following as int,
                ),
                Err(e) => self@.fat_entry(index as int) == Err::<int, DiskError>(e),
            },
    {
        let table: u64 = self.offset + FAT_TABLE_OFFSET;
        let width: u64 = self.entry_size.width();
        let pos: u64 = match (index as u64).checked_mul(width) {
            Some(within) => match table.checked_add(within) {
                Some(pos) => pos,
                None => {
                    return Err(DiskError::unexpected_eof());
                },
            },
            None => {
                return Err(DiskError::unexpected_eof());
            },
        };
        match self.entry_size {
            EntrySize::Fat16 => match read_u16_be(self.data, pos) {
                Ok(v) => Ok(v as usize),
                Err(e) => Err(e),
            },
            EntrySize::Fat32 => match read_u32_be(self.data, pos) {
                Ok(v) => Ok(v as usize),
                Err(e) => Err(e),
            },
        }
    }

    /// Follows the allocation table from cluster `root` to the first
    /// terminator and returns the clusters passed, `root` first. A chain
    /// longer than the allocation table has entries is cut off there.
    pub fn block_chain_from_root(&self, root: usize) -> (r: Result<Vec<usize>, DiskError>)
        requires
            self.wf(),
        ensures
            spec_chain_result(r) == self@.chain_from(root as int),
    {
        let size: u64 = self.cluster_size() as u64;
        let length: u64 = self.len as u64;
        assert(length as int / size as int <= 0x7FFF_FFFF_FFFF_FFFF) by (nonlinear_arith)
            requires
                size >= 2,
                length <= u64::MAX,
        ;
        let limit: u64 = length / size + 1;
        let mut chain: Vec<usize> = Vec::new();
        let mut next: usize = root;
        proof {
            let whole = self@.walk(next as int, limit as nat);
            if whole is Ok {
                assert(spec_indices(chain@) + whole.unwrap() =~= whole.unwrap());
            }
        }
        while (chain.len() as u64) < limit && !self.is_terminator(next)
            invariant
                self.wf(),
                limit == self@.chain_limit(),
                chain@.len() <= limit,
                self@.chain_from(root as int) == spec_prepend(
                    spec_indices(chain@),
                    self@.walk(next as int, (limit - chain@.len()) as nat),
                ),
            decreases limit - chain@.len(),
        {
            let following: usize = match self.fat_entry(next) {
                Ok(n) => n,
                Err(e) => {
                    return Err(e);
                },
            };
            proof {
                let rest = self@.walk(following as int, (limit - chain@.len() - 1) as nat);
                if rest is Ok {
                    assert(spec_indices(chain@.push(next)) + rest.unwrap() =~= spec_indices(chain@)
                        + (seq![next as int] + rest.unwrap()));
                }
            }
            chain.push(next);
            next = following;
        }
        proof {
            assert(spec_indices(chain@) + Seq::<int>::empty() =~= spec_indices(chain@));
        }
        Ok(chain)
    }

    /// Where cluster `block` starts in the image, if `block` is a data
    /// cluster and the offset is a `u64`.
    pub fn checked_block_offset(&self, block: u64) -> (r: Option<u64>)
        requires
            self.wf(),
        ensures
            r == if block >= 1 && self@.cluster_offset(block as int) <= u64::MAX {
                Some(self@.cluster_offset(block as int) as u64)
            } else {
                None
            },
    {
        if block == 0 {
            return None;
        }
        let size: u64 = self.cluster_size() as u64;
        match (block - 1).checked_mul(size) {
            Some(within) => self.data_offset.checked_add(within),
            None => None,
        }
    }

    /// Where cluster `block` starts in the image. Clusters count from 1, and
    /// each starts a whole number of clusters after the first.
    pub fn block_offset(&self, block: usize) -> (r: u64)
        requires
            self.wf(),
            block >= 1,
            self@.cluster_offset(block as int) <= u64::MAX,
        ensures
            r == self@.cluster_offset(block as int),
            (r - self@.data_region_offset) % self@.cluster_size() == 0,
    {
        let size: u64 = self.cluster_size() as u64;
        proof {
            lemma_mod_multiples_basic(block as int - 1, self@.cluster_size());
        }
        self.data_offset + (block as u64 - 1) * size
    }

    /// Whether cluster `block` is a data cluster that starts inside the
    /// image or at its end.
    pub fn cluster_in_image(&self, block: u64) -> (b: bool)
        requires
            self.wf(),
        ensures
            b == self@.cluster_in_image(block as int),
    {
        match self.checked_block_offset(block) {
            Some(offset) => offset <= self.data.len() as u64,
            None => false,
        }
    }

    /// Whether all of cluster `block` can be read.
    pub fn cluster_readable(&self, block: usize) -> (b: bool)
        requires
            self.wf(),
        ensures
            b == self@.cluster_readable(block as int),
    {
        let size: u64 = self.cluster_size() as u64;
        let image_len: u64 = self.data.len() as u64;
        match self.checked_block_offset(block as u64) {
            Some(offset) => offset <= self.offset + self.len as u64 && offset <= image_len
                && size <= image_len - offset,
            None => false,
        }
    }

    /// The bytes of cluster `block`.
    pub fn block_data(&self, block: usize) -> (r: &'a [u8])
        requires
            self.wf(),
            block >= 1,
            self@.cluster_offset(block as int) + self@.cluster_size() <= self@.image.len(),
        ensures
            r@ == self@.cluster_data(block as int),
    {
        let start: usize = self.block_offset(block) as usize;
        let size: usize = self.cluster_size();
        &self.data[start..start + size]
    }
}

} // verus!

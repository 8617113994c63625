//! The contents of a file: the bytes of the clusters of its chain, cut to
//! its size.

use vstd::prelude::*;

use crate::chain::{lemma_deleted_chain_past_image, spec_contiguous, spec_entry_chain};
use crate::entry::{Entry, EntryView};
use crate::errors::DiskError;
use crate::geometry::lemma_valid_sectors_bounds;
use crate::partition::{spec_indices, Partition, PartitionView};

verus! {

/// The bytes of the clusters of `chain`, one cluster after the other.
pub open spec fn spec_chain_data(partition: PartitionView, chain: Seq<int>) -> Seq<u8>
    decreases chain.len(),
{
    if chain.len() == 0 {
        Seq::empty()
    } else {
        spec_chain_data(partition, chain.drop_last()) + partition.cluster_data(chain.last())
    }
}

/// Whether every cluster of `chain` can be read in full.
pub open spec fn spec_chain_readable(partition: PartitionView, chain: Seq<int>) -> bool {
    forall|i: int| 0 <= i < chain.len() ==> partition.cluster_readable(#[trigger] chain[i])
}

/// The first `size` bytes of `bytes`, or all of them where there are fewer.
pub open spec fn spec_truncate(bytes: Seq<u8>, size: int) -> Seq<u8> {
    if 0 <= size < bytes.len() {
        bytes.subrange(0, size)
    } else {
        bytes
    }
}

/// The contents of the file that `entry` describes: the bytes of its
/// clusters, cut to the file's size. There are none to be had where a cluster
/// of the chain cannot be read in full.
pub open spec fn spec_file_data(partition: PartitionView, entry: EntryView) -> Option<Seq<u8>> {
    if spec_chain_readable(partition, entry.cluster_chain) {
        Some(spec_truncate(spec_chain_data(partition, entry.cluster_chain), entry.size))
    } else {
        None
    }
}

/// The clusters of a readable chain give as many bytes as the chain has
/// clusters, times the cluster size.
pub proof fn lemma_chain_data_len(partition: PartitionView, chain: Seq<int>)
    requires
        partition.wf(),
        spec_chain_readable(partition, chain),
    ensures
        spec_chain_data(partition, chain).len() == chain.len() * partition.cluster_size(),
    decreases chain.len(),
{
    lemma_valid_sectors_bounds(partition.sectors_per_cluster);
    let size = partition.cluster_size();
    if chain.len() == 0 {
        assert(chain.len() * size == 0) by (nonlinear_arith)
            requires
                chain.len() == 0,
        ;
    } else {
        let front = chain.drop_last();
        assert forall|i: int| 0 <= i < front.len() implies partition.cluster_readable(
            #[trigger] front[i],
        ) by {
            assert(front[i] == chain[i]);
        }
        lemma_chain_data_len(partition, front);
        assert(partition.cluster_readable(chain[chain.len() - 1]));
        assert(chain.len() * size == front.len() * size + size) by (nonlinear_arith)
            requires
                chain.len() == front.len() + 1,
        ;
    }
}

/// The bytes of two chains put together are the bytes of the first followed
/// by those of the second.
pub proof fn lemma_chain_data_add(partition: PartitionView, a: Seq<int>, b: Seq<int>)
    ensures
        spec_chain_data(partition, a + b) == spec_chain_data(partition, a) + spec_chain_data(
            partition,
            b,
        ),
    decreases b.len(),
{
    if b.len() == 0 {
        assert(a + b =~= a);
        assert(spec_chain_data(partition, a) + Seq::<u8>::empty() =~= spec_chain_data(
            partition,
            a,
        ));
    } else {
        lemma_chain_data_add(partition, a, b.drop_last());
        assert((a + b).drop_last() =~= a + b.drop_last());
        assert((a + b).last() == b.last());
        assert(spec_chain_data(partition, a) + (spec_chain_data(partition, b.drop_last())
            + partition.cluster_data(b.last())) =~= (spec_chain_data(partition, a)
            + spec_chain_data(partition, b.drop_last())) + partition.cluster_data(b.last()));
    }
}

/// The contents read for a file have as many bytes as the file's size says,
/// or as its clusters hold if that is less.
pub proof fn lemma_file_data_len(partition: PartitionView, entry: EntryView)
    requires
        partition.wf(),
        entry.size >= 0,
        spec_file_data(partition, entry) is Some,
    ensures
        spec_file_data(partition, entry).unwrap().len() == vstd::math::min(
            entry.size,
            entry.cluster_chain.len() * partition.cluster_size(),
        ),
{
    lemma_chain_data_len(partition, entry.cluster_chain);
}

/// The contents read for an entry without clusters are empty.
pub proof fn lemma_file_data_of_empty_chain(partition: PartitionView, entry: EntryView)
    requires
        entry.cluster_chain.len() == 0,
    ensures
        spec_file_data(partition, entry) == Some(Seq::<u8>::empty()),
{
}

/// The chain of a deleted entry whose first cluster starts past the end of
/// the image is empty, and so are the contents read for it.
pub proof fn lemma_deleted_past_image(partition: PartitionView, entry: EntryView)
    requires
        partition.wf(),
        entry.first_cluster >= 1,
        partition.cluster_offset(entry.first_cluster) > partition.image.len(),
        spec_entry_chain(partition, true, entry.first_cluster, entry.size) == Ok::<
            Seq<int>,
            DiskError,
        >(entry.cluster_chain),
    ensures
        entry.cluster_chain == Seq::<int>::empty(),
        spec_file_data(partition, entry) == Some(Seq::<u8>::empty()),
{
    lemma_deleted_chain_past_image(partition, entry.first_cluster, entry.size);
    lemma_file_data_of_empty_chain(partition, entry);
}

/// The bytes of clusters that follow one another are one stretch of the
/// image.
pub proof fn lemma_contiguous_chain_data(partition: PartitionView, first: int, count: nat)
    requires
        partition.wf(),
        first >= 1,
        count >= 1,
        spec_chain_readable(partition, spec_contiguous(first, count as int)),
    ensures
        spec_chain_data(partition, spec_contiguous(first, count as int))
            == partition.image.subrange(
            partition.cluster_offset(first),
            partition.cluster_offset(first) + count * partition.cluster_size(),
        ),
    decreases count,
{
    lemma_valid_sectors_bounds(partition.sectors_per_cluster);
    let size = partition.cluster_size();
    let chain = spec_contiguous(first, count as int);
    let start = partition.cluster_offset(first);
    assert(start >= 0) by (nonlinear_arith)
        requires
            start == partition.data_region_offset + (first - 1) * size,
            partition.data_region_offset >= 0,
            first >= 1,
            size >= 0,
    ;
    let front = spec_contiguous(first, count - 1);
    let last = first + count - 1;
    assert(chain.drop_last() =~= front);
    assert(chain.last() == last);
    assert(partition.cluster_readable(chain[count - 1]));
    assert(partition.cluster_readable(chain[0]));
    assert(partition.cluster_offset(last) == start + (count - 1) * size) by (nonlinear_arith)
        requires
            partition.cluster_offset(last) == partition.data_region_offset + (last - 1) * size,
            start == partition.data_region_offset + (first - 1) * size,
            last == first + count - 1,
    ;
    assert(count * size == (count - 1) * size + size) by (nonlinear_arith);
    assert((count - 1) * size >= 0) by (nonlinear_arith)
        requires
            count >= 1,
            size >= 0,
    ;
    if count == 1 {
        assert(spec_chain_data(partition, front) =~= Seq::<u8>::empty());
    } else {
        assert forall|i: int| 0 <= i < front.len() implies partition.cluster_readable(
            #[trigger] front[i],
        ) by {
            assert(front[i] == chain[i]);
        }
        lemma_contiguous_chain_data(partition, first, (count - 1) as nat);
    }
    assert(spec_chain_data(partition, chain) =~= partition.image.subrange(
        start,
        start + count * size,
    ));
}

/// Reading a file whose clusters follow one another gives back the bytes
/// that stand in the image from its first cluster on, as many as its size
/// says.
pub proof fn lemma_contiguous_file_data(
    partition: PartitionView,
    entry: EntryView,
    first: int,
    count: nat,
)
    requires
        partition.wf(),
        first >= 1,
        count >= 1,
        entry.cluster_chain == spec_contiguous(first, count as int),
        spec_chain_readable(partition, entry.cluster_chain),
        0 <= entry.size <= count * partition.cluster_size(),
    ensures
        spec_file_data(partition, entry) == Some(
            partition.image.subrange(
                partition.cluster_offset(first),
                partition.cluster_offset(first) + entry.size,
            ),
        ),
{
    lemma_contiguous_chain_data(partition, first, count);
    lemma_chain_data_len(partition, entry.cluster_chain);
    let start = partition.cluster_offset(first);
    let all = partition.image.subrange(start, start + count * partition.cluster_size());
    lemma_valid_sectors_bounds(partition.sectors_per_cluster);
    assert(start >= 0) by (nonlinear_arith)
        requires
            start == partition.data_region_offset + (first - 1) * partition.cluster_size(),
            partition.data_region_offset >= 0,
            first >= 1,
            partition.cluster_size() >= 0,
    ;
    assert(partition.cluster_readable(entry.cluster_chain[count - 1]));
    assert(entry.cluster_chain[count - 1] == first + count - 1);
    assert(partition.cluster_offset(first + count - 1) + partition.cluster_size() == start + count
        * partition.cluster_size()) by (nonlinear_arith)
        requires
            partition.cluster_offset(first + count - 1) == partition.data_region_offset + (first
                + count - 1 - 1) * partition.cluster_size(),
            start == partition.data_region_offset + (first - 1) * partition.cluster_size(),
    ;
    if entry.size < all.len() {
        assert(all.subrange(0, entry.size) =~= partition.image.subrange(start, start + entry.size));
    }
}

impl Entry {
    /// Whether every cluster of the entry's chain can be read in full.
    pub fn chain_readable(&self, partition: &Partition) -> (ok: bool)
        requires
            partition.wf(),
        ensures
            ok == spec_chain_readable(partition@, self@.cluster_chain),
    {
        let chain: &[usize] = self.block_chain();
        let mut i: usize = 0;
        while i < chain.len()
            invariant
                partition.wf(),
                spec_indices(chain@) == self@.cluster_chain,
                i <= chain@.len(),
                forall|k: int|
                    0 <= k < i ==> partition@.cluster_readable(#[trigger] self@.cluster_chain[k]),
            decreases chain@.len() - i,
        {
            if !partition.cluster_readable(chain[i]) {
                proof {
                    assert(!partition@.cluster_readable(self@.cluster_chain[i as int]));
                }
                return false;
            }
            i += 1;
        }
        true
    }

    /// Reads the contents of the file: the bytes of its clusters, cut to its
    /// size. Returns `None`, and reads nothing, where a cluster of the chain
    /// cannot be read in full.
    pub fn read_data(&self, partition: &Partition) -> (r: Option<Vec<u8>>)
        requires
            partition.wf(),
        ensures
            match r {
                Some(bytes) => spec_file_data(partition@, self@) == Some(bytes@),
                None => spec_file_data(partition@, self@).is_none(),
            },
            r matches Some(bytes) ==> bytes@.len() == vstd::math::min(
                self@.size,
                self@.cluster_chain.len() * partition@.cluster_size(),
            ),
    {
        if !self.chain_readable(partition) {
            return None;
        }
        let blocks: &[usize] = self.block_chain();
        let size: usize = self.size();
        let ghost chain = self@.cluster_chain;
        let mut bytes: Vec<u8> = Vec::new();
        let mut i: usize = 0;
        proof {
            assert(chain.subrange(0, 0) =~= Seq::<int>::empty());
        }
        while i < blocks.len() && bytes.len() < size
            invariant
                partition.wf(),
                chain == spec_indices(blocks@),
                spec_chain_readable(partition@, chain),
                i <= blocks@.len(),
                bytes@ == spec_chain_data(partition@, chain.subrange(0, i as int)),
            decreases blocks@.len() - i,
        {
            let block: usize = blocks[i];
            proof {
                assert(chain[i as int] == block);
                assert(partition@.cluster_readable(chain[i as int]));
                assert(chain.subrange(0, i + 1).drop_last() =~= chain.subrange(0, i as int));
            }
            let cluster: &[u8] = partition.block_data(block);
            let ghost before = bytes@;
            bytes.extend_from_slice(cluster);
            proof {
                assert(bytes@ =~= before + cluster@);
            }
            i += 1;
        }
        proof {
            let seen = chain.subrange(0, i as int);
            let rest = chain.subrange(i as int, chain.len() as int);
            assert(seen + rest =~= chain);
            lemma_chain_data_add(partition@, seen, rest);
            lemma_chain_data_len(partition@, chain);
            if i == chain.len() {
                assert(seen =~= chain);
            }
        }
        bytes.truncate(size);
        Some(bytes)
    }
}

} // verus!

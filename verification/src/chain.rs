//! The cluster chain of an entry: read from the allocation table for a live
//! file, taken to be contiguous for a deleted one.

use vstd::prelude::*;

use crate::errors::DiskError;
use crate::geometry::lemma_valid_sectors_bounds;
use crate::partition::{
    lemma_walk_complete, lemma_walk_ends_at_terminator, lemma_walk_no_duplicates, spec_indices,
    Partition, PartitionView,
};

verus! {

/// How many clusters a file of `size` bytes takes.
pub open spec fn spec_cluster_count(size: int, cluster_size: int) -> int {
    if size % cluster_size > 0 {
        size / cluster_size + 1
    } else {
        size / cluster_size
    }
}

/// The `count` cluster indices from `first` on.
pub open spec fn spec_contiguous(first: int, count: int) -> Seq<int> {
    Seq::new(count as nat, |i: int| first + i)
}

/// The clusters of `chain` that are data clusters starting inside the image,
/// in the order they had.
pub open spec fn spec_retain_in_image(partition: PartitionView, chain: Seq<int>) -> Seq<int> {
    chain.filter(partition.in_image_pred())
}

/// The cluster chain of an entry. That of a live entry is read from the
/// allocation table. That of a deleted one, whose table entries are gone, is
/// taken to be contiguous. Either way only clusters inside the image remain.
pub open spec fn spec_entry_chain(
    partition: PartitionView,
    is_deleted: bool,
    first_cluster: int,
    size: int,
) -> Result<Seq<int>, DiskError> {
    if is_deleted {
        Ok(
            spec_retain_in_image(
                partition,
                spec_contiguous(first_cluster, spec_cluster_count(size, partition.cluster_size())),
            ),
        )
    } else {
        match partition.chain_from(first_cluster) {
            Ok(chain) => Ok(spec_retain_in_image(partition, chain)),
            Err(e) => Err(e),
        }
    }
}

/// A data cluster that starts inside the image has an index that a `usize`
/// holds.
proof fn lemma_in_image_fits(partition: PartitionView, index: int)
    requires
        partition.wf(),
        partition.cluster_in_image(index),
    ensures
        1 <= index <= usize::MAX,
{
    lemma_valid_sectors_bounds(partition.sectors_per_cluster);
    let size = partition.cluster_size();
    let room = partition.image.len() - partition.data_region_offset;
    assert(index - 1 <= room) by (nonlinear_arith)
        requires
            (index - 1) * size <= room,
            size >= 1,
            index >= 1,
    ;
}

/// Filtering a chain that grew by one cluster: the cluster is kept or not.
proof fn lemma_retain_push(partition: PartitionView, chain: Seq<int>, index: int)
    ensures
        spec_retain_in_image(partition, chain.push(index)) == if partition.cluster_in_image(index) {
            spec_retain_in_image(partition, chain).push(index)
        } else {
            spec_retain_in_image(partition, chain)
        },
{
    reveal(Seq::filter);
    assert(chain.push(index).drop_last() =~= chain);
}

/// Every cluster that is kept was in the chain.
proof fn lemma_retained_from_chain(partition: PartitionView, chain: Seq<int>, i: int)
    requires
        0 <= i < spec_retain_in_image(partition, chain).len(),
    ensures
        chain.contains(spec_retain_in_image(partition, chain)[i]),
    decreases chain.len(),
{
    reveal(Seq::filter);
    let front = chain.drop_last();
    let kept_front = spec_retain_in_image(partition, front);
    if i < kept_front.len() {
        lemma_retained_from_chain(partition, front, i);
        let j = choose|j: int| 0 <= j < front.len() && front[j] == kept_front[i];
        assert(chain[j] == kept_front[i]);
    } else {
        assert(spec_retain_in_image(partition, chain)[i] == chain[chain.len() - 1]);
    }
}

/// A chain in which no cluster occurs twice stays so when clusters are
/// dropped from it.
proof fn lemma_retain_no_duplicates(partition: PartitionView, chain: Seq<int>)
    requires
        chain.no_duplicates(),
    ensures
        spec_retain_in_image(partition, chain).no_duplicates(),
    decreases chain.len(),
{
    reveal(Seq::filter);
    if chain.len() > 0 {
        let front = chain.drop_last();
        let kept_front = spec_retain_in_image(partition, front);
        assert forall|i: int, j: int| 0 <= i < front.len() && 0 <= j < front.len() && i
            != j implies front[i] != front[j] by {
            assert(front[i] == chain[i] && front[j] == chain[j]);
        }
        lemma_retain_no_duplicates(partition, front);
        if partition.cluster_in_image(chain.last()) {
            assert forall|i: int| 0 <= i < kept_front.len() implies kept_front[i]
                != chain.last() by {
                lemma_retained_from_chain(partition, front, i);
                let j = choose|j: int| 0 <= j < front.len() && front[j] == kept_front[i];
                assert(chain[j] == front[j]);
            }
        }
    }
}

/// The chain of a live entry whose allocation-table chain comes to a
/// terminator: no cluster occurs in it twice, so no two clusters that follow
/// one another are the same; and where the last cluster of the
/// allocation-table chain lies in the image, the entry's chain ends with it,
/// and its allocation-table entry is a terminator.
pub proof fn lemma_live_entry_chain(partition: PartitionView, first_cluster: int, size: int)
    requires
        partition.walk_reaches_end(first_cluster, partition.chain_limit()),
    ensures
        spec_entry_chain(partition, false, first_cluster, size) is Ok,
        spec_entry_chain(partition, false, first_cluster, size).unwrap().no_duplicates(),
        forall|i: int|
            0 <= i < spec_entry_chain(partition, false, first_cluster, size).unwrap().len() - 1
                ==> spec_entry_chain(partition, false, first_cluster, size).unwrap()[i]
                != #[trigger] spec_entry_chain(partition, false, first_cluster, size).unwrap()[i
                + 1],
        partition.chain_from(first_cluster).unwrap().len() > 0 && partition.cluster_in_image(
            partition.chain_from(first_cluster).unwrap().last(),
        ) ==> {
            let chain = spec_entry_chain(partition, false, first_cluster, size).unwrap();
            &&& chain.len() > 0
            &&& chain.last() == partition.chain_from(first_cluster).unwrap().last()
            &&& partition.fat_entry(chain.last()) is Ok
            &&& partition.is_terminator(partition.fat_entry(chain.last()).unwrap())
        },
{
    let limit = partition.chain_limit();
    lemma_walk_complete(partition, first_cluster, limit);
    lemma_walk_no_duplicates(partition, first_cluster, limit);
    let walked = partition.chain_from(first_cluster).unwrap();
    lemma_retain_no_duplicates(partition, walked);
    if walked.len() > 0 {
        lemma_walk_ends_at_terminator(partition, first_cluster, limit);
        reveal(Seq::filter);
    }
}

/// A file of exactly one cluster's size takes one cluster, and one byte more
/// takes two.
pub proof fn lemma_cluster_count_boundary(cluster_size: int)
    requires
        cluster_size >= 2,
    ensures
        spec_cluster_count(cluster_size, cluster_size) == 1,
        spec_cluster_count(cluster_size + 1, cluster_size) == 2,
{
    vstd::arithmetic::div_mod::lemma_fundamental_div_mod_converse(
        cluster_size,
        cluster_size,
        1,
        0,
    );
    vstd::arithmetic::div_mod::lemma_fundamental_div_mod_converse(
        cluster_size + 1,
        cluster_size,
        1,
        1,
    );
}

/// The chain of a deleted entry whose first cluster starts past the end of
/// the image is empty.
pub proof fn lemma_deleted_chain_past_image(partition: PartitionView, first_cluster: int, size: int)
    requires
        partition.wf(),
        first_cluster >= 1,
        partition.cluster_offset(first_cluster) > partition.image.len(),
    ensures
        spec_entry_chain(partition, true, first_cluster, size) == Ok::<Seq<int>, DiskError>(
            Seq::empty(),
        ),
{
    lemma_valid_sectors_bounds(partition.sectors_per_cluster);
    let cluster_size = partition.cluster_size();
    let all = spec_contiguous(first_cluster, spec_cluster_count(size, cluster_size));
    assert forall|i: int| 0 <= i < all.len() implies !(partition.in_image_pred())(all[i]) by {
        assert(all[i] == first_cluster + i);
        assert((first_cluster + i - 1) * cluster_size >= (first_cluster - 1) * cluster_size)
            by (nonlinear_arith)
            requires
                i >= 0,
                cluster_size >= 0,
        ;
    }
    all.lemma_all_neg_filter_empty(partition.in_image_pred());
    assert(spec_retain_in_image(partition, all) =~= Seq::<int>::empty());
}

/// The clusters of `chain` that are data clusters starting inside the image,
/// in the order they had.
pub fn retain_in_image(partition: &Partition, chain: &Vec<usize>) -> (kept: Vec<usize>)
    requires
        partition.wf(),
    ensures
        spec_indices(kept@) == spec_retain_in_image(partition@, spec_indices(chain@)),
{
    let mut kept: Vec<usize> = Vec::new();
    let mut i: usize = 0;
    proof {
        reveal(Seq::filter);
        assert(spec_indices(chain@).subrange(0, 0) =~= Seq::<int>::empty());
        assert(spec_indices(kept@) =~= Seq::<int>::empty());
    }
    while i < chain.len()
        invariant
            partition.wf(),
            i <= chain@.len(),
            spec_indices(kept@) == spec_retain_in_image(
                partition@,
                spec_indices(chain@).subrange(0, i as int),
            ),
        decreases chain@.len() - i,
    {
        let index: usize = chain[i];
        let keep: bool = partition.cluster_in_image(index as u64);
        proof {
            let seen = spec_indices(chain@).subrange(0, i as int);
            lemma_retain_push(partition@, seen, index as int);
            assert(seen.push(index as int) =~= spec_indices(chain@).subrange(0, i + 1));
            if keep {
                assert(spec_indices(kept@.push(index)) =~= spec_indices(kept@).push(index as int));
            }
        }
        if keep {
            kept.push(index);
        }
        i += 1;
    }
    proof {
        assert(spec_indices(chain@).subrange(0, i as int) =~= spec_indices(chain@));
    }
    kept
}

/// How many clusters a file of `size` bytes takes.
pub fn cluster_count(size: u32, cluster_size: u32) -> (count: u32)
    requires
        cluster_size > 0,
    ensures
        count == spec_cluster_count(size as int, cluster_size as int),
{
    let whole: u32 = size / cluster_size;
    if size % cluster_size > 0 {
        assert(size as int / cluster_size as int <= size - 1) by (nonlinear_arith)
            requires
                size as int % cluster_size as int > 0,
                cluster_size > 0,
                size >= 0,
        ;
        whole + 1
    } else {
        whole
    }
}

/// The chain of a deleted file of `size` bytes whose first cluster is
/// `first`: the clusters that follow one another from `first` on, as many as
/// the size asks for, without those outside the image.
pub fn contiguous_chain(partition: &Partition, first: u32, size: u32) -> (chain: Vec<usize>)
    requires
        partition.wf(),
    ensures
        spec_indices(chain@) == spec_retain_in_image(
            partition@,
            spec_contiguous(
                first as int,
                spec_cluster_count(size as int, partition@.cluster_size()),
            ),
        ),
{
    let count: u32 = cluster_count(size, partition.cluster_size() as u32);
    let mut chain: Vec<usize> = Vec::new();
    let mut i: u32 = 0;
    proof {
        reveal(Seq::filter);
        assert(spec_contiguous(first as int, 0) =~= Seq::<int>::empty());
        assert(spec_indices(chain@) =~= Seq::<int>::empty());
    }
    while i < count
        invariant
            partition.wf(),
            i <= count,
            spec_indices(chain@) == spec_retain_in_image(
                partition@,
                spec_contiguous(first as int, i as int),
            ),
        decreases count - i,
    {
        let index: u64 = first as u64 + i as u64;
        let keep: bool = partition.cluster_in_image(index);
        proof {
            let seen = spec_contiguous(first as int, i as int);
            lemma_retain_push(partition@, seen, index as int);
            assert(seen.push(index as int) =~= spec_contiguous(first as int, i + 1));
            if keep {
                lemma_in_image_fits(partition@, index as int);
                assert(spec_indices(chain@.push(index as usize)) =~= spec_indices(chain@).push(
                    index as int,
                ));
            }
        }
        if keep {
            chain.push(index as usize);
        }
        i += 1;
    }
    chain
}

} // verus!

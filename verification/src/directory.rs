//! Directories: the entries that the records of a cluster chain hold.

use vstd::prelude::*;

use crate::attributes::spec_is_directory;
use crate::cursor::{in_image, read_bytes};
use crate::entry::{
    spec_parse_record, spec_root_entry, Entry, EntryView, ParsedRecord, ParsedRecordView,
};
use crate::errors::{DiskError, IoErrorKind};
use crate::partition::{spec_indices, Partition, PartitionView};
use crate::record::ENTRY_SIZE;

verus! {

/// A directory as the contracts see it.
pub struct DirectoryView {
    pub name: Seq<char>,
    pub entries: Seq<EntryView>,
}

/// The entries found in a run of records, and whether a record ended the
/// directory.
pub struct ScanView {
    pub entries: Seq<EntryView>,
    pub terminated: bool,
}

/// Entries as the contracts see them.
pub open spec fn spec_entry_views(entries: Seq<Entry>) -> Seq<EntryView> {
    entries.map_values(|e: Entry| e@)
}

/// A scan with `prefix` put before its entries; an error stays what it is.
pub open spec fn spec_scan_prepend(prefix: Seq<EntryView>, rest: Result<ScanView, DiskError>) -> Result<
    ScanView,
    DiskError,
> {
    match rest {
        Ok(scan) => Ok(ScanView { entries: prefix + scan.entries, terminated: scan.terminated }),
        Err(e) => Err(e),
    }
}

/// What the record at `pos` in the image of the partition turns out to be.
pub open spec fn spec_parse_at(partition: PartitionView, pos: int) -> Result<
    ParsedRecordView,
    DiskError,
> {
    spec_parse_record(partition, partition.image.subrange(pos, pos + ENTRY_SIZE), pos)
}

/// What scanning `count` records from `start` on gives. Records are taken in
/// order: a terminator ends the scan, a skipped record adds nothing, an
/// entry is added. A record that does not lie inside the image is an error.
pub open spec fn spec_scan_records(partition: PartitionView, start: int, count: nat) -> Result<
    ScanView,
    DiskError,
>
    decreases count,
{
    if count == 0 {
        Ok(ScanView { entries: Seq::empty(), terminated: false })
    } else if !in_image(partition.image.len(), start, ENTRY_SIZE as int) {
        Err(DiskError::IoError(IoErrorKind::UnexpectedEof))
    } else {
        match spec_parse_at(partition, start) {
            Err(e) => Err(e),
            Ok(ParsedRecordView::Terminator) => Ok(
                ScanView { entries: Seq::empty(), terminated: true },
            ),
            Ok(ParsedRecordView::Skipped) => spec_scan_records(
                partition,
                start + ENTRY_SIZE,
                (count - 1) as nat,
            ),
            Ok(ParsedRecordView::Entry(entry)) => spec_scan_prepend(
                seq![entry],
                spec_scan_records(partition, start + ENTRY_SIZE, (count - 1) as nat),
            ),
        }
    }
}

/// How many records a cluster holds.
pub open spec fn spec_records_per_cluster(partition: PartitionView) -> nat {
    (partition.cluster_size() / (ENTRY_SIZE as int)) as nat
}

/// What scanning the records of cluster `block` gives. Cluster 0 holds no
/// records, and asking for them is an error.
pub open spec fn spec_scan_block(partition: PartitionView, block: int) -> Result<
    ScanView,
    DiskError,
> {
    if block < 1 {
        Err(DiskError::IoError(IoErrorKind::InvalidData))
    } else {
        spec_scan_records(
            partition,
            partition.cluster_offset(block),
            spec_records_per_cluster(partition),
        )
    }
}

/// The entries of the directory whose records lie in the clusters of
/// `chain`. The clusters are scanned in order, up to the first terminator.
pub open spec fn spec_scan_chain(partition: PartitionView, chain: Seq<int>) -> Result<
    Seq<EntryView>,
    DiskError,
>
    decreases chain.len(),
{
    if chain.len() == 0 {
        Ok(Seq::empty())
    } else {
        match spec_scan_block(partition, chain[0]) {
            Err(e) => Err(e),
            Ok(scan) => if scan.terminated {
                Ok(scan.entries)
            } else {
                match spec_scan_chain(partition, chain.subrange(1, chain.len() as int)) {
                    Err(e) => Err(e),
                    Ok(rest) => Ok(scan.entries + rest),
                }
            },
        }
    }
}

/// The directory named `name` that `entry` describes.
pub open spec fn spec_parse_directory(
    partition: PartitionView,
    entry: EntryView,
    name: Seq<char>,
) -> Result<DirectoryView, DiskError> {
    match spec_scan_chain(partition, entry.cluster_chain) {
        Err(e) => Err(e),
        Ok(entries) => Ok(DirectoryView { name, entries }),
    }
}

/// The root directory of a partition.
pub open spec fn spec_root_dir(partition: PartitionView) -> Result<DirectoryView, DiskError> {
    match spec_root_entry(partition) {
        Err(e) => Err(e),
        Ok(root) => spec_parse_directory(partition, root, seq!['/']),
    }
}

/// The predicate that an entry is not deleted, as a value.
pub open spec fn spec_is_live() -> spec_fn(EntryView) -> bool {
    |entry: EntryView| !entry.is_deleted
}

/// The entries that are not deleted, in the order they had.
pub open spec fn spec_live_entries(entries: Seq<EntryView>) -> Seq<EntryView> {
    entries.filter(spec_is_live())
}

/// Entries with `prefix` put before them; an error stays what it is.
pub open spec fn spec_entries_prepend(
    prefix: Seq<EntryView>,
    rest: Result<Seq<EntryView>, DiskError>,
) -> Result<Seq<EntryView>, DiskError> {
    match rest {
        Ok(entries) => Ok(prefix + entries),
        Err(e) => Err(e),
    }
}

/// The live files that `entries`, the entries of a directory, lead to: each
/// live file itself, and for each live directory the live entries that it
/// holds. Deleted entries lead to nothing.
pub open spec fn spec_known_among(partition: PartitionView, entries: Seq<EntryView>) -> Result<
    Seq<EntryView>,
    DiskError,
>
    decreases entries.len(),
{
    if entries.len() == 0 {
        Ok(Seq::empty())
    } else {
        let entry = entries[0];
        let rest = spec_known_among(partition, entries.subrange(1, entries.len() as int));
        if entry.is_deleted {
            rest
        } else if spec_is_directory(entry.attributes) {
            match spec_parse_directory(partition, entry, entry.name) {
                Err(e) => Err(e),
                Ok(dir) => spec_entries_prepend(spec_live_entries(dir.entries), rest),
            }
        } else {
            spec_entries_prepend(seq![entry], rest)
        }
    }
}

/// The live files of a partition that the scan is to pass over: those that
/// the entries of the root directory lead to.
pub open spec fn spec_known_files(partition: PartitionView) -> Result<Seq<EntryView>, DiskError> {
    match spec_root_dir(partition) {
        Err(e) => Err(e),
        Ok(root) => spec_known_among(partition, root.entries),
    }
}

/// A record that starts with a byte 0x00 or 0xFF ends the scan of its
/// cluster: nothing of what follows it in the cluster is an entry.
pub proof fn lemma_terminator_ends_scan(partition: PartitionView, start: int, count: nat)
    requires
        count > 0,
        in_image(partition.image.len(), start, ENTRY_SIZE as int),
        partition.image[start] == 0x00 || partition.image[start] == 0xFF,
    ensures
        spec_scan_records(partition, start, count) == Ok::<ScanView, DiskError>(
            ScanView { entries: Seq::empty(), terminated: true },
        ),
{
    assert(partition.image.subrange(start, start + ENTRY_SIZE)[0] == partition.image[start]);
}

/// A run of records that parse to entries, with a terminator after them,
/// scans to exactly these entries, in the order of their records.
pub proof fn lemma_scan_of_entries(
    partition: PartitionView,
    start: int,
    count: nat,
    entries: Seq<EntryView>,
)
    requires
        entries.len() < count,
        in_image(partition.image.len(), start, (entries.len() + 1) * ENTRY_SIZE),
        forall|i: int|
            0 <= i < entries.len() ==> spec_parse_at(partition, start + i * ENTRY_SIZE) == Ok::<
                ParsedRecordView,
                DiskError,
            >(ParsedRecordView::Entry(#[trigger] entries[i])),
        spec_parse_at(partition, start + entries.len() * ENTRY_SIZE) == Ok::<
            ParsedRecordView,
            DiskError,
        >(ParsedRecordView::Terminator),
    ensures
        spec_scan_records(partition, start, count) == Ok::<ScanView, DiskError>(
            ScanView { entries, terminated: true },
        ),
    decreases entries.len(),
{
    if entries.len() == 0 {
        assert(entries =~= Seq::<EntryView>::empty());
    } else {
        let rest = entries.subrange(1, entries.len() as int);
        let next = start + ENTRY_SIZE;
        assert(spec_parse_at(partition, start + 0 * ENTRY_SIZE) == Ok::<
            ParsedRecordView,
            DiskError,
        >(ParsedRecordView::Entry(entries[0])));
        assert forall|i: int| 0 <= i < rest.len() implies spec_parse_at(
            partition,
            next + i * ENTRY_SIZE,
        ) == Ok::<ParsedRecordView, DiskError>(ParsedRecordView::Entry(#[trigger] rest[i])) by {
            assert(rest[i] == entries[i + 1]);
            assert(next + i * ENTRY_SIZE == start + (i + 1) * ENTRY_SIZE);
        }
        assert(next + rest.len() * ENTRY_SIZE == start + entries.len() * ENTRY_SIZE);
        lemma_scan_of_entries(partition, next, (count - 1) as nat, rest);
        assert(seq![entries[0]] + rest =~= entries);
    }
}

/// The entries found in the records of one cluster.
pub struct BlockScan {
    pub entries: Vec<Entry>,
    /// Whether a record ended the directory.
    pub terminated: bool,
}

impl View for BlockScan {
    type V = ScanView;

    open spec fn view(&self) -> ScanView {
        ScanView { entries: spec_entry_views(self.entries@), terminated: self.terminated }
    }
}

/// What a scan returned, as the contracts see it.
pub open spec fn spec_scan_result(r: Result<BlockScan, DiskError>) -> Result<ScanView, DiskError> {
    match r {
        Ok(scan) => Ok(scan@),
        Err(e) => Err(e),
    }
}

/// A directory and its entries, in the order of their records.
pub struct Directory {
    name: String,
    entries: Vec<Entry>,
}

impl View for Directory {
    type V = DirectoryView;

    closed spec fn view(&self) -> DirectoryView {
        DirectoryView { name: self.name@, entries: spec_entry_views(self.entries@) }
    }
}

impl Directory {
    /// Scans the records of cluster `block` up to the first terminator.
    pub fn scan_block(partition: &Partition, block: usize) -> (r: Result<BlockScan, DiskError>)
        requires
            partition.wf(),
        ensures
            spec_scan_result(r) == spec_scan_block(partition@, block as int),
    {
        if block == 0 {
            return Err(DiskError::IoError(IoErrorKind::InvalidData));
        }
        let data: &[u8] = partition.data();
        let records: usize = partition.cluster_size() / ENTRY_SIZE;
        let mut entries: Vec<Entry> = Vec::new();
        let mut done: usize = 0;
        let ghost first = partition@.cluster_offset(block as int);
        let start: u64 = match partition.checked_block_offset(block as u64) {
            Some(start) => start,
            None => {
                return Err(DiskError::unexpected_eof());
            },
        };
        let mut pos: u64 = start;
        proof {
            let whole = spec_scan_records(partition@, first, records as nat);
            if whole is Ok {
                assert(spec_entry_views(entries@) + whole.unwrap().entries
                    =~= whole.unwrap().entries);
            }
        }
        while done < records
            invariant
                partition.wf(),
                data@ == partition@.image,
                done <= records,
                records == spec_records_per_cluster(partition@),
                pos == first + done * ENTRY_SIZE,
                first == partition@.cluster_offset(block as int),
                block >= 1,
                spec_scan_block(partition@, block as int) == spec_scan_prepend(
                    spec_entry_views(entries@),
                    spec_scan_records(partition@, pos as int, (records - done) as nat),
                ),
            decreases records - done,
        {
            let record: &[u8] = match read_bytes(data, pos, ENTRY_SIZE as u64) {
                Ok(record) => record,
                Err(e) => {
                    return Err(e);
                },
            };
            let ghost rest = spec_scan_records(
                partition@,
                pos + ENTRY_SIZE,
                (records - done - 1) as nat,
            );
            match Entry::parse(partition, record, pos) {
                Err(e) => {
                    return Err(e);
                },
                Ok(ParsedRecord::Terminator) => {
                    proof {
                        assert(spec_entry_views(entries@) + Seq::<EntryView>::empty()
                            =~= spec_entry_views(entries@));
                    }
                    return Ok(BlockScan { entries, terminated: true });
                },
                Ok(ParsedRecord::Skipped) => {},
                Ok(ParsedRecord::Entry(entry)) => {
                    proof {
                        if rest is Ok {
                            assert(spec_entry_views(entries@.push(entry)) + rest.unwrap().entries
                                =~= spec_entry_views(entries@) + (seq![entry@]
                                + rest.unwrap().entries));
                        }
                    }
                    entries.push(entry);
                },
            }
            done += 1;
            pos += ENTRY_SIZE as u64;
        }
        proof {
            assert(spec_entry_views(entries@) + Seq::<EntryView>::empty() =~= spec_entry_views(
                entries@,
            ));
        }
        Ok(BlockScan { entries, terminated: false })
    }

    /// The entries that the records of cluster `block` hold, up to the first
    /// terminator.
    pub fn read_block(partition: &Partition, block: usize) -> (r: Result<Vec<Entry>, DiskError>)
        requires
            partition.wf(),
        ensures
            match r {
                Ok(entries) => spec_scan_block(partition@, block as int) is Ok
                    && spec_entry_views(entries@) == spec_scan_block(
                    partition@,
                    block as int,
                ).unwrap().entries,
                Err(e) => spec_scan_block(partition@, block as int) == Err::<ScanView, DiskError>(
                    e,
                ),
            },
    {
        match Directory::scan_block(partition, block) {
            Ok(scan) => Ok(scan.entries),
            Err(e) => Err(e),
        }
    }

    /// Reads the directory that `entry` describes. Its clusters are scanned
    /// in order, and the first terminator ends the directory.
    pub fn parse(entry: &Entry, partition: &Partition, name: String) -> (r: Result<
        Directory,
        DiskError,
    >)
        requires
            partition.wf(),
        ensures
            match r {
                Ok(dir) => spec_parse_directory(partition@, entry@, name@) == Ok::<
                    DirectoryView,
                    DiskError,
                >(dir@),
                Err(e) => spec_parse_directory(partition@, entry@, name@) == Err::<
                    DirectoryView,
                    DiskError,
                >(e),
            },
    {
        let chain: &[usize] = entry.block_chain();
        let ghost whole = spec_indices(chain@);
        let mut entries: Vec<Entry> = Vec::new();
        let mut i: usize = 0;
        proof {
            assert(whole.subrange(0, whole.len() as int) =~= whole);
            let all = spec_scan_chain(partition@, whole);
            if all is Ok {
                assert(spec_entry_views(entries@) + all.unwrap() =~= all.unwrap());
            }
        }
        while i < chain.len()
            invariant
                partition.wf(),
                whole == spec_indices(chain@),
                whole == entry@.cluster_chain,
                i <= chain@.len(),
                match spec_scan_chain(partition@, whole.subrange(i as int, whole.len() as int)) {
                    Ok(rest) => spec_scan_chain(partition@, whole) == Ok::<
                        Seq<EntryView>,
                        DiskError,
                    >(spec_entry_views(entries@) + rest),
                    Err(e) => spec_scan_chain(partition@, whole) == Err::<
                        Seq<EntryView>,
                        DiskError,
                    >(e),
                },
            decreases chain@.len() - i,
        {
            let ghost here = whole.subrange(i as int, whole.len() as int);
            let ghost after = whole.subrange(i + 1, whole.len() as int);
            proof {
                assert(here[0] == chain@[i as int]);
                assert(here.subrange(1, here.len() as int) =~= after);
            }
            let mut scan: BlockScan = match Directory::scan_block(partition, chain[i]) {
                Ok(scan) => scan,
                Err(e) => {
                    return Err(e);
                },
            };
            proof {
                let rest = spec_scan_chain(partition@, after);
                if scan.terminated {
                    assert(spec_entry_views(entries@ + scan.entries@) =~= spec_entry_views(entries@)
                        + scan@.entries);
                } else if rest is Ok {
                    assert(spec_entry_views(entries@ + scan.entries@) + rest.unwrap()
                        =~= spec_entry_views(entries@) + (scan@.entries + rest.unwrap()));
                }
            }
            entries.append(&mut scan.entries);
            if scan.terminated {
                return Ok(Directory { name, entries });
            }
            i += 1;
        }
        proof {
            assert(whole.subrange(i as int, whole.len() as int) =~= Seq::<int>::empty());
            assert(spec_entry_views(entries@) + Seq::<EntryView>::empty() =~= spec_entry_views(
                entries@,
            ));
        }
        Ok(Directory { name, entries })
    }

    /// Copies of the entries that are not deleted, in the order of their
    /// records.
    pub fn live_entries(&self) -> (live: Vec<Entry>)
        ensures
            spec_entry_views(live@) == spec_live_entries(self@.entries),
    {
        let ghost all = spec_entry_views(self.entries@);
        let mut live: Vec<Entry> = Vec::new();
        let mut i: usize = 0;
        proof {
            reveal(Seq::filter);
            assert(all.subrange(0, 0) =~= Seq::<EntryView>::empty());
            assert(spec_entry_views(live@) =~= Seq::<EntryView>::empty());
        }
        while i < self.entries.len()
            invariant
                all == spec_entry_views(self.entries@),
                i <= self.entries@.len(),
                spec_entry_views(live@) == spec_live_entries(all.subrange(0, i as int)),
            decreases self.entries@.len() - i,
        {
            let entry: &Entry = &self.entries[i];
            proof {
                reveal(Seq::filter);
                let seen = all.subrange(0, i as int);
                assert(all.subrange(0, i + 1).drop_last() =~= seen);
                assert(all.subrange(0, i + 1).last() == entry@);
            }
            if !entry.is_deleted() {
                let copy: Entry = entry.clone();
                proof {
                    assert(spec_entry_views(live@.push(copy)) =~= spec_entry_views(live@).push(
                        entry@,
                    ));
                }
                live.push(copy);
            }
            i += 1;
        }
        proof {
            assert(all.subrange(0, i as int) =~= all);
        }
        live
    }

    /// The entries of the directory, in the order of their records.
    pub fn entries(&self) -> (r: &[Entry])
        ensures
            spec_entry_views(r@) == self@.entries,
    {
        self.entries.as_slice()
    }

    pub fn name(&self) -> (r: &str)
        ensures
            r@ == self@.name,
    {
        self.name.as_str()
    }
}

impl<'a> Partition<'a> {
    /// Reads the root directory of the partition, which is named `/`.
    pub fn root_dir(&self) -> (r: Result<Directory, DiskError>)
        requires
            self.wf(),
        ensures
            match r {
                Ok(dir) => spec_root_dir(self@) == Ok::<DirectoryView, DiskError>(dir@),
                Err(e) => spec_root_dir(self@) == Err::<DirectoryView, DiskError>(e),
            },
    {
        let root: Entry = match Entry::new_root(self) {
            Ok(root) => root,
            Err(e) => {
                return Err(e);
            },
        };
        let name: String = "/".to_owned();
        proof {
            reveal_strlit("/");
            assert(name@ =~= seq!['/']);
        }
        Directory::parse(&root, self, name)
    }
}

/// Collects the live files of `partition` that the scan is to pass over:
/// each live file of the root directory, and the live entries of each live
/// directory of the root directory.
pub fn known_files(partition: &Partition) -> (r: Result<Vec<Entry>, DiskError>)
    requires
        partition.wf(),
    ensures
        match r {
            Ok(known) => spec_known_files(partition@) == Ok::<Seq<EntryView>, DiskError>(
                spec_entry_views(known@),
            ),
            Err(e) => spec_known_files(partition@) == Err::<Seq<EntryView>, DiskError>(e),
        },
{
    let root: Directory = match partition.root_dir() {
        Ok(root) => root,
        Err(e) => {
            return Err(e);
        },
    };
    let entries: &[Entry] = root.entries();
    let ghost all = spec_entry_views(entries@);
    let mut known: Vec<Entry> = Vec::new();
    let mut i: usize = 0;
    proof {
        assert(all.subrange(0, all.len() as int) =~= all);
        let whole = spec_known_among(partition@, all);
        if whole is Ok {
            assert(spec_entry_views(known@) + whole.unwrap() =~= whole.unwrap());
        }
    }
    while i < entries.len()
        invariant
            partition.wf(),
            all == spec_entry_views(entries@),
            i <= entries@.len(),
            spec_known_files(partition@) == spec_known_among(partition@, all),
            spec_known_among(partition@, all) == spec_entries_prepend(
                spec_entry_views(known@),
                spec_known_among(partition@, all.subrange(i as int, all.len() as int)),
            ),
        decreases entries@.len() - i,
    {
        let entry: &Entry = &entries[i];
        let ghost here = all.subrange(i as int, all.len() as int);
        let ghost rest = spec_known_among(partition@, all.subrange(i + 1, all.len() as int));
        proof {
            assert(here[0] == entry@);
            assert(here.subrange(1, here.len() as int) =~= all.subrange(i + 1, all.len() as int));
        }
        if !entry.is_deleted() {
            if entry.is_dir() {
                let dir: Directory = match Directory::parse(
                    entry,
                    partition,
                    entry.name().to_owned(),
                ) {
                    Ok(dir) => dir,
                    Err(e) => {
                        return Err(e);
                    },
                };
                let mut live: Vec<Entry> = dir.live_entries();
                proof {
                    if rest is Ok {
                        assert(spec_entry_views(known@ + live@) + rest.unwrap()
                            =~= spec_entry_views(known@) + (spec_entry_views(live@)
                            + rest.unwrap()));
                    }
                }
                known.append(&mut live);
            } else {
                let copy: Entry = entry.clone();
                proof {
                    if rest is Ok {
                        assert(spec_entry_views(known@.push(copy)) + rest.unwrap()
                            =~= spec_entry_views(known@) + (seq![entry@] + rest.unwrap()));
                    }
                }
                known.push(copy);
            }
        }
        i += 1;
    }
    proof {
        assert(all.subrange(i as int, all.len() as int) =~= Seq::<EntryView>::empty());
        assert(spec_entry_views(known@) + Seq::<EntryView>::empty() =~= spec_entry_views(known@));
    }
    Ok(known)
}

} // verus!

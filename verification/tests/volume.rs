use fatx_recover::chain::{cluster_count, contiguous_chain, retain_in_image};
use fatx_recover::errors::{DiskError, IoErrorKind};
use fatx_recover::fatx::{
    devkit_partitions, known_files, Directory, Entry, EntrySize, ParsedRecord, Partition,
};
use fatx_recover::record::{allowed_name_byte, name_allowed, recovered_name_len};

const IMAGE_LEN: usize = 0x20_0000;
const DATA_START: usize = 0x1000;
const DATA_LEN: usize = 0x10_0000;
const DATA_FAT: usize = 0x2000;
const DATA_REGION: usize = 0x4000;
const SYSTEM_START: usize = 0x10_1000;
const SYSTEM_LEN: usize = 0xF_F000;
const SYSTEM_FAT: usize = 0x10_2000;
const SYSTEM_REGION: usize = 0x10_3000;
const CLUSTER: usize = 0x200;

fn vol_put16(image: &mut [u8], at: usize, value: u16) {
    image[at..at + 2].copy_from_slice(&value.to_be_bytes());
}

fn vol_put32(image: &mut [u8], at: usize, value: u32) {
    image[at..at + 4].copy_from_slice(&value.to_be_bytes());
}

fn vol_cluster(index: usize) -> usize {
    DATA_REGION + (index - 1) * CLUSTER
}

fn vol_record(flag: u8, attributes: u8, name: &[u8], first: u32, size: u32) -> [u8; 0x40] {
    let mut record = [0u8; 0x40];
    record[0] = flag;
    record[1] = attributes;
    for i in 0..0x2A {
        record[2 + i] = if i < name.len() { name[i] } else { 0xFF };
    }
    record[0x2C..0x30].copy_from_slice(&first.to_be_bytes());
    record[0x30..0x34].copy_from_slice(&size.to_be_bytes());
    record
}

fn vol_put_record(image: &mut [u8], at: usize, record: &[u8; 0x40]) {
    image[at..at + 0x40].copy_from_slice(record);
}

fn vol_content(seed: usize, len: usize) -> Vec<u8> {
    (0..len).map(|i| ((i * 7 + seed * 13 + 3) % 251) as u8).collect()
}

fn vol_fat(image: &mut [u8], index: usize, value: u16) {
    vol_put16(image, DATA_FAT + index * 2, value);
}

/// A 2 MiB image: a data partition of 1 MiB with `a.txt` (512 bytes, cluster 2)
/// in its root directory, and an empty system partition.
fn vol_image() -> Vec<u8> {
    let mut image = vec![0u8; IMAGE_LEN];
    vol_put16(&mut image, 0, 1);
    vol_put16(&mut image, 2, 2);
    vol_put16(&mut image, 4, 3);
    vol_put16(&mut image, 6, 4);
    vol_put32(&mut image, 0x08, (DATA_START / 0x200) as u32);
    vol_put32(&mut image, 0x0C, (DATA_LEN / 0x200) as u32);
    vol_put32(&mut image, 0x10, (SYSTEM_START / 0x200) as u32);
    vol_put32(&mut image, 0x14, (SYSTEM_LEN / 0x200) as u32);
    for start in [DATA_START, SYSTEM_START] {
        image[start..start + 4].copy_from_slice(b"XTAF");
        vol_put32(&mut image, start + 4, 0xDEAD_BEEF);
        vol_put32(&mut image, start + 8, 1);
        vol_put32(&mut image, start + 12, 1);
    }
    vol_fat(&mut image, 1, 0xFFFF);
    vol_fat(&mut image, 2, 0xFFFF);
    vol_put16(&mut image, SYSTEM_FAT + 2, 0xFFFF);
    for b in &mut image[vol_cluster(1)..vol_cluster(2)] {
        *b = 0xFF;
    }
    for b in &mut image[SYSTEM_REGION..SYSTEM_REGION + CLUSTER] {
        *b = 0xFF;
    }
    vol_put_record(&mut image, vol_cluster(1), &vol_record(5, 0, b"a.txt", 2, 512));
    let content = vol_content(1, 512);
    image[vol_cluster(2)..vol_cluster(3)].copy_from_slice(&content);
    image
}

fn vol_data(image: &[u8]) -> Partition<'_> {
    Partition::new(image, DATA_START as u64, DATA_LEN, "Data").unwrap()
}

fn vol_entry(parsed: ParsedRecord) -> Entry {
    match parsed {
        ParsedRecord::Entry(entry) => entry,
        other => panic!("no entry: {:?}", other),
    }
}

#[test]
fn header_gives_version_and_both_partitions() {
    let image = vol_image();
    let info = devkit_partitions(&image).unwrap();
    assert_eq!(info.major(), 1);
    assert_eq!(info.minor(), 2);
    assert_eq!(info.revision(), 3);
    assert_eq!(info.patch(), 4);
    let partitions = info.partitions();
    assert_eq!(partitions.len(), 2);
    assert_eq!(partitions[0].name(), "Data");
    assert_eq!(partitions[0].offset(), DATA_START as u64);
    assert_eq!(partitions[0].len(), DATA_LEN);
    assert_eq!(partitions[1].name(), "System");
    assert_eq!(partitions[1].offset(), SYSTEM_START as u64);
    assert_eq!(partitions[1].len(), SYSTEM_LEN);
}

#[test]
fn partition_geometry_follows_the_superblock() {
    let image = vol_image();
    let info = devkit_partitions(&image).unwrap();
    let data = &info.partitions()[0];
    assert_eq!(data.sectors_per_cluster(), 1);
    assert_eq!(data.cluster_size(), 0x200);
    assert_eq!(data.root_cluster(), 1);
    assert_eq!(data.data_start(), DATA_REGION as u64);
    assert_eq!(data.entry_size(), EntrySize::Fat16);
    assert_eq!(data.data().len(), IMAGE_LEN);
    let system = &info.partitions()[1];
    assert_eq!(system.cluster_size(), 0x200);
    assert_eq!(system.data_start(), SYSTEM_REGION as u64);
}

#[test]
fn image_shorter_than_the_header_is_refused() {
    let image = vec![0u8; 0x17];
    assert_eq!(
        devkit_partitions(&image).err(),
        Some(DiskError::InvalidDiskLength { expected: 0x18, actual: 0x17 })
    );
    assert_eq!(
        devkit_partitions(&[]).err(),
        Some(DiskError::InvalidDiskLength { expected: 0x18, actual: 0 })
    );
}

#[test]
fn image_shorter_than_a_partition_is_refused() {
    let mut image = vol_image();
    image.truncate(IMAGE_LEN - 1);
    assert_eq!(
        devkit_partitions(&image).err(),
        Some(DiskError::InvalidDiskLength {
            expected: (SYSTEM_START + SYSTEM_LEN) as u64,
            actual: (IMAGE_LEN - 1) as u64,
        })
    );
    assert_eq!(
        Partition::new(&image, 0x1000, IMAGE_LEN, "Data").err(),
        Some(DiskError::InvalidDiskLength {
            expected: (0x1000 + IMAGE_LEN) as u64,
            actual: (IMAGE_LEN - 1) as u64,
        })
    );
}

#[test]
fn wrong_magic_of_the_system_partition_fails_the_run() {
    let mut image = vol_image();
    image[SYSTEM_START] = b'Y';
    assert_eq!(
        devkit_partitions(&image).err(),
        Some(DiskError::InvalidFilesystemMagic {
            magic: 0x5954_4146,
            offset: (SYSTEM_START + 4) as u64,
        })
    );
    assert!(Partition::new(&image, DATA_START as u64, DATA_LEN, "Data").is_ok());
}

#[test]
fn wrong_magic_of_the_data_partition_comes_first() {
    let mut image = vol_image();
    image[SYSTEM_START] = b'Y';
    image[DATA_START + 3] = b'G';
    assert_eq!(
        devkit_partitions(&image).err(),
        Some(DiskError::InvalidFilesystemMagic {
            magic: 0x5854_4147,
            offset: (DATA_START + 4) as u64,
        })
    );
}

#[test]
fn superblock_cut_off_by_the_image_is_a_read_error() {
    let image = vol_image();
    let short = &image[..DATA_START + 10];
    assert_eq!(
        Partition::new(short, DATA_START as u64, 10, "Data").err(),
        Some(DiskError::IoError(IoErrorKind::UnexpectedEof))
    );
    assert_eq!(
        Partition::new(short, DATA_START as u64, 2, "Data").err(),
        Some(DiskError::IoError(IoErrorKind::UnexpectedEof))
    );
}

#[test]
fn cluster_size_must_be_a_power_of_two() {
    for sectors in [0u32, 3, 0x80_0000, u32::MAX] {
        let mut image = vol_image();
        vol_put32(&mut image, DATA_START + 8, sectors);
        assert_eq!(
            Partition::new(&image, DATA_START as u64, DATA_LEN, "Data").err(),
            Some(DiskError::IoError(IoErrorKind::InvalidData))
        );
    }
}

#[test]
fn larger_clusters_shrink_the_table() {
    let mut image = vol_image();
    vol_put32(&mut image, DATA_START + 8, 0x20);
    vol_put32(&mut image, DATA_START + 12, 7);
    let data = vol_data(&image);
    assert_eq!(data.sectors_per_cluster(), 0x20);
    assert_eq!(data.cluster_size(), 0x4000);
    assert_eq!(data.root_cluster(), 7);
    assert_eq!(data.data_start(), (DATA_START + 0x1000 + 0x1000) as u64);
    assert_eq!(data.block_offset(3), (DATA_START + 0x2000 + 2 * 0x4000) as u64);
}

#[test]
fn block_offsets_are_whole_clusters_from_the_data_region() {
    let image = vol_image();
    let data = vol_data(&image);
    assert_eq!(data.block_offset(1), DATA_REGION as u64);
    assert_eq!(data.block_offset(2), (DATA_REGION + 0x200) as u64);
    assert_eq!(data.block_offset(0x100), (DATA_REGION + 0xFF * 0x200) as u64);
    for index in [1usize, 2, 3, 17, 1000, 0xFFFF_FFFF] {
        let offset = data.block_offset(index);
        assert_eq!((offset - data.data_start()) % data.cluster_size() as u64, 0);
    }
}

#[test]
fn checked_block_offset_knows_cluster_zero_and_overflow() {
    let image = vol_image();
    let data = vol_data(&image);
    assert_eq!(data.checked_block_offset(0), None);
    assert_eq!(data.checked_block_offset(1), Some(DATA_REGION as u64));
    assert_eq!(data.checked_block_offset(u64::MAX), None);
    assert!(data.cluster_in_image(1));
    assert!(!data.cluster_in_image(0));
    let last = ((IMAGE_LEN - DATA_REGION) / CLUSTER + 1) as u64;
    assert!(data.cluster_in_image(last));
    assert!(!data.cluster_in_image(last + 1));
    assert!(data.cluster_readable(2));
    assert!(!data.cluster_readable(last as usize));
    assert!(!data.cluster_readable(0));
}

#[test]
fn block_data_is_the_cluster() {
    let image = vol_image();
    let data = vol_data(&image);
    assert_eq!(data.block_data(2), &vol_content(1, 512)[..]);
    assert_eq!(data.block_data(1).len(), 0x200);
    assert_eq!(data.block_data(1)[0], 5);
}

#[test]
fn chain_follows_the_table_to_a_terminator() {
    let mut image = vol_image();
    vol_fat(&mut image, 2, 3);
    vol_fat(&mut image, 3, 9);
    vol_fat(&mut image, 9, 4);
    vol_fat(&mut image, 4, 0xFFFF);
    let data = vol_data(&image);
    assert_eq!(data.block_chain_from_root(2), Ok(vec![2, 3, 9, 4]));
    assert_eq!(data.block_chain_from_root(9), Ok(vec![9, 4]));
    assert_eq!(data.fat_entry(3), Ok(9));
    assert_eq!(data.fat_entry(4), Ok(0xFFFF));
}

#[test]
fn every_terminator_ends_a_chain() {
    let mut image = vol_image();
    vol_fat(&mut image, 10, 0xFFF8);
    vol_fat(&mut image, 11, 0x0000);
    vol_fat(&mut image, 12, 0xFFFF);
    let data = vol_data(&image);
    assert_eq!(data.block_chain_from_root(10), Ok(vec![10]));
    assert_eq!(data.block_chain_from_root(11), Ok(vec![11]));
    assert_eq!(data.block_chain_from_root(12), Ok(vec![12]));
    assert_eq!(data.block_chain_from_root(0), Ok(vec![]));
    assert_eq!(data.block_chain_from_root(0xFFF8), Ok(vec![]));
    assert_eq!(data.block_chain_from_root(0xFFFF), Ok(vec![]));
    assert!(data.is_terminator(0));
    assert!(data.is_terminator(0xFFF8));
    assert!(data.is_terminator(0xFFFF));
    assert!(!data.is_terminator(0xFFF7));
    assert!(!data.is_terminator(0xFFFF_FFFF));
}

#[test]
fn chain_that_loops_is_cut_at_the_table_length() {
    let mut image = vol_image();
    vol_fat(&mut image, 5, 5);
    vol_fat(&mut image, 6, 7);
    vol_fat(&mut image, 7, 6);
    let data = vol_data(&image);
    let limit = DATA_LEN / CLUSTER + 1;
    let looped = data.block_chain_from_root(5).unwrap();
    assert_eq!(looped.len(), limit);
    assert!(looped.iter().all(|c| *c == 5));
    let pair = data.block_chain_from_root(6).unwrap();
    assert_eq!(pair.len(), limit);
    assert_eq!(&pair[..4], &[6, 7, 6, 7]);
}

#[test]
fn table_entry_outside_the_image_is_a_read_error() {
    let image = vol_image();
    let data = vol_data(&image);
    let beyond = (IMAGE_LEN - DATA_FAT) / 2;
    assert_eq!(
        data.block_chain_from_root(beyond),
        Err(DiskError::IoError(IoErrorKind::UnexpectedEof))
    );
    assert_eq!(data.fat_entry(beyond - 1), Ok(0));
    assert_eq!(data.fat_entry(usize::MAX), Err(DiskError::IoError(IoErrorKind::UnexpectedEof)));
    let mut linked = vol_image();
    vol_fat(&mut linked, 2, 0xFFF0);
    vol_fat(&mut linked, 0xFFF0, 0xFFFE);
    let data = vol_data(&linked);
    assert_eq!(data.block_chain_from_root(2), Ok(vec![2, 0xFFF0, 0xFFFE]));
}

#[test]
fn large_partition_has_32_bit_table_entries() {
    let len = 0x200_0000usize;
    let mut image = vec![0u8; 0x1000 + len];
    image[0x1000..0x1004].copy_from_slice(b"XTAF");
    vol_put32(&mut image, 0x1008, 1);
    vol_put32(&mut image, 0x100C, 1);
    let fat = 0x2000;
    vol_put32(&mut image, fat + 4 * 1, 0xFFFF);
    vol_put32(&mut image, fat + 4 * 0xFFFF, 0x1_0000);
    vol_put32(&mut image, fat + 4 * 0x1_0000, 0xFFFF_FFFF);
    vol_put32(&mut image, fat + 4 * 3, 0xFFFF_FFF8);
    let data = Partition::new(&image, 0x1000, len, "Data").unwrap();
    assert_eq!(data.data_start(), (0x1000 + 0x1000 + 0x41000) as u64);
    assert_eq!(data.entry_size(), EntrySize::Fat32);
    assert_eq!(data.block_chain_from_root(1), Ok(vec![1, 0xFFFF, 0x1_0000]));
    assert_eq!(data.block_chain_from_root(3), Ok(vec![3]));
    assert_eq!(data.block_chain_from_root(0xFFFF_FFFF), Ok(vec![]));
    assert!(!data.is_terminator(0xFFFF));
    assert!(data.is_terminator(0xFFFF_FFF8));
}

#[test]
fn root_entry_is_a_directory_at_the_data_region() {
    let image = vol_image();
    let data = vol_data(&image);
    let root = Entry::new_root(&data).unwrap();
    assert_eq!(root.offset(), DATA_REGION as u64);
    assert_eq!(root.name(), "");
    assert!(root.is_dir());
    assert!(!root.is_deleted());
    assert_eq!(root.size(), 0);
    assert_eq!(root.first_cluster(), 1);
    assert_eq!(root.block_chain(), &[1]);
}

#[test]
fn root_entry_fails_where_the_table_cannot_be_read() {
    let mut image = vol_image();
    vol_put32(&mut image, DATA_START + 12, 0x7FFF_FFFF);
    let data = vol_data(&image);
    assert_eq!(
        Entry::new_root(&data).err(),
        Some(DiskError::IoError(IoErrorKind::UnexpectedEof))
    );
    assert_eq!(data.root_dir().err(), Some(DiskError::IoError(IoErrorKind::UnexpectedEof)));
}

#[test]
fn extraction_of_the_one_file_gives_its_bytes() {
    let image = vol_image();
    let info = devkit_partitions(&image).unwrap();
    let data = &info.partitions()[0];
    let root = data.root_dir().unwrap();
    assert_eq!(root.name(), "/");
    assert_eq!(root.entries().len(), 1);
    let file = &root.entries()[0];
    assert_eq!(file.name(), "a.txt");
    assert_eq!(file.size(), 512);
    assert_eq!(file.first_cluster(), 2);
    assert_eq!(file.block_chain(), &[2]);
    assert_eq!(file.offset(), DATA_REGION as u64);
    assert!(!file.is_dir());
    assert!(!file.is_deleted());
    assert_eq!(file.read_data(data), Some(vol_content(1, 512)));
    let system = &info.partitions()[1];
    assert_eq!(system.root_dir().unwrap().entries().len(), 0);
}

#[test]
fn parser_reproduces_the_files_of_a_directory() {
    let mut image = vol_image();
    let root = vol_cluster(1);
    vol_put_record(&mut image, root + 0x40, &vol_record(9, 0x20, b"save$.dat", 3, 1030));
    vol_put_record(&mut image, root + 0x80, &vol_record(4, 0x10, b"Docs", 8, 0));
    vol_put_record(&mut image, root + 0xC0, &vol_record(1, 0x01, b"_", 0, 0));
    vol_fat(&mut image, 3, 6);
    vol_fat(&mut image, 6, 4);
    vol_fat(&mut image, 4, 0xFFFF);
    vol_fat(&mut image, 8, 0xFFFF);
    let data = vol_data(&image);
    let dir = data.root_dir().unwrap();
    let names: Vec<&str> = dir.entries().iter().map(|e| e.name()).collect();
    assert_eq!(names, vec!["a.txt", "save$.dat", "Docs", "_"]);
    let sizes: Vec<usize> = dir.entries().iter().map(|e| e.size()).collect();
    assert_eq!(sizes, vec![512, 1030, 0, 0]);
    let chains: Vec<Vec<usize>> = dir.entries().iter().map(|e| e.block_chain().to_vec()).collect();
    assert_eq!(chains, vec![vec![2], vec![3, 6, 4], vec![8], vec![]]);
    let offsets: Vec<u64> = dir.entries().iter().map(|e| e.offset()).collect();
    let base = root as u64;
    assert_eq!(offsets, vec![base, base + 0x40, base + 0x80, base + 0xC0]);
    let dirs: Vec<bool> = dir.entries().iter().map(|e| e.is_dir()).collect();
    assert_eq!(dirs, vec![false, false, true, false]);
    assert_eq!(dir.entries()[1].attributes().bits(), 0x20);
    assert_eq!(dir.entries()[3].attributes().bits(), 0x01);
}

#[test]
fn file_of_three_clusters_is_cut_to_its_size() {
    let mut image = vol_image();
    let size = 2 * CLUSTER + 5;
    vol_put_record(
        &mut image,
        vol_cluster(1) + 0x40,
        &vol_record(3, 0, b"big", 3, size as u32),
    );
    vol_fat(&mut image, 3, 6);
    vol_fat(&mut image, 6, 4);
    vol_fat(&mut image, 4, 0xFFFF);
    let mut expected = Vec::new();
    for (seed, cluster) in [(3usize, 3usize), (6, 6), (4, 4)] {
        let content = vol_content(seed, CLUSTER);
        image[vol_cluster(cluster)..vol_cluster(cluster + 1)].copy_from_slice(&content);
        expected.extend_from_slice(&content);
    }
    expected.truncate(size);
    let data = vol_data(&image);
    let dir = data.root_dir().unwrap();
    let file = &dir.entries()[1];
    assert_eq!(file.block_chain(), &[3, 6, 4]);
    let bytes = file.read_data(&data).unwrap();
    assert_eq!(bytes.len(), 2 * CLUSTER + 5);
    assert_eq!(bytes, expected);
}

#[test]
fn file_longer_than_its_clusters_gets_what_they_hold() {
    let mut image = vol_image();
    vol_put_record(&mut image, vol_cluster(1), &vol_record(5, 0, b"a.txt", 2, 5000));
    let data = vol_data(&image);
    let dir = data.root_dir().unwrap();
    let bytes = dir.entries()[0].read_data(&data).unwrap();
    assert_eq!(bytes.len(), 512);
    assert_eq!(bytes, vol_content(1, 512));
}

#[test]
fn contiguous_file_gives_back_the_bytes_it_was_made_of() {
    let mut image = vol_image();
    let content = vol_content(9, 3 * CLUSTER);
    image[vol_cluster(20)..vol_cluster(23)].copy_from_slice(&content);
    vol_fat(&mut image, 20, 21);
    vol_fat(&mut image, 21, 22);
    vol_fat(&mut image, 22, 0xFFFF);
    for size in [0usize, 1, CLUSTER, CLUSTER + 1, 3 * CLUSTER - 1, 3 * CLUSTER] {
        vol_put_record(
            &mut image,
            vol_cluster(1) + 0x40,
            &vol_record(4, 0, b"file", 20, size as u32),
        );
        let data = vol_data(&image);
        let dir = data.root_dir().unwrap();
        let file = &dir.entries()[1];
        assert_eq!(file.block_chain(), &[20, 21, 22]);
        assert_eq!(file.read_data(&data).unwrap(), &content[..size]);
    }
}

#[test]
fn file_with_an_unreadable_cluster_is_not_read() {
    let mut image = vol_image();
    let at_end = (IMAGE_LEN - DATA_REGION) / CLUSTER + 1;
    vol_put_record(
        &mut image,
        vol_cluster(1) + 0x40,
        &vol_record(3, 0, b"end", at_end as u32, 10),
    );
    vol_fat(&mut image, at_end, 0xFFFF);
    let past_partition = (DATA_START + DATA_LEN - DATA_REGION) / CLUSTER + 2;
    vol_put_record(
        &mut image,
        vol_cluster(1) + 0x80,
        &vol_record(4, 0, b"past", 3, 1024),
    );
    vol_fat(&mut image, 3, past_partition as u16);
    vol_fat(&mut image, past_partition, 0xFFFF);
    let data = vol_data(&image);
    let dir = data.root_dir().unwrap();
    assert_eq!(dir.entries()[1].block_chain(), &[at_end]);
    assert!(!dir.entries()[1].chain_readable(&data));
    assert_eq!(dir.entries()[1].read_data(&data), None);
    assert_eq!(dir.entries()[2].block_chain(), &[3, past_partition]);
    assert_eq!(dir.entries()[2].read_data(&data), None);
    assert!(dir.entries()[0].chain_readable(&data));
}

#[test]
fn live_chain_loses_clusters_outside_the_image() {
    let mut image = vol_image();
    vol_fat(&mut image, 2, 0x7000);
    vol_fat(&mut image, 0x7000, 3);
    vol_fat(&mut image, 3, 0xFFFF);
    let data = vol_data(&image);
    assert_eq!(data.block_chain_from_root(2), Ok(vec![2, 0x7000, 3]));
    let dir = data.root_dir().unwrap();
    assert_eq!(dir.entries()[0].block_chain(), &[2, 3]);
}

#[test]
fn terminator_ends_the_scan_of_its_cluster() {
    let mut image = vol_image();
    let root = vol_cluster(1);
    vol_put_record(&mut image, root + 0x40, &vol_record(0x00, 0, b"", 0, 0));
    vol_put_record(&mut image, root + 0x80, &vol_record(5, 0, b"b.txt", 3, 1));
    vol_put_record(&mut image, vol_cluster(5), &vol_record(5, 0, b"c.txt", 4, 1));
    let data = vol_data(&image);
    let first = Directory::read_block(&data, 1).unwrap();
    assert_eq!(first.len(), 1);
    assert_eq!(first[0].name(), "a.txt");
    let next = Directory::read_block(&data, 5).unwrap();
    assert_eq!(next.len(), 1);
    assert_eq!(next[0].name(), "c.txt");
    assert_eq!(next[0].offset(), vol_cluster(5) as u64);
    let scan = Directory::scan_block(&data, 1).unwrap();
    assert!(scan.terminated);
    assert_eq!(scan.entries.len(), 1);
}

#[test]
fn terminator_ends_the_directory() {
    let mut image = vol_image();
    vol_fat(&mut image, 1, 5);
    vol_fat(&mut image, 5, 0xFFFF);
    vol_put_record(&mut image, vol_cluster(5), &vol_record(5, 0, b"c.txt", 4, 1));
    let data = vol_data(&image);
    let root = Entry::new_root(&data).unwrap();
    assert_eq!(root.block_chain(), &[1, 5]);
    let dir = data.root_dir().unwrap();
    let names: Vec<&str> = dir.entries().iter().map(|e| e.name()).collect();
    assert_eq!(names, vec!["a.txt"]);
}

#[test]
fn directory_runs_on_into_the_next_cluster() {
    let mut image = vol_image();
    vol_fat(&mut image, 1, 5);
    vol_fat(&mut image, 5, 0xFFFF);
    let names: [&[u8]; 8] = [b"f0", b"f1", b"f2", b"f3", b"f4", b"f5", b"f6", b"f7"];
    for (i, name) in names.iter().enumerate() {
        vol_put_record(
            &mut image,
            vol_cluster(1) + i * 0x40,
            &vol_record(2, 0, name, 0, 0),
        );
    }
    vol_put_record(&mut image, vol_cluster(5), &vol_record(2, 0, b"f8", 0, 0));
    vol_put_record(&mut image, vol_cluster(5) + 0x40, &vol_record(0xFF, 0, b"", 0, 0));
    let data = vol_data(&image);
    let scan = Directory::scan_block(&data, 1).unwrap();
    assert!(!scan.terminated);
    assert_eq!(scan.entries.len(), 8);
    let dir = data.root_dir().unwrap();
    let listed: Vec<&str> = dir.entries().iter().map(|e| e.name()).collect();
    assert_eq!(listed, vec!["f0", "f1", "f2", "f3", "f4", "f5", "f6", "f7", "f8"]);
    assert_eq!(dir.entries()[8].offset(), vol_cluster(5) as u64);
}

#[test]
fn record_without_an_entry_does_not_end_the_scan() {
    let mut image = vol_image();
    let root = vol_cluster(1);
    vol_put_record(&mut image, root, &vol_record(0x2B, 0, b"toolong", 2, 1));
    vol_put_record(&mut image, root + 0x40, &vol_record(3, 0, b"a*b", 2, 1));
    vol_put_record(&mut image, root + 0x80, &vol_record(5, 0, b"b.txt", 2, 1));
    let data = vol_data(&image);
    let dir = data.root_dir().unwrap();
    let names: Vec<&str> = dir.entries().iter().map(|e| e.name()).collect();
    assert_eq!(names, vec!["b.txt"]);
    assert_eq!(dir.entries()[0].offset(), (root + 0x80) as u64);
}

#[test]
fn directory_of_an_entry_without_clusters_is_empty() {
    let mut image = vol_image();
    vol_put_record(&mut image, vol_cluster(1), &vol_record(3, 0x10, b"dir", 0, 0));
    let data = vol_data(&image);
    let root = data.root_dir().unwrap();
    let entry = &root.entries()[0];
    assert!(entry.is_dir());
    assert_eq!(entry.block_chain(), &[] as &[usize]);
    let dir = Directory::parse(entry, &data, "dir".to_owned()).unwrap();
    assert_eq!(dir.name(), "dir");
    assert_eq!(dir.entries().len(), 0);
}

#[test]
fn subdirectory_is_read_from_its_own_clusters() {
    let mut image = vol_image();
    vol_put_record(&mut image, vol_cluster(1) + 0x40, &vol_record(4, 0x10, b"Docs", 8, 0));
    vol_fat(&mut image, 8, 0xFFFF);
    for b in &mut image[vol_cluster(8)..vol_cluster(9)] {
        *b = 0xFF;
    }
    vol_put_record(&mut image, vol_cluster(8), &vol_record(6, 0, b"in.bin", 9, 3));
    vol_fat(&mut image, 9, 0xFFFF);
    image[vol_cluster(9)..vol_cluster(9) + 3].copy_from_slice(b"xyz");
    let data = vol_data(&image);
    let root = data.root_dir().unwrap();
    let docs = &root.entries()[1];
    assert!(docs.is_dir());
    let dir = Directory::parse(docs, &data, docs.name().to_owned()).unwrap();
    assert_eq!(dir.name(), "Docs");
    assert_eq!(dir.entries().len(), 1);
    assert_eq!(dir.entries()[0].name(), "in.bin");
    assert_eq!(dir.entries()[0].offset(), vol_cluster(8) as u64);
    assert_eq!(dir.entries()[0].read_data(&data), Some(b"xyz".to_vec()));
}

#[test]
fn cluster_zero_holds_no_records() {
    let image = vol_image();
    let data = vol_data(&image);
    assert_eq!(
        Directory::read_block(&data, 0).err(),
        Some(DiskError::IoError(IoErrorKind::InvalidData))
    );
    assert_eq!(
        Directory::scan_block(&data, 0).err(),
        Some(DiskError::IoError(IoErrorKind::InvalidData))
    );
}

#[test]
fn records_outside_the_image_are_a_read_error() {
    let image = vol_image();
    let data = vol_data(&image);
    let at_end = (IMAGE_LEN - DATA_REGION) / CLUSTER + 1;
    assert_eq!(
        Directory::read_block(&data, at_end).err(),
        Some(DiskError::IoError(IoErrorKind::UnexpectedEof))
    );
    assert_eq!(
        Directory::read_block(&data, usize::MAX).err(),
        Some(DiskError::IoError(IoErrorKind::UnexpectedEof))
    );
    assert!(Directory::read_block(&data, at_end - 1).is_ok());
}

#[test]
fn record_of_a_live_file_parses_to_its_fields() {
    let image = vol_image();
    let data = vol_data(&image);
    let record = vol_record(9, 0x22, b"Save 1.dat", 2, 0x1234);
    let entry = vol_entry(Entry::parse(&data, &record, 0x5000).unwrap());
    assert_eq!(entry.name(), "Save 1.da");
    assert_eq!(entry.size(), 0x1234);
    assert_eq!(entry.first_cluster(), 2);
    assert_eq!(entry.offset(), 0x5000);
    assert_eq!(entry.attributes().bits(), 0x22);
    assert!(!entry.is_deleted());
    assert!(!entry.is_dir());
    assert_eq!(entry.block_chain(), &[2]);
}

#[test]
fn record_with_an_end_mark_is_a_terminator() {
    let image = vol_image();
    let data = vol_data(&image);
    for flag in [0x00u8, 0xFF] {
        let record = vol_record(flag, 0, b"a.txt", 2, 1);
        assert!(matches!(Entry::parse(&data, &record, 0), Ok(ParsedRecord::Terminator)));
    }
}

#[test]
fn deleted_record_without_a_name_is_a_terminator() {
    let image = vol_image();
    let data = vol_data(&image);
    let record = vol_record(0xE5, 0, b"", 2, 1);
    assert_eq!(record[2], 0xFF);
    assert!(matches!(Entry::parse(&data, &record, 0), Ok(ParsedRecord::Terminator)));
    let mut zeroed = vol_record(0xE5, 0x10, b"name", 2, 1);
    zeroed[2] = 0x00;
    assert!(matches!(Entry::parse(&data, &zeroed, 0), Ok(ParsedRecord::Terminator)));
}

#[test]
fn name_longer_than_the_field_is_skipped() {
    let image = vol_image();
    let data = vol_data(&image);
    let long = [b'a'; 0x2A];
    for flag in [0x2Bu8, 0x80, 0xE4, 0xE6, 0xFE] {
        let record = vol_record(flag, 0, &long, 2, 1);
        assert!(matches!(Entry::parse(&data, &record, 0), Ok(ParsedRecord::Skipped)));
    }
    let full = vol_entry(Entry::parse(&data, &vol_record(0x2A, 0, &long, 2, 1), 0).unwrap());
    assert_eq!(full.name().len(), 0x2A);
    let one = vol_entry(Entry::parse(&data, &vol_record(1, 0, &long, 2, 1), 0).unwrap());
    assert_eq!(one.name(), "a");
}

#[test]
fn name_with_a_forbidden_byte_is_skipped() {
    let image = vol_image();
    let data = vol_data(&image);
    for bad in [0x00u8, 0x1F, 0x21, 0x23, 0x25, 0x2A, 0x2D, 0x2F, 0x3A, 0x40, 0x5B, 0x5E, 0x60, 0x7B, 0x7F, 0x80, 0xFF] {
        let name = [b'a', bad, b'c'];
        let record = vol_record(3, 0, &name, 2, 1);
        assert!(matches!(Entry::parse(&data, &record, 0), Ok(ParsedRecord::Skipped)));
    }
    for good in [0x20u8, 0x24, 0x2E, 0x30, 0x39, 0x41, 0x5A, 0x5F, 0x61, 0x7A] {
        let name = [b'a', good, b'c'];
        let record = vol_record(3, 0, &name, 2, 1);
        let entry = vol_entry(Entry::parse(&data, &record, 0).unwrap());
        assert_eq!(entry.name().as_bytes(), &name);
    }
    let tail = vol_record(2, 0, &[b'o', b'k', b'*'], 2, 1);
    assert_eq!(vol_entry(Entry::parse(&data, &tail, 0).unwrap()).name(), "ok");
}

#[test]
fn unknown_attribute_bits_give_no_attributes() {
    let image = vol_image();
    let data = vol_data(&image);
    let record = vol_record(5, 0x18, b"a.txt", 2, 1);
    let entry = vol_entry(Entry::parse(&data, &record, 0).unwrap());
    assert_eq!(entry.attributes().bits(), 0);
    assert!(!entry.is_dir());
    let dir = vol_entry(Entry::parse(&data, &vol_record(5, 0x10, b"a.txt", 2, 1), 0).unwrap());
    assert!(dir.is_dir());
}

#[test]
fn short_record_is_a_read_error() {
    let image = vol_image();
    let data = vol_data(&image);
    let record = vol_record(5, 0, b"a.txt", 2, 1);
    assert_eq!(
        Entry::parse(&data, &record[..0x3F], 0).err(),
        Some(DiskError::IoError(IoErrorKind::UnexpectedEof))
    );
    assert_eq!(
        Entry::parse(&data, &[], 0).err(),
        Some(DiskError::IoError(IoErrorKind::UnexpectedEof))
    );
}

#[test]
fn live_record_fails_where_the_table_cannot_be_read() {
    let image = vol_image();
    let data = vol_data(&image);
    let record = vol_record(5, 0, b"a.txt", 0x7FFF_FFFF, 1);
    assert_eq!(
        Entry::parse(&data, &record, 0).err(),
        Some(DiskError::IoError(IoErrorKind::UnexpectedEof))
    );
    let deleted = vol_record(0xE5, 0, b"a.txt", 0x7FFF_FFFF, 1);
    let entry = vol_entry(Entry::parse(&data, &deleted, 0).unwrap());
    assert_eq!(entry.block_chain(), &[] as &[usize]);
}

#[test]
fn deleted_record_recovers_its_name() {
    let image = vol_image();
    let data = vol_data(&image);
    let entry = vol_entry(Entry::parse(&data, &vol_record(0xE5, 0, b"a.txt", 2, 512), 0x77).unwrap());
    assert_eq!(entry.name(), "a.txt");
    assert!(entry.is_deleted());
    assert_eq!(entry.offset(), 0x77);
    let mut zero_ended = vol_record(0xE5, 0, b"hello.bin", 2, 512);
    zero_ended[2 + 5] = 0x00;
    assert_eq!(vol_entry(Entry::parse(&data, &zero_ended, 0).unwrap()).name(), "hello");
    let full = [b'x'; 0x2A];
    let whole = vol_entry(Entry::parse(&data, &vol_record(0xE5, 0, &full, 2, 512), 0).unwrap());
    assert_eq!(whole.name().len(), 0x29);
    let almost = vol_entry(Entry::parse(&data, &vol_record(0xE5, 0, &full[..0x29], 2, 512), 0).unwrap());
    assert_eq!(almost.name().len(), 0x29);
}

#[test]
fn deleted_file_takes_as_many_clusters_as_its_size_asks() {
    let image = vol_image();
    let data = vol_data(&image);
    let cases: [(u32, Vec<usize>); 6] = [
        (0, vec![]),
        (1, vec![7]),
        (CLUSTER as u32, vec![7]),
        (CLUSTER as u32 + 1, vec![7, 8]),
        (2 * CLUSTER as u32, vec![7, 8]),
        (2 * CLUSTER as u32 + 1, vec![7, 8, 9]),
    ];
    for (size, chain) in cases {
        let record = vol_record(0xE5, 0, b"gone", 7, size);
        let entry = vol_entry(Entry::parse(&data, &record, 0).unwrap());
        assert_eq!(entry.block_chain(), &chain[..]);
        assert_eq!(entry.size(), size as usize);
    }
}

#[test]
fn deleted_chain_loses_clusters_outside_the_image() {
    let image = vol_image();
    let data = vol_data(&image);
    let last = (IMAGE_LEN - DATA_REGION) / CLUSTER + 1;
    let record = vol_record(0xE5, 0, b"gone", (last - 1) as u32, 4 * CLUSTER as u32);
    let entry = vol_entry(Entry::parse(&data, &record, 0).unwrap());
    assert_eq!(entry.block_chain(), &[last - 1, last]);
    let from_zero = vol_record(0xE5, 0, b"gone", 0, 3 * CLUSTER as u32);
    let entry = vol_entry(Entry::parse(&data, &from_zero, 0).unwrap());
    assert_eq!(entry.block_chain(), &[1, 2]);
}

#[test]
fn deleted_file_past_the_image_reads_as_empty() {
    let image = vol_image();
    let data = vol_data(&image);
    let last = (IMAGE_LEN - DATA_REGION) / CLUSTER + 1;
    for first in [last as u32 + 1, 0x10_0000, u32::MAX] {
        let record = vol_record(0xE5, 0, b"gone", first, 1000);
        let entry = vol_entry(Entry::parse(&data, &record, 0).unwrap());
        assert_eq!(entry.block_chain(), &[] as &[usize]);
        assert_eq!(entry.read_data(&data), Some(vec![]));
    }
}

#[test]
fn deleted_file_reads_its_contiguous_clusters() {
    let image = vol_image();
    let data = vol_data(&image);
    let record = vol_record(0xE5, 0, b"a.txt", 2, 300);
    let entry = vol_entry(Entry::parse(&data, &record, 0).unwrap());
    assert_eq!(entry.read_data(&data), Some(vol_content(1, 300)));
}

#[test]
fn deleted_entries_of_a_directory_are_not_live() {
    let mut image = vol_image();
    image[vol_cluster(1)] = 0xE5;
    vol_fat(&mut image, 2, 0);
    vol_put_record(&mut image, vol_cluster(1) + 0x40, &vol_record(5, 0, b"b.txt", 3, 1));
    vol_fat(&mut image, 3, 0xFFFF);
    let data = vol_data(&image);
    let dir = data.root_dir().unwrap();
    assert_eq!(dir.entries().len(), 2);
    assert!(dir.entries()[0].is_deleted());
    assert_eq!(dir.entries()[0].name(), "a.txt");
    let live = dir.live_entries();
    assert_eq!(live.len(), 1);
    assert_eq!(live[0].name(), "b.txt");
    assert_eq!(live[0].offset(), (vol_cluster(1) + 0x40) as u64);
    assert_eq!(live[0].block_chain(), &[3]);
}

#[test]
fn known_files_are_the_live_files_one_level_down() {
    let mut image = vol_image();
    let root = vol_cluster(1);
    vol_put_record(&mut image, root + 0x40, &vol_record(4, 0x10, b"Docs", 8, 0));
    vol_put_record(&mut image, root + 0x80, &vol_record(0xE5, 0, b"old", 30, 1));
    vol_put_record(&mut image, root + 0xC0, &vol_record(0xE5, 0x10, b"OldDir", 8, 0));
    vol_put_record(&mut image, root + 0x100, &vol_record(1, 0, b"z", 0, 0));
    vol_fat(&mut image, 8, 0xFFFF);
    for b in &mut image[vol_cluster(8)..vol_cluster(9)] {
        *b = 0xFF;
    }
    vol_put_record(&mut image, vol_cluster(8), &vol_record(6, 0, b"in.bin", 9, 3));
    vol_put_record(&mut image, vol_cluster(8) + 0x40, &vol_record(0xE5, 0, b"cut", 9, 3));
    vol_put_record(&mut image, vol_cluster(8) + 0x80, &vol_record(3, 0x10, b"Sub", 0, 0));
    vol_fat(&mut image, 9, 0xFFFF);
    let data = vol_data(&image);
    let known = known_files(&data).unwrap();
    let names: Vec<&str> = known.iter().map(|e| e.name()).collect();
    assert_eq!(names, vec!["a.txt", "in.bin", "Sub", "z"]);
    let offsets: Vec<u64> = known.iter().map(|e| e.offset()).collect();
    assert_eq!(
        offsets,
        vec![
            root as u64,
            vol_cluster(8) as u64,
            (vol_cluster(8) + 0x80) as u64,
            (root + 0x100) as u64,
        ]
    );
}

#[test]
fn known_files_fail_with_the_directory_that_fails() {
    let mut image = vol_image();
    let at_end = (IMAGE_LEN - DATA_REGION) / CLUSTER + 1;
    vol_put_record(
        &mut image,
        vol_cluster(1) + 0x40,
        &vol_record(4, 0x10, b"Docs", at_end as u32, 0),
    );
    vol_fat(&mut image, at_end, 0xFFFF);
    let data = vol_data(&image);
    assert_eq!(
        known_files(&data).err(),
        Some(DiskError::IoError(IoErrorKind::UnexpectedEof))
    );
}

#[test]
fn clone_of_an_entry_keeps_every_field() {
    let image = vol_image();
    let data = vol_data(&image);
    let record = vol_record(0xE5, 0x10, b"gone", 7, 2 * CLUSTER as u32);
    let entry = vol_entry(Entry::parse(&data, &record, 0x123).unwrap());
    let copy = entry.clone();
    assert_eq!(copy.name(), "gone");
    assert_eq!(copy.offset(), 0x123);
    assert_eq!(copy.size(), 2 * CLUSTER);
    assert_eq!(copy.first_cluster(), 7);
    assert_eq!(copy.block_chain(), &[7, 8]);
    assert!(copy.is_deleted());
    assert!(copy.is_dir());
}

#[test]
fn live_chain_ends_at_a_terminator_without_repeats() {
    let mut image = vol_image();
    vol_fat(&mut image, 2, 30);
    vol_fat(&mut image, 30, 31);
    vol_fat(&mut image, 31, 7);
    vol_fat(&mut image, 7, 0xFFF8);
    let data = vol_data(&image);
    let dir = data.root_dir().unwrap();
    let chain = dir.entries()[0].block_chain();
    assert_eq!(chain, &[2, 30, 31, 7]);
    for pair in chain.windows(2) {
        assert_ne!(pair[0], pair[1]);
        assert_eq!(data.fat_entry(pair[0]), Ok(pair[1]));
    }
    let after = data.fat_entry(*chain.last().unwrap()).unwrap();
    assert!(data.is_terminator(after));
    assert!(chain.iter().all(|c| !data.is_terminator(*c)));
}

#[test]
fn parsed_entries_have_allowed_names_and_sizes() {
    let mut image = vol_image();
    let root = vol_cluster(1);
    vol_put_record(&mut image, root + 0x40, &vol_record(0x2A, 0, &[b'Z'; 0x2A], 0, u32::MAX));
    vol_put_record(&mut image, root + 0x80, &vol_record(1, 0, b"$", 0, 0));
    vol_put_record(&mut image, root + 0xC0, &vol_record(0xE5, 0, b"was here.txt", 0, 77));
    let data = vol_data(&image);
    let dir = data.root_dir().unwrap();
    assert_eq!(dir.entries().len(), 4);
    for entry in dir.entries() {
        assert!(1 <= entry.name().len() && entry.name().len() <= 0x2A);
        assert!(entry.name().bytes().all(allowed_name_byte));
        assert!(entry.size() as u64 <= 0x1_0000_0000);
    }
    assert_eq!(dir.entries()[1].size(), u32::MAX as usize);
    assert_eq!(dir.entries()[3].name(), "was here.txt");
}

#[test]
fn name_bytes_come_from_the_allowed_set() {
    let allowed: Vec<u8> = (0u8..=255).filter(|b| allowed_name_byte(*b)).collect();
    let mut expected: Vec<u8> = vec![0x20, 0x24, 0x2E];
    expected.extend(0x30u8..=0x39);
    expected.extend(0x41u8..=0x5A);
    expected.push(0x5F);
    expected.extend(0x61u8..=0x7A);
    assert_eq!(allowed, expected);
    assert!(name_allowed(b""));
    assert!(name_allowed(b"Save Game_01.$$$"));
    assert!(!name_allowed(b"a/b"));
    assert!(!name_allowed(b"ok\0"));
    assert!(!name_allowed(&[b'a', 0xE9]));
}

#[test]
fn recovered_name_ends_at_the_first_end_mark() {
    assert_eq!(recovered_name_len(&[0xFF]), 0);
    assert_eq!(recovered_name_len(&[b'a']), 0);
    assert_eq!(recovered_name_len(&[b'a', 0xFF, b'b', 0x00]), 1);
    assert_eq!(recovered_name_len(&[b'a', b'b', 0x00, 0xFF]), 2);
    assert_eq!(recovered_name_len(&[b'a', b'b', b'c', 0xFF]), 3);
    assert_eq!(recovered_name_len(&[b'a', b'b', b'c', b'd']), 3);
    assert_eq!(recovered_name_len(&[0x00, b'b', b'c', b'd']), 0);
}

#[test]
fn cluster_count_rounds_up() {
    assert_eq!(cluster_count(0, 0x200), 0);
    assert_eq!(cluster_count(1, 0x200), 1);
    assert_eq!(cluster_count(0x1FF, 0x200), 1);
    assert_eq!(cluster_count(0x200, 0x200), 1);
    assert_eq!(cluster_count(0x201, 0x200), 2);
    assert_eq!(cluster_count(0x4000, 0x4000), 1);
    assert_eq!(cluster_count(0x4001, 0x4000), 2);
    assert_eq!(cluster_count(u32::MAX, 0x200), 0x80_0000);
    assert_eq!(cluster_count(u32::MAX, 0x8000_0000), 2);
    assert_eq!(cluster_count(5, 1), 5);
}

#[test]
fn chains_keep_only_clusters_in_the_image() {
    let image = vol_image();
    let data = vol_data(&image);
    let last = (IMAGE_LEN - DATA_REGION) / CLUSTER + 1;
    assert_eq!(
        retain_in_image(&data, &vec![5, 0, last + 1, 5, last, usize::MAX, 1]),
        vec![5, 5, last, 1]
    );
    assert_eq!(retain_in_image(&data, &vec![]), Vec::<usize>::new());
    assert_eq!(contiguous_chain(&data, 3, 0x401), vec![3, 4, 5]);
    assert_eq!(contiguous_chain(&data, 0, 0x400), vec![1]);
    assert_eq!(contiguous_chain(&data, u32::MAX, 0x400), Vec::<usize>::new());
    assert_eq!(contiguous_chain(&data, last as u32, 0x400), vec![last]);
}

//! The file system in one place: the items of the modules that decode it.

pub use crate::attributes::EntryAttributes;
pub use crate::devkit::{devkit_partitions, DevkitHddInfo};
pub use crate::directory::{known_files, Directory};
pub use crate::entry::{Entry, ParsedRecord};
pub use crate::geometry::{EntrySize, FAT_TABLE_OFFSET, SECTOR_SIZE};
pub use crate::partition::Partition;
pub use crate::record::{DELETED_FILE_FLAG, ENTRY_SIZE, MAX_FILENAME_LEN};

//! Disk-usage aggregation: counts each inode once across hard links, sums
//! subtree sizes without overflow, and renders sizes as block counts or in
//! base-1024 units.

pub mod block;
pub mod config;
pub mod dedup;
pub mod format;
pub mod numeric;
pub mod options;
pub mod path;
pub mod traverse;

pub use block::{block_size, block_size_builder, resolve_block_size, BlockSize};
pub use config::{apparent_size_reader, size_block_reader, Config, Meta, SizeReader};
pub use dedup::ShardedSet;
pub use numeric::{parse_unsigned, unsigned_numeric};
pub use options::{configure, total_line, Options, OptionsError};
pub use path::{Path, PathBuf};
pub use traverse::{execute, Entry, Report, MAX_ENTRIES};
pub use format::{block_count_display, human_readable_display, OutputSize};

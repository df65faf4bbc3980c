use crate::format::{
    block_count_display, block_count_text, human_readable_display, human_text, OutputSize,
};
use vstd::prelude::*;

verus! {

/// The metadata of one filesystem entry that sizing and deduplication read.
#[derive(Clone, Copy, Debug, PartialEq, Eq, Structural)]
pub struct Meta {
    /// The inode identifier, unique per physical object within one run.
    pub inode: u64,
    /// Whether the entry (as resolved) is a directory.
    pub is_dir: bool,
    /// The logical length in bytes.
    pub len: u64,
    /// The number of 512-byte blocks allocated to the entry.
    pub blocks: u64,
}

/// How an entry's own size is read from its metadata.
#[derive(Clone, Copy, Debug, PartialEq, Eq, Structural)]
pub enum SizeReader {
    /// Allocated blocks, counted in bytes.
    BlockUsage,
    /// The logical length.
    ApparentSize,
}

/// The bytes that the allocated blocks of an entry occupy.
pub open spec fn block_bytes(meta: Meta) -> nat {
    meta.blocks as nat * 512
}

/// What `reader` reports as the own size of an entry with `meta`.
pub open spec fn read_size(reader: SizeReader, meta: Meta) -> nat {
    match reader {
        SizeReader::BlockUsage => block_bytes(meta),
        SizeReader::ApparentSize => meta.len as nat,
    }
}

/// Disk usage: the allocated blocks, 512 bytes each.
pub fn size_block_reader(metadata: &Meta) -> (r: OutputSize)
    ensures
        r == block_bytes(*metadata),
{
    metadata.blocks as u128 * 512
}

/// Apparent size: the logical length.
pub fn apparent_size_reader(metadata: &Meta) -> (r: OutputSize)
    ensures
        r == metadata.len,
{
    metadata.len as u128
}

impl SizeReader {
    /// The own size of an entry with `metadata`.
    pub fn read(&self, metadata: &Meta) -> (r: OutputSize)
        ensures
            r == read_size(*self, *metadata),
    {
        match self {
            SizeReader::BlockUsage => size_block_reader(metadata),
            SizeReader::ApparentSize => apparent_size_reader(metadata),
        }
    }
}

/// The settings of one run; read-only while the tree is walked.
#[derive(Clone, Copy, Debug, PartialEq, Eq, Structural)]
pub struct Config {
    /// Print a line for every file, not only for directories.
    pub display_files: bool,
    /// Entries deeper than this are summed but not printed.
    pub max_depth: u64,
    /// Resolve symbolic links instead of reading the link itself.
    pub follow_symlink: bool,
    /// The divisor of block-count display, in bytes.
    pub block_size: OutputSize,
    /// How an entry's own size is read.
    pub size_reader: SizeReader,
    /// Show sizes in base-1024 units instead of block counts.
    pub human_readable: bool,
}

/// The text that `config` renders `size` as.
pub open spec fn size_text(config: Config, size: nat) -> Seq<char> {
    if config.human_readable {
        human_text(size)
    } else {
        block_count_text(size, config.block_size as nat)
    }
}

impl Config {
    /// A configuration is usable when its block size is positive.
    pub open spec fn wf(&self) -> bool {
        self.block_size >= 1
    }

    /// `size` in base-1024 units: "0", "1K", "1.5K", ..., up to Y.
    pub fn convert_human_readable(&self, size: OutputSize) -> (r: String)
        ensures
            r@ == human_text(size as nat),
    {
        human_readable_display(size)
    }

    /// `size` as this configuration shows it: human-readable, or as the
    /// number of blocks it occupies, rounded up.
    pub fn convert_size(&self, size: OutputSize) -> (r: String)
        requires
            self.wf(),
        ensures
            r@ == size_text(*self, size as nat),
    {
        if self.human_readable {
            return self.convert_human_readable(size);
        }
        block_count_display(size, self.block_size)
    }
}

} // verus!

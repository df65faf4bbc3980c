use crate::block::{resolve_block_size, resolved_block_size};
use crate::config::{size_text, Config, SizeReader};
use crate::format::{push_char, OutputSize};
use crate::numeric::{parse_unsigned, unsigned_value};
use vstd::prelude::*;

verus! {

/// The command-line choices that settle a run's configuration.
pub struct Options {
    /// Print every file, not only directories.
    pub all: bool,
    /// Print only each root's total.
    pub summarize: bool,
    /// The deepest level to print, as given.
    pub depth: Option<String>,
    /// The block size, as given (such as "4K" or "1MB").
    pub block_size: Option<Vec<u8>>,
    /// Blocks of 1G.
    pub giga: bool,
    /// Blocks of 1M.
    pub mega: bool,
    /// Sizes in base-1024 units.
    pub human_readable: bool,
    /// Apparent sizes instead of disk usage.
    pub apparent_size: bool,
    /// Follow symbolic links.
    pub follow_symlink: bool,
    /// End lines with NUL instead of a newline.
    pub null_terminated: bool,
}

/// Why a set of options cannot make a configuration.
#[derive(Clone, Copy, Debug, PartialEq, Eq, Structural)]
pub enum OptionsError {
    /// The depth is not an unsigned 64-bit number.
    BadDepth,
    /// The block size cannot divide: zero, or past 128 bits.
    BadBlockSize,
    /// A depth and summarizing were both asked for.
    DepthWithSummarize,
}

impl OptionsError {
    /// The message shown for the error.
    pub fn message(&self) -> (r: String)
        ensures
            r@ == match self {
                OptionsError::BadDepth => "Value has to be a number and >= 0"@,
                OptionsError::BadBlockSize => "invalid block size"@,
                OptionsError::DepthWithSummarize => "depth and summarize cannot be used together"@,
            },
    {
        match self {
            OptionsError::BadDepth => String::from_str("Value has to be a number and >= 0"),
            OptionsError::BadBlockSize => String::from_str("invalid block size"),
            OptionsError::DepthWithSummarize => String::from_str(
                "depth and summarize cannot be used together",
            ),
        }
    }
}

/// The block size that `o` selects: the one given, else 1G or 1M blocks,
/// else 1K.
pub open spec fn chosen_block_size(o: Options) -> nat {
    match o.block_size {
        Some(b) => match resolved_block_size(b@) {
            Some(n) => n,
            None => 0,
        },
        None => if o.giga {
            0x4000_0000
        } else if o.mega {
            0x10_0000
        } else {
            1024
        },
    }
}

/// The configuration and line terminator that `o` selects, or why it
/// cannot. Without a depth only the roots are printed.
pub open spec fn configured(o: Options) -> Result<(Config, char), OptionsError> {
    if o.depth is Some && unsigned_value(o.depth->Some_0@) is None {
        Err(OptionsError::BadDepth)
    } else if o.block_size is Some && resolved_block_size(o.block_size->Some_0@) is None {
        Err(OptionsError::BadBlockSize)
    } else if o.depth is Some && o.summarize {
        Err(OptionsError::DepthWithSummarize)
    } else {
        let config = Config {
            display_files: o.all,
            max_depth: match o.depth {
                Some(d) => unsigned_value(d@)->Some_0,
                None => 0,
            },
            follow_symlink: o.follow_symlink,
            block_size: chosen_block_size(o) as u128,
            size_reader: if o.apparent_size {
                SizeReader::ApparentSize
            } else {
                SizeReader::BlockUsage
            },
            human_readable: o.human_readable,
        };
        Ok(
            (
                config,
                if o.null_terminated {
                    '\0'
                } else {
                    '\n'
                },
            ),
        )
    }
}

/// Settles the configuration and line terminator of a run from `o`; a
/// configuration it returns always has a usable block size.
pub fn configure(o: &Options) -> (r: Result<(Config, char), OptionsError>)
    ensures
        r == configured(*o),
        r matches Ok((c, _)) ==> c.wf(),
{
    let mut max_depth: u64 = 0;
    match &o.depth {
        Some(d) => match parse_unsigned(d.as_str()) {
            Some(v) => {
                max_depth = v;
            },
            None => {
                return Err(OptionsError::BadDepth);
            },
        },
        None => {},
    }
    let block_size: OutputSize = match &o.block_size {
        Some(b) => match resolve_block_size(b.as_slice()) {
            Some(n) => n,
            None => {
                return Err(OptionsError::BadBlockSize);
            },
        },
        None => if o.giga {
            0x4000_0000
        } else if o.mega {
            0x10_0000
        } else {
            1024
        },
    };
    if o.depth.is_some() && o.summarize {
        return Err(OptionsError::DepthWithSummarize);
    }
    let config = Config {
        display_files: o.all,
        max_depth,
        follow_symlink: o.follow_symlink,
        block_size,
        size_reader: if o.apparent_size {
            SizeReader::ApparentSize
        } else {
            SizeReader::BlockUsage
        },
        human_readable: o.human_readable,
    };
    let term = if o.null_terminated {
        '\0'
    } else {
        '\n'
    };
    Ok((config, term))
}

/// The grand-total line: size, tab, "total", newline.
pub open spec fn total_line_text(config: Config, total: nat) -> Seq<char> {
    size_text(config, total).push('\t') + "total"@.push('\n')
}

/// The line that reports the grand total of a run.
pub fn total_line(config: &Config, total: OutputSize) -> (r: String)
    requires
        config.wf(),
    ensures
        r@ == total_line_text(*config, total as nat),
{
    let mut line = config.convert_size(total);
    push_char(&mut line, '\t');
    line.append("total");
    push_char(&mut line, '\n');
    assert(line@ =~= total_line_text(*config, total as nat));
    line
}

} // verus!

//! Decisions of the command line scanner: the scan options, the number of
//! worker threads, and which files of a directory are skipped.
use vstd::prelude::*;

verus! {

/// Options of a scan of one file.
#[derive(Copy, Clone, Debug)]
pub struct ScanOptions {
    /// Print the values of the modules.
    pub print_module_data: bool,
    /// Read files in place of mapping them in memory.
    pub no_mmap: bool,
}

impl ScanOptions {
    /// The options from the command line flags: `no_mmap` only counts where
    /// memory maps are available.
    pub fn new(print_module_data: bool, no_mmap: bool, memmap_available: bool) -> (r: Self)
        ensures
            r.print_module_data == print_module_data,
            r.no_mmap == (memmap_available && no_mmap),
    {
        ScanOptions { print_module_data, no_mmap: if memmap_available { no_mmap } else { false } }
    }
}

/// The number of worker threads: the number requested, else the
/// parallelism available, or 32 when it is not known.
pub fn worker_count(requested: Option<usize>, available: Option<usize>) -> (r: usize)
    ensures
        r == match requested {
            Some(nb) => nb,
            None => match available {
                Some(n) => n,
                None => 32,
            },
        },
{
    match requested {
        Some(nb) => nb,
        None => match available {
            Some(n) => n,
            None => 32,
        },
    }
}

/// The capacity of the channel that hands paths to the workers: five paths
/// per worker.
pub fn channel_capacity(workers: usize) -> (r: usize)
    requires
        workers * 5 <= usize::MAX,
    ensures
        r == workers * 5,
{
    workers * 5
}

/// Whether a file found while walking a directory is skipped: a maximum
/// size was given and is not 0, the file is not the walked path itself, and
/// the file is at least that large.
pub fn skip_file(max_size: Option<u64>, depth: usize, file_length: u64) -> (r: bool)
    ensures
        r == match max_size {
            Some(m) => m > 0 && depth > 0 && file_length >= m,
            None => false,
        },
{
    match max_size {
        Some(m) => m > 0 && depth > 0 && file_length >= m,
        None => false,
    }
}

} // verus!

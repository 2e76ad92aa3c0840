//! Engine configuration with builder-style setters.
use vstd::prelude::*;

verus! {

/// Worker count used when the machine's parallelism is unknown.
pub const FALLBACK_WORKERS: usize = 4;

/// Rows processed per unit of parallel work.
pub const DEFAULT_MORSEL_SIZE: usize = 2048;

/// Size of one buffer block: 256 KiB.
pub const DEFAULT_BUFFER_BLOCK_SIZE: usize = 262144;

/// How memory-mapped files are brought into memory.
#[derive(Debug, Clone, Copy, PartialEq, Eq, Structural)]
pub enum MmapStrategy {
    Eager,
    Lazy,
    BufferPool,
}

/// Global configuration for the Relay engine.
#[derive(Debug, Clone)]
pub struct RelayConfig {
    pub num_workers: usize,
    pub morsel_size: usize,
    pub memory_budget: usize,
    pub buffer_block_size: usize,
    pub enable_spill: bool,
    pub spill_dir: Option<String>,
    pub mmap_strategy: MmapStrategy,
    pub enable_simd: bool,
    pub enable_optimizer: bool,
    pub enable_mem_trace: bool,
}

/// The documented defaults, given the worker count.
pub open spec fn is_default_with_workers(c: RelayConfig, workers: usize) -> bool {
    &&& c.num_workers == workers
    &&& c.morsel_size == DEFAULT_MORSEL_SIZE
    &&& c.memory_budget == 0
    &&& c.buffer_block_size == DEFAULT_BUFFER_BLOCK_SIZE
    &&& c.enable_spill
    &&& c.spill_dir is None
    &&& c.mmap_strategy == MmapStrategy::Lazy
    &&& c.enable_simd
    &&& c.enable_optimizer
    &&& !c.enable_mem_trace
}

impl RelayConfig {
    /// The default configuration for a machine that offers `parallelism`
    /// hardware threads; the fallback worker count when that is unknown.
    pub fn with_parallelism(parallelism: Option<usize>) -> (r: Self)
        ensures
            is_default_with_workers(
                r,
                match parallelism {
                    Some(n) => n,
                    None => FALLBACK_WORKERS,
                },
            ),
    {
        let num_workers = match parallelism {
            Some(n) => n,
            None => FALLBACK_WORKERS,
        };
        RelayConfig {
            num_workers,
            morsel_size: DEFAULT_MORSEL_SIZE,
            memory_budget: 0,
            buffer_block_size: DEFAULT_BUFFER_BLOCK_SIZE,
            enable_spill: true,
            spill_dir: None,
            mmap_strategy: MmapStrategy::Lazy,
            enable_simd: true,
            enable_optimizer: true,
            enable_mem_trace: false,
        }
    }

    /// The default configuration (parallelism unknown to the library).
    pub fn new() -> (r: Self)
        ensures
            is_default_with_workers(r, FALLBACK_WORKERS),
    {
        Self::with_parallelism(None)
    }

    /// Sets the number of worker threads.
    pub fn with_workers(self, n: usize) -> (r: Self)
        ensures
            r == (RelayConfig { num_workers: n, ..self }),
    {
        let mut c = self;
        c.num_workers = n;
        c
    }

    /// Sets the number of rows per morsel.
    pub fn with_morsel_size(self, size: usize) -> (r: Self)
        ensures
            r == (RelayConfig { morsel_size: size, ..self }),
    {
        let mut c = self;
        c.morsel_size = size;
        c
    }

    /// Sets the memory budget in bytes (0 means detect at run time).
    pub fn with_memory_budget(self, bytes: usize) -> (r: Self)
        ensures
            r == (RelayConfig { memory_budget: bytes, ..self }),
    {
        let mut c = self;
        c.memory_budget = bytes;
        c
    }

    /// Turns memory tracing on or off.
    pub fn with_mem_trace(self, enable: bool) -> (r: Self)
        ensures
            r == (RelayConfig { enable_mem_trace: enable, ..self }),
    {
        let mut c = self;
        c.enable_mem_trace = enable;
        c
    }
}

impl Default for RelayConfig {
    fn default() -> (r: Self)
        ensures
            is_default_with_workers(r, FALLBACK_WORKERS),
    {
        Self::new()
    }
}

} // verus!

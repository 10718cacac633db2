//! Configuration of a guest VM: the sizes of its stack and shared memory,
//! the memory limit, and whether it runs in single steps.
use vstd::prelude::*;

verus! {

/// The default stack size of the guest (8 MiB).
pub const GUEST_DEFAULT_STACK_SIZE: usize = 0x80_0000;
/// The default size of the shared memory regions (8 MiB).
pub const DEFAULT_SHARED_MEMORY: usize = 0x80_0000;
/// The default memory limit (128 MiB).
pub const DEFAULT_MAX_MEMORY: u64 = 0x800_0000;

/// A size that is a positive whole number of pages.
pub open spec fn page_sized(size: usize) -> bool {
    size > 0 && size % 4096 == 0
}

/// The default configuration.
pub open spec fn default_config() -> Config {
    Config {
        stack_size: GUEST_DEFAULT_STACK_SIZE,
        shared_guest: DEFAULT_SHARED_MEMORY,
        shared_host: DEFAULT_SHARED_MEMORY,
        max_memory: DEFAULT_MAX_MEMORY,
        debug: false,
    }
}

/// Configuration of a guest VM.
#[derive(Debug, Clone, Copy, PartialEq, Eq, Structural)]
pub struct Config {
    pub stack_size: usize,
    pub shared_guest: usize,
    pub shared_host: usize,
    pub max_memory: u64,
    pub debug: bool,
}

impl Config {
    /// The sizes are positive whole numbers of pages.
    pub open spec fn wf(&self) -> bool {
        page_sized(self.stack_size) && page_sized(self.shared_guest) && page_sized(self.shared_host)
    }

    /// 8 MiB of stack and of each shared region, 128 MiB of memory, no
    /// single steps.
    pub fn default() -> (r: Config)
        ensures
            r == default_config(),
            r.wf(),
    {
        Config {
            stack_size: GUEST_DEFAULT_STACK_SIZE,
            shared_guest: DEFAULT_SHARED_MEMORY,
            shared_host: DEFAULT_SHARED_MEMORY,
            max_memory: DEFAULT_MAX_MEMORY,
            debug: false,
        }
    }

    /// The configuration a builder holds.
    pub fn from(builder: ConfigBuilder) -> (r: Config)
        ensures
            r == builder.config,
    {
        builder.build()
    }
}

/// Builds a VM configuration, starting from the default.
#[derive(Debug, Clone, Copy)]
pub struct ConfigBuilder {
    pub config: Config,
}

impl ConfigBuilder {
    pub fn new() -> (r: ConfigBuilder)
        ensures
            r.config == default_config(),
    {
        ConfigBuilder { config: Config::default() }
    }

    /// The stack size, a positive whole number of pages.
    pub fn stack_size(self, size: usize) -> (r: ConfigBuilder)
        requires
            page_sized(size),
        ensures
            r.config == (Config { stack_size: size, ..self.config }),
    {
        let mut s = self;
        s.config.stack_size = size;
        s
    }

    /// The memory limit.
    pub fn max_memory(self, size: u64) -> (r: ConfigBuilder)
        ensures
            r.config == (Config { max_memory: size, ..self.config }),
    {
        let mut s = self;
        s.config.max_memory = size;
        s
    }

    /// Whether the guest runs in single steps.
    pub fn debug(self, debug: bool) -> (r: ConfigBuilder)
        ensures
            r.config == (Config { debug, ..self.config }),
    {
        let mut s = self;
        s.config.debug = debug;
        s
    }

    pub fn build(self) -> (r: Config)
        ensures
            r == self.config,
    {
        self.config
    }
}

} // verus!

//! How strictly linking treats functions that one side provides and the
//! other does not use, and which guest functions the host will call.
use vstd::prelude::*;
use crate::linker::upcall;

verus! {

/// Unused host functions are not errors by default.
pub const ERR_ON_UNUSED_HOST: bool = false;
/// Unused guest functions are not errors by default.
pub const ERR_ON_UNUSED_GUEST: bool = false;

/// Linker configuration.
#[derive(Debug)]
pub struct Config {
    pub error_unused_host: bool,
    pub error_unused_guest: bool,
    pub upcalls: Vec<upcall::Function>,
}

impl Config {
    /// The default configuration: unused functions are no errors, no upcalls.
    pub fn default() -> (r: Config)
        ensures
            r.error_unused_host == ERR_ON_UNUSED_HOST,
            r.error_unused_guest == ERR_ON_UNUSED_GUEST,
            r.upcalls@.len() == 0,
    {
        ConfigBuilder::new().build()
    }

    /// The configuration a builder holds.
    pub fn from(builder: ConfigBuilder) -> (r: Config)
        ensures
            r == builder.config,
    {
        builder.build()
    }
}

/// Builds a linker configuration.
pub struct ConfigBuilder {
    pub config: Config,
}

impl ConfigBuilder {
    /// Create a new builder with the default configuration.
    pub fn new() -> (r: ConfigBuilder)
        ensures
            r.config.error_unused_host == ERR_ON_UNUSED_HOST,
            r.config.error_unused_guest == ERR_ON_UNUSED_GUEST,
            r.config.upcalls@.len() == 0,
    {
        ConfigBuilder {
            config: Config {
                error_unused_host: ERR_ON_UNUSED_HOST,
                error_unused_guest: ERR_ON_UNUSED_GUEST,
                upcalls: Vec::new(),
            },
        }
    }

    /// Whether host functions the guest does not use are errors.
    pub fn error_unused_host(self, error: bool) -> (r: ConfigBuilder)
        ensures
            r.config.error_unused_host == error,
            r.config.error_unused_guest == self.config.error_unused_guest,
            r.config.upcalls == self.config.upcalls,
    {
        let mut s = self;
        s.config.error_unused_host = error;
        s
    }

    /// Whether guest functions the host does not use are errors.
    pub fn error_unused_guest(self, error: bool) -> (r: ConfigBuilder)
        ensures
            r.config.error_unused_guest == error,
            r.config.error_unused_host == self.config.error_unused_host,
            r.config.upcalls == self.config.upcalls,
    {
        let mut s = self;
        s.config.error_unused_guest = error;
        s
    }

    /// Register a function on the guest, which will be called by the host.
    pub fn register_guest_function(self, func: upcall::Function) -> (r: ConfigBuilder)
        ensures
            r.config.upcalls@ == self.config.upcalls@.push(func),
            r.config.error_unused_host == self.config.error_unused_host,
            r.config.error_unused_guest == self.config.error_unused_guest,
    {
        let mut s = self;
        s.config.upcalls.push(func);
        s
    }

    /// Build the final configuration.
    pub fn build(self) -> (r: Config)
        ensures
            r == self.config,
    {
        self.config
    }
}

} // verus!

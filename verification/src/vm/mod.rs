//! Running a guest: the registries of callable functions, the guest's
//! registers, the run loop's decisions and the guest memory layout.
pub mod registry;
pub mod vcpu;
pub mod run;
pub mod config;
pub mod layout;
pub mod vm;
pub mod debug;

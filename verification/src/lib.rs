//! Core object model of a small capability-based kernel: kernel objects with
//! identity and naming, rights-checked handles, a Job/Process/Thread
//! supervision tree with cascading termination, FIFO message channels, and a
//! paged memory-object model over an explicit physical-memory arena.
//!
//! All shared kernel state lives in a single `Kernel` value; objects are
//! addressed by their `KoID` and the tree structure is kept as id lists, so
//! every operation is a plain function of the kernel state and is verified as
//! such.

pub mod channel;
pub mod error;
pub mod hal;
pub mod job;
pub mod object;
pub mod policy;
pub mod process;
pub mod resource;
pub mod rights;
pub mod thread;
pub mod vm;
pub mod vmo;

pub use error::ZxError;
pub use error::ZxResult;
pub use rights::Rights;

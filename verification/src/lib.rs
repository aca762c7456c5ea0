//! Mirror of package-manager install commands across machines.
//!
//! The library is the record synchronization core: the data model for a
//! captured package-manager action ([`package::Package`]), the ordered,
//! deduplicating record collection ([`package::Packages`]) with its merge
//! algorithm, the canonical line-oriented text codec that persists a record
//! set, and the pull/merge/commit/push orchestration decisions
//! ([`repo::Repo`]). All file, terminal and version-control I/O lives with
//! the callers; the library computes plans and results from plain values.

pub mod de;
pub mod laws;
pub mod package;
pub mod repo;
pub mod roundtrip;
pub mod ser;

pub use package::Manager;
pub use package::Op;
pub use package::Package;
pub use package::Packages;
pub use repo::Error;
pub use repo::MirrorPlan;
pub use repo::Repo;

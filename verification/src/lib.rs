//! Verified core of the cross-process sharing of large read-only weight
//! arrays, and of the huge-page helpers that go with it.
//!
//! * [`hugepage`]: what the kernel's status files say of huge pages, and
//!   [`reports`]: that this is what the kernel writes there.
//! * [`shared_weights`]: whether an array is to be shared, and the start of it.
//! * [`sharing`]: the protocol by which an array comes to be shared, and
//!   [`laws`]: what holds of it whatever the system answers; [`steps`]: what each
//!   answer leads to; [`space`]: what becomes of addresses; [`sweep`]: what its
//!   search for leftovers leaves of a directory.
//! * [`region`]: a shared array in use, and how it is given up.
//! * [`placement`], [`naming`]: where a mapping goes, and what an object is
//!   called.
//! * [`system`]: the calls that are asked of the operating system.
//! * [`text`], [`number`]: reading and writing plain text.

pub mod hugepage;
pub mod laws;
pub mod naming;
pub mod number;
pub mod placement;
pub mod region;
pub mod reports;
pub mod shared_weights;
pub mod sharing;
pub mod space;
pub mod steps;
pub mod sweep;
pub mod system;
pub mod text;

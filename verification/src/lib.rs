//! A zero-copy, reference-counted, segmented byte-buffer library.
//!
//! The pieces, leaves first:
//! - [`io_allocation_size::IoAllocationSize`]: maps a requested size to a
//!   bucketed allocation size from a fixed growth table.
//! - [`temporary_buffer::TemporaryBuffer`]: shared, reference-counted
//!   ownership of one heap allocation, with full and partial aliasing.
//! - [`io_fragment::IoFragment`]: a bounded write cursor over exactly one
//!   `TemporaryBuffer`, tracking how many bytes have been written.
//! - [`iobuf::IoBuf`]: an append-only ordered sequence of fragments forming
//!   one logical byte stream.
//! - [`io_iterator_consumer::IoIteratorConsumer`]: a forward-only read cursor
//!   walking an `IoBuf`'s fragments across fragment boundaries.

use vstd::prelude::*;

pub mod io_allocation_size;
pub mod io_fragment;
pub mod io_iterator_consumer;
pub mod iobuf;
pub mod temporary_buffer;

verus! {

/// Errors surfaced by the buffer operations. Reference-count saturation is
/// not here: it aborts the process (a deliberate safety valve), and
/// allocation failure aborts inside the standard allocator.
#[derive(Clone, Copy, Debug, PartialEq, Eq, Structural)]
pub enum BufError {
    /// A slice offset or length fell outside the valid range.
    OutOfBounds,
    /// A write was requested while the target region was aliased.
    ExclusivityViolation,
}

} // verus!

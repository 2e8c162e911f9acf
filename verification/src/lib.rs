//! A convenience layer over database drivers whose one piece of real
//! algorithmic logic — bounded-size pagination over a lazy, fallible item
//! source — is specified and verified here.
//!
//! The core abstraction is [`stream::PagedStream`]: it wraps a
//! single-consumer [`source::Source`] of `Result<Item, Error>` yields and
//! exposes page-at-a-time consumption with a fixed page size, plus the
//! ability to skip whole pages without retaining their contents. The
//! mathematical model of one pagination step lives in [`paging`], together
//! with the proved laws (bounded page size, exhaustion stability, skip/next
//! agreement, skip composition).
//!
//! The remaining modules hold the small verifiable pieces of the driver
//! plumbing: CRUD statement parameters ([`crud`]), connection configuration
//! ([`connection`]), CQL script splitting ([`cql`]) and key-value batch
//! collection ([`redis`]).

use vstd::prelude::*;

pub mod paging;
pub mod source;
pub mod stream;
pub mod crud;
pub mod connection;
pub mod redis;
pub mod cql;

verus! {

/// Page-wise iteration over a stream of items of type `E`.
///
/// This is the capability interface for pagination: callers can depend on
/// page-at-a-time consumption without depending on the concrete backing
/// store. The contracts here only maintain the implementor's
/// well-formedness condition; the verified implementation on
/// [`stream::PagedStream`] states the exact behaviour of each operation.
pub trait Pagable<E> {
    /// The implementor's well-formedness condition, maintained by every
    /// operation.
    spec fn pagable_inv(&self) -> bool;

    /// Fetches the next page of items from the stream.
    ///
    /// Clears the current page buffer and attempts to refill it from the
    /// stream. Returns `None` when no items could be collected.
    fn next_page(&mut self) -> (r: Option<&[E]>)
        requires
            old(self).pagable_inv(),
        ensures
            final(self).pagable_inv(),
    ;

    /// Skips one page worth of items without retaining them.
    fn skip_page(&mut self)
        requires
            old(self).pagable_inv(),
        ensures
            final(self).pagable_inv(),
    ;

    /// Skips `page_count` pages, one [`Pagable::skip_page`] at a time.
    /// A non-positive `page_count` skips nothing.
    fn skip_pages(&mut self, page_count: i32)
        requires
            old(self).pagable_inv(),
        ensures
            final(self).pagable_inv(),
    {
        let mut i: i32 = 0;
        while i < page_count
            invariant
                self.pagable_inv(),
            decreases page_count - i,
        {
            self.skip_page();
            i = i + 1;
        }
    }

    /// Returns the items of the current page.
    fn page_items(&self) -> &[E];

    /// Returns the number of pages advanced past so far.
    fn page_index(&self) -> usize;
}

} // verus!

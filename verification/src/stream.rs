//! Bounded-size pagination over a [`Source`] of fallible yields.
//!
//! [`PagedStream`] owns a single-consumer source and exposes it page by
//! page: `next_page` buffers up to a fixed number of items, `skip_page`
//! discards a page worth of yields without retaining them, and
//! `page_items` reads the buffer of the most recent page. Each operation
//! is specified exactly in terms of the model in [`crate::paging`].

use vstd::prelude::*;

use crate::Pagable;
use crate::paging::lemma_ok_prefix_at_least;
use crate::paging::lemma_ok_prefix_char;
use crate::paging::lemma_ok_prefix_le_len;
use crate::paging::page_of;
use crate::paging::page_rest;
use crate::paging::skip_pulls;
use crate::paging::skip_rest;
use crate::paging::skipn_pages;
use crate::paging::skipn_rest;
use crate::source::Source;

verus! {

/// A paginated view of a [`Source`].
///
/// The stream pulls items one at a time from the wrapped source and
/// surfaces them in pages of at most `per_page` items, in source order. A
/// failed yield ends the page being fetched early and is discarded: the
/// caller of `next_page` cannot distinguish a source that errored from one
/// that ran out of items. That is a deliberate, sharp-edged design choice
/// of this layer, stated exactly by the contracts here (see
/// [`crate::paging::page_of`]).
pub struct PagedStream<S: Source> {
    source: S,
    per_page: usize,
    page_items: Vec<S::Item>,
    pages: usize,
}

impl<S: Source> PagedStream<S> {
    /// The yields the wrapped source will still produce.
    pub closed spec fn spec_remaining(&self) -> Seq<Result<S::Item, S::Error>> {
        self.source.remaining()
    }

    /// The items of the current page.
    pub closed spec fn spec_page_items(&self) -> Seq<S::Item> {
        self.page_items@
    }

    /// The fixed page size.
    pub closed spec fn spec_per_page(&self) -> nat {
        self.per_page as nat
    }

    /// The number of pages advanced past so far.
    pub closed spec fn spec_page_index(&self) -> nat {
        self.pages as nat
    }

    /// Well-formedness: the buffer never outgrows the page size, and the
    /// page counter advances at most once per yield consumed, so counter
    /// plus pending yields stay within machine bounds.
    pub open spec fn wf(&self) -> bool {
        &&& self.spec_page_index() + self.spec_remaining().len() <= usize::MAX
        &&& self.spec_page_items().len() <= self.spec_per_page()
    }

    /// Wraps `source` for page-wise consumption with pages of `per_page`
    /// items. No page has been fetched yet and no page has been advanced
    /// past.
    pub fn new(source: S, per_page: usize) -> (r: Self)
        ensures
            r.wf(),
            r.spec_remaining() == source.remaining(),
            r.spec_per_page() == per_page,
            r.spec_page_items() == Seq::<S::Item>::empty(),
            r.spec_page_index() == 0,
    {
        proof {
            source.lemma_remaining_bounded();
        }
        let r = PagedStream { source, per_page, page_items: Vec::new(), pages: 0 };
        proof {
            assert(r.spec_page_items() =~= Seq::<S::Item>::empty());
        }
        r
    }
}

impl<S: Source> Pagable<S::Item> for PagedStream<S> {
    open spec fn pagable_inv(&self) -> bool {
        self.wf()
    }

    /// Clears the page buffer, then pulls up to `per_page` items from the
    /// source. A successful yield is buffered; a failed yield or an
    /// exhausted source ends the fetch. Returns the buffered page, or
    /// `None` when nothing was collected — which, once the source is
    /// spent, is permanent.
    fn next_page(&mut self) -> (r: Option<&[S::Item]>)
        ensures
            final(self).spec_per_page() == old(self).spec_per_page(),
            final(self).spec_page_items() == page_of(
                old(self).spec_remaining(),
                old(self).spec_per_page(),
            ),
            final(self).spec_remaining() == page_rest(
                old(self).spec_remaining(),
                old(self).spec_per_page(),
            ),
            final(self).spec_page_index() == old(self).spec_page_index() + (
            if page_of(old(self).spec_remaining(), old(self).spec_per_page()).len() > 0 {
                1int
            } else {
                0int
            }),
            r matches Some(p) ==> p@ == final(self).spec_page_items(),
            r is Some <==> page_of(old(self).spec_remaining(), old(self).spec_per_page()).len()
                > 0,
    {
        let ghost rem0 = self.source.remaining();
        let ghost n = self.per_page as nat;
        let ghost pages0 = self.pages;
        self.page_items.clear();
        proof {
            assert(rem0.skip(0) =~= rem0);
            if self.per_page == 0 {
                assert(self.page_items@ =~= page_of(rem0, n));
            }
        }
        while self.page_items.len() < self.per_page
            invariant_except_break
                n == self.per_page as nat,
                self.pages == pages0,
                pages0 + rem0.len() <= usize::MAX,
                self.page_items@.len() <= self.per_page,
                self.page_items@.len() <= rem0.len(),
                forall|i: int|
                    0 <= i < self.page_items@.len() ==> (#[trigger] rem0[i]) is Ok
                        && self.page_items@[i] == rem0[i]->Ok_0,
                self.source.remaining() == rem0.skip(self.page_items@.len() as int),
                self.page_items@.len() == n ==> self.page_items@ == page_of(rem0, n)
                    && self.source.remaining() == page_rest(rem0, n),
            ensures
                n == self.per_page as nat,
                self.pages == pages0,
                pages0 + rem0.len() <= usize::MAX,
                self.page_items@ == page_of(rem0, n),
                self.source.remaining() == page_rest(rem0, n),
            decreases self.per_page - self.page_items.len(),
        {
            let ghost c = self.page_items@.len();
            match self.source.next() {
                Some(Ok(item)) => {
                    self.page_items.push(item);
                    proof {
                        assert(rem0.skip(c as int)[0] == rem0[c as int]);
                        assert(rem0.skip(c as int).skip(1) =~= rem0.skip(c + 1int));
                        if self.page_items@.len() == n {
                            lemma_finish_full_page(rem0, n, self.page_items@);
                        }
                    }
                }
                Some(Err(_)) => {
                    proof {
                        assert(rem0.skip(c as int)[0] == rem0[c as int]);
                        assert(rem0.skip(c as int).skip(1) =~= rem0.skip(c + 1int));
                        lemma_finish_cut_page(rem0, n, self.page_items@, true);
                    }
                    break ;
                }
                None => {
                    proof {
                        lemma_finish_cut_page(rem0, n, self.page_items@, false);
                    }
                    break ;
                }
            }
        }
        if self.page_items.len() > 0 {
            proof {
                lemma_ok_prefix_le_len(rem0);
            }
            self.pages = self.pages + 1;
            Some(self.page_items.as_slice())
        } else {
            None
        }
    }

    /// Clears the page buffer, then pulls and discards up to `per_page`
    /// yields — failed ones included — stopping only once the source is
    /// exhausted. The page counter advances exactly when at least one
    /// yield was consumed.
    fn skip_page(&mut self)
        ensures
            final(self).spec_per_page() == old(self).spec_per_page(),
            final(self).spec_page_items() == Seq::<S::Item>::empty(),
            final(self).spec_remaining() == skip_rest(
                old(self).spec_remaining(),
                old(self).spec_per_page(),
            ),
            final(self).spec_page_index() == old(self).spec_page_index() + (
            if skip_pulls(old(self).spec_remaining(), old(self).spec_per_page()) > 0 {
                1int
            } else {
                0int
            }),
    {
        let ghost rem0 = self.source.remaining();
        let ghost n = self.per_page as nat;
        let ghost pages0 = self.pages;
        self.page_items.clear();
        proof {
            assert(rem0.skip(0) =~= rem0);
        }
        let mut pulled: usize = 0;
        while pulled < self.per_page
            invariant_except_break
                n == self.per_page as nat,
                self.pages == pages0,
                pages0 + rem0.len() <= usize::MAX,
                self.page_items@ == Seq::<S::Item>::empty(),
                pulled <= rem0.len(),
                pulled <= self.per_page,
                self.source.remaining() == rem0.skip(pulled as int),
            ensures
                n == self.per_page as nat,
                self.pages == pages0,
                pages0 + rem0.len() <= usize::MAX,
                self.page_items@ == Seq::<S::Item>::empty(),
                pulled == skip_pulls(rem0, n),
                self.source.remaining() == skip_rest(rem0, n),
            decreases self.per_page - pulled,
        {
            let ghost c = pulled;
            match self.source.next() {
                Some(_) => {
                    pulled = pulled + 1;
                    proof {
                        assert(rem0.skip(c as int).skip(1) =~= rem0.skip(c + 1int));
                    }
                }
                None => {
                    proof {
                        assert(pulled == skip_pulls(rem0, n));
                    }
                    break ;
                }
            }
        }
        if pulled > 0 {
            self.pages = self.pages + 1;
        }
    }

    /// Calls `skip_page` exactly `page_count` times, so the source
    /// advances by [`skipn_rest`] and the page counter by [`skipn_pages`].
    /// A non-positive `page_count` changes nothing.
    fn skip_pages(&mut self, page_count: i32)
        ensures
            page_count <= 0 ==> *final(self) == *old(self),
            page_count > 0 ==> final(self).spec_per_page() == old(self).spec_per_page()
                && final(self).spec_page_items() == Seq::<S::Item>::empty()
                && final(self).spec_remaining() == skipn_rest(
                old(self).spec_remaining(),
                old(self).spec_per_page(),
                page_count as nat,
            ) && final(self).spec_page_index() == old(self).spec_page_index() + skipn_pages(
                old(self).spec_remaining(),
                old(self).spec_per_page(),
                page_count as nat,
            ),
    {
        let ghost rem0 = self.source.remaining();
        let ghost n = self.per_page as nat;
        let ghost pages0 = self.pages;
        let ghost init = *self;
        let mut i: i32 = 0;
        while i < page_count
            invariant
                0 <= i,
                i <= page_count || i == 0,
                self.wf(),
                n == self.per_page as nat,
                i == 0 ==> *self == init,
                i > 0 ==> self.page_items@ == Seq::<S::Item>::empty(),
                self.source.remaining() == skipn_rest(rem0, n, i as nat),
                self.pages as int == pages0 + skipn_pages(rem0, n, i as nat),
            decreases page_count - i,
        {
            self.skip_page();
            i = i + 1;
        }
    }

    /// Returns the buffer of the most recent page: the items fetched by
    /// the last `next_page`, or nothing if a skip was the most recent
    /// operation or no page has been fetched yet.
    fn page_items(&self) -> (r: &[S::Item])
        ensures
            r@ == self.spec_page_items(),
    {
        self.page_items.as_slice()
    }

    /// Returns the number of pages advanced past so far: one for each
    /// `next_page` that produced a page and each skip that consumed at
    /// least one yield.
    fn page_index(&self) -> (r: usize)
        ensures
            r == self.spec_page_index(),
    {
        self.pages
    }
}

/// Finishing a fetch with a full buffer: the buffered items are the page
/// and exactly the page's pulls were consumed.
proof fn lemma_finish_full_page<E, F>(rem0: Seq<Result<E, F>>, n: nat, buf: Seq<E>)
    requires
        buf.len() == n,
        buf.len() <= rem0.len(),
        forall|i: int| 0 <= i < buf.len() ==> (#[trigger] rem0[i]) is Ok && buf[i] == rem0[i]->Ok_0,
    ensures
        buf == page_of(rem0, n),
        rem0.skip(buf.len() as int) == page_rest(rem0, n),
{
    lemma_ok_prefix_at_least(rem0, n);
    assert(buf =~= page_of(rem0, n));
}

/// Finishing a fetch early: the source yielded a failure (`on_error`) or
/// ran out. The buffered items are the page; on a failure one extra yield
/// was consumed.
proof fn lemma_finish_cut_page<E, F>(rem0: Seq<Result<E, F>>, n: nat, buf: Seq<E>, on_error: bool)
    requires
        buf.len() < n,
        buf.len() <= rem0.len(),
        forall|i: int| 0 <= i < buf.len() ==> (#[trigger] rem0[i]) is Ok && buf[i] == rem0[i]->Ok_0,
        on_error ==> buf.len() < rem0.len() && !(rem0[buf.len() as int] is Ok),
        !on_error ==> buf.len() == rem0.len(),
    ensures
        buf == page_of(rem0, n),
        on_error ==> rem0.skip(buf.len() + 1int) == page_rest(rem0, n),
        !on_error ==> rem0.skip(buf.len() as int) == page_rest(rem0, n),
{
    lemma_ok_prefix_char(rem0, buf.len());
    assert(buf =~= page_of(rem0, n));
}

} // verus!

//! The mathematical model of bounded-size pagination.
//!
//! A source of items is modeled as the sequence of fallible yields it will
//! still produce: a `Seq<Result<E, F>>`. One `next_page` over a source in
//! state `s` with page size `n` collects the leading successful items of
//! `s`, at most `n` of them ([`page_of`]), and consumes [`page_pulls`]
//! entries: the collected items, plus the failed yield that ended the page
//! early, if any. One `skip_page` consumes up to `n` entries outright,
//! successful or not, stopping only at the end of the source
//! ([`skip_pulls`]).
//!
//! The lemmas at the end of this module are the laws of the abstraction;
//! the executable methods of `stream::PagedStream` are specified exactly in
//! terms of these functions.

use vstd::prelude::*;

verus! {

/// The number of leading successful yields of `s`.
pub open spec fn ok_prefix_len<E, F>(s: Seq<Result<E, F>>) -> nat
    decreases s.len(),
{
    if s.len() == 0 || !(s[0] is Ok) {
        0
    } else {
        1 + ok_prefix_len(s.skip(1))
    }
}

/// The number of items one `next_page` with page size `n` collects from a
/// source in state `s`: the leading successful yields, at most `n` of them.
pub open spec fn page_count<E, F>(s: Seq<Result<E, F>>, n: nat) -> nat {
    if ok_prefix_len(s) < n {
        ok_prefix_len(s)
    } else {
        n
    }
}

/// The items of the page that one `next_page` with page size `n` produces
/// from a source in state `s`. An empty result means "no page".
pub open spec fn page_of<E, F>(s: Seq<Result<E, F>>, n: nat) -> Seq<E> {
    Seq::new(page_count(s, n), |i: int| s[i]->Ok_0)
}

/// The number of yields one `next_page` consumes from the source: the
/// collected items, plus the failed yield that cut the page short, if the
/// page ended on one.
pub open spec fn page_pulls<E, F>(s: Seq<Result<E, F>>, n: nat) -> nat {
    let c = page_count(s, n);
    if c < n && c < s.len() {
        c + 1
    } else {
        c
    }
}

/// The source state after one `next_page`.
pub open spec fn page_rest<E, F>(s: Seq<Result<E, F>>, n: nat) -> Seq<Result<E, F>> {
    s.skip(page_pulls(s, n) as int)
}

/// The number of yields one `skip_page` consumes: up to `n`, stopping only
/// at the end of the source. Failed yields are discarded like items.
pub open spec fn skip_pulls<E, F>(s: Seq<Result<E, F>>, n: nat) -> nat {
    if s.len() < n {
        s.len()
    } else {
        n
    }
}

/// The source state after one `skip_page`.
pub open spec fn skip_rest<E, F>(s: Seq<Result<E, F>>, n: nat) -> Seq<Result<E, F>> {
    s.skip(skip_pulls(s, n) as int)
}

/// The source state after `k` consecutive `skip_page` operations.
pub open spec fn skipn_rest<E, F>(s: Seq<Result<E, F>>, n: nat, k: nat) -> Seq<Result<E, F>>
    decreases k,
{
    if k == 0 {
        s
    } else {
        skip_rest(skipn_rest(s, n, (k - 1) as nat), n)
    }
}

/// How many of `k` consecutive `skip_page` operations consume at least one
/// yield — the amount the page counter advances by.
pub open spec fn skipn_pages<E, F>(s: Seq<Result<E, F>>, n: nat, k: nat) -> nat
    decreases k,
{
    if k == 0 {
        0
    } else {
        skipn_pages(s, n, (k - 1) as nat) + (if skip_pulls(skipn_rest(s, n, (k - 1) as nat), n) > 0 {
            1nat
        } else {
            0
        })
    }
}

/// Every yield of `s` is successful.
pub open spec fn all_ok<E, F>(s: Seq<Result<E, F>>) -> bool {
    forall|i: int| 0 <= i < s.len() ==> s[i] is Ok
}

/// A failed yield can only be the source's last: the shape of a real driver
/// stream, which cannot produce items past its own error.
pub open spec fn errors_terminal<E, F>(s: Seq<Result<E, F>>) -> bool {
    forall|i: int| 0 <= i < s.len() - 1 ==> s[i] is Ok
}

/// The sequence of pages that consecutive `next_page` calls produce from a
/// source in state `s`, up to the first call that produces no page.
pub open spec fn pages_of<E, F>(s: Seq<Result<E, F>>, n: nat) -> Seq<Seq<E>>
    decreases s.len() via pages_of_decreases::<E, F>
{
    if page_count(s, n) == 0 {
        Seq::empty()
    } else {
        seq![page_of(s, n)] + pages_of(page_rest(s, n), n)
    }
}

#[via_fn]
proof fn pages_of_decreases<E, F>(s: Seq<Result<E, F>>, n: nat) {
    if page_count(s, n) != 0 {
        lemma_ok_prefix_le_len(s);
    }
}

/// The count of leading successes never exceeds the source's length.
pub proof fn lemma_ok_prefix_le_len<E, F>(s: Seq<Result<E, F>>)
    ensures
        ok_prefix_len(s) <= s.len(),
    decreases s.len(),
{
    if s.len() != 0 && s[0] is Ok {
        lemma_ok_prefix_le_len(s.skip(1));
    }
}

/// The count of leading successes is exactly the position of the first
/// yield that is not a success (or the length, if every yield succeeds).
pub proof fn lemma_ok_prefix_char<E, F>(s: Seq<Result<E, F>>, c: nat)
    requires
        c <= s.len(),
        forall|i: int| 0 <= i < c ==> s[i] is Ok,
        c == s.len() || !(s[c as int] is Ok),
    ensures
        ok_prefix_len(s) == c,
    decreases s.len(),
{
    if s.len() != 0 && s[0] is Ok {
        let t = s.skip(1);
        assert(forall|i: int| 0 <= i < c - 1 ==> t[i] == s[i + 1]);
        lemma_ok_prefix_char(t, (c - 1) as nat);
    }
}

/// The count of leading successes is at least any prefix known to succeed.
pub proof fn lemma_ok_prefix_at_least<E, F>(s: Seq<Result<E, F>>, c: nat)
    requires
        c <= s.len(),
        forall|i: int| 0 <= i < c ==> (#[trigger] s[i]) is Ok,
    ensures
        ok_prefix_len(s) >= c,
    decreases s.len(),
{
    if c > 0 {
        let t = s.skip(1);
        assert(forall|i: int| 0 <= i < c - 1 ==> t[i] == s[i + 1]);
        lemma_ok_prefix_at_least(t, (c - 1) as nat);
    }
}

/// The leading successes are successes, and the yield right after them, if
/// any, is a failure.
pub proof fn lemma_ok_prefix_stops<E, F>(s: Seq<Result<E, F>>)
    ensures
        forall|i: int| 0 <= i < ok_prefix_len(s) ==> (#[trigger] s[i]) is Ok,
        ok_prefix_len(s) < s.len() ==> !(s[ok_prefix_len(s) as int] is Ok),
    decreases s.len(),
{
    lemma_ok_prefix_le_len(s);
    if s.len() != 0 && s[0] is Ok {
        let t = s.skip(1);
        lemma_ok_prefix_stops(t);
        assert forall|i: int| 0 <= i < ok_prefix_len(s) implies (#[trigger] s[i]) is Ok by {
            if i > 0 {
                assert(t[i - 1] == s[i]);
                assert(t[i - 1] is Ok);
            }
        }
        if ok_prefix_len(s) < s.len() {
            assert(t[ok_prefix_len(s) as int - 1] == s[ok_prefix_len(s) as int]);
        }
    }
}

/// Bounded page size: over a source of `m` successful yields and no
/// failures, consecutive `next_page` calls with page size `n > 0` produce
/// `ceil(m / n)` pages; each page but the last holds exactly `n` items, the
/// last holds `m % n` (or `n`, when `n` divides `m`), and together the
/// pages hold every item of the source in order. The call after the last
/// page produces no page, by definition of [`pages_of`].
pub proof fn lemma_bounded_page_sizes<E, F>(s: Seq<Result<E, F>>, n: nat)
    requires
        n > 0,
        all_ok(s),
    ensures
        pages_of(s, n).len() == (s.len() + n - 1) as int / (n as int),
        forall|i: int|
            0 <= i < pages_of(s, n).len() - 1 ==> (#[trigger] pages_of(s, n)[i]).len() == n,
        s.len() > 0 && s.len() as int % (n as int) == 0 ==> pages_of(s, n).last().len() == n,
        s.len() as int % (n as int) != 0 ==> pages_of(s, n).last().len() == s.len() as int % (n as int),
        pages_of(s, n).flatten() == Seq::new(s.len(), |i: int| s[i]->Ok_0),
    decreases s.len(),
{
    let m = s.len();
    let pages = pages_of(s, n);
    lemma_ok_prefix_char(s, m);
    if m == 0 {
        vstd::arithmetic::div_mod::lemma_basic_div(n as int - 1, n as int);
        assert(pages.flatten() =~= Seq::new(0, |i: int| s[i]->Ok_0));
    } else {
        let c = page_count(s, n);
        let page = page_of(s, n);
        let rest = page_rest(s, n);
        assert(forall|j: int| 0 <= j < rest.len() ==> rest[j] == s[j + page_pulls(s, n)]);
        lemma_bounded_page_sizes(rest, n);
        let tail = pages_of(rest, n);
        assert(pages =~= seq![page] + tail);
        vstd::seq_lib::lemma_flatten_concat(seq![page], tail);
        seq![page].lemma_flatten_one_element();
        if m < n {
            // a single, final, partial page of all m items
            assert(rest.len() == 0);
            vstd::arithmetic::div_mod::lemma_basic_div(n as int - 1, n as int);
            assert((m as int - 1) / (n as int) + 1 == (m + n - 1) / (n as int)) by {
                vstd::arithmetic::div_mod::lemma_hoist_over_denominator(m as int - 1, 1, n);
            }
            vstd::arithmetic::div_mod::lemma_basic_div(m as int - 1, n as int);
            vstd::arithmetic::div_mod::lemma_small_mod(m, n);
            assert(pages.flatten() =~= Seq::new(m, |i: int| s[i]->Ok_0));
        } else {
            // a full page of n items, followed by the pages of the rest
            assert(c == n);
            assert(page_pulls(s, n) == n);
            assert((m as int - 1) / (n as int) + 1 == (m + n - 1) as int / (n as int)) by {
                vstd::arithmetic::div_mod::lemma_hoist_over_denominator(m as int - 1, 1, n);
            }
            assert((m as int - n) % (n as int) == m as int % (n as int)) by {
                vstd::arithmetic::div_mod::lemma_mod_add_multiples_vanish(m as int - n, n as int);
            }
            if m == n {
                vstd::arithmetic::div_mod::lemma_basic_div(n as int - 1, n as int);
                vstd::arithmetic::div_mod::lemma_small_mod(0, n);
                assert(pages.last() == page);
            } else {
                // the tail is non-empty: its flattening holds m - n > 0 items
                assert(tail.len() > 0);
                assert(pages.last() == tail.last());
            }
            assert forall|i: int| 0 <= i < pages.len() - 1 implies (#[trigger] pages[i]).len()
                == n by {
                if i > 0 {
                    assert(pages[i] == tail[i - 1]);
                }
            }
            assert(pages.flatten() =~= Seq::new(m, |i: int| s[i]->Ok_0));
        }
    }
}

/// Exhaustion stability: over a source whose failures are terminal, once a
/// `next_page` with page size `n > 0` produces no page, the source is
/// spent; every later `next_page` also produces no page and leaves the
/// source unchanged.
pub proof fn lemma_exhaustion_stable<E, F>(s: Seq<Result<E, F>>, n: nat)
    requires
        n > 0,
        errors_terminal(s),
        page_of(s, n).len() == 0,
    ensures
        page_rest(s, n).len() == 0,
        page_of(page_rest(s, n), n).len() == 0,
        page_rest(page_rest(s, n), n) == page_rest(s, n),
{
    if s.len() == 0 {
        assert(s.skip(0) =~= s);
    } else {
        // an empty page of a non-empty source means its first yield
        // failed; a terminal failure is the only yield left
        assert(!(s[0] is Ok));
        assert(s.len() == 1);
    }
    let rest = page_rest(s, n);
    assert(rest.len() == 0);
    assert(rest.skip(0) =~= rest);
}

/// Skip advances like a read: over a source whose failures are terminal,
/// `skip_page` consumes exactly the yields that a `next_page` would, so a
/// `next_page` after a `skip_page` produces the page that a second of two
/// consecutive `next_page` calls would.
pub proof fn lemma_skip_matches_next<E, F>(s: Seq<Result<E, F>>, n: nat)
    requires
        errors_terminal(s),
    ensures
        skip_rest(s, n) == page_rest(s, n),
{
    let k = ok_prefix_len(s);
    lemma_ok_prefix_le_len(s);
    lemma_ok_prefix_stops(s);
    if k < s.len() {
        // the yield after the leading successes is a terminal failure
        assert(!(s[k as int] is Ok));
        assert(k == s.len() - 1);
    }
}

/// Skip composition: `k` consecutive `skip_page` operations are one
/// `skip_page` after `k - 1` of them, whichever end the single skip is
/// taken from, and the page counter advances accordingly. Hence
/// `skip_pages(k)` followed by `next_page` behaves as `skip_page` taken
/// `k` times followed by `next_page`.
pub proof fn lemma_skip_pages_composes<E, F>(s: Seq<Result<E, F>>, n: nat, k: nat)
    requires
        k > 0,
    ensures
        skipn_rest(s, n, k) == skip_rest(skipn_rest(s, n, (k - 1) as nat), n),
        skipn_rest(s, n, k) == skipn_rest(skip_rest(s, n), n, (k - 1) as nat),
        skipn_pages(s, n, k) == skipn_pages(s, n, (k - 1) as nat) + (if skip_pulls(
            skipn_rest(s, n, (k - 1) as nat),
            n,
        ) > 0 {
            1int
        } else {
            0int
        }),
    decreases k,
{
    if k > 1 {
        lemma_skip_pages_composes(s, n, (k - 1) as nat);
        lemma_skip_pages_composes(skip_rest(s, n), n, (k - 1) as nat);
    }
}

} // verus!

//! The paginated fetch loop's accumulation logic.
//!
//! The loop repeatedly issues an authenticated GET, decodes the body into
//! a page of transactions plus an optional next-page link, appends the
//! page's items to an accumulator, and follows the link until it is
//! absent or empty. The requests and the decoding of live bodies are I/O
//! at the edge and live outside the library; what stands here is every
//! decision the loop makes: how a page extends the accumulator, which URL
//! comes next, and when the loop stops.
//!
//! A known limitation carried over from the design: the loop trusts the
//! endpoint's links. If a next link points back to a page already seen,
//! the driving loop never terminates; nothing here detects the cycle.

use vstd::prelude::*;

use crate::model::{DataStruct, Transactions};

verus! {

/// The items of a sequence of pages, concatenated in page order.
pub open spec fn pages_data(pages: Seq<DataStruct>) -> Seq<Transactions>
    decreases pages.len(),
{
    if pages.len() == 0 {
        Seq::empty()
    } else {
        pages[0].data@ + pages_data(pages.skip(1))
    }
}

/// The sum of the item counts of a sequence of pages.
pub open spec fn total_items(pages: Seq<DataStruct>) -> nat
    decreases pages.len(),
{
    if pages.len() == 0 {
        0nat
    } else {
        pages[0].data@.len() + total_items(pages.skip(1))
    }
}

/// Accumulating a sequence of pages in order yields exactly as many items
/// as the pages hold together: the sum of the per-page item counts.
pub proof fn lemma_accumulated_length(pages: Seq<DataStruct>)
    ensures
        pages_data(pages).len() == total_items(pages),
    decreases pages.len(),
{
    if pages.len() > 0 {
        lemma_accumulated_length(pages.skip(1));
    }
}

/// One step of the fetch loop: appends the page's items to the
/// accumulator, in order and after everything already there, and hands
/// back the URL to request next — the page's next link, or the empty
/// string when the listing is exhausted.
pub fn page_step(acc: &mut Vec<Transactions>, page: DataStruct) -> (next: String)
    ensures
        final(acc)@ == old(acc)@ + page.data@,
        match page.links.next {
            Some(u) => next@ == u@,
            None => next@ == Seq::<char>::empty(),
        },
{
    let DataStruct { mut data, links } = page;
    acc.append(&mut data);
    match links.next {
        Some(u) => u,
        None => String::new(),
    }
}

/// Whether the fetch loop keeps going: it stops only on an absent or
/// empty next link, mapped by `page_step` to the empty string.
pub fn should_continue(url: &String) -> (r: bool)
    ensures
        r == (url@.len() != 0),
{
    !url.as_str().is_empty()
}

/// Runs the accumulation of the fetch loop over an already-materialized
/// sequence of pages, in order: the result is the concatenation of the
/// pages' items, so its length is the sum of the per-page item counts.
pub fn accumulate_pages(pages: Vec<DataStruct>) -> (r: Vec<Transactions>)
    ensures
        r@ == pages_data(pages@),
        r@.len() == total_items(pages@),
{
    let ghost all = pages@;
    let mut pages = pages;
    let mut acc: Vec<Transactions> = Vec::new();
    proof {
        assert(acc@ + pages_data(pages@) =~= pages_data(all));
    }
    while pages.len() > 0
        invariant
            acc@ + pages_data(pages@) == pages_data(all),
        decreases pages.len(),
    {
        let ghost prev = pages@;
        let ghost acc_prev = acc@;
        let page = pages.remove(0);
        let _ = page_step(&mut acc, page);
        proof {
            assert(prev.skip(1) =~= pages@);
            assert(pages_data(prev) == prev[0].data@ + pages_data(prev.skip(1)));
            assert(acc_prev + (page.data@ + pages_data(pages@)) =~= (acc_prev + page.data@)
                + pages_data(pages@));
        }
    }
    proof {
        assert(acc@ + pages_data(pages@) =~= acc@);
        lemma_accumulated_length(all);
    }
    acc
}

} // verus!

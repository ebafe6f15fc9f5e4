//! The pagination walker: follows offset-paged listings until the
//! server-reported total is reached or a short page ends the data.

use vstd::prelude::*;

verus! {

/// Why a paged listing could not be completed.
#[derive(Clone, Copy, Debug, PartialEq, Eq, Structural)]
pub enum PageError {
    /// A page brought no items although the total was not reached.
    Stalled,
    /// A page was absorbed after the walk had already ended.
    Finished,
}

/// What a walker has gathered: the items so far, the offset of the next
/// page, how many pages it absorbed, and whether it has ended.
pub struct WalkView<T> {
    pub items: Seq<T>,
    pub limit: nat,
    pub offset: nat,
    pub pages: nat,
    pub done: bool,
}

impl<T> WalkView<T> {
    pub open spec fn start(limit: nat) -> WalkView<T> {
        WalkView { items: Seq::empty(), limit, offset: 0, pages: 0, done: false }
    }

    /// The state after absorbing a page of `page` items under `total`;
    /// unchanged where the page is refused.
    pub open spec fn absorb(self, total: nat, page: Seq<T>) -> WalkView<T> {
        let items = self.items + page;
        if self.done || (items.len() < total && page.len() == 0) {
            self
        } else if items.len() >= total || page.len() < self.limit {
            WalkView { items, pages: self.pages + 1, done: true, ..self }
        } else {
            WalkView { items, offset: self.offset + self.limit, pages: self.pages + 1, ..self }
        }
    }

    /// Whether absorbing `page` under `total` is refused, and why.
    pub open spec fn absorb_error(self, total: nat, page: Seq<T>) -> Option<PageError> {
        if self.done {
            Some(PageError::Finished)
        } else if self.items.len() + page.len() < total && page.len() == 0 {
            Some(PageError::Stalled)
        } else {
            None
        }
    }
}

/// Gathers the items of an offset-paged listing, one page at a time.
pub struct PageWalker<T> {
    limit: u32,
    offset: u64,
    pages: Ghost<nat>,
    done: bool,
    items: Vec<T>,
}

impl<T> PageWalker<T> {
    pub closed spec fn view(&self) -> WalkView<T> {
        WalkView {
            items: self.items@,
            limit: self.limit as nat,
            offset: self.offset as nat,
            pages: self.pages@,
            done: self.done,
        }
    }

    pub closed spec fn wf(&self) -> bool {
        &&& self.limit > 0
        &&& !self.done ==> {
            &&& self.offset as int == self.pages@ * self.limit
            &&& self.offset <= self.items@.len()
        }
    }

    /// A walker that asks for pages of `limit` items, starting at offset 0.
    pub fn new(limit: u32) -> (r: PageWalker<T>)
        requires
            limit > 0,
        ensures
            r.wf(),
            r.view() == WalkView::<T>::start(limit as nat),
    {
        PageWalker { limit, offset: 0, pages: Ghost(0), done: false, items: Vec::new() }
    }

    /// The number of items each page is asked for.
    pub fn limit(&self) -> (r: u32)
        ensures
            r == self.view().limit,
    {
        self.limit
    }

    /// The offset of the page to fetch next, or `None` once the walk ended.
    pub fn next_offset(&self) -> (r: Option<u64>)
        ensures
            r == (if self.view().done {
                None
            } else {
                Some(self.view().offset as u64)
            }),
    {
        if self.done {
            None
        } else {
            Some(self.offset)
        }
    }

    /// Whether the walk has ended.
    pub fn is_done(&self) -> (r: bool)
        ensures
            r == self.view().done,
    {
        self.done
    }

    /// Takes in the page fetched at the current offset, with the total
    /// that the server reported alongside it. The walk ends once the items
    /// reach the total or the page is shorter than the limit; an empty page
    /// before the total is reached is refused as stalled.
    pub fn absorb(&mut self, total: u64, page: Vec<T>) -> (r: Result<(), PageError>)
        requires
            old(self).wf(),
        ensures
            final(self).wf(),
            final(self).view() == old(self).view().absorb(total as nat, page@),
            r == (match old(self).view().absorb_error(total as nat, page@) {
                Some(e) => Err(e),
                None => Ok(()),
            }),
    {
        if self.done {
            return Err(PageError::Finished);
        }
        let page_len = page.len();
        let mut page = page;
        if page_len == 0 && (self.items.len() as u64) < total {
            return Err(PageError::Stalled);
        }
        let ghost old_items = self.items@;
        let ghost page_items = page@;
        self.items.append(&mut page);
        assert(self.items@ =~= old_items + page_items);
        self.pages = Ghost(self.pages@ + 1);
        if self.items.len() as u64 >= total || page_len < self.limit as usize {
            self.done = true;
        } else {
            assert(self.pages@ * self.limit == (self.pages@ - 1) * self.limit + self.limit)
                by (nonlinear_arith);
            self.offset = self.offset + self.limit as u64;
        }
        Ok(())
    }

    /// The items gathered, in page order.
    pub fn into_items(self) -> (r: Vec<T>)
        ensures
            r@ == self.view().items,
    {
        self.items
    }
}

/// The page that a consistent server hands out at `offset`: the items of
/// `all` from `offset`, at most `limit` of them.
pub open spec fn page_of<T>(all: Seq<T>, offset: nat, limit: nat) -> Seq<T> {
    if offset >= all.len() {
        Seq::empty()
    } else if offset + limit >= all.len() {
        all.subrange(offset as int, all.len() as int)
    } else {
        all.subrange(offset as int, (offset + limit) as int)
    }
}

/// The walker's state after `k` pages served by a consistent server that
/// holds `all` and reports its length as the total.
pub open spec fn walk<T>(all: Seq<T>, limit: nat, k: nat) -> WalkView<T>
    decreases k,
{
    if k == 0 {
        WalkView::start(limit)
    } else {
        let v = walk(all, limit, (k - 1) as nat);
        v.absorb(all.len(), page_of(all, v.offset, limit))
    }
}

/// How many pages a listing of `total` items takes at `limit` per page:
/// one for an empty listing, else the total divided by the limit, rounded up.
pub open spec fn pages_needed(total: nat, limit: nat) -> nat
    recommends
        limit > 0,
{
    if total == 0 {
        1
    } else {
        ((total - 1) as nat / limit + 1) as nat
    }
}

/// Against a consistent server, the walker fetches exactly
/// `pages_needed(total, limit)` pages, at offsets 0, limit, 2 * limit, ...,
/// and ends holding every item in order.
pub proof fn lemma_walk_fetches<T>(all: Seq<T>, limit: nat)
    requires
        limit > 0,
    ensures
        walk(all, limit, pages_needed(all.len(), limit)).done,
        walk(all, limit, pages_needed(all.len(), limit)).items == all,
        walk(all, limit, pages_needed(all.len(), limit)).pages == pages_needed(all.len(), limit),
        forall|k: nat|
            k < pages_needed(all.len(), limit) ==> !(#[trigger] walk(all, limit, k)).done && walk(
                all,
                limit,
                k,
            ).offset == k * limit,
{
    let n = pages_needed(all.len(), limit);
    assert forall|k: nat| k < n implies !(#[trigger] walk(all, limit, k)).done && walk(
        all,
        limit,
        k,
    ).offset == k * limit by {
        lemma_walk_prefix(all, limit, k);
    }
    lemma_walk_prefix(all, limit, (n - 1) as nat);
    lemma_pages_needed_bounds(all.len(), limit);
    let v = walk(all, limit, (n - 1) as nat);
    assert(n * limit == (n - 1) * limit + limit) by (nonlinear_arith)
        requires
            n >= 1,
    ;
    assert(v.offset + limit >= all.len());
    assert(v.items.len() == v.offset);
    assert(v.items + page_of(all, v.offset, limit) =~= all);
}

proof fn lemma_pages_needed_bounds(len: nat, limit: nat)
    requires
        limit > 0,
    ensures
        len == 0 ==> pages_needed(len, limit) == 1,
        len > 0 ==> (pages_needed(len, limit) - 1) * limit < len <= pages_needed(len, limit)
            * limit,
{
    if len > 0 {
        let q = (len - 1) as nat / limit;
        vstd::arithmetic::div_mod::lemma_fundamental_div_mod((len - 1) as int, limit as int);
        assert(pages_needed(len, limit) == q + 1);
        assert((q + 1) * limit == q * limit + limit) by (nonlinear_arith);
    }
}

/// Before the last page, the walker holds the first `k * limit` items.
proof fn lemma_walk_prefix<T>(all: Seq<T>, limit: nat, k: nat)
    requires
        limit > 0,
        k < pages_needed(all.len(), limit),
    ensures
        walk(all, limit, k) == (WalkView {
            items: all.take((k * limit) as int),
            limit,
            offset: k * limit,
            pages: k,
            done: false,
        }),
    decreases k,
{
    lemma_pages_needed_bounds(all.len(), limit);
    if k == 0 {
        assert(all.take(0) =~= Seq::<T>::empty());
        assert(0 * limit == 0);
    } else {
        let j = (k - 1) as nat;
        lemma_walk_prefix(all, limit, j);
        assert(k * limit == j * limit + limit) by (nonlinear_arith)
            requires
                k == j + 1,
        ;
        assert(k <= pages_needed(all.len(), limit) - 1);
        assert(k * limit <= (pages_needed(all.len(), limit) - 1) * limit) by (nonlinear_arith)
            requires
                k <= pages_needed(all.len(), limit) - 1,
                limit > 0,
        ;
        let v = walk(all, limit, j);
        assert(v.offset == j * limit);
        assert(j * limit + limit < all.len());
        let p = page_of(all, v.offset, limit);
        assert(p == all.subrange((j * limit) as int, (j * limit + limit) as int));
        assert(p.len() == limit);
        assert(v.items.len() == j * limit);
        assert(v.items + p =~= all.take((k * limit) as int));
    }
}

} // verus!

//! Draining a paginated listing. Each request is a round trip made by the
//! caller; the pager decides which token to ask with next and gathers the
//! items of every page in the order they came.
use vstd::prelude::*;

verus! {

/// One page of a listing: its items, and the token that asks for the page
/// after it, absent on the last page.
pub struct Page<T> {
    pub items: Vec<T>,
    pub next_token: Option<String>,
}

/// The state of a drain: the items gathered so far, and the token for the next
/// request until the last page has come.
pub struct Pager<T> {
    items: Vec<T>,
    next_token: Option<String>,
    finished: bool,
    pages: Ghost<Seq<Seq<T>>>,
}

impl<T> Pager<T> {
    /// The items of each page received, in order of arrival.
    pub closed spec fn pages(&self) -> Seq<Seq<T>> {
        self.pages@
    }

    /// The items gathered so far.
    pub closed spec fn items(&self) -> Seq<T> {
        self.items@
    }

    /// Whether the last page has come.
    pub closed spec fn is_finished(&self) -> bool {
        self.finished
    }

    /// The token to ask the next page with.
    pub closed spec fn token(&self) -> Option<Seq<char>> {
        self.next_token.deep_view()
    }

    /// A drain that has received nothing: its first request carries no token.
    pub fn new() -> (r: Self)
        ensures
            r.pages() == Seq::<Seq<T>>::empty(),
            r.items() == r.pages().flatten(),
            !r.is_finished(),
            r.token() is None,
    {
        Pager { items: Vec::new(), next_token: None, finished: false, pages: Ghost(Seq::empty()) }
    }

    /// The request to make next: `Some(token)` while pages remain, where
    /// `token` is that of the last page (none for the first request); `None`
    /// once the last page has come.
    pub fn next_request(&self) -> (r: Option<Option<String>>)
        ensures
            self.is_finished() ==> r is None,
            !self.is_finished() ==> r.deep_view() == Some(self.token()),
    {
        if self.finished {
            None
        } else {
            Some(self.next_token.clone())
        }
    }

    /// Takes in the page that answered the last request: its items follow
    /// those gathered before, and its token decides the next request.
    pub fn absorb(&mut self, page: Page<T>)
        requires
            !old(self).is_finished(),
            old(self).items() == old(self).pages().flatten(),
        ensures
            final(self).pages() == old(self).pages().push(page.items@),
            final(self).items() == old(self).items() + page.items@,
            final(self).items() == final(self).pages().flatten(),
            final(self).is_finished() == (page.next_token is None),
            final(self).token() == page.next_token.deep_view(),
    {
        let Page { items, next_token } = page;
        let mut items = items;
        let ghost received = items@;
        proof {
            self.pages@.lemma_flatten_push(received);
        }
        self.items.append(&mut items);
        self.pages = Ghost(self.pages@.push(received));
        self.finished = next_token.is_none();
        self.next_token = next_token;
    }

    /// All items gathered, in the order their pages came.
    pub fn into_items(self) -> (r: Vec<T>)
        ensures
            r@ == self.items(),
    {
        self.items
    }
}

/// Draining `n` pages of `m` items each gathers `n * m` items: the items of
/// each page in turn, in the order they stand within the page.
pub proof fn lemma_drain_order<T>(pages: Seq<Seq<T>>, m: nat)
    requires
        forall|p: int| 0 <= p < pages.len() ==> (#[trigger] pages[p]).len() == m,
    ensures
        pages.flatten().len() == pages.len() * m,
        forall|p: int, j: int|
            0 <= p < pages.len() && 0 <= j < m ==> pages.flatten()[p * m + j] == #[trigger] pages[p][j],
    decreases pages.len(),
{
    if pages.len() > 0 {
        let init = pages.drop_last();
        let n = init.len();
        assert forall|p: int| 0 <= p < init.len() implies (#[trigger] init[p]).len() == m by {
            assert(init[p] == pages[p]);
        }
        lemma_drain_order(init, m);
        assert(init.push(pages.last()) =~= pages);
        init.lemma_flatten_push(pages.last());
        assert((n + 1) * m == n * m + m) by (nonlinear_arith);
        assert forall|p: int, j: int| 0 <= p < pages.len() && 0 <= j < m implies pages.flatten()[p
            * m + j] == #[trigger] pages[p][j] by {
            if p < n {
                assert(p * m + j < n * m) by (nonlinear_arith)
                    requires
                        p < n,
                        j < m,
                        0 <= p,
                        0 <= j,
                ;
                assert(init[p] == pages[p]);
            } else {
                assert(p == n);
                assert(pages[p] == pages.last());
            }
        }
    }
}

} // verus!

use crate::book::{
    install, lemma_install_keeps_bounds, outcome_of, snapshot_outcome, step, BookModel,
    DeltaOutcome, OrderBook, OrderBookSummary, SnapshotOutcome, DEFAULT_PENDING_LIMIT,
};
use crate::errors::PolyfillError;
use crate::ladder::total_size;
use crate::table::{
    has_key, keyed, keys_distinct, lemma_keyed_at, lemma_keyed_push, lemma_keyed_remove,
    lemma_keyed_size, lemma_keyed_update, place,
};
use crate::text::{has_name, names, same_text};
use crate::types::{BookSnapshot, OrderDelta};
use vstd::prelude::*;

verus! {

/// The instrument of a book: the key under which the manager holds it.
pub open spec fn book_key() -> spec_fn(OrderBook) -> Seq<char> {
    |b: OrderBook| b.token()
}

/// The content of a book.
pub open spec fn book_content() -> spec_fn(OrderBook) -> BookModel {
    |b: OrderBook| b@
}

/// No two books of the table are of one instrument.
pub open spec fn distinct(books: Seq<OrderBook>) -> bool {
    keys_distinct(books, book_key())
}

/// Some book of the table is of instrument `id`.
pub open spec fn holds(books: Seq<OrderBook>, id: Seq<char>) -> bool {
    has_key(books, book_key(), id)
}

/// The place of the book of instrument `id` in the table.
pub open spec fn slot(books: Seq<OrderBook>, id: Seq<char>) -> int {
    place(books, book_key(), id)
}

/// The table read as a mapping from instrument to book.
pub open spec fn table(books: Seq<OrderBook>) -> Map<Seq<char>, BookModel> {
    keyed(books, book_key(), book_content())
}

/// The book that the mapping has for `id`, or the empty book that is made
/// for an instrument when it is first heard of.
pub open spec fn entry(
    m: Map<Seq<char>, BookModel>,
    id: Seq<char>,
    depth: nat,
    pending_limit: nat,
) -> BookModel {
    if m.contains_key(id) {
        m[id]
    } else {
        BookModel::fresh(depth, pending_limit)
    }
}

proof fn lemma_table_at(books: Seq<OrderBook>, i: int)
    requires
        distinct(books),
        0 <= i < books.len(),
    ensures
        holds(books, books[i].token()),
        slot(books, books[i].token()) == i,
        table(books).contains_key(books[i].token()),
        table(books)[books[i].token()] == books[i]@,
{
    lemma_keyed_at(books, book_key(), book_content(), i);
}

proof fn lemma_table_update(books: Seq<OrderBook>, i: int, book: OrderBook)
    requires
        distinct(books),
        0 <= i < books.len(),
        book.token() == books[i].token(),
    ensures
        distinct(books.update(i, book)),
        table(books.update(i, book)) == table(books).insert(book.token(), book@),
{
    lemma_keyed_update(books, book_key(), book_content(), i, book);
}

proof fn lemma_table_push(books: Seq<OrderBook>, book: OrderBook)
    requires
        distinct(books),
        !holds(books, book.token()),
    ensures
        distinct(books.push(book)),
        table(books.push(book)) == table(books).insert(book.token(), book@),
{
    lemma_keyed_push(books, book_key(), book_content(), book);
}

proof fn lemma_table_remove(books: Seq<OrderBook>, i: int)
    requires
        distinct(books),
        0 <= i < books.len(),
    ensures
        distinct(books.remove(i)),
        table(books.remove(i)) == table(books).remove(books[i].token()),
{
    lemma_keyed_remove(books, book_key(), book_content(), i);
}

/// The books of all instruments that are followed, one for each, each made
/// when its instrument is first heard of and destroyed when it is given up.
/// The manager is the only writer of its books; readers get copies.
#[derive(Debug)]
pub struct OrderBookManager {
    books: Vec<OrderBook>,
    max_depth: usize,
    max_pending: usize,
}

impl View for OrderBookManager {
    type V = Map<Seq<char>, BookModel>;

    closed spec fn view(&self) -> Map<Seq<char>, BookModel> {
        table(self.books@)
    }
}

impl OrderBookManager {
    /// Most levels that each book tracks per side.
    pub closed spec fn depth(&self) -> nat {
        self.max_depth as nat
    }

    /// Most deltas that each book keeps while it is not live.
    pub closed spec fn pending_limit(&self) -> nat {
        self.max_pending as nat
    }

    /// The manager's invariant: one book for each instrument, each of them
    /// well formed and made with the manager's bounds.
    pub closed spec fn wf(&self) -> bool {
        &&& self.max_depth > 0
        &&& distinct(self.books@)
        &&& forall|i: int|
            0 <= i < self.books@.len() ==> (#[trigger] self.books@[i]).wf() && self.books@[i]@.depth
                == self.max_depth && self.books@[i]@.pending_limit == self.max_pending
    }

    /// Every book of a well-formed manager is well formed.
    pub proof fn lemma_books_wf(&self, id: Seq<char>)
        requires
            self.wf(),
            self@.contains_key(id),
        ensures
            self@[id].wf(),
            self@[id].depth == self.depth(),
            self@[id].pending_limit == self.pending_limit(),
    {
        let k = slot(self.books@, id);
        lemma_table_at(self.books@, k);
    }

    /// A manager without books, whose books will track `max_depth` levels
    /// per side.
    pub fn new(max_depth: usize) -> (r: OrderBookManager)
        requires
            max_depth > 0,
        ensures
            r.wf(),
            r@ == Map::<Seq<char>, BookModel>::empty(),
            r.depth() == max_depth,
            r.pending_limit() == DEFAULT_PENDING_LIMIT,
    {
        let r = OrderBookManager {
            books: Vec::new(),
            max_depth,
            max_pending: DEFAULT_PENDING_LIMIT,
        };
        assert(r@ =~= Map::<Seq<char>, BookModel>::empty());
        r
    }

    /// A manager without books, or the configuration fault: a depth of
    /// nought tracks nothing.
    pub fn try_new(max_depth: usize, max_pending: usize) -> (r: Result<
        OrderBookManager,
        PolyfillError,
    >)
        ensures
            max_depth == 0 <==> r is Err,
            r is Err ==> r->Err_0 == PolyfillError::Configuration,
            r is Ok ==> r->Ok_0.wf() && r->Ok_0@ == Map::<Seq<char>, BookModel>::empty()
                && r->Ok_0.depth() == max_depth && r->Ok_0.pending_limit() == max_pending,
    {
        if max_depth == 0 {
            return Err(PolyfillError::Configuration);
        }
        let r = OrderBookManager { books: Vec::new(), max_depth, max_pending };
        assert(r@ =~= Map::<Seq<char>, BookModel>::empty());
        Ok(r)
    }

    /// The number of instruments that have a book.
    pub fn len(&self) -> (r: usize)
        requires
            self.wf(),
        ensures
            r == self@.dom().len(),
            self@.dom().finite(),
    {
        proof {
            lemma_table_size(self.books@);
        }
        self.books.len()
    }

    fn find(&self, id: &str) -> (r: Option<usize>)
        requires
            self.wf(),
        ensures
            r is Some <==> self@.contains_key(id@),
            r is Some ==> r->Some_0 < self.books@.len() && self.books@[r->Some_0 as int].token()
                == id@,
    {
        let n: usize = self.books.len();
        let mut i: usize = 0;
        while i < n
            invariant
                i <= n,
                n == self.books@.len(),
                forall|j: int| 0 <= j < i ==> (#[trigger] self.books@[j]).token() != id@,
            decreases n - i,
        {
            if same_text(self.books[i].token_id().as_str(), id) {
                return Some(i);
            }
            i += 1;
        }
        None
    }

    /// The place of the book of `id`, which is made first if there is none.
    fn find_or_create(&mut self, id: &str) -> (i: usize)
        requires
            old(self).wf(),
        ensures
            final(self).wf(),
            final(self).depth() == old(self).depth(),
            final(self).pending_limit() == old(self).pending_limit(),
            i < final(self).books@.len(),
            final(self).books@[i as int].token() == id@,
            final(self).books@[i as int]@ == entry(
                old(self)@,
                id@,
                old(self).depth(),
                old(self).pending_limit(),
            ),
            final(self)@ == old(self)@.insert(
                id@,
                entry(old(self)@, id@, old(self).depth(), old(self).pending_limit()),
            ),
    {
        match self.find(id) {
            Some(i) => {
                proof {
                    lemma_table_at(self.books@, i as int);
                    assert(self@ =~= self@.insert(id@, self@[id@]));
                }
                i
            },
            None => {
                let book = OrderBook::with_pending_limit(
                    id.to_owned(),
                    self.max_depth,
                    self.max_pending,
                );
                proof {
                    lemma_table_push(self.books@, book);
                }
                self.books.push(book);
                self.books.len() - 1
            },
        }
    }

    /// Starts to follow an instrument: its book is made if there is none,
    /// and a baseline is noted as asked for. Says whether the caller has to
    /// fetch one.
    pub fn subscribe(&mut self, token_id: &str) -> (r: bool)
        requires
            old(self).wf(),
        ensures
            final(self).wf(),
            final(self).depth() == old(self).depth(),
            final(self).pending_limit() == old(self).pending_limit(),
            final(self)@ == old(self)@.insert(
                token_id@,
                entry(old(self)@, token_id@, old(self).depth(), old(self).pending_limit()).requested(),
            ),
            r == (entry(
                old(self)@,
                token_id@,
                old(self).depth(),
                old(self).pending_limit(),
            ).state is Uninitialized || entry(
                old(self)@,
                token_id@,
                old(self).depth(),
                old(self).pending_limit(),
            ).state is OutOfSync),
    {
        let i: usize = self.find_or_create(token_id);
        let ghost mid = self.books@;
        let r: bool = self.books[i].request_snapshot();
        proof {
            lemma_table_update(mid, i as int, self.books@[i as int]);
            assert(self.books@ =~= mid.update(i as int, self.books@[i as int]));
            assert(self@ =~= old(self)@.insert(
                token_id@,
                entry(old(self)@, token_id@, old(self).depth(), old(self).pending_limit()).requested(),
            ));
        }
        r
    }

    /// Hands a delta to the book of its instrument, which is made first if
    /// there is none. No other book changes.
    pub fn apply_delta(&mut self, delta: OrderDelta) -> (r: DeltaOutcome)
        requires
            old(self).wf(),
        ensures
            final(self).wf(),
            final(self).depth() == old(self).depth(),
            final(self).pending_limit() == old(self).pending_limit(),
            final(self)@ == old(self)@.insert(
                delta.token_id@,
                step(
                    entry(
                        old(self)@,
                        delta.token_id@,
                        old(self).depth(),
                        old(self).pending_limit(),
                    ),
                    delta.update(),
                ),
            ),
            r == outcome_of(
                entry(old(self)@, delta.token_id@, old(self).depth(), old(self).pending_limit()),
                delta.update(),
            ),
    {
        let i: usize = self.find_or_create(delta.token_id.as_str());
        let ghost mid = self.books@;
        let r: DeltaOutcome = self.books[i].apply_update(delta.update());
        proof {
            lemma_table_update(mid, i as int, self.books@[i as int]);
            assert(self.books@ =~= mid.update(i as int, self.books@[i as int]));
            assert(self@ =~= old(self)@.insert(
                delta.token_id@,
                step(
                    entry(
                        old(self)@,
                        delta.token_id@,
                        old(self).depth(),
                        old(self).pending_limit(),
                    ),
                    delta.update(),
                ),
            ));
        }
        r
    }

    /// Hands a baseline to the book of its instrument, which is made first
    /// if there is none. No other book changes.
    pub fn apply_snapshot(&mut self, snapshot: &BookSnapshot) -> (r: SnapshotOutcome)
        requires
            old(self).wf(),
        ensures
            final(self).wf(),
            final(self).depth() == old(self).depth(),
            final(self).pending_limit() == old(self).pending_limit(),
            final(self)@ == old(self)@.insert(
                snapshot.token_id@,
                install(
                    entry(
                        old(self)@,
                        snapshot.token_id@,
                        old(self).depth(),
                        old(self).pending_limit(),
                    ),
                    snapshot.bids@,
                    snapshot.asks@,
                    snapshot.sequence,
                    snapshot.timestamp,
                ),
            ),
            r == snapshot_outcome(
                entry(
                    old(self)@,
                    snapshot.token_id@,
                    old(self).depth(),
                    old(self).pending_limit(),
                ),
                snapshot.sequence,
            ),
    {
        let i: usize = self.find_or_create(snapshot.token_id.as_str());
        let ghost mid = self.books@;
        let r: SnapshotOutcome = self.books[i].apply_snapshot(snapshot);
        proof {
            lemma_install_keeps_bounds(
                mid[i as int]@,
                snapshot.bids@,
                snapshot.asks@,
                snapshot.sequence,
                snapshot.timestamp,
            );
            lemma_table_update(mid, i as int, self.books@[i as int]);
            assert(self.books@ =~= mid.update(i as int, self.books@[i as int]));
            assert(self@ =~= old(self)@.insert(
                snapshot.token_id@,
                install(
                    entry(
                        old(self)@,
                        snapshot.token_id@,
                        old(self).depth(),
                        old(self).pending_limit(),
                    ),
                    snapshot.bids@,
                    snapshot.asks@,
                    snapshot.sequence,
                    snapshot.timestamp,
                ),
            ));
        }
        r
    }

    /// Notes that the fetch of a baseline for an instrument failed. Where
    /// the instrument has no book, nothing changes.
    pub fn snapshot_failed(&mut self, token_id: &str)
        requires
            old(self).wf(),
        ensures
            final(self).wf(),
            final(self).depth() == old(self).depth(),
            final(self).pending_limit() == old(self).pending_limit(),
            old(self)@.contains_key(token_id@) ==> final(self)@ == old(self)@.insert(
                token_id@,
                old(self)@[token_id@].fetch_failed(),
            ),
            !old(self)@.contains_key(token_id@) ==> final(self)@ == old(self)@,
    {
        match self.find(token_id) {
            Some(i) => {
                let ghost mid = self.books@;
                proof {
                    lemma_table_at(mid, i as int);
                }
                self.books[i].snapshot_failed();
                proof {
                    lemma_table_update(mid, i as int, self.books@[i as int]);
                    assert(self.books@ =~= mid.update(i as int, self.books@[i as int]));
                }
            },
            None => {},
        }
    }

    /// A copy of the book of an instrument as it stands, if it has one.
    pub fn snapshot(&self, token_id: &str) -> (r: Option<OrderBookSummary>)
        requires
            self.wf(),
        ensures
            r is Some <==> self@.contains_key(token_id@),
            r is Some ==> {
                let summary = r->Some_0;
                let book = self@[token_id@];
                &&& summary.token_id@ == token_id@
                &&& summary.bids@ == book.bids
                &&& summary.asks@ == book.asks
                &&& summary.bid_size == total_size(book.bids)
                &&& summary.ask_size == total_size(book.asks)
                &&& summary.sequence == book.last_sequence
                &&& summary.last_update == book.last_update
                &&& summary.state == book.state
            },
    {
        match self.find(token_id) {
            Some(i) => {
                proof {
                    lemma_table_at(self.books@, i as int);
                }
                Some(self.books[i].snapshot())
            },
            None => None,
        }
    }

    /// Gives an instrument up: its book is destroyed. Says whether there
    /// was one. No other book changes.
    pub fn unsubscribe(&mut self, token_id: &str) -> (r: bool)
        requires
            old(self).wf(),
        ensures
            final(self).wf(),
            final(self).depth() == old(self).depth(),
            final(self).pending_limit() == old(self).pending_limit(),
            final(self)@ == old(self)@.remove(token_id@),
            r == old(self)@.contains_key(token_id@),
    {
        match self.find(token_id) {
            Some(i) => {
                proof {
                    lemma_table_remove(self.books@, i as int);
                }
                let mut gone: OrderBook = self.books.remove(i);
                gone.close();
                true
            },
            None => {
                assert(self@ =~= self@.remove(token_id@));
                false
            },
        }
    }

    /// Notes that the feed of the listed instruments was interrupted: each
    /// of them that has a book is out of sync from now on, until a baseline
    /// arrives. The books of all other instruments stay as they are.
    pub fn mark_out_of_sync(&mut self, token_ids: &Vec<String>)
        requires
            old(self).wf(),
        ensures
            final(self).wf(),
            final(self).depth() == old(self).depth(),
            final(self).pending_limit() == old(self).pending_limit(),
            final(self)@.dom() == old(self)@.dom(),
            forall|id: Seq<char>| #[trigger]
                old(self)@.contains_key(id) ==> final(self)@[id] == (if names(token_ids@).contains(id) {
                    old(self)@[id].desynced()
                } else {
                    old(self)@[id]
                }),
    {
        let ghost before = self.books@;
        let n: usize = self.books.len();
        let mut i: usize = 0;
        while i < n
            invariant
                i <= n,
                n == before.len(),
                self.books@.len() == n,
                self.wf(),
                self.max_depth == old(self).max_depth,
                self.max_pending == old(self).max_pending,
                distinct(before),
                forall|j: int|
                    0 <= j < n ==> (#[trigger] self.books@[j]).token() == before[j].token(),
                forall|j: int|
                    0 <= j < i ==> (#[trigger] self.books@[j])@ == (if names(token_ids@).contains(before[j].token()) {
                        before[j]@.desynced()
                    } else {
                        before[j]@
                    }),
                forall|j: int| i <= j < n ==> (#[trigger] self.books@[j])@ == before[j]@,
            decreases n - i,
        {
            if has_name(token_ids, self.books[i].token_id().as_str()) {
                let ghost mid = self.books@;
                self.books[i].mark_out_of_sync();
                proof {
                    assert(self.books@ =~= mid.update(i as int, self.books@[i as int]));
                    lemma_table_update(mid, i as int, self.books@[i as int]);
                    assert forall|j: int| 0 <= j < n implies (#[trigger] self.books@[j]).wf()
                        && self.books@[j]@.depth == self.max_depth && self.books@[j]@.pending_limit
                        == self.max_pending by {
                        if j != i {
                            assert(self.books@[j] == mid[j]);
                        }
                    }
                }
            }
            i += 1;
        }
        proof {
            let after = self.books@;
            assert forall|id: Seq<char>| self@.contains_key(id) <==> old(self)@.contains_key(
                id,
            ) by {
                if holds(after, id) {
                    let k = slot(after, id);
                    assert(before[k].token() == id);
                    lemma_table_at(before, k);
                }
                if holds(before, id) {
                    let k = slot(before, id);
                    assert(after[k].token() == id);
                    lemma_table_at(after, k);
                }
            }
            assert(self@.dom() =~= old(self)@.dom());
            assert forall|id: Seq<char>| #[trigger] old(self)@.contains_key(id) implies self@[id] == (
            if names(token_ids@).contains(id) {
                old(self)@[id].desynced()
            } else {
                old(self)@[id]
            }) by {
                let k = slot(before, id);
                lemma_table_at(before, k);
                assert(after[k].token() == id);
                lemma_table_at(after, k);
            }
        }
    }
}

/// A table without two books of one instrument has as many instruments as
/// books.
proof fn lemma_table_size(books: Seq<OrderBook>)
    requires
        distinct(books),
    ensures
        table(books).dom().finite(),
        table(books).dom().len() == books.len(),
{
    lemma_keyed_size(books, book_key(), book_content());
}

} // verus!

//! The market: one ledger for each commodity.

use crate::keys::{keys_of, lemma_sorted_keys, sorted_keys};
use crate::ledger::{Book, SingleMarket};
use crate::matching::Scratch;
use crate::money::Money;
use crate::prices::{calculate_prices, price_of, prices_of, Catalog};
use crate::trade::Trade;
use crate::types::{ItemID, SoulID, Vec2};
use std::collections::BTreeMap;
use vstd::prelude::*;
use vstd::std_specs::btree::*;

verus! {

/// By how many hundredths the cost of labour is scaled when the market
/// derives the prices of the outside market.
pub const PRICE_MULTIPLIER_PERCENT: u32 = 125;

/// The empty books of the first `n` items of the catalog, each with its price
/// on the outside market. Where two items share a number, the later one
/// counts.
pub open spec fn fresh_books(catalog: Catalog, prices: Map<u64, Money>, n: nat) -> Map<u64, Book>
    decreases n,
{
    if n == 0 {
        Map::empty()
    } else {
        let item = catalog.items@[n - 1];
        fresh_books(catalog, prices, (n - 1) as nat).insert(
            item.id.0,
            Book::empty(price_of(prices, item.id.0), item.optout_exttrade),
        )
    }
}

/// Whether `books` hold one empty book for each of the first `n` items of the
/// catalog and no other, each with the price that `prices` gives it.
pub open spec fn opens_with(
    books: Map<u64, Book>,
    catalog: Catalog,
    prices: Map<u64, Money>,
    n: nat,
) -> bool {
    &&& forall|i: int| 0 <= i < n ==> books.contains_key(#[trigger] catalog.items@[i].id.0)
    &&& forall|k: u64| #[trigger]
        books.contains_key(k) ==> {
            &&& exists|i: int| 0 <= i < n && #[trigger] catalog.items@[i].id.0 == k
            &&& books[k].capital == Map::<u64, i32>::empty()
            &&& books[k].buys == Map::<u64, crate::trade::BuyOrder>::empty()
            &&& books[k].sells == Map::<u64, crate::trade::SellOrder>::empty()
            &&& books[k].ext_value == price_of(prices, k)
        }
}

/// Whether every book is well formed.
pub open spec fn books_wf(books: Map<u64, Book>) -> bool {
    forall|k: u64| books.contains_key(k) ==> (#[trigger] books[k]).wf()
}

/// The books of all commodities after one pass of matching over each.
pub open spec fn books_after_trades(books: Map<u64, Book>) -> Map<u64, Book> {
    books.map_values(|book: Book| book.after_trades())
}

/// The trades of one pass of matching over each of the commodities `kinds`,
/// in the order of `kinds`.
pub open spec fn trades_among(books: Map<u64, Book>, kinds: Seq<u64>) -> Seq<Trade>
    decreases kinds.len(),
{
    if kinds.len() == 0 {
        Seq::empty()
    } else {
        trades_among(books, kinds.drop_last()) + books[kinds.last()].trades(ItemID(kinds.last()))
    }
}

/// The trades of one pass of matching over every commodity, by ascending
/// commodity.
pub open spec fn trades_of(books: Map<u64, Book>) -> Seq<Trade> {
    trades_among(books, sorted_keys(books.dom()))
}

/// The books with `change` applied to that of `kind`, if there is one.
pub open spec fn with_book(books: Map<u64, Book>, kind: u64, change: spec_fn(Book) -> Book) -> Map<
    u64,
    Book,
> {
    if books.contains_key(kind) {
        books.insert(kind, change(books[kind]))
    } else {
        books
    }
}

/// Exchanges goods among agents and between agents and the outside market.
/// No money moves when agents trade with each other; it does when they trade
/// with the outside.
///
/// The market keeps one ledger for each commodity of the catalog that it was
/// made from. No operation adds or removes a commodity. The trades of the
/// last pass are kept in a buffer that the next pass uses again, and so are
/// the buffers in which a pass gathers and ranks its candidates: these are
/// empty between passes.
pub struct Market {
    markets: BTreeMap<u64, SingleMarket>,
    all_trades: Vec<Trade>,
    scratch: Scratch,
}

impl View for Market {
    type V = Map<u64, Book>;

    closed spec fn view(&self) -> Map<u64, Book> {
        self.markets@.map_values(|ledger: SingleMarket| ledger@)
    }
}

/// `BTreeMap::get_mut` on the ledgers: a mutable reference to the ledger
/// stored under `kind`, if there is one. What the caller leaves behind the
/// reference is what the map then holds under `kind`; no other entry changes.
#[verifier::external_body]
fn ledger_mut(markets: &mut BTreeMap<u64, SingleMarket>, kind: u64) -> (ledger: Option<
    &mut SingleMarket,
>)
    ensures
        match ledger {
            Some(l) => {
                &&& old(markets)@.contains_key(kind)
                &&& *l == old(markets)@[kind]
                &&& final(markets)@ == old(markets)@.insert(kind, *final(l))
            },
            None => !old(markets)@.contains_key(kind) && final(markets)@ == old(markets)@,
        },
{
    markets.get_mut(&kind)
}

impl Market {
    /// The trades of the last pass, in the order in which they were made:
    /// none, before the first pass. Posting orders and producing goods leave
    /// the batch as it is; the next pass replaces it.
    pub closed spec fn last_batch(&self) -> Seq<Trade> {
        self.all_trades@
    }

    /// Whether the buffers in which a pass gathers and ranks its candidates
    /// are empty. They are, whenever no pass is running.
    pub closed spec fn at_rest(&self) -> bool {
        self.scratch.is_empty()
    }

    /// A market with an empty ledger for each item of the catalog. The price
    /// of a commodity on the outside market is its baseline price, with
    /// labour scaled by [`PRICE_MULTIPLIER_PERCENT`] hundredths.
    pub fn new(catalog: &Catalog) -> (market: Market)
        ensures
            market@ == fresh_books(
                *catalog,
                prices_of(*catalog, PRICE_MULTIPLIER_PERCENT),
                catalog.items@.len(),
            ),
            opens_with(
                market@,
                *catalog,
                prices_of(*catalog, PRICE_MULTIPLIER_PERCENT),
                catalog.items@.len(),
            ),
            books_wf(market@),
            market.last_batch() == Seq::<Trade>::empty(),
            market.at_rest(),
    {
        broadcast use group_btree_axioms;

        let prices = calculate_prices(catalog, PRICE_MULTIPLIER_PERCENT);
        let mut market = Market {
            markets: BTreeMap::new(),
            all_trades: Vec::new(),
            scratch: Scratch::new(),
        };
        let mut i: usize = 0;
        proof {
            assert(market@ =~= Map::<u64, Book>::empty());
        }
        while i < catalog.items.len()
            invariant
                i <= catalog.items@.len(),
                prices@ == prices_of(*catalog, PRICE_MULTIPLIER_PERCENT),
                market@ == fresh_books(*catalog, prices@, i as nat),
                opens_with(market@, *catalog, prices@, i as nat),
                books_wf(market@),
                market.last_batch() == Seq::<Trade>::empty(),
                market.at_rest(),
            decreases catalog.items@.len() - i,
        {
            let item = catalog.items[i];
            let price = match prices.get(&item.id.0) {
                Some(price) => *price,
                None => Money::zero(),
            };
            let ghost before = market@;
            market.markets.insert(item.id.0, SingleMarket::new(price, item.optout_exttrade));
            proof {
                assert(market@ =~= before.insert(
                    item.id.0,
                    Book::empty(price, item.optout_exttrade),
                ));
                assert forall|k: u64| #[trigger] market@.contains_key(k) implies exists|j: int|
                    0 <= j < i + 1 && #[trigger] catalog.items@[j].id.0 == k by {
                    if k == item.id.0 {
                        assert(catalog.items@[i as int].id.0 == k);
                    } else {
                        assert(before.contains_key(k));
                        let j = choose|j: int| 0 <= j < i && #[trigger] catalog.items@[j].id.0 == k;
                        assert(catalog.items@[j].id.0 == k);
                    }
                }
            }
            i += 1;
        }
        market
    }

    /// The ledger of `kind`, which must be a known commodity.
    pub fn m(&mut self, kind: ItemID) -> (ledger: &mut SingleMarket)
        requires
            old(self)@.contains_key(kind.0),
        ensures
            ledger@ == old(self)@[kind.0],
            final(self)@ == old(self)@.insert(kind.0, final(ledger)@),
            final(self)@.dom() == old(self)@.dom(),
            final(self).last_batch() == old(self).last_batch(),
            final(self).at_rest() == old(self).at_rest(),
    {
        proof {
            assert(old(self)@.dom() =~= old(self).markets@.dom());
        }
        match ledger_mut(&mut self.markets, kind.0) {
            Some(ledger) => ledger,
            None => vstd::pervasive::unreached(),
        }
    }

    /// What `soul` owns of `kind`: nothing, if either is unknown.
    pub fn capital(&self, soul: SoulID, kind: ItemID) -> (c: i32)
        ensures
            c == if self@.contains_key(kind.0) {
                self@[kind.0].balance(soul.0)
            } else {
                0
            },
    {
        broadcast use group_btree_axioms;

        match self.markets.get(&kind.0) {
            Some(ledger) => ledger.balance(soul),
            None => 0,
        }
    }

    /// Posts or replaces the sell order of `soul` for `kind`: up to `qty`
    /// units, of which the seller wants to keep `stock`. To sell anything an
    /// agent has to own it first. Does nothing if the commodity is unknown.
    pub fn sell(&mut self, soul: SoulID, near: Vec2, kind: ItemID, qty: u32, stock: u32)
        ensures
            final(self)@ == with_book(
                old(self)@,
                kind.0,
                |b: Book| b.sell(soul.0, near, qty, stock),
            ),
            books_wf(old(self)@) ==> books_wf(final(self)@),
            final(self)@.dom() == old(self)@.dom(),
            final(self).last_batch() == old(self).last_batch(),
            final(self).at_rest() == old(self).at_rest(),
    {
        broadcast use group_btree_axioms;

        match self.markets.remove(&kind.0) {
            Some(ledger) => {
                let mut ledger = ledger;
                ledger.sell(soul, near, qty, stock);
                self.markets.insert(kind.0, ledger);
                proof {
                    assert(self@ =~= old(self)@.insert(
                        kind.0,
                        old(self)@[kind.0].sell(soul.0, near, qty, stock),
                    ));
                }
            },
            None => {
                proof {
                    assert(self@ =~= old(self)@);
                }
            },
        }
    }

    /// Offers all that `soul` owns of `kind`. Does nothing if it owns
    /// nothing, or if the commodity is unknown.
    pub fn sell_all(&mut self, soul: SoulID, near: Vec2, kind: ItemID, stock: u32)
        ensures
            final(self)@ == with_book(
                old(self)@,
                kind.0,
                |b: Book| b.sell_all(soul.0, near, stock),
            ),
            books_wf(old(self)@) ==> books_wf(final(self)@),
            final(self)@.dom() == old(self)@.dom(),
            final(self).last_batch() == old(self).last_batch(),
            final(self).at_rest() == old(self).at_rest(),
    {
        broadcast use group_btree_axioms;

        match self.markets.remove(&kind.0) {
            Some(ledger) => {
                let mut ledger = ledger;
                ledger.sell_all(soul, near, stock);
                self.markets.insert(kind.0, ledger);
                proof {
                    assert(self@ =~= old(self)@.insert(
                        kind.0,
                        old(self)@[kind.0].sell_all(soul.0, near, stock),
                    ));
                }
            },
            None => {
                proof {
                    assert(self@ =~= old(self)@);
                }
            },
        }
    }

    /// Forgets `soul` in every commodity: its balances and its orders.
    pub fn remove(&mut self, soul: SoulID)
        ensures
            final(self)@ == old(self)@.map_values(|b: Book| b.remove(soul.0)),
            books_wf(old(self)@) ==> books_wf(final(self)@),
            final(self)@.dom() == old(self)@.dom(),
            final(self).last_batch() == old(self).last_batch(),
            final(self).at_rest() == old(self).at_rest(),
    {
        broadcast use group_btree_axioms;

        let kinds = keys_of(&self.markets);
        let ghost books = self@;
        let mut i: usize = 0;
        proof {
            assert(books.dom() =~= self.markets@.dom());
        }
        while i < kinds.len()
            invariant
                i <= kinds@.len(),
                crate::keys::lists_keys(kinds@, books.dom()),
                self@.dom() == books.dom(),
                forall|k: int|
                    0 <= k < kinds@.len() ==> self@[#[trigger] kinds@[k]] == if k < i {
                        books[kinds@[k]].remove(soul.0)
                    } else {
                        books[kinds@[k]]
                    },
                books_wf(books) ==> books_wf(self@),
                self.last_batch() == old(self).last_batch(),
                self.at_rest() == old(self).at_rest(),
            decreases kinds@.len() - i,
        {
            let kind = kinds[i];
            let ghost before = self@;
            proof {
                assert(kinds@.contains(kind));
            }
            match self.markets.remove(&kind) {
                Some(ledger) => {
                    let mut ledger = ledger;
                    ledger.remove(soul);
                    self.markets.insert(kind, ledger);
                    proof {
                        assert(self@ =~= before.insert(kind, books[kind].remove(soul.0)));
                    }
                },
                None => {},
            }
            i += 1;
        }
        proof {
            assert forall|k: u64| books.contains_key(k) implies self@[k] == books[k].remove(
                soul.0,
            ) by {
                assert(kinds@.contains(k));
            }
            assert(self@ =~= books.map_values(|b: Book| b.remove(soul.0)));
        }
    }

    /// Posts or replaces the buy order of `soul` for `qty` units of `kind`.
    /// Does nothing if the commodity is unknown.
    pub fn buy(&mut self, soul: SoulID, near: Vec2, kind: ItemID, qty: u32)
        ensures
            final(self)@ == with_book(old(self)@, kind.0, |b: Book| b.buy(soul.0, near, qty)),
            books_wf(old(self)@) ==> books_wf(final(self)@),
            final(self)@.dom() == old(self)@.dom(),
            final(self).last_batch() == old(self).last_batch(),
            final(self).at_rest() == old(self).at_rest(),
    {
        broadcast use group_btree_axioms;

        match self.markets.remove(&kind.0) {
            Some(ledger) => {
                let mut ledger = ledger;
                ledger.buy(soul, near, qty);
                self.markets.insert(kind.0, ledger);
                proof {
                    assert(self@ =~= old(self)@.insert(
                        kind.0,
                        old(self)@[kind.0].buy(soul.0, near, qty),
                    ));
                }
            },
            None => {
                proof {
                    assert(self@ =~= old(self)@);
                }
            },
        }
    }

    /// Asks for what `soul` lacks to own `qty` units of `kind`. Does nothing
    /// if it owns as much already, or if the commodity is unknown.
    pub fn buy_until(&mut self, soul: SoulID, near: Vec2, kind: ItemID, qty: u32)
        ensures
            final(self)@ == with_book(
                old(self)@,
                kind.0,
                |b: Book| b.buy_until(soul.0, near, qty),
            ),
            books_wf(old(self)@) ==> books_wf(final(self)@),
            final(self)@.dom() == old(self)@.dom(),
            final(self).last_batch() == old(self).last_batch(),
            final(self).at_rest() == old(self).at_rest(),
    {
        broadcast use group_btree_axioms;

        match self.markets.remove(&kind.0) {
            Some(ledger) => {
                let mut ledger = ledger;
                ledger.buy_until(soul, near, qty);
                self.markets.insert(kind.0, ledger);
                proof {
                    assert(self@ =~= old(self)@.insert(
                        kind.0,
                        old(self)@[kind.0].buy_until(soul.0, near, qty),
                    ));
                }
            },
            None => {
                proof {
                    assert(self@ =~= old(self)@);
                }
            },
        }
    }

    /// Makes `soul` known to the ledger of `kind`, with nothing to its name
    /// unless it was known before. Agents need not register: an order or a
    /// production does as well. Does nothing if the commodity is unknown.
    pub fn register(&mut self, soul: SoulID, kind: ItemID)
        ensures
            final(self)@ == with_book(old(self)@, kind.0, |b: Book| b.register(soul.0)),
            books_wf(old(self)@) ==> books_wf(final(self)@),
            final(self)@.dom() == old(self)@.dom(),
            final(self).last_batch() == old(self).last_batch(),
            final(self).at_rest() == old(self).at_rest(),
    {
        broadcast use group_btree_axioms;

        match self.markets.remove(&kind.0) {
            Some(ledger) => {
                let mut ledger = ledger;
                ledger.register(soul);
                self.markets.insert(kind.0, ledger);
                proof {
                    assert(self@ =~= old(self)@.insert(
                        kind.0,
                        old(self)@[kind.0].register(soul.0),
                    ));
                }
            },
            None => {
                proof {
                    assert(self@ =~= old(self)@);
                }
            },
        }
    }

    /// Adds `delta` to what `soul` owns of `kind` and returns the new
    /// balance: for goods that an agent makes on its own, and, with a
    /// negative `delta`, for goods that it uses up. Does nothing and returns
    /// zero if the commodity is unknown.
    pub fn produce(&mut self, soul: SoulID, kind: ItemID, delta: i32) -> (c: i32)
        ensures
            final(self)@ == with_book(old(self)@, kind.0, |b: Book| b.produce(soul.0, delta)),
            c == if old(self)@.contains_key(kind.0) {
                final(self)@[kind.0].balance(soul.0)
            } else {
                0
            },
            books_wf(old(self)@) ==> books_wf(final(self)@),
            final(self)@.dom() == old(self)@.dom(),
            final(self).last_batch() == old(self).last_batch(),
            final(self).at_rest() == old(self).at_rest(),
    {
        broadcast use group_btree_axioms;

        match self.markets.remove(&kind.0) {
            Some(ledger) => {
                let mut ledger = ledger;
                let c = ledger.produce(soul, delta);
                self.markets.insert(kind.0, ledger);
                proof {
                    assert(self@ =~= old(self)@.insert(
                        kind.0,
                        old(self)@[kind.0].produce(soul.0, delta),
                    ));
                }
                c
            },
            None => {
                proof {
                    assert(self@ =~= old(self)@);
                }
                0
            },
        }
    }

    /// The trades of the last pass: what [`Market::make_trades`] returned
    /// when it last ran.
    pub fn last_trades(&self) -> (batch: &[Trade])
        ensures
            batch@ == self.last_batch(),
    {
        self.all_trades.as_slice()
    }

    /// The ledgers of all commodities, keyed by the commodities' numbers.
    pub fn inner(&self) -> (ledgers: &BTreeMap<u64, SingleMarket>)
        ensures
            ledgers@.dom() == self@.dom(),
            forall|k: u64| self@.contains_key(k) ==> (#[trigger] ledgers@[k])@ == self@[k],
    {
        proof {
            assert(self@.dom() =~= self.markets@.dom());
        }
        &self.markets
    }

    /// The ledgers of all commodities with their commodities, by ascending
    /// commodity.
    pub fn iter(&self) -> (ledgers: Vec<(ItemID, &SingleMarket)>)
        ensures
            ledgers@.len() == sorted_keys(self@.dom()).len(),
            forall|i: int|
                0 <= i < ledgers@.len() ==> {
                    &&& (#[trigger] ledgers@[i]).0 == ItemID(sorted_keys(self@.dom())[i])
                    &&& ledgers@[i].1@ == self@[sorted_keys(self@.dom())[i]]
                },
    {
        broadcast use group_btree_axioms;

        let kinds = keys_of(&self.markets);
        let mut ledgers: Vec<(ItemID, &SingleMarket)> = Vec::new();
        let mut i: usize = 0;
        proof {
            assert(self@.dom() =~= self.markets@.dom());
        }
        while i < kinds.len()
            invariant
                i <= kinds@.len(),
                kinds@ == sorted_keys(self@.dom()),
                crate::keys::lists_keys(kinds@, self.markets@.dom()),
                ledgers@.len() == i,
                forall|k: int|
                    0 <= k < i ==> {
                        &&& (#[trigger] ledgers@[k]).0 == ItemID(kinds@[k])
                        &&& ledgers@[k].1@ == self@[kinds@[k]]
                    },
            decreases kinds@.len() - i,
        {
            let kind = kinds[i];
            proof {
                assert(kinds@.contains(kind));
            }
            match self.markets.get(&kind) {
                Some(ledger) => {
                    ledgers.push((ItemID(kind), ledger));
                },
                None => {
                    assert(false);
                },
            }
            i += 1;
        }
        ledgers
    }

    /// Runs one pass of matching over every commodity and returns the trades
    /// that were made. The batch is valid until the next pass.
    pub fn make_trades(&mut self) -> (batch: &[Trade])
        ensures
            final(self)@ == books_after_trades(old(self)@),
            batch@ == trades_of(old(self)@),
            final(self).last_batch() == batch@,
            final(self).at_rest(),
            books_wf(old(self)@) ==> books_wf(final(self)@),
            final(self)@.dom() == old(self)@.dom(),
    {
        broadcast use group_btree_axioms;

        self.all_trades.clear();
        self.scratch.potential.clear();
        self.scratch.merged.clear();
        let kinds = keys_of(&self.markets);
        let ghost books = self@;
        let mut i: usize = 0;
        proof {
            assert(books.dom() =~= self.markets@.dom());
            assert(kinds@.take(0) =~= Seq::empty());
        }
        while i < kinds.len()
            invariant
                i <= kinds@.len(),
                kinds@ == sorted_keys(books.dom()),
                crate::keys::lists_keys(kinds@, books.dom()),
                self@.dom() == books.dom(),
                forall|k: int|
                    0 <= k < kinds@.len() ==> self@[#[trigger] kinds@[k]] == if k < i {
                        books[kinds@[k]].after_trades()
                    } else {
                        books[kinds@[k]]
                    },
                self.all_trades@ == trades_among(books, kinds@.take(i as int)),
                books_wf(books) ==> books_wf(self@),
                self.at_rest(),
            decreases kinds@.len() - i,
        {
            let kind = kinds[i];
            let ghost before = self@;
            proof {
                assert(kinds@.take(i + 1).drop_last() =~= kinds@.take(i as int));
                assert(kinds@.take(i + 1).last() == kind);
                assert(kinds@.contains(kind));
            }
            match self.markets.remove(&kind) {
                Some(ledger) => {
                    let mut ledger = ledger;
                    ledger.make_trades(ItemID(kind), &mut self.scratch, &mut self.all_trades);
                    self.markets.insert(kind, ledger);
                    proof {
                        assert(self@ =~= before.insert(kind, books[kind].after_trades()));
                    }
                },
                None => {},
            }
            i += 1;
        }
        proof {
            assert(kinds@.take(i as int) =~= kinds@);
            assert forall|k: u64| books.contains_key(k) implies self@[k]
                == books[k].after_trades() by {
                assert(kinds@.contains(k));
            }
            assert(self@ =~= books_after_trades(books));
        }
        self.all_trades.as_slice()
    }
}

} // verus!

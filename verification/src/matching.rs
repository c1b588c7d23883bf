//! One pass of matching over the ledger of a single commodity: sell orders
//! are paired with nearby buy orders, and what stays open goes to the
//! outside market.

use crate::keys::sorted_keys;
use crate::ledger::{export_trade, import_trade, settle_trade, Book, SingleMarket};
use crate::ranking::{rank, ranked};
use crate::trade::{valid_qty, Candidate, Trade, MAX_ORDER_QTY};
use crate::types::{dist2, ItemID, SoulID};
use vstd::prelude::*;

verus! {

impl Book {
    /// Whether the sell order of `seller` and the buy order of `buyer` make a
    /// candidate pairing: they belong to two agents, the seller owns all
    /// that its order offers, and the order offers at least what the buyer
    /// asks for.
    pub open spec fn pairs(self, seller: u64, buyer: u64) -> bool {
        &&& seller != buyer
        &&& self.sells.contains_key(seller)
        &&& self.buys.contains_key(buyer)
        &&& self.balance(seller) >= self.sells[seller].qty
        &&& valid_qty(self.buys[buyer].qty)
        &&& self.buys[buyer].qty <= self.sells[seller].qty
    }

    /// The candidate that pairs `seller` with `buyer`: for all that the buyer
    /// asks for, scored by the squared distance between the two orders.
    pub open spec fn pairing(self, seller: u64, buyer: u64) -> Candidate {
        Candidate {
            score: dist2(self.sells[seller].pos, self.buys[buyer].pos) as u128,
            seller: SoulID(seller),
            buyer: SoulID(buyer),
            qty: self.buys[buyer].qty as i32,
        }
    }

    /// The candidates that pair `seller` with one of `buyers`, in the order
    /// of `buyers`.
    pub open spec fn pairings_with(self, seller: u64, buyers: Seq<u64>) -> Seq<Candidate>
        decreases buyers.len(),
    {
        if buyers.len() == 0 {
            Seq::empty()
        } else {
            let before = self.pairings_with(seller, buyers.drop_last());
            if self.pairs(seller, buyers.last()) {
                before.push(self.pairing(seller, buyers.last()))
            } else {
                before
            }
        }
    }

    /// The candidates that pair one of `sellers` with one of `buyers`, in the
    /// order of `sellers` and, for one seller, of `buyers`.
    pub open spec fn pairings_among(self, sellers: Seq<u64>, buyers: Seq<u64>) -> Seq<Candidate>
        decreases sellers.len(),
    {
        if sellers.len() == 0 {
            Seq::empty()
        } else {
            self.pairings_among(sellers.drop_last(), buyers) + self.pairings_with(
                sellers.last(),
                buyers,
            )
        }
    }

    /// All candidate pairings of the book.
    pub open spec fn candidates(self) -> Seq<Candidate> {
        self.pairings_among(sorted_keys(self.sells.dom()), sorted_keys(self.buys.dom()))
    }

    /// The book after an attempt to settle each of `cs` in turn.
    pub open spec fn settle_all(self, cs: Seq<Candidate>) -> Book
        decreases cs.len(),
    {
        if cs.len() == 0 {
            self
        } else {
            self.settle_all(cs.drop_last()).settle(cs.last())
        }
    }

    /// The trades that come of an attempt to settle each of `cs` in turn.
    pub open spec fn trades_settling(self, kind: ItemID, cs: Seq<Candidate>) -> Seq<Trade>
        decreases cs.len(),
    {
        if cs.len() == 0 {
            Seq::empty()
        } else {
            let before = self.trades_settling(kind, cs.drop_last());
            if self.settle_all(cs.drop_last()).can_settle(cs.last()) {
                before.push(settle_trade(kind, cs.last()))
            } else {
                before
            }
        }
    }

    /// The book after an attempt to fill the buy order of each of `souls` from
    /// outside, in turn.
    pub open spec fn import_all(self, souls: Seq<u64>) -> Book
        decreases souls.len(),
    {
        if souls.len() == 0 {
            self
        } else {
            self.import_all(souls.drop_last()).import(souls.last())
        }
    }

    /// The trades that come of an attempt to fill the buy order of each of
    /// `souls` from outside, in turn.
    pub open spec fn trades_importing(self, kind: ItemID, souls: Seq<u64>) -> Seq<Trade>
        decreases souls.len(),
    {
        if souls.len() == 0 {
            Seq::empty()
        } else {
            let before = self.trades_importing(kind, souls.drop_last());
            let book = self.import_all(souls.drop_last());
            if book.can_import(souls.last()) {
                before.push(
                    import_trade(
                        kind,
                        book.ext_value,
                        souls.last(),
                        book.buys[souls.last()].qty as int,
                    ),
                )
            } else {
                before
            }
        }
    }

    /// The book after an attempt to sell outside the surplus of each of
    /// `souls`, in turn.
    pub open spec fn export_all(self, souls: Seq<u64>) -> Book
        decreases souls.len(),
    {
        if souls.len() == 0 {
            self
        } else {
            self.export_all(souls.drop_last()).export(souls.last())
        }
    }

    /// The trades that come of an attempt to sell outside the surplus of each
    /// of `souls`, in turn.
    pub open spec fn trades_exporting(self, kind: ItemID, souls: Seq<u64>) -> Seq<Trade>
        decreases souls.len(),
    {
        if souls.len() == 0 {
            Seq::empty()
        } else {
            let before = self.trades_exporting(kind, souls.drop_last());
            let book = self.export_all(souls.drop_last());
            if book.can_export(souls.last()) {
                before.push(
                    export_trade(kind, book.ext_value, souls.last(), book.surplus(souls.last())),
                )
            } else {
                before
            }
        }
    }

    /// The book after the agents have traded among themselves: every
    /// candidate pairing was tried, nearest first.
    pub open spec fn after_matching(self) -> Book {
        self.settle_all(ranked(self.candidates()))
    }

    /// The book after the agents have traded among themselves and the
    /// outside market has filled the buy orders that stayed open, by
    /// ascending buyer.
    pub open spec fn after_imports(self) -> Book {
        let book = self.after_matching();
        book.import_all(sorted_keys(book.buys.dom()))
    }

    /// The book after one whole pass: trade among the agents, then, unless
    /// the commodity is barred from it, trade with the outside market, which
    /// fills the open buy orders and takes the sellers' surplus, by ascending
    /// seller.
    pub open spec fn after_trades(self) -> Book {
        if self.optout_exttrade {
            self.after_matching()
        } else {
            let book = self.after_imports();
            book.export_all(sorted_keys(book.sells.dom()))
        }
    }

    /// The trades of one whole pass, in the order in which they are made.
    pub open spec fn trades(self, kind: ItemID) -> Seq<Trade> {
        let inner = self.trades_settling(kind, ranked(self.candidates()));
        if self.optout_exttrade {
            inner
        } else {
            let matched = self.after_matching();
            let imported = self.after_imports();
            inner + matched.trades_importing(kind, sorted_keys(matched.buys.dom()))
                + imported.trades_exporting(kind, sorted_keys(imported.sells.dom()))
        }
    }

    /// Settling pairings changes neither the outside price nor the bar on
    /// outside trade.
    pub proof fn lemma_settle_all_terms(self, cs: Seq<Candidate>)
        ensures
            self.settle_all(cs).ext_value == self.ext_value,
            self.settle_all(cs).optout_exttrade == self.optout_exttrade,
        decreases cs.len(),
    {
        if cs.len() > 0 {
            self.lemma_settle_all_terms(cs.drop_last());
        }
    }

    /// Filling buy orders from outside changes neither the outside price nor
    /// the bar on outside trade.
    pub proof fn lemma_import_all_terms(self, souls: Seq<u64>)
        ensures
            self.import_all(souls).ext_value == self.ext_value,
            self.import_all(souls).optout_exttrade == self.optout_exttrade,
        decreases souls.len(),
    {
        if souls.len() > 0 {
            self.lemma_import_all_terms(souls.drop_last());
        }
    }

    /// Selling surplus outside changes neither the outside price nor the bar
    /// on outside trade.
    pub proof fn lemma_export_all_terms(self, souls: Seq<u64>)
        ensures
            self.export_all(souls).ext_value == self.ext_value,
            self.export_all(souls).optout_exttrade == self.optout_exttrade,
        decreases souls.len(),
    {
        if souls.len() > 0 {
            self.lemma_export_all_terms(souls.drop_last());
        }
    }

    /// A seller that does not own all that its order offers is in no pairing.
    proof fn lemma_no_pairings(self, seller: u64, buyers: Seq<u64>)
        requires
            !self.sells.contains_key(seller) || self.balance(seller) < self.sells[seller].qty,
        ensures
            self.pairings_with(seller, buyers) == Seq::<Candidate>::empty(),
        decreases buyers.len(),
    {
        if buyers.len() > 0 {
            self.lemma_no_pairings(seller, buyers.drop_last());
        }
    }
}

/// The buffers that a pass works in: one for the candidate pairings and one
/// for ranking them. Whoever runs pass after pass keeps one `Scratch` and
/// hands it to each, so that a pass needs no new buffer for its candidates
/// once the buffers have grown to their size. Between passes both are empty.
pub struct Scratch {
    pub potential: Vec<Candidate>,
    pub merged: Vec<Candidate>,
}

impl Scratch {
    /// Whether both buffers are empty.
    pub open spec fn is_empty(&self) -> bool {
        self.potential@.len() == 0 && self.merged@.len() == 0
    }

    /// Two empty buffers.
    pub fn new() -> (scratch: Scratch)
        ensures
            scratch.is_empty(),
    {
        Scratch { potential: Vec::new(), merged: Vec::new() }
    }
}

impl SingleMarket {
    /// All candidate pairings of sell orders with buy orders.
    pub fn candidates(&self) -> (cs: Vec<Candidate>)
        ensures
            cs@ == self@.candidates(),
    {
        let mut cs: Vec<Candidate> = Vec::new();
        self.candidates_into(&mut cs);
        cs
    }

    /// Replaces what `cs` holds by all candidate pairings of sell orders with
    /// buy orders.
    pub fn candidates_into(&self, cs: &mut Vec<Candidate>)
        ensures
            final(cs)@ == self@.candidates(),
    {
        let sells = self.sell_entries();
        let buys = self.buy_entries();
        let ghost book = self@;
        let ghost sellers = sorted_keys(book.sells.dom());
        let ghost buyers = sorted_keys(book.buys.dom());
        cs.clear();
        let mut i: usize = 0;
        proof {
            assert(sellers.take(0) =~= Seq::empty());
        }
        while i < sells.len()
            invariant
                i <= sells@.len(),
                book == self@,
                sellers == sorted_keys(book.sells.dom()),
                buyers == sorted_keys(book.buys.dom()),
                sells@.len() == sellers.len(),
                buys@.len() == buyers.len(),
                forall|k: int|
                    0 <= k < sells@.len() ==> {
                        &&& (#[trigger] sells@[k]).0 == sellers[k]
                        &&& book.sells.contains_key(sells@[k].0)
                        &&& sells@[k].1 == book.sells[sells@[k].0]
                    },
                forall|k: int|
                    0 <= k < buys@.len() ==> {
                        &&& (#[trigger] buys@[k]).0 == buyers[k]
                        &&& book.buys.contains_key(buys@[k].0)
                        &&& buys@[k].1 == book.buys[buys@[k].0]
                    },
                cs@ == book.pairings_among(sellers.take(i as int), buyers),
            decreases sells@.len() - i,
        {
            let seller = sells[i].0;
            let offer = sells[i].1;
            let owned = self.balance(SoulID(seller));
            let ghost done = cs@;
            proof {
                assert(sellers.take(i + 1).drop_last() =~= sellers.take(i as int));
                assert(sellers.take(i + 1).last() == seller);
            }
            if owned >= 0 && offer.qty <= owned as u32 {
                let mut j: usize = 0;
                proof {
                    assert(buyers.take(0) =~= Seq::empty());
                }
                while j < buys.len()
                    invariant
                        j <= buys@.len(),
                        book == self@,
                        buys@.len() == buyers.len(),
                        forall|k: int|
                            0 <= k < buys@.len() ==> {
                                &&& (#[trigger] buys@[k]).0 == buyers[k]
                                &&& book.buys.contains_key(buys@[k].0)
                                &&& buys@[k].1 == book.buys[buys@[k].0]
                            },
                        book.sells.contains_key(seller),
                        offer == book.sells[seller],
                        owned == book.balance(seller),
                        offer.qty <= owned,
                        cs@ == done + book.pairings_with(seller, buyers.take(j as int)),
                    decreases buys@.len() - j,
                {
                    let buyer = buys[j].0;
                    let wish = buys[j].1;
                    proof {
                        assert(buyers.take(j + 1).drop_last() =~= buyers.take(j as int));
                        assert(buyers.take(j + 1).last() == buyer);
                    }
                    if seller != buyer && 1 <= wish.qty && wish.qty <= MAX_ORDER_QTY && wish.qty
                        <= offer.qty {
                        cs.push(
                            Candidate {
                                score: offer.pos.distance2(wish.pos),
                                seller: SoulID(seller),
                                buyer: SoulID(buyer),
                                qty: wish.qty as i32,
                            },
                        );
                    }
                    proof {
                        assert(cs@ =~= done + book.pairings_with(seller, buyers.take(j + 1)));
                    }
                    j += 1;
                }
                proof {
                    assert(buyers.take(j as int) =~= buyers);
                }
            } else {
                proof {
                    book.lemma_no_pairings(seller, buyers);
                    assert(done + Seq::<Candidate>::empty() =~= done);
                }
            }
            i += 1;
        }
        proof {
            assert(sellers.take(i as int) =~= sellers);
        }
    }

    /// Runs one pass of matching over this ledger and appends its trades to
    /// `trades`. The pass works in `scratch`, whatever that holds, and
    /// leaves it empty.
    #[verifier::loop_isolation(false)]
    pub fn make_trades(&mut self, kind: ItemID, scratch: &mut Scratch, trades: &mut Vec<Trade>)
        ensures
            final(self)@ == old(self)@.after_trades(),
            final(trades)@ == old(trades)@ + old(self)@.trades(kind),
            final(scratch).is_empty(),
            old(self)@.wf() ==> final(self)@.wf(),
    {
        let ghost book = self@;
        let ghost batch = trades@;
        self.candidates_into(&mut scratch.potential);
        rank(&mut scratch.potential, &mut scratch.merged);
        let ghost cs = scratch.potential@;
        let mut i: usize = 0;
        proof {
            assert(cs.take(0) =~= Seq::empty());
            assert(batch + Seq::<Trade>::empty() =~= batch);
        }
        while i < scratch.potential.len()
            invariant
                i <= cs.len(),
                scratch.potential@ == cs,
                scratch.merged@.len() == 0,
                self@ == book.settle_all(cs.take(i as int)),
                trades@ == batch + book.trades_settling(kind, cs.take(i as int)),
                book.wf() ==> self@.wf(),
            decreases cs.len() - i,
        {
            proof {
                assert(cs.take(i + 1).drop_last() =~= cs.take(i as int));
                assert(cs.take(i + 1).last() == cs[i as int]);
            }
            let ghost so_far = book.trades_settling(kind, cs.take(i as int));
            match self.settle(kind, scratch.potential[i]) {
                Some(trade) => {
                    trades.push(trade);
                    proof {
                        assert(trades@ =~= batch + so_far.push(trade));
                    }
                },
                None => {},
            }
            i += 1;
        }
        proof {
            assert(cs.take(i as int) =~= cs);
            book.lemma_settle_all_terms(cs);
        }
        scratch.potential.clear();
        if !self.optout_exttrade() {
            let ghost matched = self@;
            let ghost inner = trades@;
            let buyers = self.buyers();
            let mut j: usize = 0;
            proof {
                assert(buyers@.take(0) =~= Seq::empty());
                assert(inner + Seq::<Trade>::empty() =~= inner);
            }
            while j < buyers.len()
                invariant
                    j <= buyers@.len(),
                    self@ == matched.import_all(buyers@.take(j as int)),
                    trades@ == inner + matched.trades_importing(kind, buyers@.take(j as int)),
                    book.wf() ==> self@.wf(),
                decreases buyers@.len() - j,
            {
                proof {
                    assert(buyers@.take(j + 1).drop_last() =~= buyers@.take(j as int));
                    assert(buyers@.take(j + 1).last() == buyers@[j as int]);
                }
                let ghost so_far = matched.trades_importing(kind, buyers@.take(j as int));
                match self.import(kind, SoulID(buyers[j])) {
                    Some(trade) => {
                        trades.push(trade);
                        proof {
                            assert(trades@ =~= inner + so_far.push(trade));
                        }
                    },
                    None => {},
                }
                j += 1;
            }
            proof {
                assert(buyers@.take(j as int) =~= buyers@);
            }
            let ghost imported = self@;
            let ghost mid = trades@;
            let sellers = self.sellers();
            let mut k: usize = 0;
            proof {
                assert(sellers@.take(0) =~= Seq::empty());
                assert(mid + Seq::<Trade>::empty() =~= mid);
            }
            while k < sellers.len()
                invariant
                    k <= sellers@.len(),
                    self@ == imported.export_all(sellers@.take(k as int)),
                    trades@ == mid + imported.trades_exporting(kind, sellers@.take(k as int)),
                    book.wf() ==> self@.wf(),
                decreases sellers@.len() - k,
            {
                proof {
                    assert(sellers@.take(k + 1).drop_last() =~= sellers@.take(k as int));
                    assert(sellers@.take(k + 1).last() == sellers@[k as int]);
                }
                let ghost so_far = imported.trades_exporting(kind, sellers@.take(k as int));
                match self.export(kind, SoulID(sellers[k])) {
                    Some(trade) => {
                        trades.push(trade);
                        proof {
                            assert(trades@ =~= mid + so_far.push(trade));
                        }
                    },
                    None => {},
                }
                k += 1;
            }
            proof {
                assert(sellers@.take(k as int) =~= sellers@);
                assert(trades@ =~= batch + book.trades(kind));
            }
        }
    }
}

} // verus!

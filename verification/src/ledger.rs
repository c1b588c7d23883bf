//! The ledger of a single commodity: who owns how much of it, and who wants
//! to buy or sell it.

use crate::keys::{entries_of, keys_of, sorted_keys};
use crate::money::Money;
use crate::trade::{valid_qty, BuyOrder, Candidate, SellOrder, Trade, TradeTarget, MAX_ORDER_QTY};
use crate::types::{ItemID, SoulID, Vec2};
use core::ops::Neg;
use std::collections::BTreeMap;
use vstd::prelude::*;
use vstd::std_specs::btree::*;

verus! {

/// Clamps a mathematical integer into the range of `i32`.
pub open spec fn clamp_i32(v: int) -> int {
    if v < i32::MIN as int {
        i32::MIN as int
    } else if v > i32::MAX as int {
        i32::MAX as int
    } else {
        v
    }
}

/// What a ledger holds, as mathematical maps keyed by the agents' numbers.
pub struct Book {
    /// The quantity of the commodity that each registered agent owns.
    pub capital: Map<u64, i32>,
    /// The open buy orders, at most one per agent.
    pub buys: Map<u64, BuyOrder>,
    /// The open sell orders, at most one per agent.
    pub sells: Map<u64, SellOrder>,
    /// The price of one unit on the outside market.
    pub ext_value: Money,
    /// Whether the commodity is barred from trade with the outside market.
    pub optout_exttrade: bool,
}

impl Book {
    /// A book without agents or orders.
    pub open spec fn empty(ext_value: Money, optout_exttrade: bool) -> Book {
        Book {
            capital: Map::empty(),
            buys: Map::empty(),
            sells: Map::empty(),
            ext_value,
            optout_exttrade,
        }
    }

    /// Every open order names a quantity that one trade can carry, and the
    /// book is finite.
    pub open spec fn wf(self) -> bool {
        &&& self.capital.dom().finite()
        &&& self.buys.dom().finite()
        &&& self.sells.dom().finite()
        &&& forall|k: u64| self.buys.contains_key(k) ==> valid_qty(#[trigger] self.buys[k].qty)
        &&& forall|k: u64| self.sells.contains_key(k) ==> valid_qty(#[trigger] self.sells[k].qty)
    }

    /// What `soul` owns: nothing, if it was never registered.
    pub open spec fn balance(self, soul: u64) -> int {
        if self.capital.contains_key(soul) {
            self.capital[soul] as int
        } else {
            0
        }
    }

    /// The book after `soul` posted a buy order. A quantity that no trade
    /// could carry places no order.
    pub open spec fn buy(self, soul: u64, pos: Vec2, qty: u32) -> Book {
        if valid_qty(qty) {
            Book { buys: self.buys.insert(soul, BuyOrder { pos, qty }), ..self }
        } else {
            self
        }
    }

    /// The book after `soul` posted a sell order. A quantity that no trade
    /// could carry places no order.
    pub open spec fn sell(self, soul: u64, pos: Vec2, qty: u32, stock: u32) -> Book {
        if valid_qty(qty) {
            Book { sells: self.sells.insert(soul, SellOrder { pos, qty, stock }), ..self }
        } else {
            self
        }
    }

    /// The book after `soul` offered all that it owns, if it owns anything.
    pub open spec fn sell_all(self, soul: u64, pos: Vec2, stock: u32) -> Book {
        if self.balance(soul) > 0 {
            self.sell(soul, pos, self.balance(soul) as u32, stock)
        } else {
            self
        }
    }

    /// The book after `soul` asked for what it lacks to own `qty` units, if it
    /// lacks anything.
    pub open spec fn buy_until(self, soul: u64, pos: Vec2, qty: u32) -> Book {
        let lacking = qty - self.balance(soul);
        if 1 <= lacking <= MAX_ORDER_QTY {
            self.buy(soul, pos, lacking as u32)
        } else {
            self
        }
    }

    /// The book after `delta` was added to what `soul` owns. The balance stops
    /// at the bounds of `i32`.
    pub open spec fn produce(self, soul: u64, delta: i32) -> Book {
        Book {
            capital: self.capital.insert(soul, clamp_i32(self.balance(soul) + delta) as i32),
            ..self
        }
    }

    /// The book after `soul` was registered: it owns nothing unless it was
    /// known before.
    pub open spec fn register(self, soul: u64) -> Book {
        if self.capital.contains_key(soul) {
            self
        } else {
            Book { capital: self.capital.insert(soul, 0), ..self }
        }
    }

    /// The book after everything about `soul` was forgotten.
    pub open spec fn remove(self, soul: u64) -> Book {
        Book {
            capital: self.capital.remove(soul),
            buys: self.buys.remove(soul),
            sells: self.sells.remove(soul),
            ..self
        }
    }

    /// Whether the pairing `c` can be settled now: buyer and seller differ,
    /// the buyer's order still stands for `c.qty` units, the seller's order
    /// still holds that many, the seller owns that many, and the buyer's
    /// balance can take them.
    pub open spec fn can_settle(self, c: Candidate) -> bool {
        &&& c.buyer != c.seller
        &&& c.qty >= 1
        &&& self.buys.contains_key(c.buyer.0)
        &&& self.buys[c.buyer.0].qty == c.qty
        &&& self.sells.contains_key(c.seller.0)
        &&& self.sells[c.seller.0].qty >= c.qty
        &&& self.balance(c.seller.0) >= c.qty
        &&& self.balance(c.buyer.0) + c.qty <= i32::MAX
    }

    /// The book after an attempt to settle `c`. Where `c` can be settled, the
    /// buy order is gone, the sell order holds `c.qty` units less (and is gone
    /// if nothing is left), and `c.qty` units have moved from the seller to
    /// the buyer. Where it cannot, nothing has changed.
    pub open spec fn settle(self, c: Candidate) -> Book {
        if self.can_settle(c) {
            let order = self.sells[c.seller.0];
            Book {
                capital: self.capital.insert(
                    c.buyer.0,
                    (self.balance(c.buyer.0) + c.qty) as i32,
                ).insert(c.seller.0, (self.balance(c.seller.0) - c.qty) as i32),
                buys: self.buys.remove(c.buyer.0),
                sells: if order.qty == c.qty {
                    self.sells.remove(c.seller.0)
                } else {
                    self.sells.insert(
                        c.seller.0,
                        SellOrder { qty: (order.qty - c.qty) as u32, ..order },
                    )
                },
                ..self
            }
        } else {
            self
        }
    }

    /// Whether the outside market can fill the buy order of `soul` now: the
    /// order exists and the buyer's balance can take the goods.
    pub open spec fn can_import(self, soul: u64) -> bool {
        &&& self.buys.contains_key(soul)
        &&& valid_qty(self.buys[soul].qty)
        &&& self.balance(soul) + self.buys[soul].qty <= i32::MAX
    }

    /// The book after an attempt to fill the buy order of `soul` from
    /// outside. Where it can be filled, the order is gone and the buyer owns
    /// the ordered quantity more. Where it cannot, nothing has changed.
    pub open spec fn import(self, soul: u64) -> Book {
        if self.can_import(soul) {
            Book {
                capital: self.capital.insert(
                    soul,
                    (self.balance(soul) + self.buys[soul].qty) as i32,
                ),
                buys: self.buys.remove(soul),
                ..self
            }
        } else {
            self
        }
    }

    /// What the sell order of `soul` holds above the stock that the seller
    /// wants to keep.
    pub open spec fn surplus(self, soul: u64) -> int {
        self.sells[soul].qty - self.sells[soul].stock
    }

    /// Whether the surplus of `soul` can go to the outside market now: there
    /// is a surplus, and the seller owns that much.
    pub open spec fn can_export(self, soul: u64) -> bool {
        &&& self.sells.contains_key(soul)
        &&& self.surplus(soul) > 0
        &&& self.balance(soul) >= self.surplus(soul)
    }

    /// The book after an attempt to sell the surplus of `soul` outside.
    /// Where it can be sold, the seller owns that much less and the order
    /// holds the protected stock only (and is gone if that is nothing).
    /// Where it cannot, nothing has changed.
    pub open spec fn export(self, soul: u64) -> Book {
        if self.can_export(soul) {
            let order = self.sells[soul];
            Book {
                capital: self.capital.insert(
                    soul,
                    (self.balance(soul) - self.surplus(soul)) as i32,
                ),
                sells: if order.stock == 0 {
                    self.sells.remove(soul)
                } else {
                    self.sells.insert(soul, SellOrder { qty: order.stock, ..order })
                },
                ..self
            }
        } else {
            self
        }
    }
}

/// The trade that settles the pairing `c` of commodity `kind`. No money
/// moves between two agents.
pub open spec fn settle_trade(kind: ItemID, c: Candidate) -> Trade {
    Trade {
        buyer: TradeTarget::Soul(c.buyer),
        seller: TradeTarget::Soul(c.seller),
        qty: c.qty,
        kind,
        money_delta: Money(0),
    }
}

/// The trade by which `soul` receives `qty` units of `kind` from outside.
/// The public purse pays the outside price for them.
pub open spec fn import_trade(kind: ItemID, ext_value: Money, soul: u64, qty: int) -> Trade {
    Trade {
        buyer: TradeTarget::Soul(SoulID(soul)),
        seller: TradeTarget::ExternalTrade,
        qty: qty as i32,
        kind,
        money_delta: ext_value.times(qty).negated(),
    }
}

/// The trade by which `soul` sends `qty` units of `kind` outside. The public
/// purse receives the outside price for them.
pub open spec fn export_trade(kind: ItemID, ext_value: Money, soul: u64, qty: int) -> Trade {
    Trade {
        buyer: TradeTarget::ExternalTrade,
        seller: TradeTarget::Soul(SoulID(soul)),
        qty: qty as i32,
        kind,
        money_delta: ext_value.times(qty),
    }
}

/// The ledger of one commodity.
pub struct SingleMarket {
    capital: BTreeMap<u64, i32>,
    buy_orders: BTreeMap<u64, BuyOrder>,
    sell_orders: BTreeMap<u64, SellOrder>,
    ext_value: Money,
    optout_exttrade: bool,
}

impl View for SingleMarket {
    type V = Book;

    closed spec fn view(&self) -> Book {
        Book {
            capital: self.capital@,
            buys: self.buy_orders@,
            sells: self.sell_orders@,
            ext_value: self.ext_value,
            optout_exttrade: self.optout_exttrade,
        }
    }
}

impl SingleMarket {
    /// An empty ledger for a commodity that is worth `ext_value` a unit on
    /// the outside market, or that is barred from it.
    pub fn new(ext_value: Money, optout_exttrade: bool) -> (s: Self)
        ensures
            s@ == Book::empty(ext_value, optout_exttrade),
            s@.wf(),
    {
        broadcast use group_btree_axioms;

        Self {
            capital: BTreeMap::new(),
            buy_orders: BTreeMap::new(),
            sell_orders: BTreeMap::new(),
            ext_value,
            optout_exttrade,
        }
    }

    /// What `soul` owns, if it is registered.
    pub fn capital(&self, soul: SoulID) -> (c: Option<i32>)
        ensures
            c == if self@.capital.contains_key(soul.0) {
                Some(self@.capital[soul.0])
            } else {
                None
            },
    {
        broadcast use group_btree_axioms;

        match self.capital.get(&soul.0) {
            Some(c) => Some(*c),
            None => None,
        }
    }

    /// The open buy order of `soul`, if it has one.
    pub fn buy_order(&self, soul: SoulID) -> (o: Option<&BuyOrder>)
        ensures
            match o {
                Some(order) => self@.buys.contains_key(soul.0) && *order == self@.buys[soul.0],
                None => !self@.buys.contains_key(soul.0),
            },
    {
        broadcast use group_btree_axioms;

        self.buy_orders.get(&soul.0)
    }

    /// The open sell order of `soul`, if it has one.
    pub fn sell_order(&self, soul: SoulID) -> (o: Option<&SellOrder>)
        ensures
            match o {
                Some(order) => self@.sells.contains_key(soul.0) && *order == self@.sells[soul.0],
                None => !self@.sells.contains_key(soul.0),
            },
    {
        broadcast use group_btree_axioms;

        self.sell_orders.get(&soul.0)
    }

    /// All balances, keyed by the agents' numbers.
    pub fn capital_map(&self) -> (m: &BTreeMap<u64, i32>)
        ensures
            m@ == self@.capital,
    {
        &self.capital
    }

    /// The price of one unit on the outside market.
    pub fn ext_value(&self) -> (v: Money)
        ensures
            v == self@.ext_value,
    {
        self.ext_value
    }

    /// Sets the price of one unit on the outside market.
    pub fn set_ext_value(&mut self, ext_value: Money)
        ensures
            final(self)@ == (Book { ext_value, ..old(self)@ }),
            old(self)@.wf() ==> final(self)@.wf(),
    {
        self.ext_value = ext_value;
    }

    /// Whether the commodity is barred from trade with the outside market.
    pub fn optout_exttrade(&self) -> (b: bool)
        ensures
            b == self@.optout_exttrade,
    {
        self.optout_exttrade
    }

    /// Bars the commodity from trade with the outside market, or opens it.
    pub fn set_optout_exttrade(&mut self, optout_exttrade: bool)
        ensures
            final(self)@ == (Book { optout_exttrade, ..old(self)@ }),
            old(self)@.wf() ==> final(self)@.wf(),
    {
        self.optout_exttrade = optout_exttrade;
    }

    /// What `soul` owns: nothing, if it was never registered.
    pub fn balance(&self, soul: SoulID) -> (c: i32)
        ensures
            c == self@.balance(soul.0),
    {
        broadcast use group_btree_axioms;

        match self.capital.get(&soul.0) {
            Some(c) => *c,
            None => 0,
        }
    }

    /// Posts or replaces the sell order of `soul`.
    pub fn sell(&mut self, soul: SoulID, near: Vec2, qty: u32, stock: u32)
        ensures
            final(self)@ == old(self)@.sell(soul.0, near, qty, stock),
            old(self)@.wf() ==> final(self)@.wf(),
    {
        broadcast use group_btree_axioms;

        if 1 <= qty && qty <= MAX_ORDER_QTY {
            self.sell_orders.insert(soul.0, SellOrder { pos: near, qty, stock });
        }
    }

    /// Posts or replaces the buy order of `soul`.
    pub fn buy(&mut self, soul: SoulID, near: Vec2, qty: u32)
        ensures
            final(self)@ == old(self)@.buy(soul.0, near, qty),
            old(self)@.wf() ==> final(self)@.wf(),
    {
        broadcast use group_btree_axioms;

        if 1 <= qty && qty <= MAX_ORDER_QTY {
            self.buy_orders.insert(soul.0, BuyOrder { pos: near, qty });
        }
    }

    /// Offers all that `soul` owns. Does nothing if it owns nothing.
    pub fn sell_all(&mut self, soul: SoulID, near: Vec2, stock: u32)
        ensures
            final(self)@ == old(self)@.sell_all(soul.0, near, stock),
            old(self)@.wf() ==> final(self)@.wf(),
    {
        let c = self.balance(soul);
        if c <= 0 {
            return ;
        }
        self.sell(soul, near, c as u32, stock);
    }

    /// Asks for what `soul` lacks to own `qty` units. Does nothing if it
    /// owns as much already.
    pub fn buy_until(&mut self, soul: SoulID, near: Vec2, qty: u32)
        ensures
            final(self)@ == old(self)@.buy_until(soul.0, near, qty),
            old(self)@.wf() ==> final(self)@.wf(),
    {
        let c = self.balance(soul);
        let lacking: i64 = qty as i64 - c as i64;
        if 1 <= lacking && lacking <= MAX_ORDER_QTY as i64 {
            self.buy(soul, near, lacking as u32);
        }
    }

    /// Adds `delta`, which may be negative, to what `soul` owns, and returns
    /// the new balance. An agent that was not registered starts from nothing.
    pub fn produce(&mut self, soul: SoulID, delta: i32) -> (c: i32)
        ensures
            final(self)@ == old(self)@.produce(soul.0, delta),
            c == final(self)@.balance(soul.0),
            old(self)@.wf() ==> final(self)@.wf(),
    {
        broadcast use group_btree_axioms;

        let sum: i64 = self.balance(soul) as i64 + delta as i64;
        let c: i32 = if sum < i32::MIN as i64 {
            i32::MIN
        } else if sum > i32::MAX as i64 {
            i32::MAX
        } else {
            sum as i32
        };
        self.capital.insert(soul.0, c);
        c
    }

    /// Makes `soul` known to the ledger. It owns nothing, unless it was known
    /// before.
    pub fn register(&mut self, soul: SoulID)
        ensures
            final(self)@ == old(self)@.register(soul.0),
            old(self)@.wf() ==> final(self)@.wf(),
    {
        broadcast use group_btree_axioms;

        if !self.capital.contains_key(&soul.0) {
            self.capital.insert(soul.0, 0);
        }
    }

    /// The agents with an open buy order, by ascending number.
    pub fn buyers(&self) -> (ks: Vec<u64>)
        ensures
            ks@ == sorted_keys(self@.buys.dom()),
    {
        keys_of(&self.buy_orders)
    }

    /// The agents with an open sell order, by ascending number.
    pub fn sellers(&self) -> (ks: Vec<u64>)
        ensures
            ks@ == sorted_keys(self@.sells.dom()),
    {
        keys_of(&self.sell_orders)
    }

    /// The open buy orders with their agents, by ascending number.
    pub fn buy_entries(&self) -> (es: Vec<(u64, BuyOrder)>)
        ensures
            es@.len() == sorted_keys(self@.buys.dom()).len(),
            forall|i: int|
                0 <= i < es@.len() ==> {
                    &&& (#[trigger] es@[i]).0 == sorted_keys(self@.buys.dom())[i]
                    &&& self@.buys.contains_key(es@[i].0)
                    &&& es@[i].1 == self@.buys[es@[i].0]
                },
    {
        entries_of(&self.buy_orders)
    }

    /// The open sell orders with their agents, by ascending number.
    pub fn sell_entries(&self) -> (es: Vec<(u64, SellOrder)>)
        ensures
            es@.len() == sorted_keys(self@.sells.dom()).len(),
            forall|i: int|
                0 <= i < es@.len() ==> {
                    &&& (#[trigger] es@[i]).0 == sorted_keys(self@.sells.dom())[i]
                    &&& self@.sells.contains_key(es@[i].0)
                    &&& es@[i].1 == self@.sells[es@[i].0]
                },
    {
        entries_of(&self.sell_orders)
    }

    /// Tries to settle the pairing `c` and returns the trade, if there is one.
    ///
    /// A trade moves exactly `c.qty` units from the seller to the buyer, who
    /// are two different agents. It never takes more than the seller owns,
    /// nor more than the sell order holds, and it touches nobody else.
    pub fn settle(&mut self, kind: ItemID, c: Candidate) -> (t: Option<Trade>)
        ensures
            final(self)@ == old(self)@.settle(c),
            t == if old(self)@.can_settle(c) {
                Some(settle_trade(kind, c))
            } else {
                None
            },
            old(self)@.wf() ==> final(self)@.wf(),
            t matches Some(trade) ==> {
                &&& trade.buyer != trade.seller
                &&& 1 <= trade.qty <= old(self)@.balance(c.seller.0)
                &&& trade.qty <= old(self)@.sells[c.seller.0].qty
                &&& final(self)@.balance(c.buyer.0) == old(self)@.balance(c.buyer.0) + trade.qty
                &&& final(self)@.balance(c.seller.0) == old(self)@.balance(c.seller.0) - trade.qty
                &&& forall|k: u64|
                    k != c.buyer.0 && k != c.seller.0 ==> final(self)@.balance(k) == old(
                        self,
                    )@.balance(k)
            },
    {
        broadcast use group_btree_axioms;

        let buyer = c.buyer.0;
        let seller = c.seller.0;
        if buyer == seller || c.qty < 1 {
            return None;
        }
        let qty: u32 = c.qty as u32;
        match self.buy_orders.get(&buyer) {
            Some(order) => {
                if order.qty != qty {
                    return None;
                }
            },
            None => {
                return None;
            },
        }
        let order: SellOrder = match self.sell_orders.get(&seller) {
            Some(order) => *order,
            None => {
                return None;
            },
        };
        let owned = self.balance(c.seller);
        let held = self.balance(c.buyer);
        if order.qty < qty || owned < c.qty || held > i32::MAX - c.qty {
            return None;
        }
        self.buy_orders.remove(&buyer);
        if order.qty == qty {
            self.sell_orders.remove(&seller);
        } else {
            self.sell_orders.insert(
                seller,
                SellOrder { pos: order.pos, qty: order.qty - qty, stock: order.stock },
            );
        }
        self.capital.insert(buyer, held + c.qty);
        self.capital.insert(seller, owned - c.qty);
        Some(
            Trade {
                buyer: TradeTarget::Soul(c.buyer),
                seller: TradeTarget::Soul(c.seller),
                qty: c.qty,
                kind,
                money_delta: Money(0),
            },
        )
    }

    /// Tries to fill the buy order of `soul` from the outside market and
    /// returns the trade, if there is one.
    pub fn import(&mut self, kind: ItemID, soul: SoulID) -> (t: Option<Trade>)
        ensures
            final(self)@ == old(self)@.import(soul.0),
            t == if old(self)@.can_import(soul.0) {
                Some(
                    import_trade(
                        kind,
                        old(self)@.ext_value,
                        soul.0,
                        old(self)@.buys[soul.0].qty as int,
                    ),
                )
            } else {
                None
            },
            old(self)@.wf() ==> final(self)@.wf(),
    {
        broadcast use group_btree_axioms;

        let qty: u32 = match self.buy_orders.get(&soul.0) {
            Some(order) => order.qty,
            None => {
                return None;
            },
        };
        let held = self.balance(soul);
        if qty < 1 || qty > MAX_ORDER_QTY || held as i64 + qty as i64 > i32::MAX as i64 {
            return None;
        }
        self.buy_orders.remove(&soul.0);
        self.capital.insert(soul.0, held + qty as i32);
        Some(
            Trade {
                buyer: TradeTarget::Soul(soul),
                seller: TradeTarget::ExternalTrade,
                qty: qty as i32,
                kind,
                money_delta: (self.ext_value * qty as i64).neg(),
            },
        )
    }

    /// Tries to sell outside what the sell order of `soul` holds above its
    /// protected stock, and returns the trade, if there is one.
    ///
    /// A trade never takes more than the seller owns, nor more than the sell
    /// order holds.
    pub fn export(&mut self, kind: ItemID, soul: SoulID) -> (t: Option<Trade>)
        ensures
            final(self)@ == old(self)@.export(soul.0),
            t == if old(self)@.can_export(soul.0) {
                Some(export_trade(kind, old(self)@.ext_value, soul.0, old(self)@.surplus(soul.0)))
            } else {
                None
            },
            old(self)@.wf() ==> final(self)@.wf(),
            t matches Some(trade) ==> {
                &&& 1 <= trade.qty <= old(self)@.balance(soul.0)
                &&& trade.qty <= old(self)@.sells[soul.0].qty
                &&& final(self)@.balance(soul.0) == old(self)@.balance(soul.0) - trade.qty
            },
    {
        broadcast use group_btree_axioms;

        let order: SellOrder = match self.sell_orders.get(&soul.0) {
            Some(order) => *order,
            None => {
                return None;
            },
        };
        let owned = self.balance(soul);
        if order.qty <= order.stock || (owned as i64) < (order.qty - order.stock) as i64 {
            return None;
        }
        let surplus: i32 = (order.qty - order.stock) as i32;
        self.capital.insert(soul.0, owned - surplus);
        if order.stock == 0 {
            self.sell_orders.remove(&soul.0);
        } else {
            self.sell_orders.insert(
                soul.0,
                SellOrder { pos: order.pos, qty: order.stock, stock: order.stock },
            );
        }
        Some(
            Trade {
                buyer: TradeTarget::ExternalTrade,
                seller: TradeTarget::Soul(soul),
                qty: surplus,
                kind,
                money_delta: self.ext_value * surplus as i64,
            },
        )
    }

    /// Forgets `soul`: its balance and its orders.
    pub fn remove(&mut self, soul: SoulID)
        ensures
            final(self)@ == old(self)@.remove(soul.0),
            old(self)@.wf() ==> final(self)@.wf(),
    {
        broadcast use group_btree_axioms;

        self.sell_orders.remove(&soul.0);
        self.buy_orders.remove(&soul.0);
        self.capital.remove(&soul.0);
    }
}

} // verus!

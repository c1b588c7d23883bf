//! Standing orders and the transfers that settle them.

use crate::money::Money;
use crate::types::{ItemID, SoulID, Vec2};
use vstd::prelude::*;

verus! {

/// The largest quantity that a single order can name: a settled order becomes
/// one [`Trade`], whose quantity is an `i32`.
pub const MAX_ORDER_QTY: u32 = 0x7fff_ffff;

/// Whether `qty` can stand in an order: at least one unit, and no more than
/// one trade can carry.
pub open spec fn valid_qty(qty: u32) -> bool {
    1 <= qty <= MAX_ORDER_QTY
}

/// A standing offer by one agent to part with up to `qty` units of one
/// commodity, anchored at `pos`. The agent wants to keep `stock` units as a
/// buffer: what an order holds above `stock` may go to the outside market.
#[derive(Clone, Copy, Debug, PartialEq, Eq, Structural)]
pub struct SellOrder {
    pub pos: Vec2,
    pub qty: u32,
    pub stock: u32,
}

/// A standing request by one agent to acquire `qty` units of one commodity,
/// anchored at `pos`.
#[derive(Clone, Copy, Debug, PartialEq, Eq, Structural)]
pub struct BuyOrder {
    pub pos: Vec2,
    pub qty: u32,
}

/// One side of a trade: an agent, or the world outside the simulated economy.
#[derive(Clone, Copy, Debug, PartialEq, Eq, Structural, PartialOrd, Ord)]
pub enum TradeTarget {
    Soul(SoulID),
    ExternalTrade,
}

impl TradeTarget {
    /// The agent behind this side of a trade. Only an agent has one: the
    /// outside market must not be asked.
    pub fn soul(self) -> (s: SoulID)
        requires
            self is Soul,
        ensures
            self == TradeTarget::Soul(s),
    {
        match self {
            TradeTarget::Soul(soul) => soul,
            TradeTarget::ExternalTrade => vstd::pervasive::unreached(),
        }
    }
}

/// One settled transfer of `qty` units of `kind` from `seller` to `buyer`.
///
/// `money_delta` is the money that the public purse gains by the trade: zero
/// between two agents, negative when goods are bought from outside, positive
/// when goods are sold to outside.
#[derive(Clone, Copy, Debug, PartialEq, Eq, Structural)]
pub struct Trade {
    pub buyer: TradeTarget,
    pub seller: TradeTarget,
    pub qty: i32,
    pub kind: ItemID,
    pub money_delta: Money,
}

/// A possible pairing of a sell order with a buy order, not yet settled.
/// `score` is the squared distance between the two orders' positions.
#[derive(Clone, Copy, Debug, PartialEq, Eq, Structural)]
pub struct Candidate {
    pub score: u128,
    pub seller: SoulID,
    pub buyer: SoulID,
    pub qty: i32,
}

} // verus!

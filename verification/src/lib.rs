//! Per-commodity matching of supply and demand between economic agents.
//!
//! Agents post buy and sell orders to a [`Market`], which keeps one
//! [`SingleMarket`] ledger for each commodity. Once per tick
//! [`Market::make_trades`] pairs sell orders with nearby buy orders, moves the
//! goods, and lets the outside market take what stays open. The outside
//! market's prices come from [`calculate_prices`].

pub mod keys;
pub mod laws;
pub mod ledger;
pub mod market;
pub mod matching;
pub mod money;
pub mod place;
pub mod price_laws;
pub mod prices;
pub mod ranking;
pub mod trade;
pub mod types;

pub use ledger::SingleMarket;
pub use market::Market;
pub use matching::Scratch;
pub use money::{Money, WORKER_CONSUMPTION_PER_SECOND};
pub use place::{find_trade_place, Building, BuildingInfos};
pub use prices::{
    calculate_prices, Catalog, GoodsCompanyID, GoodsCompanyPrototype, ItemPrototype, Recipe,
    RecipeItem,
};
pub use trade::{BuyOrder, Candidate, SellOrder, Trade, TradeTarget};
pub use types::{vec2, BuildingID, ItemID, SoulID, Vec2};

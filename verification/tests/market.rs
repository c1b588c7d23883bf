use goods_market::{
    vec2, Catalog, GoodsCompanyID, GoodsCompanyPrototype, ItemID, ItemPrototype, Market, Money,
    Recipe, RecipeItem, SoulID, Trade, TradeTarget, Vec2, WORKER_CONSUMPTION_PER_SECOND,
};

fn mk_ent(id: u64) -> SoulID {
    SoulID(id)
}

fn item_id(name: &str) -> ItemID {
    match name {
        "cereal" => ItemID(1),
        "wheat" => ItemID(2),
        "job-opening" => ItemID(3),
        _ => panic!("unknown item {}", name),
    }
}

fn item(name: &str) -> ItemPrototype {
    ItemPrototype {
        id: item_id(name),
        optout_exttrade: false,
    }
}

fn local_item(name: &str) -> ItemPrototype {
    ItemPrototype {
        id: item_id(name),
        optout_exttrade: true,
    }
}

/// Cereal and wheat may go outside, job openings may not. A cereal farm
/// gives cereal a price on the outside market.
fn catalog() -> Catalog {
    Catalog {
        items: vec![item("cereal"), item("wheat"), local_item("job-opening")],
        companies: vec![GoodsCompanyPrototype {
            id: GoodsCompanyID(1),
            recipe: Recipe {
                production: vec![RecipeItem {
                    id: item_id("cereal"),
                    amount: 1,
                }],
                consumption: vec![],
                complexity: 4,
            },
            n_workers: 1,
        }],
    }
}

fn soul_trade(buyer: SoulID, seller: SoulID, qty: i32, kind: ItemID) -> Trade {
    Trade {
        buyer: TradeTarget::Soul(buyer),
        seller: TradeTarget::Soul(seller),
        qty,
        kind,
        money_delta: Money(0),
    }
}

#[test]
fn test_match_orders() {
    let seller = mk_ent((1 << 32) | 1);
    let seller_far = mk_ent((1 << 32) | 2);
    let buyer = mk_ent((1 << 32) | 3);

    let catalog = Catalog {
        items: vec![item("cereal"), item("wheat")],
        companies: vec![],
    };

    let mut m = Market::new(&catalog);

    let cereal = item_id("cereal");

    m.produce(seller, cereal, 3);
    m.produce(seller_far, cereal, 3);

    m.buy(buyer, Vec2::zero(), cereal, 2);
    m.sell(seller, Vec2::unit_x(), cereal, 3, 5);
    m.sell(seller_far, vec2(10, 10), cereal, 3, 5);

    let trades = m.make_trades();

    assert_eq!(trades.len(), 1);
    let t0 = trades[0];
    assert_eq!(t0.seller.soul(), seller);
    assert_eq!(t0.buyer.soul(), buyer);
    assert_eq!(t0.qty, 2);
}

#[test]
fn calculate_prices() {
    let catalog = Catalog {
        items: vec![item("cereal"), item("wheat")],
        companies: vec![
            GoodsCompanyPrototype {
                id: GoodsCompanyID(1),
                recipe: Recipe {
                    production: vec![RecipeItem {
                        id: item_id("cereal"),
                        amount: 3,
                    }],
                    consumption: vec![],
                    complexity: 3,
                },
                n_workers: 2,
            },
            GoodsCompanyPrototype {
                id: GoodsCompanyID(2),
                recipe: Recipe {
                    production: vec![RecipeItem {
                        id: item_id("wheat"),
                        amount: 2,
                    }],
                    consumption: vec![RecipeItem {
                        id: item_id("cereal"),
                        amount: 2,
                    }],
                    complexity: 10,
                },
                n_workers: 5,
            },
        ],
    };

    let cereal = item_id("cereal");
    let wheat = item_id("wheat");

    let prices = goods_market::calculate_prices(&catalog, 100);

    assert_eq!(prices.len(), 2);
    let price_cereal = Money(2 * WORKER_CONSUMPTION_PER_SECOND);
    assert_eq!(prices[&cereal.0], price_cereal);
    assert_eq!(
        prices[&wheat.0],
        (price_cereal * 2 + Money(5 * WORKER_CONSUMPTION_PER_SECOND * 10)) / 2
    );
}

#[test]
fn matched_trade_settles_the_books() {
    let cereal = item_id("cereal");
    let (a, b, c) = (mk_ent(1), mk_ent(2), mk_ent(3));
    let mut m = Market::new(&catalog());
    m.produce(a, cereal, 3);
    m.produce(b, cereal, 3);
    m.buy(c, Vec2::zero(), cereal, 2);
    m.sell(a, vec2(1, 0), cereal, 3, 5);
    m.sell(b, vec2(10, 10), cereal, 3, 5);

    let trades = m.make_trades().to_vec();

    assert_eq!(trades, vec![soul_trade(c, a, 2, cereal)]);
    assert_eq!(m.capital(a, cereal), 1);
    assert_eq!(m.capital(b, cereal), 3);
    assert_eq!(m.capital(c, cereal), 2);
    let ledger = &m.inner()[&cereal.0];
    assert!(ledger.buy_order(c).is_none());
    assert_eq!(ledger.sell_order(a).unwrap().qty, 1);
    assert_eq!(ledger.sell_order(a).unwrap().stock, 5);
    assert_eq!(ledger.sell_order(b).unwrap().qty, 3);
}

#[test]
fn goods_are_conserved_over_a_pass() {
    let cereal = item_id("cereal");
    let souls: Vec<SoulID> = (1..=6).map(mk_ent).collect();
    let mut m = Market::new(&catalog());
    m.produce(souls[0], cereal, 10);
    m.produce(souls[1], cereal, 7);
    m.produce(souls[2], cereal, 1);
    m.sell(souls[0], vec2(0, 0), cereal, 10, 4);
    m.sell(souls[1], vec2(5, 5), cereal, 7, 7);
    m.buy(souls[2], vec2(1, 1), cereal, 3);
    m.buy(souls[3], vec2(6, 5), cereal, 7);
    m.buy(souls[4], vec2(100, 100), cereal, 20);
    let before: Vec<i32> = souls.iter().map(|s| m.capital(*s, cereal)).collect();

    let trades = m.make_trades().to_vec();

    for (i, soul) in souls.iter().enumerate() {
        let received: i32 = trades
            .iter()
            .filter(|t| t.buyer == TradeTarget::Soul(*soul))
            .map(|t| t.qty)
            .sum();
        let given: i32 = trades
            .iter()
            .filter(|t| t.seller == TradeTarget::Soul(*soul))
            .map(|t| t.qty)
            .sum();
        assert_eq!(m.capital(*soul, cereal), before[i] + received - given);
    }
    let between_agents: Vec<&Trade> = trades
        .iter()
        .filter(|t| t.buyer != TradeTarget::ExternalTrade && t.seller != TradeTarget::ExternalTrade)
        .collect();
    assert_eq!(between_agents.len(), 2);
    for t in between_agents {
        assert_eq!(t.money_delta, Money(0));
    }
}

#[test]
fn nobody_trades_with_itself() {
    let cereal = item_id("cereal");
    let (a, b) = (mk_ent(1), mk_ent(2));
    let mut m = Market::new(&catalog());
    m.produce(a, cereal, 5);
    m.produce(b, cereal, 5);
    m.sell(a, vec2(0, 0), cereal, 5, 5);
    m.buy(a, vec2(0, 0), cereal, 2);
    m.sell(b, vec2(50, 0), cereal, 5, 5);

    let trades = m.make_trades().to_vec();

    for t in &trades {
        assert_ne!(t.buyer, t.seller);
    }
    assert_eq!(trades, vec![soul_trade(a, b, 2, cereal)]);
}

#[test]
fn seller_never_gives_more_than_it_has() {
    let cereal = item_id("cereal");
    let (a, b, c) = (mk_ent(1), mk_ent(2), mk_ent(3));
    let mut m = Market::new(&catalog());
    m.produce(a, cereal, 4);
    m.sell(a, vec2(0, 0), cereal, 4, 4);
    m.buy(b, vec2(1, 0), cereal, 3);
    m.buy(c, vec2(2, 0), cereal, 3);

    let trades = m.make_trades().to_vec();

    let sold: i32 = trades
        .iter()
        .filter(|t| t.seller == TradeTarget::Soul(a))
        .map(|t| t.qty)
        .sum();
    assert_eq!(sold, 3);
    assert_eq!(m.capital(a, cereal), 1);
    assert_eq!(trades[0], soul_trade(b, a, 3, cereal));
    assert_eq!(trades[1].buyer, TradeTarget::Soul(c));
    assert_eq!(trades[1].seller, TradeTarget::ExternalTrade);
    assert_eq!(trades.len(), 2);
}

#[test]
fn seller_without_the_goods_is_passed_over() {
    let wheat = item_id("wheat");
    let (a, b) = (mk_ent(1), mk_ent(2));
    let mut m = Market::new(&catalog());
    m.produce(a, wheat, 2);
    m.sell(a, vec2(0, 0), wheat, 3, 0);
    m.buy(b, vec2(1, 0), wheat, 1);

    let trades = m.make_trades().to_vec();

    assert_eq!(trades.len(), 1);
    assert_eq!(trades[0].buyer, TradeTarget::Soul(b));
    assert_eq!(trades[0].seller, TradeTarget::ExternalTrade);
    assert_eq!(m.capital(a, wheat), 2);
    assert_eq!(m.inner()[&wheat.0].sell_order(a).unwrap().qty, 3);
}

#[test]
fn same_orders_give_same_trades() {
    let cereal = item_id("cereal");
    let (a, b, c, d) = (mk_ent(1), mk_ent(2), mk_ent(3), mk_ent(4));

    let mut first = Market::new(&catalog());
    first.produce(a, cereal, 6);
    first.produce(b, cereal, 6);
    first.sell(a, vec2(0, 0), cereal, 6, 1);
    first.sell(b, vec2(4, 0), cereal, 6, 1);
    first.buy(c, vec2(2, 0), cereal, 2);
    first.buy(d, vec2(3, 0), cereal, 5);

    let mut second = Market::new(&catalog());
    second.buy(d, vec2(3, 0), cereal, 5);
    second.produce(b, cereal, 6);
    second.buy(c, vec2(9, 9), cereal, 1);
    second.sell(b, vec2(4, 0), cereal, 6, 1);
    second.produce(a, cereal, 2);
    second.buy(c, vec2(2, 0), cereal, 2);
    second.produce(a, cereal, 4);
    second.sell(a, vec2(0, 0), cereal, 6, 1);

    let one = first.make_trades().to_vec();
    let two = second.make_trades().to_vec();

    assert_eq!(one, two);
    assert_eq!(one[0], soul_trade(d, b, 5, cereal));
    assert_eq!(one[1], soul_trade(c, a, 2, cereal));
    assert_eq!(first.make_trades().to_vec(), second.make_trades().to_vec());
}

#[test]
fn equal_distances_go_to_the_smaller_seller() {
    let cereal = item_id("cereal");
    let (a, b, c) = (mk_ent(7), mk_ent(5), mk_ent(9));
    let mut m = Market::new(&catalog());
    m.produce(a, cereal, 2);
    m.produce(b, cereal, 2);
    m.sell(a, vec2(-3, 0), cereal, 2, 2);
    m.sell(b, vec2(0, 3), cereal, 2, 2);
    m.buy(c, vec2(0, 0), cereal, 2);

    let trades = m.make_trades().to_vec();

    assert_eq!(trades, vec![soul_trade(c, b, 2, cereal)]);
}

#[test]
fn every_buy_order_is_settled_once() {
    let cereal = item_id("cereal");
    let (a, b, c, d) = (mk_ent(1), mk_ent(2), mk_ent(3), mk_ent(4));
    let mut m = Market::new(&catalog());
    m.produce(a, cereal, 5);
    m.sell(a, vec2(0, 0), cereal, 5, 5);
    m.buy(b, vec2(1, 0), cereal, 5);
    m.buy(c, vec2(2, 0), cereal, 1);
    m.buy(d, vec2(3, 0), cereal, 9);

    let trades = m.make_trades().to_vec();

    for buyer in [b, c, d] {
        let bought: Vec<&Trade> = trades
            .iter()
            .filter(|t| t.buyer == TradeTarget::Soul(buyer))
            .collect();
        assert_eq!(bought.len(), 1);
        assert!(m.inner()[&cereal.0].buy_order(buyer).is_none());
    }
    assert_eq!(m.capital(b, cereal), 5);
    assert_eq!(m.capital(c, cereal), 1);
    assert_eq!(m.capital(d, cereal), 9);
}

#[test]
fn outside_market_fills_open_buy_orders_for_money() {
    let cereal = item_id("cereal");
    let buyer = mk_ent(8);
    let mut m = Market::new(&catalog());
    let price = m.inner()[&cereal.0].ext_value();
    assert_eq!(price, Money(5 * WORKER_CONSUMPTION_PER_SECOND));
    m.buy(buyer, vec2(1, 1), cereal, 3);

    let trades = m.make_trades().to_vec();

    assert_eq!(
        trades,
        vec![Trade {
            buyer: TradeTarget::Soul(buyer),
            seller: TradeTarget::ExternalTrade,
            qty: 3,
            kind: cereal,
            money_delta: Money(-15 * WORKER_CONSUMPTION_PER_SECOND),
        }]
    );
    assert_eq!(m.capital(buyer, cereal), 3);
}

#[test]
fn outside_market_takes_the_surplus_above_the_stock() {
    let cereal = item_id("cereal");
    let seller = mk_ent(8);
    let mut m = Market::new(&catalog());
    m.produce(seller, cereal, 10);
    m.sell(seller, vec2(1, 1), cereal, 10, 4);

    let trades = m.make_trades().to_vec();

    assert_eq!(
        trades,
        vec![Trade {
            buyer: TradeTarget::ExternalTrade,
            seller: TradeTarget::Soul(seller),
            qty: 6,
            kind: cereal,
            money_delta: Money(30 * WORKER_CONSUMPTION_PER_SECOND),
        }]
    );
    assert_eq!(m.capital(seller, cereal), 4);
    assert_eq!(m.inner()[&cereal.0].sell_order(seller).unwrap().qty, 4);
    assert!(m.make_trades().is_empty());
}

#[test]
fn sell_order_without_stock_is_cleared_by_the_outside_market() {
    let cereal = item_id("cereal");
    let seller = mk_ent(8);
    let mut m = Market::new(&catalog());
    m.produce(seller, cereal, 2);
    m.sell(seller, vec2(1, 1), cereal, 2, 0);

    let trades = m.make_trades().to_vec();

    assert_eq!(trades.len(), 1);
    assert_eq!(trades[0].qty, 2);
    assert_eq!(m.capital(seller, cereal), 0);
    assert!(m.inner()[&cereal.0].sell_order(seller).is_none());
}

#[test]
fn surplus_beyond_the_balance_is_not_sold_outside() {
    let cereal = item_id("cereal");
    let seller = mk_ent(8);
    let mut m = Market::new(&catalog());
    m.produce(seller, cereal, 5);
    m.sell(seller, vec2(1, 1), cereal, 5, 0);
    m.produce(seller, cereal, -2);

    let trades = m.make_trades().to_vec();

    assert!(trades.is_empty());
    assert_eq!(m.capital(seller, cereal), 3);
    assert_eq!(m.inner()[&cereal.0].sell_order(seller).unwrap().qty, 5);
}

#[test]
fn barred_commodity_never_goes_outside() {
    let job = item_id("job-opening");
    let (company, human, other) = (mk_ent(1), mk_ent(2), mk_ent(3));
    let mut m = Market::new(&catalog());
    m.produce(company, job, 2);
    m.sell(company, vec2(0, 0), job, 2, 0);
    m.buy(human, vec2(3, 4), job, 1);
    m.buy(other, vec2(1, 1), job, 3);

    let trades = m.make_trades().to_vec();

    assert_eq!(trades, vec![soul_trade(human, company, 1, job)]);
    assert_eq!(m.inner()[&job.0].sell_order(company).unwrap().qty, 1);
    assert_eq!(m.inner()[&job.0].buy_order(other).unwrap().qty, 3);
    assert_eq!(m.capital(other, job), 0);
}

#[test]
fn sell_order_is_cleared_when_used_up() {
    let job = item_id("job-opening");
    let (company, human) = (mk_ent(1), mk_ent(2));
    let mut m = Market::new(&catalog());
    m.produce(company, job, 1);
    m.sell(company, vec2(0, 0), job, 1, 0);
    m.buy(human, vec2(3, 4), job, 1);

    let trades = m.make_trades().to_vec();

    assert_eq!(trades, vec![soul_trade(human, company, 1, job)]);
    assert!(m.inner()[&job.0].sell_order(company).is_none());
    assert!(m.inner()[&job.0].buy_order(human).is_none());
    assert_eq!(m.capital(company, job), 0);
    assert_eq!(m.capital(human, job), 1);
}

#[test]
fn buyer_that_cannot_hold_more_keeps_its_order() {
    let cereal = item_id("cereal");
    let job = item_id("job-opening");
    let (a, b) = (mk_ent(1), mk_ent(2));
    let mut m = Market::new(&catalog());
    for kind in [cereal, job] {
        m.produce(a, kind, 1);
        m.sell(a, vec2(0, 0), kind, 1, 1);
        m.produce(b, kind, i32::MAX);
        m.buy(b, vec2(0, 1), kind, 1);
    }

    let trades = m.make_trades().to_vec();

    assert!(trades.is_empty());
    for kind in [cereal, job] {
        assert_eq!(m.capital(a, kind), 1);
        assert_eq!(m.capital(b, kind), i32::MAX);
        assert_eq!(m.inner()[&kind.0].buy_order(b).unwrap().qty, 1);
    }
}

#[test]
fn trades_come_by_ascending_commodity() {
    let (cereal, wheat) = (item_id("cereal"), item_id("wheat"));
    let (a, b) = (mk_ent(1), mk_ent(2));
    let mut m = Market::new(&catalog());
    m.buy(b, vec2(0, 0), wheat, 1);
    m.buy(a, vec2(0, 0), wheat, 2);
    m.buy(a, vec2(0, 0), cereal, 4);

    let trades = m.make_trades().to_vec();

    let seen: Vec<(ItemID, TradeTarget, i32)> =
        trades.iter().map(|t| (t.kind, t.buyer, t.qty)).collect();
    assert_eq!(
        seen,
        vec![
            (cereal, TradeTarget::Soul(a), 4),
            (wheat, TradeTarget::Soul(a), 2),
            (wheat, TradeTarget::Soul(b), 1),
        ]
    );
    assert_eq!(trades[1].money_delta, Money(0));
}

#[test]
fn batch_is_replaced_by_the_next_pass() {
    let cereal = item_id("cereal");
    let mut m = Market::new(&catalog());
    m.buy(mk_ent(1), vec2(0, 0), cereal, 4);
    assert_eq!(m.make_trades().len(), 1);
    assert_eq!(m.make_trades().len(), 0);
}

#[test]
fn new_market_has_made_no_trade() {
    let m = Market::new(&catalog());
    assert!(m.last_trades().is_empty());
}

#[test]
fn batch_stays_until_the_next_pass() {
    let (cereal, wheat) = (item_id("cereal"), item_id("wheat"));
    let (a, b) = (mk_ent(1), mk_ent(2));
    let mut m = Market::new(&catalog());
    m.produce(a, cereal, 2);
    m.sell(a, vec2(0, 0), cereal, 2, 2);
    m.buy(b, vec2(0, 1), cereal, 2);
    let batch = m.make_trades().to_vec();
    assert_eq!(batch, vec![soul_trade(b, a, 2, cereal)]);
    assert_eq!(m.last_trades(), &batch[..]);

    m.buy(a, vec2(0, 0), wheat, 1);
    m.sell(b, vec2(0, 0), cereal, 1, 1);
    m.sell_all(b, vec2(0, 0), cereal, 0);
    m.buy_until(a, vec2(0, 0), cereal, 5);
    m.register(mk_ent(3), wheat);
    m.produce(a, wheat, 1);
    m.m(wheat).produce(b, 1);
    m.remove(mk_ent(3));
    assert_eq!(m.last_trades(), &batch[..]);

    let next = m.make_trades().to_vec();
    assert_ne!(next, batch);
    assert_eq!(m.last_trades(), &next[..]);
}

#[test]
fn orders_are_overwritten_in_place() {
    let cereal = item_id("cereal");
    let a = mk_ent(1);
    let mut m = Market::new(&catalog());
    m.buy(a, vec2(0, 0), cereal, 4);
    m.buy(a, vec2(2, 2), cereal, 6);
    m.sell(a, vec2(0, 0), cereal, 3, 1);
    m.sell(a, vec2(1, 1), cereal, 8, 2);
    let ledger = &m.inner()[&cereal.0];
    assert_eq!(ledger.buy_order(a).unwrap().qty, 6);
    assert_eq!(ledger.buy_order(a).unwrap().pos, vec2(2, 2));
    assert_eq!(ledger.sell_order(a).unwrap().qty, 8);
    assert_eq!(ledger.sell_order(a).unwrap().stock, 2);
    assert_eq!(ledger.buy_entries().len(), 1);
    assert_eq!(ledger.sell_entries().len(), 1);
}

#[test]
fn invalid_quantities_place_no_order() {
    let cereal = item_id("cereal");
    let a = mk_ent(1);
    let mut m = Market::new(&catalog());
    m.buy(a, vec2(0, 0), cereal, 0);
    m.sell(a, vec2(0, 0), cereal, 0, 0);
    m.buy(a, vec2(0, 0), cereal, u32::MAX);
    m.sell(a, vec2(0, 0), cereal, 1 << 31, 0);
    assert!(m.inner()[&cereal.0].buy_order(a).is_none());
    assert!(m.inner()[&cereal.0].sell_order(a).is_none());
    m.buy(a, vec2(0, 0), cereal, 3);
    m.buy(a, vec2(5, 5), cereal, 0);
    assert_eq!(m.inner()[&cereal.0].buy_order(a).unwrap().qty, 3);
    assert_eq!(m.inner()[&cereal.0].buy_order(a).unwrap().pos, vec2(0, 0));
    m.buy(a, vec2(0, 0), cereal, i32::MAX as u32);
    assert_eq!(
        m.inner()[&cereal.0].buy_order(a).unwrap().qty,
        i32::MAX as u32
    );
}

#[test]
fn unknown_commodity_is_ignored() {
    let nothing = ItemID(77);
    let a = mk_ent(1);
    let mut m = Market::new(&catalog());
    m.buy(a, vec2(0, 0), nothing, 3);
    m.sell(a, vec2(0, 0), nothing, 3, 0);
    m.sell_all(a, vec2(0, 0), nothing, 0);
    m.buy_until(a, vec2(0, 0), nothing, 3);
    m.register(a, nothing);
    assert_eq!(m.produce(a, nothing, 5), 0);
    assert_eq!(m.capital(a, nothing), 0);
    assert_eq!(m.inner().len(), 3);
    assert!(m.make_trades().is_empty());
}

#[test]
fn produce_adds_and_returns_the_balance() {
    let cereal = item_id("cereal");
    let a = mk_ent(1);
    let mut m = Market::new(&catalog());
    assert_eq!(m.capital(a, cereal), 0);
    assert_eq!(m.produce(a, cereal, 5), 5);
    assert_eq!(m.produce(a, cereal, -7), -2);
    assert_eq!(m.capital(a, cereal), -2);
    assert_eq!(m.produce(a, cereal, i32::MAX), i32::MAX - 2);
    assert_eq!(m.produce(a, cereal, 10), i32::MAX);
    assert_eq!(m.produce(a, cereal, i32::MIN), -1);
    assert_eq!(m.produce(a, cereal, i32::MIN), i32::MIN);
    assert_eq!(m.produce(a, cereal, -1), i32::MIN);
}

#[test]
fn register_creates_an_empty_balance_once() {
    let cereal = item_id("cereal");
    let a = mk_ent(1);
    let mut m = Market::new(&catalog());
    assert_eq!(m.inner()[&cereal.0].capital(a), None);
    m.register(a, cereal);
    assert_eq!(m.inner()[&cereal.0].capital(a), Some(0));
    m.produce(a, cereal, 4);
    m.register(a, cereal);
    assert_eq!(m.inner()[&cereal.0].capital(a), Some(4));
    assert_eq!(m.inner()[&cereal.0].capital_map().len(), 1);
}

#[test]
fn sell_all_offers_the_whole_balance() {
    let cereal = item_id("cereal");
    let a = mk_ent(1);
    let mut m = Market::new(&catalog());
    m.sell_all(a, vec2(0, 0), cereal, 2);
    assert!(m.inner()[&cereal.0].sell_order(a).is_none());
    m.produce(a, cereal, -3);
    m.sell_all(a, vec2(0, 0), cereal, 2);
    assert!(m.inner()[&cereal.0].sell_order(a).is_none());
    m.produce(a, cereal, 10);
    m.sell_all(a, vec2(4, 4), cereal, 2);
    let order = *m.inner()[&cereal.0].sell_order(a).unwrap();
    assert_eq!((order.pos, order.qty, order.stock), (vec2(4, 4), 7, 2));
}

#[test]
fn buy_until_asks_for_what_is_lacking() {
    let cereal = item_id("cereal");
    let a = mk_ent(1);
    let mut m = Market::new(&catalog());
    m.produce(a, cereal, 4);
    m.buy_until(a, vec2(0, 0), cereal, 4);
    assert!(m.inner()[&cereal.0].buy_order(a).is_none());
    m.buy_until(a, vec2(0, 0), cereal, 3);
    assert!(m.inner()[&cereal.0].buy_order(a).is_none());
    m.buy_until(a, vec2(1, 2), cereal, 10);
    let order = *m.inner()[&cereal.0].buy_order(a).unwrap();
    assert_eq!((order.pos, order.qty), (vec2(1, 2), 6));
    m.produce(a, cereal, -9);
    m.buy_until(a, vec2(1, 2), cereal, 10);
    assert_eq!(m.inner()[&cereal.0].buy_order(a).unwrap().qty, 15);
    m.buy_until(a, vec2(1, 2), cereal, u32::MAX);
    assert_eq!(m.inner()[&cereal.0].buy_order(a).unwrap().qty, 15);
}

#[test]
fn remove_forgets_an_agent_everywhere() {
    let (cereal, wheat) = (item_id("cereal"), item_id("wheat"));
    let (a, b) = (mk_ent(1), mk_ent(2));
    let mut m = Market::new(&catalog());
    for kind in [cereal, wheat] {
        m.produce(a, kind, 5);
        m.produce(b, kind, 5);
        m.sell(a, vec2(0, 0), kind, 2, 0);
        m.buy(a, vec2(0, 0), kind, 2);
        m.buy(b, vec2(0, 0), kind, 1);
    }
    m.remove(a);
    for kind in [cereal, wheat] {
        let ledger = &m.inner()[&kind.0];
        assert_eq!(ledger.capital(a), None);
        assert!(ledger.buy_order(a).is_none());
        assert!(ledger.sell_order(a).is_none());
        assert_eq!(ledger.capital(b), Some(5));
        assert_eq!(ledger.buy_order(b).unwrap().qty, 1);
        assert_eq!(m.capital(a, kind), 0);
    }
}

#[test]
fn ledger_is_reached_through_the_market() {
    let cereal = item_id("cereal");
    let wheat = item_id("wheat");
    let a = mk_ent(1);
    let mut m = Market::new(&catalog());
    m.m(cereal).produce(a, 9);
    m.m(cereal).sell(a, vec2(3, 3), 9, 9);
    assert_eq!(m.capital(a, cereal), 9);
    assert_eq!(m.inner()[&cereal.0].sell_order(a).unwrap().qty, 9);
    assert_eq!(m.capital(a, wheat), 0);
    assert!(m.inner()[&wheat.0].sell_order(a).is_none());
    assert_eq!(m.m(wheat).balance(a), 0);
}

#[test]
fn ledgers_are_listed_by_ascending_commodity() {
    let catalog = Catalog {
        items: vec![local_item("job-opening"), item("cereal"), item("wheat"), local_item("cereal")],
        companies: vec![],
    };
    let m = Market::new(&catalog);
    let listed: Vec<(ItemID, bool, Money)> = m
        .iter()
        .iter()
        .map(|(kind, ledger)| (*kind, ledger.optout_exttrade(), ledger.ext_value()))
        .collect();
    assert_eq!(
        listed,
        vec![
            (item_id("cereal"), true, Money(0)),
            (item_id("wheat"), false, Money(0)),
            (item_id("job-opening"), true, Money(0)),
        ]
    );
}

#[test]
fn new_market_prices_labour_with_a_quarter_on_top() {
    let catalog = Catalog {
        items: vec![item("cereal")],
        companies: vec![GoodsCompanyPrototype {
            id: GoodsCompanyID(1),
            recipe: Recipe {
                production: vec![RecipeItem {
                    id: item_id("cereal"),
                    amount: 2,
                }],
                consumption: vec![],
                complexity: 1,
            },
            n_workers: 1,
        }],
    };
    let m = Market::new(&catalog);
    assert_eq!(goods_market::market::PRICE_MULTIPLIER_PERCENT, 125);
    assert_eq!(m.inner()[&1].ext_value(), Money(62));
}

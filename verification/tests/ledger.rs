use goods_market::keys::{entries_of, keys_of};
use goods_market::ranking::{comes_first, rank};
use goods_market::{
    vec2, Candidate, ItemID, Money, Scratch, SingleMarket, SoulID, Trade, TradeTarget,
};
use std::collections::BTreeMap;

const KIND: ItemID = ItemID(4);

fn pairing(score: u128, seller: u64, buyer: u64, qty: i32) -> Candidate {
    Candidate {
        score,
        seller: SoulID(seller),
        buyer: SoulID(buyer),
        qty,
    }
}

fn ledger() -> SingleMarket {
    let mut l = SingleMarket::new(Money(10), false);
    l.produce(SoulID(1), 8);
    l.sell(SoulID(1), vec2(0, 0), 6, 2);
    l.buy(SoulID(2), vec2(3, 4), 4);
    l
}

#[test]
fn new_ledger_is_empty() {
    let l = SingleMarket::new(Money(7), true);
    assert_eq!(l.ext_value(), Money(7));
    assert!(l.optout_exttrade());
    assert!(l.capital_map().is_empty());
    assert!(l.buyers().is_empty());
    assert!(l.sellers().is_empty());
    assert!(l.candidates().is_empty());
    assert_eq!(l.balance(SoulID(1)), 0);
    assert_eq!(l.capital(SoulID(1)), None);
}

#[test]
fn candidates_replace_what_the_buffer_held() {
    let l = ledger();
    let mut buffer = vec![pairing(9, 9, 9, 9), pairing(8, 8, 8, 8)];
    l.candidates_into(&mut buffer);
    assert_eq!(buffer, vec![pairing(25, 1, 2, 4)]);
    assert_eq!(buffer, l.candidates());
    assert!(Scratch::new().potential.is_empty());
    assert!(Scratch::new().merged.is_empty());
}

#[test]
fn candidates_pair_sellers_with_buyers() {
    let mut l = ledger();
    l.produce(SoulID(3), 1);
    l.sell(SoulID(3), vec2(3, 3), 5, 0);
    l.produce(SoulID(4), 5);
    l.sell(SoulID(4), vec2(3, 3), 3, 0);
    l.buy(SoulID(4), vec2(0, 1), 3);
    l.buy(SoulID(5), vec2(9, 9), 7);
    assert_eq!(
        l.candidates(),
        vec![pairing(25, 1, 2, 4), pairing(1, 1, 4, 3)]
    );
    assert_eq!(l.sellers(), vec![1, 3, 4]);
    assert_eq!(l.buyers(), vec![2, 4, 5]);
}

#[test]
fn settle_moves_the_goods() {
    let mut l = ledger();
    let trade = l.settle(KIND, pairing(25, 1, 2, 4));
    assert_eq!(
        trade,
        Some(Trade {
            buyer: TradeTarget::Soul(SoulID(2)),
            seller: TradeTarget::Soul(SoulID(1)),
            qty: 4,
            kind: KIND,
            money_delta: Money(0),
        })
    );
    assert_eq!(l.balance(SoulID(1)), 4);
    assert_eq!(l.balance(SoulID(2)), 4);
    assert!(l.buy_order(SoulID(2)).is_none());
    assert_eq!(l.sell_order(SoulID(1)).unwrap().qty, 2);
    assert_eq!(l.settle(KIND, pairing(25, 1, 2, 4)), None);
}

#[test]
fn settle_refuses_what_cannot_be_settled() {
    let mut l = ledger();
    for c in [
        pairing(0, 1, 1, 4),
        pairing(0, 1, 2, 3),
        pairing(0, 1, 2, 0),
        pairing(0, 1, 2, -4),
        pairing(0, 1, 3, 4),
        pairing(0, 3, 2, 4),
        pairing(0, 2, 1, 4),
    ] {
        assert_eq!(l.settle(KIND, c), None);
    }
    l.buy(SoulID(2), vec2(3, 4), 7);
    assert_eq!(l.settle(KIND, pairing(0, 1, 2, 7)), None);
    l.sell(SoulID(1), vec2(0, 0), 9, 0);
    l.buy(SoulID(2), vec2(3, 4), 9);
    assert_eq!(l.settle(KIND, pairing(0, 1, 2, 9)), None);
    assert_eq!(l.balance(SoulID(1)), 8);
    assert_eq!(l.balance(SoulID(2)), 0);
    assert_eq!(l.buy_order(SoulID(2)).unwrap().qty, 9);
    assert_eq!(l.sell_order(SoulID(1)).unwrap().qty, 9);
}

#[test]
fn import_fills_a_buy_order() {
    let mut l = ledger();
    assert_eq!(l.import(KIND, SoulID(1)), None);
    assert_eq!(
        l.import(KIND, SoulID(2)),
        Some(Trade {
            buyer: TradeTarget::Soul(SoulID(2)),
            seller: TradeTarget::ExternalTrade,
            qty: 4,
            kind: KIND,
            money_delta: Money(-40),
        })
    );
    assert_eq!(l.balance(SoulID(2)), 4);
    assert_eq!(l.import(KIND, SoulID(2)), None);
    l.produce(SoulID(2), i32::MAX);
    l.buy(SoulID(2), vec2(0, 0), 1);
    assert_eq!(l.import(KIND, SoulID(2)), None);
    assert_eq!(l.buy_order(SoulID(2)).unwrap().qty, 1);
}

#[test]
fn export_sells_the_surplus() {
    let mut l = ledger();
    assert_eq!(l.export(KIND, SoulID(2)), None);
    assert_eq!(
        l.export(KIND, SoulID(1)),
        Some(Trade {
            buyer: TradeTarget::ExternalTrade,
            seller: TradeTarget::Soul(SoulID(1)),
            qty: 4,
            kind: KIND,
            money_delta: Money(40),
        })
    );
    assert_eq!(l.balance(SoulID(1)), 4);
    assert_eq!(l.sell_order(SoulID(1)).unwrap().qty, 2);
    assert_eq!(l.export(KIND, SoulID(1)), None);
    l.sell(SoulID(1), vec2(0, 0), 5, 0);
    assert_eq!(l.export(KIND, SoulID(1)), None);
    l.sell(SoulID(1), vec2(0, 0), 3, 7);
    assert_eq!(l.export(KIND, SoulID(1)), None);
}

#[test]
fn money_of_an_outside_trade_saturates() {
    let mut l = SingleMarket::new(Money(i64::MAX), false);
    l.buy(SoulID(1), vec2(0, 0), 2);
    assert_eq!(
        l.import(KIND, SoulID(1)).unwrap().money_delta,
        Money(i64::MIN + 1)
    );
    let mut l = SingleMarket::new(Money(i64::MIN), false);
    l.buy(SoulID(1), vec2(0, 0), 2);
    assert_eq!(
        l.import(KIND, SoulID(1)).unwrap().money_delta,
        Money(i64::MAX)
    );
}

#[test]
fn outside_price_can_be_set() {
    let mut l = ledger();
    l.set_ext_value(Money(3));
    assert_eq!(l.ext_value(), Money(3));
    assert_eq!(l.import(KIND, SoulID(2)).unwrap().money_delta, Money(-12));
    assert_eq!(l.export(KIND, SoulID(1)).unwrap().money_delta, Money(12));
    assert_eq!(l.balance(SoulID(1)), 4);
}

#[test]
fn outside_trade_can_be_barred_and_opened() {
    let mut l = ledger();
    l.set_optout_exttrade(true);
    assert!(l.optout_exttrade());
    assert_eq!(l.ext_value(), Money(10));
    let mut trades = vec![];
    let mut scratch = Scratch::new();
    l.make_trades(KIND, &mut scratch, &mut trades);
    assert_eq!(trades.len(), 1);
    assert_eq!(trades[0].seller, TradeTarget::Soul(SoulID(1)));
    assert_eq!(l.sell_order(SoulID(1)).unwrap().qty, 2);
    l.sell(SoulID(1), vec2(0, 0), 4, 1);
    l.set_optout_exttrade(false);
    assert!(!l.optout_exttrade());
    l.make_trades(KIND, &mut scratch, &mut trades);
    assert_eq!(trades.len(), 2);
    assert_eq!(trades[1].buyer, TradeTarget::ExternalTrade);
    assert_eq!(trades[1].qty, 3);
}

#[test]
fn one_pass_over_a_ledger_appends_its_trades() {
    let mut l = ledger();
    let first = Trade {
        buyer: TradeTarget::ExternalTrade,
        seller: TradeTarget::Soul(SoulID(9)),
        qty: 1,
        kind: ItemID(0),
        money_delta: Money(1),
    };
    let mut trades = vec![first];
    let mut scratch = Scratch {
        potential: vec![pairing(0, 1, 2, 4), pairing(3, 7, 8, 1)],
        merged: vec![pairing(5, 5, 5, 5)],
    };
    l.make_trades(KIND, &mut scratch, &mut trades);
    assert!(scratch.potential.is_empty());
    assert!(scratch.merged.is_empty());
    assert_eq!(trades.len(), 2);
    assert_eq!(trades[0], first);
    assert_eq!(trades[1].qty, 4);
    assert_eq!(trades[1].kind, KIND);
    assert_eq!(l.balance(SoulID(1)), 4);
    assert_eq!(l.sell_order(SoulID(1)).unwrap().qty, 2);
}

#[test]
fn ranking_puts_the_nearest_first() {
    let mut v = vec![
        pairing(9, 1, 2, 1),
        pairing(4, 3, 2, 1),
        pairing(4, 1, 7, 1),
        pairing(0, 8, 9, 5),
        pairing(4, 1, 2, 6),
        pairing(4, 1, 2, 1),
        pairing(u128::MAX, 0, 0, 0),
        pairing(9, 1, 2, 1),
    ];
    let mut scratch = vec![pairing(1, 1, 1, 1)];
    rank(&mut v, &mut scratch);
    assert!(scratch.is_empty());
    assert_eq!(
        v,
        vec![
            pairing(0, 8, 9, 5),
            pairing(4, 1, 2, 1),
            pairing(4, 1, 2, 6),
            pairing(4, 1, 7, 1),
            pairing(4, 3, 2, 1),
            pairing(9, 1, 2, 1),
            pairing(9, 1, 2, 1),
            pairing(u128::MAX, 0, 0, 0),
        ]
    );
    let mut none: Vec<Candidate> = vec![];
    rank(&mut none, &mut scratch);
    assert!(none.is_empty());
    let mut one = vec![pairing(3, 2, 1, 0)];
    rank(&mut one, &mut scratch);
    assert_eq!(one, vec![pairing(3, 2, 1, 0)]);
    let mut many: Vec<Candidate> = (0..100u64)
        .map(|k| pairing(((k * 37) % 11) as u128, (k * 13) % 7, k, 1))
        .collect();
    let mut expected = many.clone();
    expected.sort_by_key(|c| (c.score, c.seller.0, c.buyer.0, c.qty));
    rank(&mut many, &mut scratch);
    assert_eq!(many, expected);
    assert!(comes_first(&pairing(1, 9, 9, 9), &pairing(2, 0, 0, 0)));
    assert!(!comes_first(&pairing(2, 0, 0, 0), &pairing(1, 9, 9, 9)));
    assert!(comes_first(&pairing(2, 0, 0, 0), &pairing(2, 0, 0, 0)));
}

#[test]
fn keys_come_in_ascending_order() {
    let mut m: BTreeMap<u64, i32> = BTreeMap::new();
    for k in [5u64, 1, u64::MAX, 3, 0] {
        m.insert(k, -(k as i32));
    }
    assert_eq!(keys_of(&m), vec![0, 1, 3, 5, u64::MAX]);
    assert_eq!(
        entries_of(&m),
        vec![(0, 0), (1, -1), (3, -3), (5, -5), (u64::MAX, 1)]
    );
    assert!(keys_of(&BTreeMap::<u64, i32>::new()).is_empty());
}

use goods_market::{
    calculate_prices as prices_of, Catalog, GoodsCompanyID, GoodsCompanyPrototype, ItemID,
    ItemPrototype, Money, Recipe, RecipeItem, WORKER_CONSUMPTION_PER_SECOND,
};

const W: i64 = WORKER_CONSUMPTION_PER_SECOND;

fn item(id: u64) -> ItemPrototype {
    ItemPrototype {
        id: ItemID(id),
        optout_exttrade: false,
    }
}

fn line(id: u64, amount: u32) -> RecipeItem {
    RecipeItem {
        id: ItemID(id),
        amount,
    }
}

fn company(
    id: u64,
    consumption: Vec<RecipeItem>,
    production: Vec<RecipeItem>,
    complexity: u32,
    n_workers: u32,
) -> GoodsCompanyPrototype {
    GoodsCompanyPrototype {
        id: GoodsCompanyID(id),
        recipe: Recipe {
            consumption,
            production,
            complexity,
        },
        n_workers,
    }
}

#[test]
fn item_without_producer_costs_nothing() {
    let catalog = Catalog {
        items: vec![item(1), item(2)],
        companies: vec![company(1, vec![line(2, 3)], vec![line(1, 1)], 2, 3)],
    };
    let prices = prices_of(&catalog, 100);
    assert_eq!(prices[&2], Money(0));
    assert_eq!(prices[&1], Money(6 * W));
    assert_eq!(prices.len(), 2);
}

#[test]
fn empty_catalog_has_no_prices() {
    let catalog = Catalog {
        items: vec![],
        companies: vec![company(1, vec![line(2, 3)], vec![line(1, 1)], 2, 3)],
    };
    assert!(prices_of(&catalog, 100).is_empty());
}

#[test]
fn cheapest_company_sets_the_price() {
    let catalog = Catalog {
        items: vec![item(1)],
        companies: vec![
            company(1, vec![], vec![line(1, 1)], 5, 2),
            company(2, vec![], vec![line(1, 4)], 3, 4),
            company(3, vec![], vec![line(1, 1)], 7, 1),
        ],
    };
    assert_eq!(prices_of(&catalog, 100)[&1], Money(3 * W));
}

#[test]
fn multiplier_scales_labour_only() {
    let catalog = Catalog {
        items: vec![item(1), item(2)],
        companies: vec![
            company(1, vec![], vec![line(1, 1)], 1, 1),
            company(2, vec![line(1, 10)], vec![line(2, 1)], 1, 1),
        ],
    };
    let plain = prices_of(&catalog, 100);
    assert_eq!(plain[&1], Money(W));
    assert_eq!(plain[&2], Money(11 * W));
    let scaled = prices_of(&catalog, 125);
    assert_eq!(scaled[&1], Money(125));
    assert_eq!(scaled[&2], Money(10 * 125 + 125));
    let free = prices_of(&catalog, 0);
    assert_eq!(free[&1], Money(0));
    assert_eq!(free[&2], Money(0));
    let odd = prices_of(&catalog, 1);
    assert_eq!(odd[&1], Money(1));
}

#[test]
fn price_is_divided_by_the_output() {
    let catalog = Catalog {
        items: vec![item(1)],
        companies: vec![company(1, vec![], vec![line(1, 3)], 1, 2)],
    };
    assert_eq!(prices_of(&catalog, 100)[&1], Money(66));
}

#[test]
fn consumed_commodity_gets_a_price_too() {
    let catalog = Catalog {
        items: vec![item(2)],
        companies: vec![
            company(1, vec![], vec![line(1, 1)], 1, 1),
            company(2, vec![line(1, 2), line(9, 4)], vec![line(2, 1)], 1, 1),
        ],
    };
    let prices = prices_of(&catalog, 100);
    assert_eq!(prices.len(), 3);
    assert_eq!(prices[&1], Money(W));
    assert_eq!(prices[&9], Money(0));
    assert_eq!(prices[&2], Money(3 * W));
}

#[test]
fn first_production_line_counts() {
    let catalog = Catalog {
        items: vec![item(1), item(2)],
        companies: vec![
            company(1, vec![], vec![line(1, 2), line(1, 1)], 1, 4),
            company(2, vec![], vec![line(2, 0), line(2, 1)], 1, 4),
            company(3, vec![], vec![line(1, 0)], 1, 1),
        ],
    };
    let prices = prices_of(&catalog, 100);
    assert_eq!(prices[&1], Money(2 * W));
    assert_eq!(prices[&2], Money(0));
}

#[test]
fn commodity_that_feeds_itself_counts_for_nothing_there() {
    let catalog = Catalog {
        items: vec![item(1)],
        companies: vec![company(1, vec![line(1, 5)], vec![line(1, 1)], 2, 1)],
    };
    assert_eq!(prices_of(&catalog, 100)[&1], Money(2 * W));
}

#[test]
fn circle_is_cut_where_it_closes() {
    let catalog = Catalog {
        items: vec![item(1), item(2)],
        companies: vec![
            company(1, vec![line(2, 1)], vec![line(1, 1)], 1, 1),
            company(2, vec![line(1, 1)], vec![line(2, 1)], 1, 3),
        ],
    };
    let prices = prices_of(&catalog, 100);
    assert_eq!(prices[&2], Money(3 * W));
    assert_eq!(prices[&1], Money(4 * W));

    let turned = Catalog {
        items: vec![item(2), item(1)],
        companies: vec![
            company(1, vec![line(2, 1)], vec![line(1, 1)], 1, 1),
            company(2, vec![line(1, 1)], vec![line(2, 1)], 1, 3),
        ],
    };
    let prices = prices_of(&turned, 100);
    assert_eq!(prices[&1], Money(W));
    assert_eq!(prices[&2], Money(4 * W));
}

#[test]
fn shared_input_is_priced_once() {
    let catalog = Catalog {
        items: vec![item(4)],
        companies: vec![
            company(1, vec![], vec![line(1, 1)], 1, 1),
            company(2, vec![line(1, 1)], vec![line(2, 1)], 1, 1),
            company(3, vec![line(1, 1)], vec![line(3, 1)], 1, 2),
            company(4, vec![line(2, 1), line(3, 1)], vec![line(4, 1)], 1, 1),
        ],
    };
    let prices = prices_of(&catalog, 100);
    assert_eq!(prices[&1], Money(W));
    assert_eq!(prices[&2], Money(2 * W));
    assert_eq!(prices[&3], Money(3 * W));
    assert_eq!(prices[&4], Money(6 * W));
}

#[test]
fn huge_costs_stop_at_the_largest_amount() {
    let catalog = Catalog {
        items: vec![item(1), item(2)],
        companies: vec![
            company(1, vec![], vec![line(1, 1)], u32::MAX, u32::MAX),
            company(2, vec![line(1, u32::MAX)], vec![line(2, 2)], 1, 1),
        ],
    };
    let prices = prices_of(&catalog, u32::MAX);
    assert_eq!(prices[&1], Money(i64::MAX));
    assert_eq!(prices[&2], Money(i64::MAX / 2));
    let plain = prices_of(&catalog, 100);
    assert_eq!(plain[&1], Money(i64::MAX));
    let small = Catalog {
        items: vec![item(1)],
        companies: vec![company(1, vec![], vec![line(1, 1)], 1 << 16, 1 << 16)],
    };
    assert_eq!(prices_of(&small, 100)[&1], Money((1 << 32) * W));
}

#[test]
fn prices_solve_the_equation_on_layers() {
    let companies = vec![
        company(1, vec![], vec![line(1, 2)], 3, 1),
        company(2, vec![], vec![line(1, 1)], 1, 1),
        company(3, vec![line(1, 3)], vec![line(2, 2), line(3, 1)], 2, 2),
        company(4, vec![line(1, 1), line(3, 2)], vec![line(2, 1)], 1, 1),
        company(5, vec![line(2, 1), line(3, 1), line(8, 9)], vec![line(4, 5)], 7, 3),
    ];
    let catalog = Catalog {
        items: vec![item(4), item(3), item(2), item(1)],
        companies,
    };
    let prices = prices_of(&catalog, 150);
    assert_eq!(prices.len(), 5);
    for (id, price) in &prices {
        let mut best: Option<Money> = None;
        for c in &catalog.companies {
            let output = c.recipe.production.iter().find(|l| l.id.0 == *id);
            let amount = match output {
                Some(l) if l.amount > 0 => l.amount,
                _ => continue,
            };
            let mut cost = Money(0);
            for l in &c.recipe.consumption {
                cost = cost + prices[&l.id.0] * (l.amount as i64);
            }
            let labour = Money((c.recipe.complexity * c.n_workers) as i64 * W * 150 / 100);
            let offer = (cost + labour) / (amount as i64);
            best = Some(match best {
                Some(b) => b.min(offer),
                None => offer,
            });
        }
        assert_eq!(*price, best.unwrap_or(Money(0)));
    }
    assert_eq!(prices[&1], Money(150));
    assert_eq!(prices[&3], Money(3 * 150 + 600));
    assert_eq!(prices[&2], Money((3 * 150 + 600) / 2));
    assert_eq!(prices[&8], Money(0));
    assert_eq!(prices[&4], Money((525 + 1050 + 3150) / 5));
}

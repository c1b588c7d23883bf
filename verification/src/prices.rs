//! Baseline prices of the commodities, derived from what it takes to make
//! them.

use crate::money::{clamp_i64, Money, WORKER_CONSUMPTION_PER_SECOND};
use crate::types::ItemID;
use std::collections::{BTreeMap, BTreeSet};
use vstd::prelude::*;
use vstd::std_specs::btree::*;

verus! {

/// Identifies a kind of company.
#[derive(Clone, Copy, Debug, PartialEq, Eq, Structural, PartialOrd, Ord, Hash)]
pub struct GoodsCompanyID(pub u64);

/// A kind of commodity.
#[derive(Clone, Copy, Debug, PartialEq, Eq, Structural)]
pub struct ItemPrototype {
    pub id: ItemID,
    /// Whether the commodity is barred from trade with the outside market.
    pub optout_exttrade: bool,
}

/// A quantity of one commodity, as a recipe consumes or produces it.
#[derive(Clone, Copy, Debug, PartialEq, Eq, Structural)]
pub struct RecipeItem {
    pub id: ItemID,
    pub amount: u32,
}

/// What a company turns into what, and how hard that is.
#[derive(Debug)]
pub struct Recipe {
    pub consumption: Vec<RecipeItem>,
    pub production: Vec<RecipeItem>,
    pub complexity: u32,
}

/// A kind of company that makes goods.
#[derive(Debug)]
pub struct GoodsCompanyPrototype {
    pub id: GoodsCompanyID,
    pub recipe: Recipe,
    pub n_workers: u32,
}

/// The commodities and the companies that the economy knows. It is fixed
/// before the market is made and never changes afterwards.
#[derive(Debug)]
pub struct Catalog {
    pub items: Vec<ItemPrototype>,
    pub companies: Vec<GoodsCompanyPrototype>,
}

/// The price that `prices` gives for `id`: nothing, if it gives none.
pub open spec fn price_of(prices: Map<u64, Money>, id: u64) -> Money {
    if prices.contains_key(id) {
        prices[id]
    } else {
        Money(0)
    }
}

/// How many units of `id` the recipe lines `production` yield: the amount of
/// the first line that names `id`, if any line does.
pub open spec fn output_of(production: Seq<RecipeItem>, id: u64) -> Option<u32>
    decreases production.len(),
{
    if production.len() == 0 {
        None
    } else if production.first().id.0 == id {
        Some(production.first().amount)
    } else {
        output_of(production.drop_first(), id)
    }
}

/// What the labour in one run of the company's recipe costs: one worker's
/// consumption for each worker and each degree of complexity, scaled by
/// `percent` hundredths.
pub open spec fn labor_cost(company: GoodsCompanyPrototype, percent: u32) -> Money {
    Money(
        clamp_i64(
            company.recipe.complexity * company.n_workers * WORKER_CONSUMPTION_PER_SECOND * percent
                / 100,
        ) as i64,
    )
}

/// The lower of the best offer so far, if there is one, and a new offer.
pub open spec fn cheaper(best: Option<Money>, offer: Money) -> Money {
    match best {
        Some(b) => if b.0 <= offer.0 {
            b
        } else {
            offer
        },
        None => offer,
    }
}

/// The commodities that the first `n` companies of `companies` consume, with
/// repetitions.
pub open spec fn consumed_ids(companies: Seq<GoodsCompanyPrototype>, n: nat) -> Seq<u64>
    decreases n,
{
    if n == 0 {
        Seq::empty()
    } else {
        consumed_ids(companies, (n - 1) as nat) + companies[n - 1].recipe.consumption@.map_values(
            |line: RecipeItem| line.id.0,
        )
    }
}

/// Every commodity that the catalog names as an item or as something that a
/// company consumes.
pub open spec fn ids_of(catalog: Catalog) -> Set<u64> {
    (catalog.items@.map_values(|item: ItemPrototype| item.id.0) + consumed_ids(
        catalog.companies@,
        catalog.companies@.len(),
    )).to_set()
}

/// The prices known after the cost of the first `m` lines that company
/// number `ci` consumes has been found, and that cost. Each consumed
/// commodity is priced first, unless it is known or closed; one without a
/// price costs nothing.
pub open spec fn input_cost(
    catalog: Catalog,
    percent: u32,
    open: Set<u64>,
    prices: Map<u64, Money>,
    ci: int,
    m: nat,
) -> (Map<u64, Money>, Money)
    decreases open.len(), 1int, m,
    when open.finite()
{
    if m == 0 {
        (prices, Money(0))
    } else {
        let (known, cost) = input_cost(catalog, percent, open, prices, ci, (m - 1) as nat);
        let line = catalog.companies@[ci].recipe.consumption@[m - 1];
        let priced = price_item(catalog, percent, open, known, line.id.0);
        (priced, cost.plus(price_of(priced, line.id.0).times(line.amount as int)))
    }
}

/// The prices known after the first `n` companies have been asked what a
/// unit of `id` costs them, and the lowest answer, if any company makes it.
/// A company's answer is the cost of what one run consumes plus the cost of
/// its labour, divided by the units of `id` that the run yields.
pub open spec fn cheapest_offer(
    catalog: Catalog,
    percent: u32,
    open: Set<u64>,
    prices: Map<u64, Money>,
    id: u64,
    n: nat,
) -> (Map<u64, Money>, Option<Money>)
    decreases open.len(), 2int, n,
    when open.finite()
{
    if n == 0 {
        (prices, None)
    } else {
        let (known, best) = cheapest_offer(catalog, percent, open, prices, id, (n - 1) as nat);
        let company = catalog.companies@[n - 1];
        match output_of(company.recipe.production@, id) {
            Some(amount) if amount > 0 => {
                let (priced, cost) = input_cost(
                    catalog,
                    percent,
                    open,
                    known,
                    n - 1,
                    company.recipe.consumption@.len(),
                );
                let offer = cost.plus(labor_cost(company, percent)).over(amount as int);
                (priced, Some(cheaper(best, offer)))
            },
            _ => (known, best),
        }
    }
}

/// The prices known after `id` has been priced. Nothing changes if `id` has
/// a price already, or if it is closed: it is being priced further up, or
/// the catalog does not name it. Otherwise `id` is closed while the companies
/// are asked, and then gets the lowest offer, or zero if nobody makes it.
pub open spec fn price_item(
    catalog: Catalog,
    percent: u32,
    open: Set<u64>,
    prices: Map<u64, Money>,
    id: u64,
) -> Map<u64, Money>
    decreases open.len(), 0int, 0nat,
    when open.finite()
{
    if prices.contains_key(id) || !open.contains(id) {
        prices
    } else {
        let (known, best) = cheapest_offer(
            catalog,
            percent,
            open.remove(id),
            prices,
            id,
            catalog.companies@.len(),
        );
        known.insert(
            id,
            match best {
                Some(b) => b,
                None => Money(0),
            },
        )
    }
}

/// The prices known after the first `n` items of the catalog have been
/// priced, each with every commodity open.
pub open spec fn prices_after(catalog: Catalog, percent: u32, n: nat) -> Map<u64, Money>
    decreases n,
{
    if n == 0 {
        Map::empty()
    } else {
        price_item(
            catalog,
            percent,
            ids_of(catalog),
            prices_after(catalog, percent, (n - 1) as nat),
            catalog.items@[n - 1].id.0,
        )
    }
}

/// The baseline price of every commodity of the catalog.
pub open spec fn prices_of(catalog: Catalog, percent: u32) -> Map<u64, Money> {
    prices_after(catalog, percent, catalog.items@.len())
}

/// Every commodity that a company consumes is named by the catalog.
pub proof fn lemma_consumed_is_named(catalog: Catalog, ci: int, j: int)
    requires
        0 <= ci < catalog.companies@.len(),
        0 <= j < catalog.companies@[ci].recipe.consumption@.len(),
    ensures
        ids_of(catalog).contains(catalog.companies@[ci].recipe.consumption@[j].id.0),
{
    let id = catalog.companies@[ci].recipe.consumption@[j].id.0;
    lemma_consumed_ids_hold(catalog.companies@, catalog.companies@.len(), ci, j);
    let items = catalog.items@.map_values(|item: ItemPrototype| item.id.0);
    let consumed = consumed_ids(catalog.companies@, catalog.companies@.len());
    let at = choose|at: int| 0 <= at < consumed.len() && consumed[at] == id;
    assert((items + consumed)[items.len() + at] == id);
}

/// The commodities consumed by the first `n` companies include each line of
/// each of them.
proof fn lemma_consumed_ids_hold(companies: Seq<GoodsCompanyPrototype>, n: nat, ci: int, j: int)
    requires
        0 <= ci < n <= companies.len(),
        0 <= j < companies[ci].recipe.consumption@.len(),
    ensures
        consumed_ids(companies, n).contains(companies[ci].recipe.consumption@[j].id.0),
    decreases n,
{
    let before = consumed_ids(companies, (n - 1) as nat);
    let last = companies[n - 1].recipe.consumption@.map_values(|line: RecipeItem| line.id.0);
    if ci == n - 1 {
        assert((before + last)[before.len() + j] == companies[ci].recipe.consumption@[j].id.0);
    } else {
        lemma_consumed_ids_hold(companies, (n - 1) as nat, ci, j);
        let id = companies[ci].recipe.consumption@[j].id.0;
        let at = choose|at: int| 0 <= at < before.len() && before[at] == id;
        assert((before + last)[at] == id);
    }
}

/// Every item of the catalog is named by the catalog.
pub proof fn lemma_item_is_named(catalog: Catalog, i: int)
    requires
        0 <= i < catalog.items@.len(),
    ensures
        ids_of(catalog).contains(catalog.items@[i].id.0),
{
    let items = catalog.items@.map_values(|item: ItemPrototype| item.id.0);
    let consumed = consumed_ids(catalog.companies@, catalog.companies@.len());
    assert((items + consumed)[i] == catalog.items@[i].id.0);
}

/// How many units of `id` the recipe lines `production` yield.
fn find_output(production: &Vec<RecipeItem>, id: u64) -> (amount: Option<u32>)
    ensures
        amount == output_of(production@, id),
{
    let mut i: usize = 0;
    proof {
        assert(production@.skip(0) =~= production@);
    }
    while i < production.len()
        invariant
            i <= production@.len(),
            output_of(production@, id) == output_of(production@.skip(i as int), id),
        decreases production@.len() - i,
    {
        proof {
            assert(production@.skip(i as int).drop_first() =~= production@.skip(i + 1));
        }
        if production[i].id.0 == id {
            return Some(production[i].amount);
        }
        i += 1;
    }
    None
}

/// What the labour in one run of the company's recipe costs.
fn labor(company: &GoodsCompanyPrototype, percent: u32) -> (cost: Money)
    ensures
        cost == labor_cost(*company, percent),
{
    let c: u128 = company.recipe.complexity as u128;
    let w: u128 = company.n_workers as u128;
    let p: u128 = percent as u128;
    assert(c * w <= 0x1_0000_0000_0000_0000) by (nonlinear_arith)
        requires
            c <= 0xffff_ffff,
            w <= 0xffff_ffff,
    ;
    let cw: u128 = c * w;
    assert(cw * 100 * p <= 0x64_0000_0000_0000_0000_0000_0000) by (nonlinear_arith)
        requires
            cw <= 0x1_0000_0000_0000_0000,
            p <= 0xffff_ffff,
    ;
    let scaled: u128 = cw * (WORKER_CONSUMPTION_PER_SECOND as u128) * p / 100;
    assert(scaled == company.recipe.complexity * company.n_workers * WORKER_CONSUMPTION_PER_SECOND
        * percent / 100) by (nonlinear_arith)
        requires
            scaled == cw * 100 * p / 100,
            cw == company.recipe.complexity * company.n_workers,
            p == percent,
            WORKER_CONSUMPTION_PER_SECOND == 100,
    ;
    if scaled > i64::MAX as u128 {
        Money(i64::MAX)
    } else {
        Money(scaled as i64)
    }
}

/// Prices `id` and, before it, whatever goes into making it.
fn price_item_into(
    catalog: &Catalog,
    percent: u32,
    closed: &mut BTreeSet<u64>,
    prices: &mut BTreeMap<u64, Money>,
    id: u64,
)
    requires
        ids_of(*catalog).contains(id),
    ensures
        final(closed)@ == old(closed)@,
        final(prices)@ == price_item(
            *catalog,
            percent,
            ids_of(*catalog).difference(old(closed)@),
            old(prices)@,
            id,
        ),
    decreases ids_of(*catalog).difference(old(closed)@).len(),
{
    broadcast use group_btree_axioms;

    let ghost ids = ids_of(*catalog);
    let ghost open = ids.difference(closed@);
    let ghost closed_before = closed@;
    let ghost prices_before = prices@;
    if prices.contains_key(&id) || closed.contains(&id) {
        return ;
    }
    closed.insert(id);
    let ghost inner = open.remove(id);
    proof {
        assert(ids.difference(closed@) =~= inner);
    }
    let mut best: Option<Money> = None;
    let mut ci: usize = 0;
    while ci < catalog.companies.len()
        invariant
            ci <= catalog.companies@.len(),
            ids == ids_of(*catalog),
            ids.finite(),
            closed_before == old(closed)@,
            open == ids.difference(closed_before),
            open.contains(id),
            inner == open.remove(id),
            closed@ == closed_before.insert(id),
            !closed_before.contains(id),
            (prices@, best) == cheapest_offer(
                *catalog,
                percent,
                inner,
                prices_before,
                id,
                ci as nat,
            ),
        decreases catalog.companies@.len() - ci,
    {
        let company = &catalog.companies[ci];
        let ghost known = prices@;
        let output = find_output(&company.recipe.production, id);
        let amount: u32 = match output {
            Some(amount) => amount,
            None => 0,
        };
        if amount > 0 {
            let mut cost = Money::zero();
            let mut j: usize = 0;
            while j < company.recipe.consumption.len()
                invariant
                    j <= company.recipe.consumption@.len(),
                    ci < catalog.companies@.len(),
                    *company == catalog.companies@[ci as int],
                    ids == ids_of(*catalog),
                    ids.finite(),
                    closed_before == old(closed)@,
                    open == ids.difference(closed_before),
                    open.contains(id),
                    inner == open.remove(id),
                    closed@ == closed_before.insert(id),
                    !closed_before.contains(id),
                    (prices@, cost) == input_cost(
                        *catalog,
                        percent,
                        inner,
                        known,
                        ci as int,
                        j as nat,
                    ),
                decreases company.recipe.consumption@.len() - j,
            {
                let line = company.recipe.consumption[j];
                proof {
                    lemma_consumed_is_named(*catalog, ci as int, j as int);
                    assert(ids.difference(closed@) =~= inner);
                    assert(open.finite());
                    assert(inner.len() < open.len());
                }
                price_item_into(catalog, percent, closed, prices, line.id.0);
                let price = match prices.get(&line.id.0) {
                    Some(price) => *price,
                    None => Money::zero(),
                };
                cost = cost + price * (line.amount as i64);
                j += 1;
            }
            let offer = (cost + labor(company, percent)) / (amount as i64);
            best = Some(
                match best {
                    Some(b) => b.min(offer),
                    None => offer,
                },
            );
        }
        ci += 1;
    }
    closed.remove(&id);
    let price = match best {
        Some(b) => b,
        None => Money::zero(),
    };
    prices.insert(id, price);
    proof {
        assert(closed@ =~= closed_before);
    }
}

/// The baseline price of every commodity of the catalog, keyed by the
/// commodities' numbers.
///
/// A commodity costs what the cheapest company that makes it needs for one
/// unit: the price of what a run of its recipe consumes, plus its labour
/// scaled by `price_multiplier_percent` hundredths, divided by the units that
/// the run yields. What nobody makes costs nothing. A commodity that goes
/// into its own making counts for nothing where the circle closes.
pub fn calculate_prices(catalog: &Catalog, price_multiplier_percent: u32) -> (prices: BTreeMap<
    u64,
    Money,
>)
    ensures
        prices@ == prices_of(*catalog, price_multiplier_percent),
{
    broadcast use group_btree_axioms;

    let mut prices: BTreeMap<u64, Money> = BTreeMap::new();
    let mut closed: BTreeSet<u64> = BTreeSet::new();
    let mut i: usize = 0;
    while i < catalog.items.len()
        invariant
            i <= catalog.items@.len(),
            closed@ == Set::<u64>::empty(),
            prices@ == prices_after(*catalog, price_multiplier_percent, i as nat),
        decreases catalog.items@.len() - i,
    {
        proof {
            lemma_item_is_named(*catalog, i as int);
            assert(ids_of(*catalog).difference(closed@) =~= ids_of(*catalog));
        }
        price_item_into(
            catalog,
            price_multiplier_percent,
            &mut closed,
            &mut prices,
            catalog.items[i].id.0,
        );
        i += 1;
    }
    prices
}

} // verus!

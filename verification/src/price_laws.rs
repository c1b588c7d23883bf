//! What the baseline prices are, where no commodity goes into its own
//! making.

use crate::money::Money;
use crate::prices::{
    cheaper, cheapest_offer, ids_of, input_cost, labor_cost, lemma_consumed_is_named,
    lemma_item_is_named, output_of, price_item, price_of, prices_after, prices_of, Catalog,
    GoodsCompanyPrototype, RecipeItem,
};
use vstd::prelude::*;

verus! {

/// What the first `m` of the recipe lines `lines` cost at `prices`.
pub open spec fn input_sum(lines: Seq<RecipeItem>, prices: Map<u64, Money>, m: nat) -> Money
    decreases m,
{
    if m == 0 {
        Money(0)
    } else {
        input_sum(lines, prices, (m - 1) as nat).plus(
            price_of(prices, lines[m - 1].id.0).times(lines[m - 1].amount as int),
        )
    }
}

/// What one of the `amount` units that a run of the company's recipe yields
/// costs at `prices`: what the run consumes plus its labour, divided by
/// `amount`.
pub open spec fn offer_of(
    company: GoodsCompanyPrototype,
    percent: u32,
    prices: Map<u64, Money>,
    amount: u32,
) -> Money {
    input_sum(
        company.recipe.consumption@,
        prices,
        company.recipe.consumption@.len(),
    ).plus(labor_cost(company, percent)).over(amount as int)
}

/// The lowest offer for `id` among the first `n` companies at `prices`, if
/// one of them makes it.
pub open spec fn best_offer(
    catalog: Catalog,
    percent: u32,
    prices: Map<u64, Money>,
    id: u64,
    n: nat,
) -> Option<Money>
    decreases n,
{
    if n == 0 {
        None
    } else {
        let best = best_offer(catalog, percent, prices, id, (n - 1) as nat);
        let company = catalog.companies@[n - 1];
        match output_of(company.recipe.production@, id) {
            Some(amount) if amount > 0 => Some(
                cheaper(best, offer_of(company, percent, prices, amount)),
            ),
            _ => best,
        }
    }
}

/// The price that the price equation gives `id` at `prices`: the lowest
/// offer of a company that makes it, or nothing if none does.
pub open spec fn equation_price(
    catalog: Catalog,
    percent: u32,
    prices: Map<u64, Money>,
    id: u64,
) -> Money {
    match best_offer(catalog, percent, prices, id, catalog.companies@.len()) {
        Some(b) => b,
        None => Money(0),
    }
}

/// Whether company number `ci` makes `id`.
pub open spec fn makes(catalog: Catalog, ci: int, id: u64) -> bool {
    &&& 0 <= ci < catalog.companies@.len()
    &&& output_of(catalog.companies@[ci].recipe.production@, id) matches Some(amount)
    &&& amount > 0
}

/// Whether `prices` has a price for everything that goes into `id` at one of
/// the first `n` companies.
pub open spec fn inputs_priced(catalog: Catalog, prices: Map<u64, Money>, id: u64, n: nat) -> bool {
    forall|ci: int, q: int|
        #![trigger catalog.companies@[ci].recipe.consumption@[q]]
        0 <= ci < n && makes(catalog, ci, id) && 0 <= q
            < catalog.companies@[ci].recipe.consumption@.len() ==> prices.contains_key(
            catalog.companies@[ci].recipe.consumption@[q].id.0,
        )
}

/// Whether `prices` solves the price equation: each commodity that it prices
/// costs what the cheapest company that makes it needs for one unit, at
/// these very prices, and whatever goes into it is priced too.
pub open spec fn solves(catalog: Catalog, percent: u32, prices: Map<u64, Money>) -> bool {
    forall|id: u64| #[trigger]
        prices.contains_key(id) ==> {
            &&& prices[id] == equation_price(catalog, percent, prices, id)
            &&& inputs_priced(catalog, prices, id, catalog.companies@.len())
        }
}

/// Whether the commodities lie in layers: `rank` puts whatever a company
/// consumes below whatever it produces. Then no commodity goes into its own
/// making, however indirectly.
pub open spec fn layered(catalog: Catalog, rank: spec_fn(u64) -> nat) -> bool {
    forall|ci: int, p: int, q: int|
        #![trigger catalog.companies@[ci].recipe.production@[p], catalog.companies@[ci].recipe.consumption@[q]]
        0 <= ci < catalog.companies@.len() && 0 <= p
            < catalog.companies@[ci].recipe.production@.len() && 0 <= q
            < catalog.companies@[ci].recipe.consumption@.len() ==> rank(
            catalog.companies@[ci].recipe.consumption@[q].id.0,
        ) < rank(catalog.companies@[ci].recipe.production@[p].id.0)
}

/// Whether `b` has every price of `a`.
spec fn extends(a: Map<u64, Money>, b: Map<u64, Money>) -> bool {
    forall|k: u64| #[trigger] a.contains_key(k) ==> b.contains_key(k) && b[k] == a[k]
}

/// Whether whatever `b` prices beyond `a` is open.
spec fn grows_within(a: Map<u64, Money>, b: Map<u64, Money>, open: Set<u64>) -> bool {
    forall|k: u64| #[trigger] b.contains_key(k) ==> a.contains_key(k) || open.contains(k)
}

/// Whether every named commodity of rank `r` or lower is open.
spec fn open_below(catalog: Catalog, open: Set<u64>, rank: spec_fn(u64) -> nat, r: int) -> bool {
    forall|x: u64| ids_of(catalog).contains(x) && rank(x) <= r ==> #[trigger] open.contains(x)
}

/// What a recipe yields of `id` stands on one of its production lines.
proof fn lemma_output_is_a_line(production: Seq<RecipeItem>, id: u64)
    requires
        output_of(production, id) is Some,
    ensures
        exists|p: int| 0 <= p < production.len() && (#[trigger] production[p]).id.0 == id,
    decreases production.len(),
{
    if production.first().id.0 == id {
        assert(production[0].id.0 == id);
    } else {
        lemma_output_is_a_line(production.drop_first(), id);
        let p = choose|p: int|
            0 <= p < production.drop_first().len() && (#[trigger] production.drop_first()[p]).id.0
                == id;
        assert(production[p + 1].id.0 == id);
    }
}

/// More prices do not change the cost of lines that were all priced.
proof fn lemma_input_sum_stable(
    lines: Seq<RecipeItem>,
    a: Map<u64, Money>,
    b: Map<u64, Money>,
    m: nat,
)
    requires
        extends(a, b),
        m <= lines.len(),
        forall|q: int| 0 <= q < m ==> a.contains_key((#[trigger] lines[q]).id.0),
    ensures
        input_sum(lines, a, m) == input_sum(lines, b, m),
    decreases m,
{
    if m > 0 {
        lemma_input_sum_stable(lines, a, b, (m - 1) as nat);
        assert(a.contains_key(lines[m - 1].id.0));
    }
}

/// More prices do not change the offers for a commodity whose inputs were
/// all priced.
proof fn lemma_best_offer_stable(
    catalog: Catalog,
    percent: u32,
    a: Map<u64, Money>,
    b: Map<u64, Money>,
    id: u64,
    n: nat,
)
    requires
        extends(a, b),
        n <= catalog.companies@.len(),
        inputs_priced(catalog, a, id, n),
    ensures
        best_offer(catalog, percent, a, id, n) == best_offer(catalog, percent, b, id, n),
    decreases n,
{
    if n > 0 {
        lemma_best_offer_stable(catalog, percent, a, b, id, (n - 1) as nat);
        let company = catalog.companies@[n - 1];
        if makes(catalog, n - 1, id) {
            let lines = company.recipe.consumption@;
            assert forall|q: int| 0 <= q < lines.len() implies a.contains_key(
                (#[trigger] lines[q]).id.0,
            ) by {
                assert(a.contains_key(catalog.companies@[n - 1].recipe.consumption@[q].id.0));
            }
            lemma_input_sum_stable(lines, a, b, lines.len());
        }
    }
}

/// Inputs that are priced stay priced when prices are added.
proof fn lemma_inputs_priced_extends(
    catalog: Catalog,
    a: Map<u64, Money>,
    b: Map<u64, Money>,
    id: u64,
    n: nat,
)
    requires
        extends(a, b),
        inputs_priced(catalog, a, id, n),
    ensures
        inputs_priced(catalog, b, id, n),
{
    assert forall|ci: int, q: int|
        #![trigger catalog.companies@[ci].recipe.consumption@[q]]
        0 <= ci < n && makes(catalog, ci, id) && 0 <= q
            < catalog.companies@[ci].recipe.consumption@.len() implies b.contains_key(
        catalog.companies@[ci].recipe.consumption@[q].id.0,
    ) by {
        assert(a.contains_key(catalog.companies@[ci].recipe.consumption@[q].id.0));
    }
}

/// A solution stays one when a commodity that it did not price gets the
/// price that the equation gives it.
proof fn lemma_solves_insert(
    catalog: Catalog,
    percent: u32,
    known: Map<u64, Money>,
    id: u64,
)
    requires
        solves(catalog, percent, known),
        !known.contains_key(id),
        inputs_priced(catalog, known, id, catalog.companies@.len()),
    ensures
        solves(
            catalog,
            percent,
            known.insert(id, equation_price(catalog, percent, known, id)),
        ),
        extends(known, known.insert(id, equation_price(catalog, percent, known, id))),
{
    let n = catalog.companies@.len();
    let out = known.insert(id, equation_price(catalog, percent, known, id));
    assert(extends(known, out));
    assert forall|k: u64| #[trigger] out.contains_key(k) implies out[k] == equation_price(
        catalog,
        percent,
        out,
        k,
    ) && inputs_priced(catalog, out, k, n) by {
        if k != id {
            assert(known.contains_key(k));
        }
        lemma_best_offer_stable(catalog, percent, known, out, k, n);
        lemma_inputs_priced_extends(catalog, known, out, k, n);
    }
}

/// Pricing a commodity keeps a solution: it adds prices, changes none,
/// and what it adds solves the price equation.
proof fn lemma_price_item(
    catalog: Catalog,
    percent: u32,
    rank: spec_fn(u64) -> nat,
    open: Set<u64>,
    prices: Map<u64, Money>,
    id: u64,
)
    requires
        open.finite(),
        layered(catalog, rank),
        solves(catalog, percent, prices),
        ids_of(catalog).contains(id),
        open_below(catalog, open, rank, rank(id) as int),
    ensures
        extends(prices, price_item(catalog, percent, open, prices, id)),
        grows_within(prices, price_item(catalog, percent, open, prices, id), open),
        solves(catalog, percent, price_item(catalog, percent, open, prices, id)),
        price_item(catalog, percent, open, prices, id).contains_key(id),
    decreases open.len(), 0int, 0nat,
{
    if !prices.contains_key(id) {
        assert(open.contains(id));
        let n = catalog.companies@.len();
        let inner = open.remove(id);
        assert forall|x: u64| ids_of(catalog).contains(x) && rank(x) <= rank(id)
            - 1 implies #[trigger] inner.contains(x) by {
            assert(open.contains(x));
        }
        lemma_cheapest_offer(catalog, percent, rank, inner, prices, id, n);
        let (known, best) = cheapest_offer(catalog, percent, inner, prices, id, n);
        assert(!known.contains_key(id));
        lemma_solves_insert(catalog, percent, known, id);
        let out = price_item(catalog, percent, open, prices, id);
        assert(out == known.insert(id, equation_price(catalog, percent, known, id)));
        assert forall|k: u64| #[trigger] prices.contains_key(k) implies out.contains_key(k)
            && out[k] == prices[k] by {
            assert(known.contains_key(k));
        }
        assert forall|k: u64| #[trigger] out.contains_key(k) implies prices.contains_key(k)
            || open.contains(k) by {
            if k != id {
                assert(known.contains_key(k));
            }
        }
    }
}

/// Asking the companies for their offers keeps a solution, prices what
/// goes into the commodity, and finds the lowest offer at the new prices.
proof fn lemma_cheapest_offer(
    catalog: Catalog,
    percent: u32,
    rank: spec_fn(u64) -> nat,
    open: Set<u64>,
    prices: Map<u64, Money>,
    id: u64,
    n: nat,
)
    requires
        open.finite(),
        layered(catalog, rank),
        solves(catalog, percent, prices),
        n <= catalog.companies@.len(),
        open_below(catalog, open, rank, rank(id) - 1),
    ensures
        extends(prices, cheapest_offer(catalog, percent, open, prices, id, n).0),
        grows_within(prices, cheapest_offer(catalog, percent, open, prices, id, n).0, open),
        solves(catalog, percent, cheapest_offer(catalog, percent, open, prices, id, n).0),
        inputs_priced(catalog, cheapest_offer(catalog, percent, open, prices, id, n).0, id, n),
        cheapest_offer(catalog, percent, open, prices, id, n).1 == best_offer(
            catalog,
            percent,
            cheapest_offer(catalog, percent, open, prices, id, n).0,
            id,
            n,
        ),
    decreases open.len(), 2int, n,
{
    if n > 0 {
        lemma_cheapest_offer(catalog, percent, rank, open, prices, id, (n - 1) as nat);
        let (known, best) = cheapest_offer(catalog, percent, open, prices, id, (n - 1) as nat);
        let company = catalog.companies@[n - 1];
        if makes(catalog, n - 1, id) {
            let lines = company.recipe.consumption@;
            lemma_output_is_a_line(company.recipe.production@, id);
            let p = choose|p: int|
                0 <= p < company.recipe.production@.len() && (
                #[trigger] company.recipe.production@[p]).id.0 == id;
            assert forall|q: int| 0 <= q < lines.len() implies rank(
                (#[trigger] catalog.companies@[n - 1].recipe.consumption@[q]).id.0,
            ) <= rank(id) - 1 by {
                assert(rank(catalog.companies@[n - 1].recipe.consumption@[q].id.0) < rank(
                    catalog.companies@[n - 1].recipe.production@[p].id.0,
                ));
            }
            lemma_input_cost(
                catalog,
                percent,
                rank,
                open,
                known,
                n - 1,
                lines.len(),
                rank(id) - 1,
            );
            let (priced, cost) = input_cost(catalog, percent, open, known, n - 1, lines.len());
            lemma_best_offer_stable(catalog, percent, known, priced, id, (n - 1) as nat);
            lemma_inputs_priced_extends(catalog, known, priced, id, (n - 1) as nat);
            assert forall|k: u64| #[trigger] prices.contains_key(k) implies priced.contains_key(k)
                && priced[k] == prices[k] by {
                assert(known.contains_key(k));
            }
            assert forall|k: u64| #[trigger] priced.contains_key(k) implies prices.contains_key(k)
                || open.contains(k) by {
                if known.contains_key(k) {
                }
            }
            assert forall|ci: int, q: int|
                #![trigger catalog.companies@[ci].recipe.consumption@[q]]
                0 <= ci < n && makes(catalog, ci, id) && 0 <= q
                    < catalog.companies@[ci].recipe.consumption@.len() implies priced.contains_key(
                catalog.companies@[ci].recipe.consumption@[q].id.0,
            ) by {
                if ci < n - 1 {
                } else {
                    assert(priced.contains_key(lines[q].id.0));
                }
            }
        }
    }
}

/// Pricing what a company consumes keeps a solution and finds what the
/// lines cost at the new prices.
proof fn lemma_input_cost(
    catalog: Catalog,
    percent: u32,
    rank: spec_fn(u64) -> nat,
    open: Set<u64>,
    prices: Map<u64, Money>,
    ci: int,
    m: nat,
    r: int,
)
    requires
        open.finite(),
        layered(catalog, rank),
        solves(catalog, percent, prices),
        0 <= ci < catalog.companies@.len(),
        m <= catalog.companies@[ci].recipe.consumption@.len(),
        open_below(catalog, open, rank, r),
        forall|q: int|
            0 <= q < m ==> rank((#[trigger] catalog.companies@[ci].recipe.consumption@[q]).id.0)
                <= r,
    ensures
        extends(prices, input_cost(catalog, percent, open, prices, ci, m).0),
        grows_within(prices, input_cost(catalog, percent, open, prices, ci, m).0, open),
        solves(catalog, percent, input_cost(catalog, percent, open, prices, ci, m).0),
        forall|q: int|
            0 <= q < m ==> input_cost(catalog, percent, open, prices, ci, m).0.contains_key(
                (#[trigger] catalog.companies@[ci].recipe.consumption@[q]).id.0,
            ),
        input_cost(catalog, percent, open, prices, ci, m).1 == input_sum(
            catalog.companies@[ci].recipe.consumption@,
            input_cost(catalog, percent, open, prices, ci, m).0,
            m,
        ),
    decreases open.len(), 1int, m,
{
    if m > 0 {
        let lines = catalog.companies@[ci].recipe.consumption@;
        lemma_input_cost(catalog, percent, rank, open, prices, ci, (m - 1) as nat, r);
        let (known, cost) = input_cost(catalog, percent, open, prices, ci, (m - 1) as nat);
        let line = lines[m - 1];
        lemma_consumed_is_named(catalog, ci, m - 1);
        assert(rank(catalog.companies@[ci].recipe.consumption@[m - 1].id.0) <= r);
        assert forall|x: u64| ids_of(catalog).contains(x) && rank(x) <= rank(
            line.id.0,
        ) implies #[trigger] open.contains(x) by {}
        lemma_price_item(catalog, percent, rank, open, known, line.id.0);
        let priced = price_item(catalog, percent, open, known, line.id.0);
        assert forall|q: int| 0 <= q < m - 1 implies known.contains_key(
            (#[trigger] lines[q]).id.0,
        ) by {
            assert(known.contains_key(catalog.companies@[ci].recipe.consumption@[q].id.0));
        }
        lemma_input_sum_stable(lines, known, priced, (m - 1) as nat);
        assert forall|k: u64| #[trigger] prices.contains_key(k) implies priced.contains_key(k)
            && priced[k] == prices[k] by {
            assert(known.contains_key(k));
        }
        assert forall|k: u64| #[trigger] priced.contains_key(k) implies prices.contains_key(k)
            || open.contains(k) by {
            if known.contains_key(k) {
            }
        }
        assert forall|q: int| 0 <= q < m implies priced.contains_key(
            (#[trigger] catalog.companies@[ci].recipe.consumption@[q]).id.0,
        ) by {
            if q < m - 1 {
                assert(known.contains_key(catalog.companies@[ci].recipe.consumption@[q].id.0));
            }
        }
    }
}

proof fn lemma_prices_after(catalog: Catalog, percent: u32, rank: spec_fn(u64) -> nat, n: nat)
    requires
        layered(catalog, rank),
        n <= catalog.items@.len(),
    ensures
        solves(catalog, percent, prices_after(catalog, percent, n)),
        forall|i: int|
            0 <= i < n ==> prices_after(catalog, percent, n).contains_key(
                (#[trigger] catalog.items@[i]).id.0,
            ),
    decreases n,
{
    if n > 0 {
        lemma_prices_after(catalog, percent, rank, (n - 1) as nat);
        let before = prices_after(catalog, percent, (n - 1) as nat);
        let id = catalog.items@[n - 1].id.0;
        lemma_item_is_named(catalog, n - 1);
        lemma_price_item(catalog, percent, rank, ids_of(catalog), before, id);
        let after = prices_after(catalog, percent, n);
        assert forall|i: int| 0 <= i < n implies after.contains_key(
            (#[trigger] catalog.items@[i]).id.0,
        ) by {
            if i < n - 1 {
                assert(before.contains_key(catalog.items@[i].id.0));
            }
        }
    }
}

/// The prices are consistent: where the commodities lie in layers, every
/// item of the catalog has a price, and every price is the one that the
/// price equation gives at these prices. A commodity costs what the cheapest
/// company that makes it needs for one unit: the price of what a run
/// consumes plus the labour, divided by the units that the run yields.
pub proof fn law_prices_solve_the_equation(
    catalog: Catalog,
    percent: u32,
    rank: spec_fn(u64) -> nat,
)
    requires
        layered(catalog, rank),
    ensures
        solves(catalog, percent, prices_of(catalog, percent)),
        forall|i: int|
            0 <= i < catalog.items@.len() ==> prices_of(catalog, percent).contains_key(
                (#[trigger] catalog.items@[i]).id.0,
            ),
{
    lemma_prices_after(catalog, percent, rank, catalog.items@.len());
}

} // verus!

//! What holds of every pass of matching, whatever the orders.

use crate::keys::{ascending, lemma_sorted_keys, sorted_keys};
use crate::ledger::{export_trade, import_trade, settle_trade, Book};
use crate::market::{books_after_trades, trades_among, trades_of};
use crate::ranking::{lemma_ranked, nearer, nearer_rel, ranked};
use crate::trade::{Candidate, Trade, TradeTarget};
use crate::types::{ItemID, SoulID};
use vstd::prelude::*;

verus! {

/// The units that `soul` receives by `trades`.
pub open spec fn inflow(trades: Seq<Trade>, soul: u64) -> int
    decreases trades.len(),
{
    if trades.len() == 0 {
        0
    } else {
        inflow(trades.drop_last(), soul) + if trades.last().buyer == TradeTarget::Soul(
            SoulID(soul),
        ) {
            trades.last().qty as int
        } else {
            0
        }
    }
}

/// The units that `soul` gives away by `trades`.
pub open spec fn outflow(trades: Seq<Trade>, soul: u64) -> int
    decreases trades.len(),
{
    if trades.len() == 0 {
        0
    } else {
        outflow(trades.drop_last(), soul) + if trades.last().seller == TradeTarget::Soul(
            SoulID(soul),
        ) {
            trades.last().qty as int
        } else {
            0
        }
    }
}

/// What `soul` receives and gives by two batches is what it receives and
/// gives by each.
proof fn lemma_flow_concat(a: Seq<Trade>, b: Seq<Trade>, soul: u64)
    ensures
        inflow(a + b, soul) == inflow(a, soul) + inflow(b, soul),
        outflow(a + b, soul) == outflow(a, soul) + outflow(b, soul),
    decreases b.len(),
{
    if b.len() == 0 {
        assert(a + b =~= a);
    } else {
        lemma_flow_concat(a, b.drop_last(), soul);
        assert((a + b).drop_last() =~= a + b.drop_last());
    }
}

/// What `soul` receives and gives by a batch with one more trade.
proof fn lemma_flow_push(a: Seq<Trade>, t: Trade, soul: u64)
    ensures
        inflow(a.push(t), soul) == inflow(a, soul) + if t.buyer == TradeTarget::Soul(SoulID(soul)) {
            t.qty as int
        } else {
            0
        },
        outflow(a.push(t), soul) == outflow(a, soul) + if t.seller == TradeTarget::Soul(
            SoulID(soul),
        ) {
            t.qty as int
        } else {
            0
        },
{
    assert(a.push(t).drop_last() =~= a);
}

/// Settling pairings changes what an agent owns by what the trades bring it,
/// less what they take.
proof fn lemma_settling_flow(book: Book, kind: ItemID, cs: Seq<Candidate>, soul: u64)
    ensures
        book.settle_all(cs).balance(soul) == book.balance(soul) + inflow(
            book.trades_settling(kind, cs),
            soul,
        ) - outflow(book.trades_settling(kind, cs), soul),
    decreases cs.len(),
{
    if cs.len() > 0 {
        lemma_settling_flow(book, kind, cs.drop_last(), soul);
        let before = book.settle_all(cs.drop_last());
        if before.can_settle(cs.last()) {
            lemma_flow_push(
                book.trades_settling(kind, cs.drop_last()),
                settle_trade(kind, cs.last()),
                soul,
            );
        }
    }
}

/// Filling buy orders from outside changes what an agent owns by what the
/// trades bring it, less what they take.
proof fn lemma_importing_flow(book: Book, kind: ItemID, souls: Seq<u64>, soul: u64)
    ensures
        book.import_all(souls).balance(soul) == book.balance(soul) + inflow(
            book.trades_importing(kind, souls),
            soul,
        ) - outflow(book.trades_importing(kind, souls), soul),
    decreases souls.len(),
{
    if souls.len() > 0 {
        lemma_importing_flow(book, kind, souls.drop_last(), soul);
        let before = book.import_all(souls.drop_last());
        if before.can_import(souls.last()) {
            lemma_flow_push(
                book.trades_importing(kind, souls.drop_last()),
                import_trade(
                    kind,
                    before.ext_value,
                    souls.last(),
                    before.buys[souls.last()].qty as int,
                ),
                soul,
            );
        }
    }
}

/// Selling surplus outside changes what an agent owns by what the trades
/// bring it, less what they take.
proof fn lemma_exporting_flow(book: Book, kind: ItemID, souls: Seq<u64>, soul: u64)
    ensures
        book.export_all(souls).balance(soul) == book.balance(soul) + inflow(
            book.trades_exporting(kind, souls),
            soul,
        ) - outflow(book.trades_exporting(kind, souls), soul),
    decreases souls.len(),
{
    if souls.len() > 0 {
        lemma_exporting_flow(book, kind, souls.drop_last(), soul);
        let before = book.export_all(souls.drop_last());
        if before.can_export(souls.last()) {
            lemma_flow_push(
                book.trades_exporting(kind, souls.drop_last()),
                export_trade(kind, before.ext_value, souls.last(), before.surplus(souls.last())),
                soul,
            );
        }
    }
}

/// Goods are conserved: over one pass, what an agent owns changes by exactly
/// what the trades of the pass bring it, less what they take from it. A trade
/// between two agents takes from the seller what it brings the buyer.
pub proof fn law_conservation(book: Book, kind: ItemID, soul: u64)
    ensures
        book.after_trades().balance(soul) == book.balance(soul) + inflow(book.trades(kind), soul)
            - outflow(book.trades(kind), soul),
{
    let cs = ranked(book.candidates());
    lemma_settling_flow(book, kind, cs, soul);
    if !book.optout_exttrade {
        let matched = book.after_matching();
        let buyers = sorted_keys(matched.buys.dom());
        lemma_importing_flow(matched, kind, buyers, soul);
        let imported = book.after_imports();
        let sellers = sorted_keys(imported.sells.dom());
        lemma_exporting_flow(imported, kind, sellers, soul);
        let inner = book.trades_settling(kind, cs);
        let imports = matched.trades_importing(kind, buyers);
        let exports = imported.trades_exporting(kind, sellers);
        lemma_flow_concat(inner, imports, soul);
        lemma_flow_concat(inner + imports, exports, soul);
    }
}

/// Whether `t` moves at least one unit between two different sides.
pub open spec fn two_sided(t: Trade) -> bool {
    t.buyer != t.seller && t.qty >= 1
}

/// Each trade that settles a pairing moves goods between two different
/// sides.
proof fn lemma_settling_two_sided(book: Book, kind: ItemID, cs: Seq<Candidate>)
    ensures
        forall|i: int|
            0 <= i < book.trades_settling(kind, cs).len() ==> two_sided(
                #[trigger] book.trades_settling(kind, cs)[i],
            ),
    decreases cs.len(),
{
    if cs.len() > 0 {
        lemma_settling_two_sided(book, kind, cs.drop_last());
        let before = book.trades_settling(kind, cs.drop_last());
        let all = book.trades_settling(kind, cs);
        assert forall|i: int| 0 <= i < all.len() implies two_sided(#[trigger] all[i]) by {
            if i < before.len() {
                assert(all[i] == before[i]);
            }
        }
    }
}

/// Each trade that fills a buy order from outside moves goods between two
/// different sides.
proof fn lemma_importing_two_sided(book: Book, kind: ItemID, souls: Seq<u64>)
    ensures
        forall|i: int|
            0 <= i < book.trades_importing(kind, souls).len() ==> two_sided(
                #[trigger] book.trades_importing(kind, souls)[i],
            ),
    decreases souls.len(),
{
    if souls.len() > 0 {
        lemma_importing_two_sided(book, kind, souls.drop_last());
        let before = book.trades_importing(kind, souls.drop_last());
        let all = book.trades_importing(kind, souls);
        assert forall|i: int| 0 <= i < all.len() implies two_sided(#[trigger] all[i]) by {
            if i < before.len() {
                assert(all[i] == before[i]);
            }
        }
    }
}

/// Each trade that sells surplus outside moves goods between two different
/// sides.
proof fn lemma_exporting_two_sided(book: Book, kind: ItemID, souls: Seq<u64>)
    ensures
        forall|i: int|
            0 <= i < book.trades_exporting(kind, souls).len() ==> two_sided(
                #[trigger] book.trades_exporting(kind, souls)[i],
            ),
    decreases souls.len(),
{
    if souls.len() > 0 {
        lemma_exporting_two_sided(book, kind, souls.drop_last());
        let before = book.trades_exporting(kind, souls.drop_last());
        let all = book.trades_exporting(kind, souls);
        assert forall|i: int| 0 <= i < all.len() implies two_sided(#[trigger] all[i]) by {
            if i < before.len() {
                assert(all[i] == before[i]);
            }
        }
    }
}

/// Each trade of a pass over one commodity moves goods between two
/// different sides.
proof fn lemma_trades_two_sided(book: Book, kind: ItemID)
    ensures
        forall|i: int|
            0 <= i < book.trades(kind).len() ==> two_sided(#[trigger] book.trades(kind)[i]),
{
    let cs = ranked(book.candidates());
    lemma_settling_two_sided(book, kind, cs);
    if !book.optout_exttrade {
        let matched = book.after_matching();
        let imported = book.after_imports();
        lemma_importing_two_sided(matched, kind, sorted_keys(matched.buys.dom()));
        lemma_exporting_two_sided(imported, kind, sorted_keys(imported.sells.dom()));
    }
}

/// Nobody trades with itself: in every trade of a pass over one commodity,
/// buyer and seller differ.
pub proof fn law_no_self_trade(book: Book, kind: ItemID)
    ensures
        forall|i: int|
            0 <= i < book.trades(kind).len() ==> (#[trigger] book.trades(kind)[i]).buyer
                != book.trades(kind)[i].seller,
{
    lemma_trades_two_sided(book, kind);
    assert forall|i: int| 0 <= i < book.trades(kind).len() implies two_sided(
        #[trigger] book.trades(kind)[i],
    ) by {}
}

/// Every trade moves goods: each trade of a pass over one commodity moves at
/// least one unit.
pub proof fn law_every_trade_moves_goods(book: Book, kind: ItemID)
    ensures
        forall|i: int|
            0 <= i < book.trades(kind).len() ==> (#[trigger] book.trades(kind)[i]).qty >= 1,
{
    lemma_trades_two_sided(book, kind);
    assert forall|i: int| 0 <= i < book.trades(kind).len() implies two_sided(
        #[trigger] book.trades(kind)[i],
    ) by {}
}

/// Nobody trades with itself: in every trade of a pass over the whole
/// market, buyer and seller differ.
pub proof fn law_no_self_trade_in_market(books: Map<u64, Book>)
    ensures
        forall|i: int|
            0 <= i < trades_of(books).len() ==> (#[trigger] trades_of(books)[i]).buyer
                != trades_of(books)[i].seller,
{
    lemma_two_sided_among(books, sorted_keys(books.dom()));
    assert forall|i: int| 0 <= i < trades_of(books).len() implies two_sided(
        #[trigger] trades_of(books)[i],
    ) by {}
}

/// Each trade of a pass over several commodities moves goods between two
/// different sides.
proof fn lemma_two_sided_among(books: Map<u64, Book>, kinds: Seq<u64>)
    ensures
        forall|i: int|
            0 <= i < trades_among(books, kinds).len() ==> two_sided(
                #[trigger] trades_among(books, kinds)[i],
            ),
    decreases kinds.len(),
{
    if kinds.len() > 0 {
        lemma_two_sided_among(books, kinds.drop_last());
        lemma_trades_two_sided(books[kinds.last()], ItemID(kinds.last()));
        let before = trades_among(books, kinds.drop_last());
        let last = books[kinds.last()].trades(ItemID(kinds.last()));
        let all = trades_among(books, kinds);
        assert forall|i: int| 0 <= i < all.len() implies two_sided(#[trigger] all[i]) by {
            if i < before.len() {
                assert(all[i] == before[i]);
            } else {
                assert(all[i] == last[i - before.len()]);
            }
        }
    }
}

/// Whether, in the book `at`, the agent `seller` is the seller of `t`, owns
/// at least what `t` moves, and has a sell order that holds at least as much.
pub open spec fn capacity_held(at: Book, t: Trade, seller: u64) -> bool {
    &&& t.seller == TradeTarget::Soul(SoulID(seller))
    &&& 1 <= t.qty <= at.balance(seller)
    &&& at.sells.contains_key(seller)
    &&& t.qty <= at.sells[seller].qty
}

/// Whether `t` is the trade that settled the pairing number `j` of `cs`, at
/// the moment when the pairings before it had been tried on `book`.
pub open spec fn settled_at(
    book: Book,
    kind: ItemID,
    cs: Seq<Candidate>,
    j: int,
    t: Trade,
) -> bool {
    &&& 0 <= j < cs.len()
    &&& book.settle_all(cs.take(j)).can_settle(cs[j])
    &&& t == settle_trade(kind, cs[j])
}

/// Whether `t` is the trade that sold the surplus of seller number `j` of
/// `souls` outside, at the moment when the sellers before it had been tried
/// on `book`.
pub open spec fn exported_at(book: Book, kind: ItemID, souls: Seq<u64>, j: int, t: Trade) -> bool {
    let at = book.export_all(souls.take(j));
    &&& 0 <= j < souls.len()
    &&& at.can_export(souls[j])
    &&& t == export_trade(kind, at.ext_value, souls[j], at.surplus(souls[j]))
}

/// Each trade made while pairings are settled settles one of them, at a
/// moment when it could be settled.
proof fn lemma_settling_origin(book: Book, kind: ItemID, cs: Seq<Candidate>, i: int)
    requires
        0 <= i < book.trades_settling(kind, cs).len(),
    ensures
        exists|j: int| settled_at(book, kind, cs, j, book.trades_settling(kind, cs)[i]),
    decreases cs.len(),
{
    let head = cs.drop_last();
    let before = book.trades_settling(kind, head);
    if i < before.len() {
        lemma_settling_origin(book, kind, head, i);
        let j = choose|j: int| settled_at(book, kind, head, j, before[i]);
        assert(head.take(j) =~= cs.take(j));
        assert(settled_at(book, kind, cs, j, book.trades_settling(kind, cs)[i]));
    } else {
        let j = cs.len() - 1;
        assert(cs.take(j) =~= head);
        assert(settled_at(book, kind, cs, j, book.trades_settling(kind, cs)[i]));
    }
}

/// Each trade made while surplus is sold outside sells that of one seller,
/// at a moment when it could be sold.
proof fn lemma_exporting_origin(book: Book, kind: ItemID, souls: Seq<u64>, i: int)
    requires
        0 <= i < book.trades_exporting(kind, souls).len(),
    ensures
        exists|j: int| exported_at(book, kind, souls, j, book.trades_exporting(kind, souls)[i]),
    decreases souls.len(),
{
    let head = souls.drop_last();
    let before = book.trades_exporting(kind, head);
    if i < before.len() {
        lemma_exporting_origin(book, kind, head, i);
        let j = choose|j: int| exported_at(book, kind, head, j, before[i]);
        assert(head.take(j) =~= souls.take(j));
        assert(exported_at(book, kind, souls, j, book.trades_exporting(kind, souls)[i]));
    } else {
        let j = souls.len() - 1;
        assert(souls.take(j) =~= head);
        assert(exported_at(book, kind, souls, j, book.trades_exporting(kind, souls)[i]));
    }
}

/// Capacity is respected between agents: each trade between two agents was
/// made at a moment of the pass at which the seller owned at least the
/// traded quantity and its sell order held at least that much.
pub proof fn law_capacity_between_agents(book: Book, kind: ItemID, i: int)
    requires
        0 <= i < book.trades_settling(kind, ranked(book.candidates())).len(),
    ensures
        exists|j: int|
            #![trigger book.settle_all(ranked(book.candidates()).take(j))]
            {
                &&& settled_at(
                    book,
                    kind,
                    ranked(book.candidates()),
                    j,
                    book.trades_settling(kind, ranked(book.candidates()))[i],
                )
                &&& capacity_held(
                    book.settle_all(ranked(book.candidates()).take(j)),
                    book.trades_settling(kind, ranked(book.candidates()))[i],
                    ranked(book.candidates())[j].seller.0,
                )
            },
{
    let cs = ranked(book.candidates());
    lemma_settling_origin(book, kind, cs, i);
    let t = book.trades_settling(kind, cs)[i];
    let j = choose|j: int| settled_at(book, kind, cs, j, t);
    assert(settled_at(book, kind, cs, j, t));
    assert(capacity_held(book.settle_all(cs.take(j)), t, cs[j].seller.0));
}

/// Capacity is respected toward the outside: each sale to the outside market
/// was made at a moment of the pass at which the seller owned at least the
/// sold quantity and its sell order held at least that much.
pub proof fn law_capacity_toward_outside(book: Book, kind: ItemID, i: int)
    requires
        0 <= i < book.after_imports().trades_exporting(
            kind,
            sorted_keys(book.after_imports().sells.dom()),
        ).len(),
    ensures
        exists|j: int|
            #![trigger book.after_imports().export_all(sorted_keys(book.after_imports().sells.dom()).take(j))]
            {
                &&& exported_at(
                    book.after_imports(),
                    kind,
                    sorted_keys(book.after_imports().sells.dom()),
                    j,
                    book.after_imports().trades_exporting(
                        kind,
                        sorted_keys(book.after_imports().sells.dom()),
                    )[i],
                )
                &&& capacity_held(
                    book.after_imports().export_all(
                        sorted_keys(book.after_imports().sells.dom()).take(j),
                    ),
                    book.after_imports().trades_exporting(
                        kind,
                        sorted_keys(book.after_imports().sells.dom()),
                    )[i],
                    sorted_keys(book.after_imports().sells.dom())[j],
                )
            },
{
    let from = book.after_imports();
    let souls = sorted_keys(from.sells.dom());
    lemma_exporting_origin(from, kind, souls, i);
    let t = from.trades_exporting(kind, souls)[i];
    let j = choose|j: int| exported_at(from, kind, souls, j, t);
    assert(exported_at(from, kind, souls, j, t));
    assert(capacity_held(from.export_all(souls.take(j)), t, souls[j]));
}

/// Each pairing of `seller` with one of `buyers` pairs two orders that make
/// a candidate.
proof fn lemma_pairings_with_sound(book: Book, seller: u64, buyers: Seq<u64>, c: Candidate)
    requires
        book.pairings_with(seller, buyers).contains(c),
    ensures
        exists|b: u64| #[trigger] book.pairs(seller, b) && c == book.pairing(seller, b),
    decreases buyers.len(),
{
    let all = book.pairings_with(seller, buyers);
    let i = choose|i: int| 0 <= i < all.len() && all[i] == c;
    if buyers.len() > 0 {
        let before = book.pairings_with(seller, buyers.drop_last());
        if i < before.len() {
            assert(before[i] == c);
            lemma_pairings_with_sound(book, seller, buyers.drop_last(), c);
        } else {
            assert(book.pairs(seller, buyers.last()));
        }
    }
}

/// The pairings of `seller` with `buyers` miss no buyer whose order makes a
/// candidate with the seller's.
proof fn lemma_pairings_with_complete(book: Book, seller: u64, buyers: Seq<u64>, b: u64)
    requires
        buyers.contains(b),
        book.pairs(seller, b),
    ensures
        book.pairings_with(seller, buyers).contains(book.pairing(seller, b)),
    decreases buyers.len(),
{
    let all = book.pairings_with(seller, buyers);
    let before = book.pairings_with(seller, buyers.drop_last());
    if buyers.last() == b {
        assert(all[before.len() as int] == book.pairing(seller, b));
    } else {
        let i = choose|i: int| 0 <= i < buyers.len() && buyers[i] == b;
        assert(buyers.drop_last()[i] == b);
        lemma_pairings_with_complete(book, seller, buyers.drop_last(), b);
        let at = choose|at: int| 0 <= at < before.len() && before[at] == book.pairing(seller, b);
        assert(all[at] == book.pairing(seller, b));
    }
}

/// Each pairing among `sellers` and `buyers` pairs two orders that make a
/// candidate.
proof fn lemma_pairings_among_sound(book: Book, sellers: Seq<u64>, buyers: Seq<u64>, c: Candidate)
    requires
        book.pairings_among(sellers, buyers).contains(c),
    ensures
        exists|s: u64, b: u64| #[trigger] book.pairs(s, b) && c == book.pairing(s, b),
    decreases sellers.len(),
{
    let all = book.pairings_among(sellers, buyers);
    let i = choose|i: int| 0 <= i < all.len() && all[i] == c;
    if sellers.len() > 0 {
        let before = book.pairings_among(sellers.drop_last(), buyers);
        let last = book.pairings_with(sellers.last(), buyers);
        if i < before.len() {
            assert(before[i] == c);
            lemma_pairings_among_sound(book, sellers.drop_last(), buyers, c);
        } else {
            assert(last[i - before.len()] == c);
            lemma_pairings_with_sound(book, sellers.last(), buyers, c);
            let b = choose|b: u64| #[trigger]
                book.pairs(sellers.last(), b) && c == book.pairing(sellers.last(), b);
            assert(book.pairs(sellers.last(), b) && c == book.pairing(sellers.last(), b));
        }
    }
}

/// The pairings among `sellers` and `buyers` miss no two orders that make a
/// candidate.
proof fn lemma_pairings_among_complete(
    book: Book,
    sellers: Seq<u64>,
    buyers: Seq<u64>,
    s: u64,
    b: u64,
)
    requires
        sellers.contains(s),
        buyers.contains(b),
        book.pairs(s, b),
    ensures
        book.pairings_among(sellers, buyers).contains(book.pairing(s, b)),
    decreases sellers.len(),
{
    let all = book.pairings_among(sellers, buyers);
    let before = book.pairings_among(sellers.drop_last(), buyers);
    let last = book.pairings_with(sellers.last(), buyers);
    if sellers.last() == s {
        lemma_pairings_with_complete(book, s, buyers, b);
        let at = choose|at: int| 0 <= at < last.len() && last[at] == book.pairing(s, b);
        assert(all[before.len() + at] == book.pairing(s, b));
    } else {
        let i = choose|i: int| 0 <= i < sellers.len() && sellers[i] == s;
        assert(sellers.drop_last()[i] == s);
        lemma_pairings_among_complete(book, sellers.drop_last(), buyers, s, b);
        let at = choose|at: int| 0 <= at < before.len() && before[at] == book.pairing(s, b);
        assert(all[at] == book.pairing(s, b));
    }
}

/// Every pair is tried, and nothing else: the pairings that a pass tries are
/// those of a sell order with a buy order of another agent, where the seller
/// owns all that its order offers and the order offers at least what the
/// buyer asks for. They are tried nearest first.
pub proof fn law_every_pair_is_tried(book: Book)
    requires
        book.wf(),
    ensures
        forall|c: Candidate|
            ranked(book.candidates()).contains(c) ==> exists|s: u64, b: u64| #[trigger]
                book.pairs(s, b) && c == book.pairing(s, b),
        forall|s: u64, b: u64| #[trigger]
            book.pairs(s, b) ==> ranked(book.candidates()).contains(book.pairing(s, b)),
        forall|i: int, j: int|
            0 <= i < j < ranked(book.candidates()).len() ==> nearer(
                #[trigger] ranked(book.candidates())[i],
                #[trigger] ranked(book.candidates())[j],
            ),
{
    broadcast use vstd::seq_lib::to_multiset_contains;

    let cs = book.candidates();
    let sellers = sorted_keys(book.sells.dom());
    let buyers = sorted_keys(book.buys.dom());
    lemma_sorted_keys(book.sells.dom());
    lemma_sorted_keys(book.buys.dom());
    lemma_ranked(cs);
    assert forall|c: Candidate| ranked(cs).contains(c) implies exists|s: u64, b: u64| #[trigger]
        book.pairs(s, b) && c == book.pairing(s, b) by {
        assert(ranked(cs).to_multiset().count(c) > 0);
        assert(cs.to_multiset().count(c) > 0);
        assert(cs.contains(c));
        lemma_pairings_among_sound(book, sellers, buyers, c);
    }
    assert forall|s: u64, b: u64| #[trigger] book.pairs(s, b) implies ranked(cs).contains(
        book.pairing(s, b),
    ) by {
        assert(sellers.contains(s));
        assert(buyers.contains(b));
        lemma_pairings_among_complete(book, sellers, buyers, s, b);
        assert(cs.to_multiset().count(book.pairing(s, b)) > 0);
        assert(ranked(cs).to_multiset().count(book.pairing(s, b)) > 0);
    }
    assert forall|i: int, j: int| 0 <= i < j < ranked(cs).len() implies nearer(
        #[trigger] ranked(cs)[i],
        #[trigger] ranked(cs)[j],
    ) by {
        assert(nearer_rel()(ranked(cs)[i], ranked(cs)[j]));
    }
}

/// The number of trades among `trades` by which `soul` buys.
pub open spec fn purchases(trades: Seq<Trade>, soul: u64) -> nat
    decreases trades.len(),
{
    if trades.len() == 0 {
        0
    } else {
        purchases(trades.drop_last(), soul) + if trades.last().buyer == TradeTarget::Soul(
            SoulID(soul),
        ) {
            1nat
        } else {
            0nat
        }
    }
}

/// Whether the trades `made` account for every buy order that `from` holds
/// and `to` holds no more: each buy order of `to` stands in `from` as it is,
/// its buyer owning no more than before, and an agent has bought once if its
/// order is gone and never otherwise.
pub open spec fn buys_accounted(from: Book, to: Book, made: Seq<Trade>) -> bool {
    &&& forall|k: u64| #[trigger]
        to.buys.contains_key(k) ==> from.buys.contains_key(k) && to.buys[k] == from.buys[k]
            && to.balance(k) <= from.balance(k)
    &&& forall|k: u64| #[trigger]
        purchases(made, k) == if from.buys.contains_key(k) && !to.buys.contains_key(k) {
            1nat
        } else {
            0nat
        }
}

/// The purchases of `soul` in a batch with one more trade.
proof fn lemma_purchases_push(a: Seq<Trade>, t: Trade, soul: u64)
    ensures
        purchases(a.push(t), soul) == purchases(a, soul) + if t.buyer == TradeTarget::Soul(
            SoulID(soul),
        ) {
            1nat
        } else {
            0nat
        },
{
    assert(a.push(t).drop_last() =~= a);
}

/// The trades that settle pairings account for the buy orders that are
/// gone.
proof fn lemma_settling_buys(book: Book, kind: ItemID, cs: Seq<Candidate>)
    ensures
        buys_accounted(book, book.settle_all(cs), book.trades_settling(kind, cs)),
    decreases cs.len(),
{
    if cs.len() > 0 {
        lemma_settling_buys(book, kind, cs.drop_last());
        let at = book.settle_all(cs.drop_last());
        let made = book.trades_settling(kind, cs.drop_last());
        let c = cs.last();
        if at.can_settle(c) {
            let t = settle_trade(kind, c);
            assert forall|k: u64| #[trigger]
                purchases(made.push(t), k) == if book.buys.contains_key(k) && !at.settle(
                    c,
                ).buys.contains_key(k) {
                    1nat
                } else {
                    0nat
                } by {
                lemma_purchases_push(made, t, k);
                assert(purchases(made, k) == if book.buys.contains_key(k) && !at.buys.contains_key(
                    k,
                ) {
                    1nat
                } else {
                    0nat
                });
                if k == c.buyer.0 {
                    assert(at.buys.contains_key(k));
                    assert(c.buyer == SoulID(k));
                } else {
                    assert(c.buyer != SoulID(k));
                }
            }
            assert forall|k: u64| #[trigger]
                at.settle(c).buys.contains_key(k) implies book.buys.contains_key(k) && at.settle(
                c,
            ).buys[k] == book.buys[k] && at.settle(c).balance(k) <= book.balance(k) by {
                assert(at.buys.contains_key(k));
            }
        }
    } else {
        assert forall|k: u64| #[trigger]
            purchases(Seq::<Trade>::empty(), k) == 0nat by {}
    }
}

/// Filling buy orders from outside keeps the account of the buy orders
/// that are gone.
proof fn lemma_importing_buys(
    from: Book,
    made: Seq<Trade>,
    book: Book,
    kind: ItemID,
    souls: Seq<u64>,
)
    requires
        buys_accounted(from, book, made),
    ensures
        buys_accounted(from, book.import_all(souls), made + book.trades_importing(kind, souls)),
    decreases souls.len(),
{
    if souls.len() > 0 {
        lemma_importing_buys(from, made, book, kind, souls.drop_last());
        let at = book.import_all(souls.drop_last());
        let so_far = made + book.trades_importing(kind, souls.drop_last());
        let soul = souls.last();
        if at.can_import(soul) {
            let t = import_trade(kind, at.ext_value, soul, at.buys[soul].qty as int);
            assert(made + book.trades_importing(kind, souls) =~= so_far.push(t));
            assert forall|k: u64| #[trigger]
                purchases(so_far.push(t), k) == if from.buys.contains_key(k) && !at.import(
                    soul,
                ).buys.contains_key(k) {
                    1nat
                } else {
                    0nat
                } by {
                lemma_purchases_push(so_far, t, k);
                assert(purchases(so_far, k) == if from.buys.contains_key(k)
                    && !at.buys.contains_key(k) {
                    1nat
                } else {
                    0nat
                });
                if k == soul {
                    assert(at.buys.contains_key(k));
                } else {
                    assert(SoulID(soul) != SoulID(k));
                }
            }
            assert forall|k: u64| #[trigger]
                at.import(soul).buys.contains_key(k) implies from.buys.contains_key(k) && at.import(
                soul,
            ).buys[k] == from.buys[k] && at.import(soul).balance(k) <= from.balance(k) by {
                assert(at.buys.contains_key(k));
            }
        }
    } else {
        assert(made + book.trades_importing(kind, souls) =~= made);
    }
}

/// Selling surplus outside keeps the account of the buy orders that are
/// gone, and touches no buy order.
proof fn lemma_exporting_buys(
    from: Book,
    made: Seq<Trade>,
    book: Book,
    kind: ItemID,
    souls: Seq<u64>,
)
    requires
        buys_accounted(from, book, made),
    ensures
        buys_accounted(from, book.export_all(souls), made + book.trades_exporting(kind, souls)),
        book.export_all(souls).buys == book.buys,
    decreases souls.len(),
{
    if souls.len() > 0 {
        lemma_exporting_buys(from, made, book, kind, souls.drop_last());
        let at = book.export_all(souls.drop_last());
        let so_far = made + book.trades_exporting(kind, souls.drop_last());
        let soul = souls.last();
        if at.can_export(soul) {
            let t = export_trade(kind, at.ext_value, soul, at.surplus(soul));
            assert(made + book.trades_exporting(kind, souls) =~= so_far.push(t));
            assert forall|k: u64| #[trigger]
                purchases(so_far.push(t), k) == if from.buys.contains_key(k) && !at.export(
                    soul,
                ).buys.contains_key(k) {
                    1nat
                } else {
                    0nat
                } by {
                lemma_purchases_push(so_far, t, k);
                assert(purchases(so_far, k) == if from.buys.contains_key(k)
                    && !at.buys.contains_key(k) {
                    1nat
                } else {
                    0nat
                });
            }
            assert forall|k: u64| #[trigger]
                at.export(soul).buys.contains_key(k) implies from.buys.contains_key(k) && at.export(
                soul,
            ).buys[k] == from.buys[k] && at.export(soul).balance(k) <= from.balance(k) by {
                assert(at.buys.contains_key(k));
            }
        }
    } else {
        assert(made + book.trades_exporting(kind, souls) =~= made);
    }
}

/// The trades of a pass account for the buy orders that are gone after
/// it.
proof fn lemma_pass_buys(book: Book, kind: ItemID)
    ensures
        buys_accounted(
            book,
            book.after_matching(),
            book.trades_settling(kind, ranked(book.candidates())),
        ),
        buys_accounted(book, book.after_trades(), book.trades(kind)),
        !book.optout_exttrade ==> book.after_trades().buys == book.after_imports().buys,
{
    let cs = ranked(book.candidates());
    let inner = book.trades_settling(kind, cs);
    lemma_settling_buys(book, kind, cs);
    if !book.optout_exttrade {
        let matched = book.after_matching();
        let buyers = sorted_keys(matched.buys.dom());
        lemma_importing_buys(book, inner, matched, kind, buyers);
        let imported = book.after_imports();
        let sellers = sorted_keys(imported.sells.dom());
        lemma_exporting_buys(
            book,
            inner + matched.trades_importing(kind, buyers),
            imported,
            kind,
            sellers,
        );
    }
}

/// No buy order disappears unsettled, and none is settled twice: over one
/// pass, an agent buys exactly once if its buy order is gone afterwards, and
/// not at all otherwise. A buy order that is still there has not changed.
pub proof fn law_buy_orders_accounted(book: Book, kind: ItemID, soul: u64)
    ensures
        purchases(book.trades(kind), soul) == if book.buys.contains_key(soul)
            && !book.after_trades().buys.contains_key(soul) {
            1nat
        } else {
            0nat
        },
        book.after_trades().buys.contains_key(soul) ==> book.buys.contains_key(soul)
            && book.after_trades().buys[soul] == book.buys[soul],
{
    lemma_pass_buys(book, kind);
    assert(purchases(book.trades(kind), soul) == if book.buys.contains_key(soul)
        && !book.after_trades().buys.contains_key(soul) {
        1nat
    } else {
        0nat
    });
}

/// The outside market fills the buy order of each buyer that it comes by,
/// if the buyer's balance can take the goods.
proof fn lemma_import_all_fills(
    from: Book,
    made: Seq<Trade>,
    book: Book,
    kind: ItemID,
    souls: Seq<u64>,
    soul: u64,
)
    requires
        from.wf(),
        buys_accounted(from, book, made),
        souls.contains(soul),
        from.buys.contains_key(soul),
        from.balance(soul) + from.buys[soul].qty <= i32::MAX,
    ensures
        !book.import_all(souls).buys.contains_key(soul),
    decreases souls.len(),
{
    let at = book.import_all(souls.drop_last());
    lemma_importing_buys(from, made, book, kind, souls.drop_last());
    if souls.last() == soul {
        if at.buys.contains_key(soul) {
            assert(at.buys[soul] == from.buys[soul]);
            assert(at.can_import(soul));
        }
    } else {
        let i = choose|i: int| 0 <= i < souls.len() && souls[i] == soul;
        assert(souls.drop_last()[i] == soul);
        lemma_import_all_fills(from, made, book, kind, souls.drop_last(), soul);
    }
}

/// The outside market leaves no buyer waiting: where a commodity may be
/// traded with the outside, every buy order that the book holds before a
/// pass is settled by exactly one trade of the pass, with another agent or
/// with the outside, provided that the buyer's balance can take the goods.
pub proof fn law_external_fallback_total(book: Book, kind: ItemID, soul: u64)
    requires
        book.wf(),
        !book.optout_exttrade,
        book.buys.contains_key(soul),
        book.balance(soul) + book.buys[soul].qty <= i32::MAX,
    ensures
        !book.after_trades().buys.contains_key(soul),
        purchases(book.trades(kind), soul) == 1,
{
    let cs = ranked(book.candidates());
    let inner = book.trades_settling(kind, cs);
    let matched = book.after_matching();
    let buyers = sorted_keys(matched.buys.dom());
    lemma_pass_buys(book, kind);
    if matched.buys.contains_key(soul) {
        lemma_settle_all_wf(book, cs);
        lemma_sorted_keys(matched.buys.dom());
        assert(buyers.contains(soul));
        lemma_import_all_fills(book, inner, matched, kind, buyers, soul);
    } else {
        assert forall|k: u64| #[trigger] purchases(Seq::<Trade>::empty(), k) == 0nat by {}
        assert(buys_accounted(matched, matched, Seq::empty()));
        lemma_importing_buys(matched, Seq::empty(), matched, kind, buyers);
    }
    assert(!book.after_imports().buys.contains_key(soul));
    assert(book.after_trades().buys == book.after_imports().buys);
    law_buy_orders_accounted(book, kind, soul);
}

/// Settling pairings keeps a book well formed.
proof fn lemma_settle_all_wf(book: Book, cs: Seq<Candidate>)
    requires
        book.wf(),
    ensures
        book.settle_all(cs).wf(),
    decreases cs.len(),
{
    if cs.len() > 0 {
        lemma_settle_all_wf(book, cs.drop_last());
    }
}

/// Filling buy orders from outside keeps a book well formed.
proof fn lemma_import_all_wf(book: Book, souls: Seq<u64>)
    requires
        book.wf(),
    ensures
        book.import_all(souls).wf(),
    decreases souls.len(),
{
    if souls.len() > 0 {
        lemma_import_all_wf(book, souls.drop_last());
    }
}

/// Selling surplus outside keeps a book well formed.
proof fn lemma_export_all_wf(book: Book, souls: Seq<u64>)
    requires
        book.wf(),
    ensures
        book.export_all(souls).wf(),
    decreases souls.len(),
{
    if souls.len() > 0 {
        lemma_export_all_wf(book, souls.drop_last());
    }
}

/// Orders are cleared once they are used up: a pass leaves no order that
/// names nothing. Every order that is open after a pass over a well-formed
/// book names at least one unit.
pub proof fn law_orders_stay_valid(book: Book)
    requires
        book.wf(),
    ensures
        book.after_trades().wf(),
{
    lemma_settle_all_wf(book, ranked(book.candidates()));
    let matched = book.after_matching();
    lemma_import_all_wf(matched, sorted_keys(matched.buys.dom()));
    let imported = book.after_imports();
    lemma_export_all_wf(imported, sorted_keys(imported.sells.dom()));
}

/// Settling pairings takes no balance below zero.
proof fn lemma_settle_all_keeps_above_zero(book: Book, cs: Seq<Candidate>, soul: u64)
    requires
        book.balance(soul) >= 0,
    ensures
        book.settle_all(cs).balance(soul) >= 0,
    decreases cs.len(),
{
    if cs.len() > 0 {
        lemma_settle_all_keeps_above_zero(book, cs.drop_last(), soul);
    }
}

/// Filling buy orders from outside takes no balance below zero.
proof fn lemma_import_all_keeps_above_zero(book: Book, souls: Seq<u64>, soul: u64)
    requires
        book.balance(soul) >= 0,
    ensures
        book.import_all(souls).balance(soul) >= 0,
    decreases souls.len(),
{
    if souls.len() > 0 {
        lemma_import_all_keeps_above_zero(book, souls.drop_last(), soul);
    }
}

/// Selling surplus outside takes no balance below zero.
proof fn lemma_export_all_keeps_above_zero(book: Book, souls: Seq<u64>, soul: u64)
    requires
        book.balance(soul) >= 0,
    ensures
        book.export_all(souls).balance(soul) >= 0,
    decreases souls.len(),
{
    if souls.len() > 0 {
        lemma_export_all_keeps_above_zero(book, souls.drop_last(), soul);
    }
}

/// Nobody sells what it does not have: a pass takes no balance below zero.
pub proof fn law_no_balance_goes_negative(book: Book, soul: u64)
    requires
        book.balance(soul) >= 0,
    ensures
        book.after_trades().balance(soul) >= 0,
{
    lemma_settle_all_keeps_above_zero(book, ranked(book.candidates()), soul);
    let matched = book.after_matching();
    lemma_import_all_keeps_above_zero(matched, sorted_keys(matched.buys.dom()), soul);
    let imported = book.after_imports();
    lemma_export_all_keeps_above_zero(imported, sorted_keys(imported.sells.dom()), soul);
}

/// Whether the books `a` and `b` say the same of what `soul` owns and offers.
pub open spec fn same_supply(a: Book, b: Book, soul: u64) -> bool {
    &&& a.balance(soul) == b.balance(soul)
    &&& a.sells.contains_key(soul) == b.sells.contains_key(soul)
    &&& a.sells.contains_key(soul) ==> a.sells[soul] == b.sells[soul]
}

/// Selling the surplus of several sellers outside does to each of them what
/// selling its surplus alone does, and nothing to anybody else.
proof fn lemma_export_all_at(book: Book, souls: Seq<u64>, soul: u64)
    requires
        ascending(souls),
    ensures
        same_supply(
            book.export_all(souls),
            if souls.contains(soul) {
                book.export(soul)
            } else {
                book
            },
            soul,
        ),
    decreases souls.len(),
{
    if souls.len() > 0 {
        let head = souls.drop_last();
        lemma_export_all_at(book, head, soul);
        if souls.last() == soul {
            if head.contains(soul) {
                let i = choose|i: int| 0 <= i < head.len() && head[i] == soul;
                assert(souls[i] < souls[souls.len() - 1]);
            }
            assert(souls[souls.len() - 1] == soul);
        } else {
            if souls.contains(soul) {
                let i = choose|i: int| 0 <= i < souls.len() && souls[i] == soul;
                assert(head[i] == soul);
            }
            if head.contains(soul) {
                let i = choose|i: int| 0 <= i < head.len() && head[i] == soul;
                assert(souls[i] == soul);
            }
        }
    }
}

/// Surplus goes outside: where a commodity may be traded with the outside,
/// the pass ends by selling, for each seller on its own, what its order
/// still holds above the protected stock, if the seller owns that much.
/// Nobody else's balance or sell order changes at that stage.
pub proof fn law_surplus_goes_outside(book: Book, soul: u64)
    requires
        book.wf(),
        !book.optout_exttrade,
    ensures
        same_supply(book.after_trades(), book.after_imports().export(soul), soul),
{
    let matched = book.after_matching();
    lemma_settle_all_wf(book, ranked(book.candidates()));
    lemma_import_all_wf(matched, sorted_keys(matched.buys.dom()));
    let imported = book.after_imports();
    let sellers = sorted_keys(imported.sells.dom());
    lemma_sorted_keys(imported.sells.dom());
    lemma_export_all_at(imported, sellers, soul);
}

/// A pass moves goods and nothing else: it changes neither the price of the
/// commodity on the outside market nor whether the commodity may go there.
pub proof fn law_terms_unchanged(book: Book)
    ensures
        book.after_trades().ext_value == book.ext_value,
        book.after_trades().optout_exttrade == book.optout_exttrade,
{
    book.lemma_settle_all_terms(ranked(book.candidates()));
    let matched = book.after_matching();
    matched.lemma_import_all_terms(sorted_keys(matched.buys.dom()));
    let imported = book.after_imports();
    imported.lemma_export_all_terms(sorted_keys(imported.sells.dom()));
}

/// The trades among `trades` that move the commodity `kind`, in their order.
pub open spec fn of_kind(trades: Seq<Trade>, kind: ItemID) -> Seq<Trade>
    decreases trades.len(),
{
    if trades.len() == 0 {
        Seq::empty()
    } else {
        let before = of_kind(trades.drop_last(), kind);
        if trades.last().kind == kind {
            before.push(trades.last())
        } else {
            before
        }
    }
}

/// The trades of one kind in two batches are those in each.
proof fn lemma_of_kind_concat(a: Seq<Trade>, b: Seq<Trade>, kind: ItemID)
    ensures
        of_kind(a + b, kind) == of_kind(a, kind) + of_kind(b, kind),
    decreases b.len(),
{
    if b.len() == 0 {
        assert(a + b =~= a);
        assert(of_kind(a, kind) + of_kind(b, kind) =~= of_kind(a, kind));
    } else {
        lemma_of_kind_concat(a, b.drop_last(), kind);
        assert((a + b).drop_last() =~= a + b.drop_last());
        assert(of_kind(a + b, kind) =~= of_kind(a, kind) + of_kind(b, kind));
    }
}

/// Where every trade of a batch moves `made`, the batch holds all of its
/// trades of that kind and none of any other.
proof fn lemma_of_kind_uniform(trades: Seq<Trade>, made: ItemID, kind: ItemID)
    requires
        forall|i: int| 0 <= i < trades.len() ==> (#[trigger] trades[i]).kind == made,
    ensures
        of_kind(trades, kind) == if made == kind {
            trades
        } else {
            Seq::empty()
        },
    decreases trades.len(),
{
    if trades.len() > 0 {
        lemma_of_kind_uniform(trades.drop_last(), made, kind);
        assert(trades.last() == trades[trades.len() - 1]);
        if made == kind {
            assert(trades.drop_last().push(trades.last()) =~= trades);
        }
    }
}

/// Each trade that settles a pairing moves the commodity of the ledger.
proof fn lemma_settling_kind(book: Book, kind: ItemID, cs: Seq<Candidate>)
    ensures
        forall|i: int|
            0 <= i < book.trades_settling(kind, cs).len() ==> (#[trigger] book.trades_settling(
                kind,
                cs,
            )[i]).kind == kind,
    decreases cs.len(),
{
    if cs.len() > 0 {
        lemma_settling_kind(book, kind, cs.drop_last());
        let before = book.trades_settling(kind, cs.drop_last());
        let all = book.trades_settling(kind, cs);
        assert forall|i: int| 0 <= i < all.len() implies (#[trigger] all[i]).kind == kind by {
            if i < before.len() {
                assert(all[i] == before[i]);
            }
        }
    }
}

/// Each trade that fills a buy order from outside moves the commodity of
/// the ledger.
proof fn lemma_importing_kind(book: Book, kind: ItemID, souls: Seq<u64>)
    ensures
        forall|i: int|
            0 <= i < book.trades_importing(kind, souls).len() ==> (#[trigger] book.trades_importing(
                kind,
                souls,
            )[i]).kind == kind,
    decreases souls.len(),
{
    if souls.len() > 0 {
        lemma_importing_kind(book, kind, souls.drop_last());
        let before = book.trades_importing(kind, souls.drop_last());
        let all = book.trades_importing(kind, souls);
        assert forall|i: int| 0 <= i < all.len() implies (#[trigger] all[i]).kind == kind by {
            if i < before.len() {
                assert(all[i] == before[i]);
            }
        }
    }
}

/// Each trade that sells surplus outside moves the commodity of the
/// ledger.
proof fn lemma_exporting_kind(book: Book, kind: ItemID, souls: Seq<u64>)
    ensures
        forall|i: int|
            0 <= i < book.trades_exporting(kind, souls).len() ==> (#[trigger] book.trades_exporting(
                kind,
                souls,
            )[i]).kind == kind,
    decreases souls.len(),
{
    if souls.len() > 0 {
        lemma_exporting_kind(book, kind, souls.drop_last());
        let before = book.trades_exporting(kind, souls.drop_last());
        let all = book.trades_exporting(kind, souls);
        assert forall|i: int| 0 <= i < all.len() implies (#[trigger] all[i]).kind == kind by {
            if i < before.len() {
                assert(all[i] == before[i]);
            }
        }
    }
}

/// Every trade of a pass over the ledger of `kind` moves `kind`.
pub proof fn lemma_trades_kind(book: Book, kind: ItemID)
    ensures
        forall|i: int|
            0 <= i < book.trades(kind).len() ==> (#[trigger] book.trades(kind)[i]).kind == kind,
{
    let cs = ranked(book.candidates());
    lemma_settling_kind(book, kind, cs);
    if !book.optout_exttrade {
        let matched = book.after_matching();
        let imported = book.after_imports();
        lemma_importing_kind(matched, kind, sorted_keys(matched.buys.dom()));
        lemma_exporting_kind(imported, kind, sorted_keys(imported.sells.dom()));
    }
}

/// Among the trades of a pass over several commodities, those of one kind
/// are the trades of the pass over its ledger.
proof fn lemma_of_kind_among(books: Map<u64, Book>, kinds: Seq<u64>, kind: u64)
    requires
        ascending(kinds),
    ensures
        of_kind(trades_among(books, kinds), ItemID(kind)) == if kinds.contains(kind) {
            books[kind].trades(ItemID(kind))
        } else {
            Seq::empty()
        },
    decreases kinds.len(),
{
    if kinds.len() > 0 {
        let head = kinds.drop_last();
        let last = kinds.last();
        let batch = books[last].trades(ItemID(last));
        lemma_of_kind_among(books, head, kind);
        lemma_of_kind_concat(trades_among(books, head), batch, ItemID(kind));
        lemma_trades_kind(books[last], ItemID(last));
        lemma_of_kind_uniform(batch, ItemID(last), ItemID(kind));
        if last == kind {
            assert(kinds[kinds.len() - 1] == kind);
            if head.contains(kind) {
                let i = choose|i: int| 0 <= i < head.len() && head[i] == kind;
                assert(kinds[i] < kinds[kinds.len() - 1]);
            }
            assert(Seq::<Trade>::empty() + batch =~= batch);
        } else {
            if kinds.contains(kind) {
                let i = choose|i: int| 0 <= i < kinds.len() && kinds[i] == kind;
                assert(head[i] == kind);
            }
            if head.contains(kind) {
                let i = choose|i: int| 0 <= i < head.len() && head[i] == kind;
                assert(kinds[i] == kind);
            }
            assert(of_kind(trades_among(books, head), ItemID(kind)) + Seq::<Trade>::empty()
                =~= of_kind(trades_among(books, head), ItemID(kind)));
        }
    }
}

/// The commodities do not touch each other: in a pass over the whole market,
/// the trades that move a commodity, and what becomes of its book, are those
/// of a pass over its ledger alone.
pub proof fn law_commodities_independent(books: Map<u64, Book>, kind: u64)
    requires
        books.dom().finite(),
        books.contains_key(kind),
    ensures
        of_kind(trades_of(books), ItemID(kind)) == books[kind].trades(ItemID(kind)),
        books_after_trades(books)[kind] == books[kind].after_trades(),
{
    lemma_sorted_keys(books.dom());
    assert(sorted_keys(books.dom()).contains(kind));
    lemma_of_kind_among(books, sorted_keys(books.dom()), kind);
}

/// Goods are conserved in the whole market: over one pass, what an agent
/// owns of a commodity changes by exactly what the trades in that commodity
/// bring it, less what they take from it.
pub proof fn law_conservation_in_market(books: Map<u64, Book>, kind: u64, soul: u64)
    requires
        books.dom().finite(),
        books.contains_key(kind),
    ensures
        books_after_trades(books)[kind].balance(soul) == books[kind].balance(soul) + inflow(
            of_kind(trades_of(books), ItemID(kind)),
            soul,
        ) - outflow(of_kind(trades_of(books), ItemID(kind)), soul),
{
    law_commodities_independent(books, kind);
    law_conservation(books[kind], ItemID(kind), soul);
}

/// The outside market leaves no buyer waiting in the whole market: where a
/// commodity may be traded with the outside, every buy order for it that the
/// market holds before a pass is settled by exactly one trade of the pass,
/// provided that the buyer's balance can take the goods.
pub proof fn law_external_fallback_total_in_market(books: Map<u64, Book>, kind: u64, soul: u64)
    requires
        books.dom().finite(),
        books.contains_key(kind),
        books[kind].wf(),
        !books[kind].optout_exttrade,
        books[kind].buys.contains_key(soul),
        books[kind].balance(soul) + books[kind].buys[soul].qty <= i32::MAX,
    ensures
        !books_after_trades(books)[kind].buys.contains_key(soul),
        purchases(of_kind(trades_of(books), ItemID(kind)), soul) == 1,
{
    law_commodities_independent(books, kind);
    law_external_fallback_total(books[kind], ItemID(kind), soul);
}

/// The same orders give the same trades: two markets that hold the same
/// balances and the same orders at the same positions make the same trades,
/// in the same order, and end with the same books.
pub proof fn law_deterministic(a: Map<u64, Book>, b: Map<u64, Book>)
    requires
        a.dom() =~= b.dom(),
        forall|k: u64|
            a.contains_key(k) ==> {
                &&& (#[trigger] a[k]).capital =~= b[k].capital
                &&& a[k].buys =~= b[k].buys
                &&& a[k].sells =~= b[k].sells
                &&& a[k].ext_value == b[k].ext_value
                &&& a[k].optout_exttrade == b[k].optout_exttrade
            },
    ensures
        trades_of(a) == trades_of(b),
        books_after_trades(a) == books_after_trades(b),
{
    assert(a =~= b);
}

} // verus!

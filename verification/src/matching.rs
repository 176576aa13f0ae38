//! The exchange simulator: a deterministic matching engine for backtests.
//!
//! Resting orders are kept in two books (bids and asks), each strictly
//! ordered by price-then-time priority: better price first, ties broken by
//! ascending submission sequence (oldest first). A market-data tick fills
//! the best-ranked crossing orders first; partial fills consume only the
//! available quantity and leave the remainder resting. Every operation is
//! a pure function of the book and its input, which is what makes a
//! backtest replay reproducible.

use vstd::prelude::*;
use crate::identifiers::{ClientOrderId, StrategyId};
use crate::order::{OrderSide, OrderType};
use crate::events::RejectReason;

verus! {

/// An order resting in the simulated book.
#[derive(Clone, Copy, Debug, PartialEq, Eq, Structural)]
pub struct RestingOrder {
    pub client_order_id: ClientOrderId,
    pub strategy_id: StrategyId,
    pub side: OrderSide,
    pub order_type: OrderType,
    pub price: u64,
    pub remaining: u64,
    pub submission_seq: u64,
}

/// A simulated market-data tick: `qty` units of liquidity at `price`,
/// taken by an aggressor on `side`. A `Sell` aggressor consumes the bid
/// book, a `Buy` aggressor consumes the ask book.
#[derive(Clone, Copy, Debug, PartialEq, Eq, Structural)]
pub struct MarketTick {
    pub side: OrderSide,
    pub price: u64,
    pub qty: u64,
    pub ts: u64,
}

/// One fill produced by the simulator: `qty` units of the resting order
/// `client_order_id` executed at `price`.
#[derive(Clone, Copy, Debug, PartialEq, Eq, Structural)]
pub struct FillReport {
    pub client_order_id: ClientOrderId,
    pub qty: u64,
    pub price: u64,
    pub submission_seq: u64,
}

/// Price-then-time priority within one book side: `a` ranks strictly
/// before `b` when it must match first. A market order ranks before every
/// limit order; equal ranks are broken by ascending submission sequence.
pub open spec fn ranks_before(side: OrderSide, a: RestingOrder, b: RestingOrder) -> bool {
    match (a.order_type, b.order_type) {
        (OrderType::Market, OrderType::Limit) => true,
        (OrderType::Limit, OrderType::Market) => false,
        (OrderType::Market, OrderType::Market) => a.submission_seq < b.submission_seq,
        (OrderType::Limit, OrderType::Limit) => {
            if side == OrderSide::Buy {
                a.price > b.price || (a.price == b.price && a.submission_seq < b.submission_seq)
            } else {
                a.price < b.price || (a.price == b.price && a.submission_seq < b.submission_seq)
            }
        },
    }
}

/// Executable twin of [`ranks_before`].
pub fn ranks_before_exec(side: OrderSide, a: &RestingOrder, b: &RestingOrder) -> (r: bool)
    ensures
        r == ranks_before(side, *a, *b),
{
    match (a.order_type, b.order_type) {
        (OrderType::Market, OrderType::Limit) => true,
        (OrderType::Limit, OrderType::Market) => false,
        (OrderType::Market, OrderType::Market) => a.submission_seq < b.submission_seq,
        (OrderType::Limit, OrderType::Limit) => {
            if a.price == b.price {
                a.submission_seq < b.submission_seq
            } else if side == OrderSide::Buy {
                a.price > b.price
            } else {
                a.price < b.price
            }
        },
    }
}

/// Whether a resting order on `side` crosses liquidity offered at `price`:
/// a market order always does, a resting bid crosses at or below its
/// limit, a resting ask at or above it.
pub open spec fn crosses(side: OrderSide, o: RestingOrder, price: u64) -> bool {
    o.order_type == OrderType::Market || (if side == OrderSide::Buy {
        o.price >= price
    } else {
        o.price <= price
    })
}

/// Executable twin of [`crosses`].
pub fn crosses_exec(side: OrderSide, o: &RestingOrder, price: u64) -> (r: bool)
    ensures
        r == crosses(side, *o, price),
{
    match o.order_type {
        OrderType::Market => true,
        OrderType::Limit => {
            if side == OrderSide::Buy {
                o.price >= price
            } else {
                o.price <= price
            }
        },
    }
}

/// Well-formedness of one book side: every order belongs to the side and
/// has at least one unit left; submission sequences are below the next one
/// to assign; and the book is strictly sorted by price-then-time priority,
/// which also makes every pair of submission sequences distinct.
pub open spec fn book_wf(book: Seq<RestingOrder>, side: OrderSide, next_seq: u64) -> bool {
    &&& (forall|i: int|
        0 <= i < book.len() ==> (#[trigger] book[i]).side == side && book[i].remaining >= 1
            && book[i].submission_seq < next_seq)
    &&& (forall|i: int, j: int|
        0 <= i < j < book.len() ==> ranks_before(side, #[trigger] book[i], #[trigger] book[j]))
    &&& (forall|i: int, j: int|
        0 <= i < book.len() && 0 <= j < book.len() && i != j ==> (#[trigger] book[i]).submission_seq
            != (#[trigger] book[j]).submission_seq && book[i].client_order_id
            != book[j].client_order_id)
}

/// Whether some order in `book` carries `cid`.
pub open spec fn book_contains_cid(book: Seq<RestingOrder>, cid: ClientOrderId) -> bool {
    exists|i: int| 0 <= i < book.len() && (#[trigger] book[i]).client_order_id == cid
}

/// Where the new order `o` goes in a book sorted by priority: after every
/// order that ranks before it, before everything else.
pub open spec fn insert_spec(book: Seq<RestingOrder>, side: OrderSide, o: RestingOrder) -> Seq<
    RestingOrder,
>
    decreases book.len(),
{
    if book.len() == 0 {
        seq![o]
    } else if ranks_before(side, book[0], o) {
        seq![book[0]] + insert_spec(book.drop_first(), side, o)
    } else {
        seq![o] + book
    }
}

/// What a tick of `qty` units at `price` does to one book side: the
/// best-ranked order is filled first, for the whole of its remainder if
/// the liquidity suffices (the order then leaves the book) and partially
/// otherwise (the order stays with its remainder reduced); matching stops
/// when the liquidity is consumed or the best-ranked order no longer
/// crosses. Returns the fills in execution order and the resulting book.
pub open spec fn match_spec(book: Seq<RestingOrder>, side: OrderSide, price: u64, qty: u64) -> (
    Seq<FillReport>,
    Seq<RestingOrder>,
)
    decreases book.len(),
{
    if qty == 0 || book.len() == 0 || !crosses(side, book[0], price) {
        (Seq::<FillReport>::empty(), book)
    } else if book[0].remaining <= qty {
        let f = FillReport {
            client_order_id: book[0].client_order_id,
            qty: book[0].remaining,
            price,
            submission_seq: book[0].submission_seq,
        };
        let rec = match_spec(book.drop_first(), side, price, (qty - book[0].remaining) as u64);
        (seq![f] + rec.0, rec.1)
    } else {
        let f = FillReport {
            client_order_id: book[0].client_order_id,
            qty,
            price,
            submission_seq: book[0].submission_seq,
        };
        let updated = RestingOrder { remaining: (book[0].remaining - qty) as u64, ..book[0] };
        (seq![f], seq![updated] + book.drop_first())
    }
}

/// The book that results from taking the order carrying `cid` out, or the
/// book unchanged if no order carries it. Under [`book_wf`] at most one
/// order carries `cid`, so the chosen index is the only one.
pub open spec fn remove_cid_spec(book: Seq<RestingOrder>, cid: ClientOrderId) -> Seq<RestingOrder> {
    if book_contains_cid(book, cid) {
        book.remove(
            choose|i: int| 0 <= i < book.len() && (#[trigger] book[i]).client_order_id == cid,
        )
    } else {
        book
    }
}

/// Whether an incoming order (side, kind, limit price) would cross a
/// resting order `o` of the opposite book.
pub open spec fn would_cross(
    side: OrderSide,
    order_type: OrderType,
    price: u64,
    o: RestingOrder,
) -> bool {
    order_type == OrderType::Market || o.order_type == OrderType::Market || (if side
        == OrderSide::Buy {
        price >= o.price
    } else {
        price <= o.price
    })
}

/// Whether the incoming order of `strategy_id` would cross a resting order
/// of the same strategy in `book` (the opposite side's book).
pub open spec fn self_match_spec(
    book: Seq<RestingOrder>,
    side: OrderSide,
    order_type: OrderType,
    price: u64,
    strategy_id: StrategyId,
) -> bool {
    exists|i: int|
        0 <= i < book.len() && (#[trigger] book[i]).strategy_id == strategy_id && would_cross(
            side,
            order_type,
            price,
            book[i],
        )
}

/// Sum of the fill quantities of a sequence of fills.
pub open spec fn sum_fill_qty(fills: Seq<FillReport>) -> int
    decreases fills.len(),
{
    if fills.len() == 0 {
        0
    } else {
        fills[0].qty + sum_fill_qty(fills.drop_first())
    }
}

/// Liquidity conservation of the simulator: one tick never fills more
/// than the quantity it offered.
pub proof fn lemma_match_conserves(book: Seq<RestingOrder>, side: OrderSide, price: u64, qty: u64)
    ensures
        sum_fill_qty(match_spec(book, side, price, qty).0) <= qty,
    decreases book.len(),
{
    if qty == 0 || book.len() == 0 || !crosses(side, book[0], price) {
    } else if book[0].remaining <= qty {
        let f = FillReport {
            client_order_id: book[0].client_order_id,
            qty: book[0].remaining,
            price,
            submission_seq: book[0].submission_seq,
        };
        let rest = match_spec(book.drop_first(), side, price, (qty - book[0].remaining) as u64).0;
        lemma_match_conserves(book.drop_first(), side, price, (qty - book[0].remaining) as u64);
        assert((seq![f] + rest)[0] == f);
        assert((seq![f] + rest).drop_first() =~= rest);
        assert(sum_fill_qty(seq![f] + rest) == f.qty + sum_fill_qty(rest));
    } else {
        let f = FillReport {
            client_order_id: book[0].client_order_id,
            qty,
            price,
            submission_seq: book[0].submission_seq,
        };
        assert(seq![f][0] == f);
        assert(seq![f].drop_first() =~= Seq::<FillReport>::empty());
        assert(sum_fill_qty(seq![f]) == f.qty + sum_fill_qty(Seq::<FillReport>::empty()));
    }
}

/// Index of the first (and under [`book_wf`] the only) order carrying
/// `cid`, or `None` if no order does.
fn find_cid(book: &Vec<RestingOrder>, cid: ClientOrderId) -> (r: Option<usize>)
    ensures
        match r {
            Some(k) => k < book@.len() && book@[k as int].client_order_id == cid,
            None => !book_contains_cid(book@, cid),
        },
{
    let mut k: usize = 0;
    loop
        invariant
            k <= book@.len(),
            forall|i: int| 0 <= i < k ==> (#[trigger] book@[i]).client_order_id != cid,
        decreases book@.len() - k,
    {
        if k == book.len() {
            return None;
        }
        if book[k].client_order_id.0 == cid.0 {
            return Some(k);
        }
        k = k + 1;
    }
}

/// Whether an incoming order would cross a resting order of its own
/// strategy in `book`; executable twin of [`self_match_spec`].
fn self_match_exec(
    book: &Vec<RestingOrder>,
    side: OrderSide,
    order_type: OrderType,
    price: u64,
    strategy_id: StrategyId,
) -> (r: bool)
    ensures
        r == self_match_spec(book@, side, order_type, price, strategy_id),
{
    let mut k: usize = 0;
    loop
        invariant
            k <= book@.len(),
            forall|i: int|
                0 <= i < k ==> !((#[trigger] book@[i]).strategy_id == strategy_id && would_cross(
                    side,
                    order_type,
                    price,
                    book@[i],
                )),
        decreases book@.len() - k,
    {
        if k == book.len() {
            return false;
        }
        let o = book[k];
        if o.strategy_id.0 == strategy_id.0 {
            let cross = match (order_type, o.order_type) {
                (OrderType::Market, _) => true,
                (_, OrderType::Market) => true,
                (OrderType::Limit, OrderType::Limit) => {
                    if side == OrderSide::Buy {
                        price >= o.price
                    } else {
                        price <= o.price
                    }
                },
            };
            if cross {
                return true;
            }
        }
        k = k + 1;
    }
}

/// Inserts `o` at its priority position; the book stays well formed.
fn insert_resting(
    book: &mut Vec<RestingOrder>,
    side: OrderSide,
    o: RestingOrder,
    Ghost(next): Ghost<u64>,
)
    requires
        book_wf(old(book)@, side, next),
        o.side == side,
        o.remaining >= 1,
        o.submission_seq < next,
        forall|i: int|
            0 <= i < old(book)@.len() ==> (#[trigger] old(book)@[i]).submission_seq
                != o.submission_seq,
        !book_contains_cid(old(book)@, o.client_order_id),
    ensures
        final(book)@ == insert_spec(old(book)@, side, o),
        book_wf(final(book)@, side, next),
        final(book)@.len() == old(book)@.len() + 1,
        forall|i: int|
            0 <= i < final(book)@.len() ==> (#[trigger] final(book)@[i]) == o
                || book_contains_cid_order(old(book)@, final(book)@[i]),
{
    let ghost orig = book@;
    proof {
        assert(orig.skip(0) =~= orig);
        assert(orig.take(0) + insert_spec(orig, side, o) =~= insert_spec(orig, side, o));
    }
    let mut k: usize = 0;
    loop
        invariant
            book@ == orig,
            k <= book@.len(),
            forall|i: int| 0 <= i < k ==> ranks_before(side, #[trigger] book@[i], o),
            insert_spec(orig, side, o) == orig.take(k as int) + insert_spec(
                orig.skip(k as int),
                side,
                o,
            ),
            book_wf(orig, side, next),
            o.side == side && o.remaining >= 1 && o.submission_seq < next,
            forall|i: int|
                0 <= i < orig.len() ==> (#[trigger] orig[i]).submission_seq != o.submission_seq,
            !book_contains_cid(orig, o.client_order_id),
        ensures
            book@ == orig,
            k <= orig.len(),
            forall|i: int| 0 <= i < k ==> ranks_before(side, #[trigger] book@[i], o),
            insert_spec(orig, side, o) == orig.take(k as int) + insert_spec(
                orig.skip(k as int),
                side,
                o,
            ),
            k == orig.len() || !ranks_before(side, orig[k as int], o),
        decreases book@.len() - k,
    {
        if k == book.len() {
            break;
        }
        let e = book[k];
        if !ranks_before_exec(side, &e, &o) {
            break;
        }
        proof {
            let s = orig.skip(k as int);
            assert(s[0] == orig[k as int]);
            assert(s.drop_first() =~= orig.skip(k as int + 1));
            assert(insert_spec(s, side, o) == seq![s[0]] + insert_spec(s.drop_first(), side, o));
            assert(orig.take(k as int) + seq![orig[k as int]] =~= orig.take(k as int + 1));
            assert(orig.take(k as int) + (seq![s[0]] + insert_spec(s.drop_first(), side, o)) =~= (
            orig.take(k as int) + seq![s[0]]) + insert_spec(s.drop_first(), side, o));
        }
        k = k + 1;
    }
    proof {
        let s = orig.skip(k as int);
        if k < orig.len() {
            assert(s[0] == orig[k as int]);
            assert(!ranks_before(side, orig[k as int], o));
            lemma_ranks_before_total(side, orig[k as int], o);
        }
        assert(insert_spec(s, side, o) == seq![o] + s);
        assert(orig.take(k as int) + (seq![o] + s) =~= orig.insert(k as int, o));
    }
    book.insert(k, o);
    proof {
        orig.insert_ensures(k as int, o);
        let nb = book@;
        assert(nb == orig.insert(k as int, o));
        assert forall|i: int| 0 <= i < nb.len() implies (#[trigger] nb[i]).side == side
            && nb[i].remaining >= 1 && nb[i].submission_seq < next by {
            if i < k {
                assert(nb[i] == orig[i]);
            } else if i == k {
                assert(nb[i] == o);
            } else {
                assert(nb[i] == orig[i - 1]);
            }
        }
        assert forall|i: int, j: int| 0 <= i < j < nb.len() implies ranks_before(
            side,
            #[trigger] nb[i],
            #[trigger] nb[j],
        ) by {
            if i < k && j < k {
                assert(nb[i] == orig[i] && nb[j] == orig[j]);
            } else if i < k && j == k {
                assert(nb[i] == orig[i] && nb[j] == o);
            } else if i < k && j > k {
                assert(nb[i] == orig[i] && nb[j] == orig[j - 1]);
            } else if i == k && j > k {
                assert(nb[i] == o && nb[j] == orig[j - 1]);
                assert(ranks_before(side, o, orig[k as int]));
                if j - 1 > k {
                    assert(ranks_before(side, orig[k as int], orig[j - 1]));
                    lemma_ranks_before_trans(side, o, orig[k as int], orig[j - 1]);
                }
            }
        }
        assert forall|i: int, j: int|
            0 <= i < nb.len() && 0 <= j < nb.len() && i != j implies (#[trigger] nb[i]).submission_seq
            != (#[trigger] nb[j]).submission_seq && nb[i].client_order_id
            != nb[j].client_order_id by {
            let oi: RestingOrder = if i < k {
                orig[i]
            } else if i == k {
                o
            } else {
                orig[i - 1]
            };
            let oj: RestingOrder = if j < k {
                orig[j]
            } else if j == k {
                o
            } else {
                orig[j - 1]
            };
            assert(nb[i] == oi && nb[j] == oj);
            if i != k && j != k {
                let ii: int = if i < k { i } else { i - 1 };
                let jj: int = if j < k { j } else { j - 1 };
                assert(oi == orig[ii] && oj == orig[jj] && ii != jj);
            } else if i == k {
                let jj: int = if j < k { j } else { j - 1 };
                assert(oj == orig[jj]);
                assert(!book_contains_cid(orig, o.client_order_id));
                assert(orig[jj].client_order_id != o.client_order_id);
            } else {
                let ii: int = if i < k { i } else { i - 1 };
                assert(oi == orig[ii]);
                assert(orig[ii].client_order_id != o.client_order_id);
            }
        }
        assert forall|i: int| 0 <= i < nb.len() implies (#[trigger] nb[i]) == o
            || book_contains_cid_order(orig, nb[i]) by {
            if i < k {
                assert(nb[i] == orig[i]);
            } else if i > k {
                assert(nb[i] == orig[i - 1]);
            }
        }
    }
}

/// Takes the order carrying `cid` out of the book, if one does; the book
/// stays well formed.
fn remove_resting(
    book: &mut Vec<RestingOrder>,
    cid: ClientOrderId,
    Ghost(side): Ghost<OrderSide>,
    Ghost(next): Ghost<u64>,
) -> (removed: Option<RestingOrder>)
    requires
        book_wf(old(book)@, side, next),
    ensures
        final(book)@ == remove_cid_spec(old(book)@, cid),
        book_wf(final(book)@, side, next),
        forall|i: int|
            0 <= i < final(book)@.len() ==> book_contains_cid_order(
                old(book)@,
                #[trigger] final(book)@[i],
            ),
        match removed {
            Some(o) => book_contains_cid_order(old(book)@, o) && o.client_order_id == cid,
            None => !book_contains_cid(old(book)@, cid),
        },
{
    let ghost orig = book@;
    let k: usize = match find_cid(book, cid) {
        None => {
            return None;
        },
        Some(k) => k,
    };
    let removed = book.remove(k);
    proof {
        let ci = choose|i: int|
            0 <= i < orig.len() && (#[trigger] orig[i]).client_order_id == cid;
        assert(orig[k as int].client_order_id == cid);
        assert(book_contains_cid(orig, cid));
        assert(ci == k as int);
        orig.remove_ensures(k as int);
        let nb = book@;
        assert forall|i: int| 0 <= i < nb.len() implies (#[trigger] nb[i]).side == side
            && nb[i].remaining >= 1 && nb[i].submission_seq < next && book_contains_cid_order(
            orig,
            nb[i],
        ) by {
            if i < k {
                assert(nb[i] == orig[i]);
            } else {
                assert(nb[i] == orig[i + 1]);
            }
        }
        assert forall|i: int, j: int| 0 <= i < j < nb.len() implies ranks_before(
            side,
            #[trigger] nb[i],
            #[trigger] nb[j],
        ) by {
            let ii: int = if i < k { i } else { i + 1 };
            let jj: int = if j < k { j } else { j + 1 };
            assert(nb[i] == orig[ii] && nb[j] == orig[jj]);
        }
        assert forall|i: int, j: int|
            0 <= i < nb.len() && 0 <= j < nb.len() && i != j implies (#[trigger] nb[i]).submission_seq
            != (#[trigger] nb[j]).submission_seq && nb[i].client_order_id
            != nb[j].client_order_id by {
            let ii: int = if i < k { i } else { i + 1 };
            let jj: int = if j < k { j } else { j + 1 };
            assert(nb[i] == orig[ii] && nb[j] == orig[jj] && ii != jj);
        }
    }
    Some(removed)
}

/// Matches one tick's liquidity against one book side; returns the fills
/// in execution order. The book stays well formed and loses no order but
/// those fully filled.
fn match_book(
    book: &mut Vec<RestingOrder>,
    side: OrderSide,
    price: u64,
    qty: u64,
    Ghost(next): Ghost<u64>,
) -> (fills: Vec<FillReport>)
    requires
        book_wf(old(book)@, side, next),
    ensures
        (fills@, final(book)@) == match_spec(old(book)@, side, price, qty),
        book_wf(final(book)@, side, next),
        forall|i: int|
            0 <= i < final(book)@.len() ==> book_contains_cid(
                old(book)@,
                (#[trigger] final(book)@[i]).client_order_id,
            ),
{
    let ghost orig = book@;
    let mut fills: Vec<FillReport> = Vec::new();
    let mut qty_left: u64 = qty;
    proof {
        assert(fills@ + match_spec(book@, side, price, qty_left).0 =~= match_spec(
            book@,
            side,
            price,
            qty_left,
        ).0);
    }
    loop
        invariant
            book_wf(book@, side, next),
            qty_left <= qty,
            match_spec(orig, side, price, qty).0 == fills@ + match_spec(
                book@,
                side,
                price,
                qty_left,
            ).0,
            match_spec(orig, side, price, qty).1 == match_spec(book@, side, price, qty_left).1,
            forall|i: int|
                0 <= i < book@.len() ==> book_contains_cid(
                    orig,
                    (#[trigger] book@[i]).client_order_id,
                ),
        ensures
            book_wf(book@, side, next),
            match_spec(orig, side, price, qty).0 == fills@,
            match_spec(orig, side, price, qty).1 == book@,
            forall|i: int|
                0 <= i < book@.len() ==> book_contains_cid(
                    orig,
                    (#[trigger] book@[i]).client_order_id,
                ),
        decreases book@.len() + qty_left,
    {
        let ghost pre = book@;
        if book.len() == 0 || qty_left == 0 {
            proof {
                assert(match_spec(pre, side, price, qty_left).0 =~= Seq::<FillReport>::empty());
                assert(fills@ + Seq::<FillReport>::empty() =~= fills@);
            }
            break;
        }
        let front = book[0];
        if !crosses_exec(side, &front, price) {
            proof {
                assert(fills@ + Seq::<FillReport>::empty() =~= fills@);
            }
            break;
        }
        if front.remaining <= qty_left {
            let f = FillReport {
                client_order_id: front.client_order_id,
                qty: front.remaining,
                price,
                submission_seq: front.submission_seq,
            };
            fills.push(f);
            qty_left = qty_left - front.remaining;
            book.remove(0);
            proof {
                pre.remove_ensures(0);
                assert(pre.remove(0) =~= pre.drop_first());
                let rec = match_spec(pre.drop_first(), side, price, qty_left);
                assert(match_spec(pre, side, price, (qty_left + front.remaining) as u64) == (
                seq![f] + rec.0, rec.1));
                assert(fills@ =~= fills@.drop_last() + seq![f]);
                assert((fills@.drop_last() + seq![f]) + rec.0 =~= fills@.drop_last() + (seq![f]
                    + rec.0));
                assert forall|i: int| 0 <= i < book@.len() implies book_contains_cid(
                    orig,
                    (#[trigger] book@[i]).client_order_id,
                ) by {
                    assert(book@[i] == pre[i + 1]);
                }
            }
        } else {
            let f = FillReport {
                client_order_id: front.client_order_id,
                qty: qty_left,
                price,
                submission_seq: front.submission_seq,
            };
            fills.push(f);
            let reduced = RestingOrder { remaining: front.remaining - qty_left, ..front };
            book.set(0, reduced);
            qty_left = 0;
            proof {
                let rec = match_spec(pre, side, price, (f.qty) as u64);
                assert(book@ =~= seq![reduced] + pre.drop_first());
                assert(rec.0 == seq![f] && rec.1 == book@);
                assert(match_spec(book@, side, price, 0u64).0 =~= Seq::<FillReport>::empty());
                assert(fills@ =~= fills@.drop_last() + seq![f]);
                assert(fills@ + Seq::<FillReport>::empty() =~= fills@);
                assert forall|i: int, j: int| 0 <= i < j < book@.len() implies ranks_before(
                    side,
                    #[trigger] book@[i],
                    #[trigger] book@[j],
                ) by {
                    assert(book@[j] == pre[j]);
                    if i > 0 {
                        assert(book@[i] == pre[i]);
                    }
                }
                assert forall|i: int| 0 <= i < book@.len() implies book_contains_cid(
                    orig,
                    (#[trigger] book@[i]).client_order_id,
                ) by {
                    if i > 0 {
                        assert(book@[i] == pre[i]);
                    } else {
                        assert(book@[0].client_order_id == pre[0].client_order_id);
                    }
                }
            }
        }
    }
    fills
}

/// Whether `x` itself is an element of `book`.
pub open spec fn book_contains_cid_order(book: Seq<RestingOrder>, x: RestingOrder) -> bool {
    exists|i: int| 0 <= i < book.len() && (#[trigger] book[i]) == x
}

/// Ghost state of the simulator: the two books, the configuration, and
/// the next submission sequence to assign.
pub ghost struct SimView {
    pub bids: Seq<RestingOrder>,
    pub asks: Seq<RestingOrder>,
    pub allow_self_match: bool,
    pub latency: u64,
    pub next_submission_seq: u64,
}

impl SimView {
    /// Both books well formed, and no order resting on both sides: each
    /// client order id rests at most once in the whole simulator.
    pub open spec fn wf(self) -> bool {
        &&& book_wf(self.bids, OrderSide::Buy, self.next_submission_seq)
        &&& book_wf(self.asks, OrderSide::Sell, self.next_submission_seq)
        &&& forall|i: int, j: int|
            0 <= i < self.bids.len() && 0 <= j < self.asks.len() ==> (#[trigger] self.bids[i]).client_order_id
                != (#[trigger] self.asks[j]).client_order_id
    }

    /// What adding an order does: it is refused while it offers no
    /// quantity, while the submission sequence is exhausted or while its
    /// id already rests; it is refused as a self match when it would cross
    /// a resting order of its own strategy (unless the simulator is
    /// configured to allow that); otherwise it rests at its priority
    /// position and is assigned the next submission sequence, which the
    /// result carries.
    pub open spec fn add_order_spec(
        self,
        client_order_id: ClientOrderId,
        strategy_id: StrategyId,
        side: OrderSide,
        order_type: OrderType,
        price: u64,
        quantity: u64,
    ) -> (SimView, Result<u64, RejectReason>) {
        if quantity == 0 || self.next_submission_seq == u64::MAX {
            (self, Err(RejectReason::VenueRejected))
        } else if book_contains_cid(self.bids, client_order_id) || book_contains_cid(
            self.asks,
            client_order_id,
        ) {
            (self, Err(RejectReason::VenueRejected))
        } else if !self.allow_self_match && self_match_spec(
            if side == OrderSide::Buy {
                self.asks
            } else {
                self.bids
            },
            side,
            order_type,
            price,
            strategy_id,
        ) {
            (self, Err(RejectReason::SelfMatchPrevention))
        } else {
            let o = RestingOrder {
                client_order_id,
                strategy_id,
                side,
                order_type,
                price,
                remaining: quantity,
                submission_seq: self.next_submission_seq,
            };
            let next = SimView {
                bids: if side == OrderSide::Buy {
                    insert_spec(self.bids, OrderSide::Buy, o)
                } else {
                    self.bids
                },
                asks: if side == OrderSide::Sell {
                    insert_spec(self.asks, OrderSide::Sell, o)
                } else {
                    self.asks
                },
                next_submission_seq: (self.next_submission_seq + 1) as u64,
                ..self
            };
            (next, Ok(self.next_submission_seq))
        }
    }

    /// What removing an order does: the order carrying `cid` leaves its
    /// book; a simulator that does not hold it is unchanged.
    pub open spec fn remove_order_spec(self, cid: ClientOrderId) -> SimView {
        SimView {
            bids: remove_cid_spec(self.bids, cid),
            asks: remove_cid_spec(self.asks, cid),
            ..self
        }
    }

    /// What one tick does: a `Sell` aggressor matches the bid book, a
    /// `Buy` aggressor the ask book, per [`match_spec`]; the opposite book
    /// is untouched.
    pub open spec fn process_tick_spec(self, tick: MarketTick) -> (SimView, Seq<FillReport>) {
        if tick.side == OrderSide::Sell {
            let m = match_spec(self.bids, OrderSide::Buy, tick.price, tick.qty);
            (SimView { bids: m.1, ..self }, m.0)
        } else {
            let m = match_spec(self.asks, OrderSide::Sell, tick.price, tick.qty);
            (SimView { asks: m.1, ..self }, m.0)
        }
    }
}

/// The exchange simulator for one instrument's book.
///
/// Deterministic and single-threaded: every public operation is pinned to
/// a function of the current state and its arguments, so replaying the
/// same inputs from the same configuration reproduces the same fills.
pub struct MatchingEngine {
    pub bids: Vec<RestingOrder>,
    pub asks: Vec<RestingOrder>,
    pub allow_self_match: bool,
    pub latency: u64,
    pub next_submission_seq: u64,
}

impl View for MatchingEngine {
    type V = SimView;

    open spec fn view(&self) -> SimView {
        SimView {
            bids: self.bids@,
            asks: self.asks@,
            allow_self_match: self.allow_self_match,
            latency: self.latency,
            next_submission_seq: self.next_submission_seq,
        }
    }
}

impl MatchingEngine {
    /// An empty simulator. `latency` is the fixed virtual-time offset
    /// added to every venue-side event timestamp; `allow_self_match`
    /// disables self-match prevention.
    pub fn new(allow_self_match: bool, latency: u64) -> (s: MatchingEngine)
        ensures
            s@ == (SimView {
                bids: Seq::<RestingOrder>::empty(),
                asks: Seq::<RestingOrder>::empty(),
                allow_self_match,
                latency,
                next_submission_seq: 0u64,
            }),
            s@.wf(),
    {
        let s = MatchingEngine {
            bids: Vec::new(),
            asks: Vec::new(),
            allow_self_match,
            latency,
            next_submission_seq: 0,
        };
        proof {
            assert(s@.bids =~= Seq::<RestingOrder>::empty());
            assert(s@.asks =~= Seq::<RestingOrder>::empty());
        }
        s
    }

    /// Rests a new order, exactly as [`SimView::add_order_spec`] says.
    pub fn add_order(
        &mut self,
        client_order_id: ClientOrderId,
        strategy_id: StrategyId,
        side: OrderSide,
        order_type: OrderType,
        price: u64,
        quantity: u64,
    ) -> (r: Result<u64, RejectReason>)
        requires
            old(self)@.wf(),
        ensures
            final(self)@.wf(),
            (final(self)@, r) == old(self)@.add_order_spec(
                client_order_id,
                strategy_id,
                side,
                order_type,
                price,
                quantity,
            ),
    {
        if quantity == 0 || self.next_submission_seq == u64::MAX {
            return Err(RejectReason::VenueRejected);
        }
        let in_bids = find_cid(&self.bids, client_order_id);
        let in_asks = find_cid(&self.asks, client_order_id);
        if in_bids.is_some() || in_asks.is_some() {
            return Err(RejectReason::VenueRejected);
        }
        if !self.allow_self_match {
            let crosses_own = match side {
                OrderSide::Buy => self_match_exec(
                    &self.asks,
                    side,
                    order_type,
                    price,
                    strategy_id,
                ),
                OrderSide::Sell => self_match_exec(
                    &self.bids,
                    side,
                    order_type,
                    price,
                    strategy_id,
                ),
            };
            if crosses_own {
                return Err(RejectReason::SelfMatchPrevention);
            }
        }
        let seq_assigned = self.next_submission_seq;
        let o = RestingOrder {
            client_order_id,
            strategy_id,
            side,
            order_type,
            price,
            remaining: quantity,
            submission_seq: seq_assigned,
        };
        let ghost old_bids = self.bids@;
        let ghost old_asks = self.asks@;
        let ghost new_next = (seq_assigned + 1) as u64;
        match side {
            OrderSide::Buy => {
                proof {
                    assert(book_wf(self.bids@, OrderSide::Buy, new_next));
                }
                insert_resting(&mut self.bids, OrderSide::Buy, o, Ghost(new_next));
            },
            OrderSide::Sell => {
                proof {
                    assert(book_wf(self.asks@, OrderSide::Sell, new_next));
                }
                insert_resting(&mut self.asks, OrderSide::Sell, o, Ghost(new_next));
            },
        }
        self.next_submission_seq = self.next_submission_seq + 1;
        proof {
            assert(book_wf(old_bids, OrderSide::Buy, new_next));
            assert(book_wf(old_asks, OrderSide::Sell, new_next));
            assert forall|i: int, j: int|
                0 <= i < self.bids@.len() && 0 <= j < self.asks@.len() implies (
            #[trigger] self.bids@[i]).client_order_id != (#[trigger] self.asks@[j]).client_order_id by {
                if side == OrderSide::Buy {
                    assert(self.asks@[j] == old_asks[j]);
                    if self.bids@[i] == o {
                        assert(!book_contains_cid(old_asks, o.client_order_id));
                    } else {
                        assert(book_contains_cid_order(old_bids, self.bids@[i]));
                        let m = choose|m: int|
                            0 <= m < old_bids.len() && (#[trigger] old_bids[m]) == self.bids@[i];
                        assert(old_bids[m].client_order_id != old_asks[j].client_order_id);
                    }
                } else {
                    assert(self.bids@[i] == old_bids[i]);
                    if self.asks@[j] == o {
                        assert(!book_contains_cid(old_bids, o.client_order_id));
                    } else {
                        assert(book_contains_cid_order(old_asks, self.asks@[j]));
                        let m = choose|m: int|
                            0 <= m < old_asks.len() && (#[trigger] old_asks[m]) == self.asks@[j];
                        assert(old_asks[m].client_order_id != old_bids[i].client_order_id);
                    }
                }
            }
        }
        Ok(seq_assigned)
    }

    /// Whether an incoming order of `strategy_id` would cross a resting
    /// order of the same strategy on the opposite side.
    pub fn would_self_match(
        &self,
        side: OrderSide,
        order_type: OrderType,
        price: u64,
        strategy_id: StrategyId,
    ) -> (r: bool)
        ensures
            r == self_match_spec(
                if side == OrderSide::Buy {
                    self@.asks
                } else {
                    self@.bids
                },
                side,
                order_type,
                price,
                strategy_id,
            ),
    {
        match side {
            OrderSide::Buy => self_match_exec(&self.asks, side, order_type, price, strategy_id),
            OrderSide::Sell => self_match_exec(&self.bids, side, order_type, price, strategy_id),
        }
    }

    /// Takes an order out of the book, exactly as
    /// [`SimView::remove_order_spec`] says; returns whether it was resting.
    pub fn remove_order(&mut self, client_order_id: ClientOrderId) -> (removed: bool)
        requires
            old(self)@.wf(),
        ensures
            final(self)@.wf(),
            final(self)@ == old(self)@.remove_order_spec(client_order_id),
            removed == (book_contains_cid(old(self)@.bids, client_order_id) || book_contains_cid(
                old(self)@.asks,
                client_order_id,
            )),
    {
        let ghost old_bids = self.bids@;
        let ghost old_asks = self.asks@;
        let r1 = remove_resting(
            &mut self.bids,
            client_order_id,
            Ghost(OrderSide::Buy),
            Ghost(self.next_submission_seq),
        );
        let r2 = remove_resting(
            &mut self.asks,
            client_order_id,
            Ghost(OrderSide::Sell),
            Ghost(self.next_submission_seq),
        );
        proof {
            assert forall|i: int, j: int|
                0 <= i < self.bids@.len() && 0 <= j < self.asks@.len() implies (
            #[trigger] self.bids@[i]).client_order_id != (#[trigger] self.asks@[j]).client_order_id by {
                assert(book_contains_cid_order(old_bids, self.bids@[i]));
                assert(book_contains_cid_order(old_asks, self.asks@[j]));
                let m = choose|m: int|
                    0 <= m < old_bids.len() && (#[trigger] old_bids[m]) == self.bids@[i];
                let n = choose|n: int|
                    0 <= n < old_asks.len() && (#[trigger] old_asks[n]) == self.asks@[j];
                assert(old_bids[m].client_order_id != old_asks[n].client_order_id);
            }
        }
        r1.is_some() || r2.is_some()
    }

    /// Matches one market-data tick, exactly as
    /// [`SimView::process_tick_spec`] says; returns the fills in
    /// execution order.
    pub fn process_tick(&mut self, tick: MarketTick) -> (fills: Vec<FillReport>)
        requires
            old(self)@.wf(),
        ensures
            final(self)@.wf(),
            (final(self)@, fills@) == old(self)@.process_tick_spec(tick),
    {
        let ghost old_bids = self.bids@;
        let ghost old_asks = self.asks@;
        let fills = match tick.side {
            OrderSide::Sell => match_book(
                &mut self.bids,
                OrderSide::Buy,
                tick.price,
                tick.qty,
                Ghost(self.next_submission_seq),
            ),
            OrderSide::Buy => match_book(
                &mut self.asks,
                OrderSide::Sell,
                tick.price,
                tick.qty,
                Ghost(self.next_submission_seq),
            ),
        };
        proof {
            assert forall|i: int, j: int|
                0 <= i < self.bids@.len() && 0 <= j < self.asks@.len() implies (
            #[trigger] self.bids@[i]).client_order_id != (#[trigger] self.asks@[j]).client_order_id by {
                if tick.side == OrderSide::Sell {
                    assert(self.asks@[j] == old_asks[j]);
                    assert(book_contains_cid(old_bids, self.bids@[i].client_order_id));
                    let m = choose|m: int|
                        0 <= m < old_bids.len() && (#[trigger] old_bids[m]).client_order_id
                            == self.bids@[i].client_order_id;
                    assert(old_bids[m].client_order_id != old_asks[j].client_order_id);
                } else {
                    assert(self.bids@[i] == old_bids[i]);
                    assert(book_contains_cid(old_asks, self.asks@[j].client_order_id));
                    let n = choose|n: int|
                        0 <= n < old_asks.len() && (#[trigger] old_asks[n]).client_order_id
                            == self.asks@[j].client_order_id;
                    assert(old_asks[n].client_order_id != old_bids[i].client_order_id);
                }
            }
        }
        fills
    }
}

/// Price-then-time priority honored: the `k`-th fill of a tick is exactly
/// the `k`-th order of the book, and under [`book_wf`] the book is sorted
/// by priority — so better-priced orders fill first and ties fill oldest
/// first, never an order behind one that was skipped.
pub proof fn lemma_match_priority(book: Seq<RestingOrder>, side: OrderSide, price: u64, qty: u64)
    ensures
        ({
            let fills = match_spec(book, side, price, qty).0;
            &&& fills.len() <= book.len()
            &&& forall|k: int|
                0 <= k < fills.len() ==> (#[trigger] fills[k]).client_order_id
                    == book[k].client_order_id && fills[k].submission_seq
                    == book[k].submission_seq
        }),
    decreases book.len(),
{
    if qty == 0 || book.len() == 0 || !crosses(side, book[0], price) {
    } else if book[0].remaining <= qty {
        let f = FillReport {
            client_order_id: book[0].client_order_id,
            qty: book[0].remaining,
            price,
            submission_seq: book[0].submission_seq,
        };
        let rest = match_spec(book.drop_first(), side, price, (qty - book[0].remaining) as u64).0;
        lemma_match_priority(book.drop_first(), side, price, (qty - book[0].remaining) as u64);
        let fills = seq![f] + rest;
        assert(fills[0] == f);
        assert forall|k: int| 0 <= k < fills.len() implies (#[trigger] fills[k]).client_order_id
            == book[k].client_order_id && fills[k].submission_seq
            == book[k].submission_seq by {
            if k > 0 {
                assert(fills[k] == rest[k - 1]);
                assert(book.drop_first()[k - 1] == book[k]);
            }
        }
    } else {
        let f = FillReport {
            client_order_id: book[0].client_order_id,
            qty,
            price,
            submission_seq: book[0].submission_seq,
        };
        assert(seq![f][0] == f);
    }
}

/// Priority is transitive.
proof fn lemma_ranks_before_trans(side: OrderSide, a: RestingOrder, b: RestingOrder, c: RestingOrder)
    requires
        ranks_before(side, a, b),
        ranks_before(side, b, c),
    ensures
        ranks_before(side, a, c),
{
}

/// Priority is total over orders with distinct submission sequences.
proof fn lemma_ranks_before_total(side: OrderSide, a: RestingOrder, b: RestingOrder)
    requires
        a.submission_seq != b.submission_seq,
    ensures
        ranks_before(side, a, b) || ranks_before(side, b, a),
{
}

} // verus!

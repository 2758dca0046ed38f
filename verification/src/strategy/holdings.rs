//! What a strategy holds: the lots it opened and has not closed yet.
use super::orders::{make_order, market_terms, position_price, position_symbols, price_of};
use crate::number::fixed::{
    lemma_parts_are_all, lemma_quotient_within, lemma_times_one, Fixed, UNIT,
};
use crate::number::{
    amount_of, decimal_value, floored, functional, less, no_more, one, product, quotient,
    shares_amount, sum, zero, Number,
};
use crate::text::{first_place, lemma_first_place, lemma_first_place_is, same_text};
use crate::time::{
    law_elapsed_time_is_a_difference, law_seconds_are_taken_as_they_are, signed, signed_seconds,
    Timestamp,
};
use crate::types::{
    symbol_names, terms_of, Order, OrderSide, Position, PositionView, Symbol, Terms,
};
use rust_decimal::Decimal;
use vstd::prelude::*;

verus! {

/// A lot that a strategy opened, with the signal's value at the time.
pub struct Holding<N> {
    pub symbol: Symbol,
    pub entered_at: Timestamp,
    pub quantity: Decimal,
    pub entry_value: N,
}

/// A lot as a mathematical value.
pub struct HoldingView<N> {
    pub symbol: Seq<char>,
    pub entered_at: Timestamp,
    pub quantity: Decimal,
    pub entry_value: N,
}

impl<N> View for Holding<N> {
    type V = HoldingView<N>;

    open spec fn view(&self) -> HoldingView<N> {
        HoldingView {
            symbol: self.symbol@,
            entered_at: self.entered_at,
            quantity: self.quantity,
            entry_value: self.entry_value,
        }
    }
}

/// Lots as mathematical values.
pub open spec fn holding_views<N>(lots: Seq<Holding<N>>) -> Seq<HoldingView<N>> {
    lots.map_values(|h: Holding<N>| h@)
}

/// The symbols of lots.
pub open spec fn held_symbols<N>(lots: Seq<HoldingView<N>>) -> Seq<Seq<char>> {
    lots.map_values(|h: HoldingView<N>| h.symbol)
}

/// Whether a lot of the symbol is held.
pub open spec fn holds<N>(lots: Seq<HoldingView<N>>, symbol: Seq<char>) -> bool {
    held_symbols(lots).contains(symbol)
}

/// Whether a lot has been held for the given number of seconds.
pub open spec fn due<N>(lot: HoldingView<N>, hold: u64, now: Timestamp) -> bool {
    now.elapsed(lot.entered_at) >= signed_seconds(hold)
}

/// The lots that are not due.
pub open spec fn still_held<N>(lots: Seq<HoldingView<N>>, hold: u64, now: Timestamp) -> Seq<
    HoldingView<N>,
>
    decreases lots.len(),
{
    if lots.len() == 0 {
        Seq::empty()
    } else {
        let before = still_held(lots.drop_last(), hold, now);
        if due(lots.last(), hold, now) {
            before
        } else {
            before.push(lots.last())
        }
    }
}

/// The order that closes a lot.
pub open spec fn closing_terms<N>(
    lot: HoldingView<N>,
    side: OrderSide,
    strategy_id: Seq<char>,
    now: Timestamp,
) -> Terms {
    market_terms(lot.symbol, side, lot.quantity, strategy_id, now)
}

/// The orders that close the due lots.
pub open spec fn exits<N>(
    lots: Seq<HoldingView<N>>,
    hold: u64,
    side: OrderSide,
    strategy_id: Seq<char>,
    now: Timestamp,
) -> Seq<Terms>
    decreases lots.len(),
{
    if lots.len() == 0 {
        Seq::empty()
    } else {
        let before = exits(lots.drop_last(), hold, side, strategy_id, now);
        if due(lots.last(), hold, now) {
            before.push(closing_terms(lots.last(), side, strategy_id, now))
        } else {
            before
        }
    }
}

/// Whether a lot has been held for the given number of seconds.
pub fn is_due<N>(lot: &Holding<N>, hold: u64, now: Timestamp) -> (r: bool)
    ensures
        r == due(lot@, hold, now),
{
    now.seconds_since(lot.entered_at) >= signed(hold) as i128
}

/// The place of the lot in a symbol.
pub fn place_of<N>(lots: &Vec<Holding<N>>, symbol: &str) -> (r: Option<usize>)
    ensures
        match r {
            Some(i) => {
                &&& i < lots@.len()
                &&& first_place(held_symbols(holding_views(lots@)), symbol@) == Some(i as int)
                &&& holds(holding_views(lots@), symbol@)
            },
            None => {
                &&& first_place(held_symbols(holding_views(lots@)), symbol@) == None::<int>
                &&& !holds(holding_views(lots@), symbol@)
            },
        },
{
    let ghost symbols = held_symbols(holding_views(lots@));
    let mut i: usize = 0;
    while i < lots.len()
        invariant
            i <= lots@.len(),
            symbols == held_symbols(holding_views(lots@)),
            forall|j: int| 0 <= j < i ==> symbols[j] != symbol@,
        decreases lots@.len() - i,
    {
        assert(symbols[i as int] == lots@[i as int].symbol@);
        if same_text(lots[i].symbol.as_str(), symbol) {
            proof {
                lemma_first_place_is(symbols, symbol@, i as int);
            }
            return Some(i);
        }
        i = i + 1;
    }
    proof {
        lemma_first_place(symbols, symbol@);
    }
    None
}

/// Takes the due lots out and gives the orders that close them.
pub fn close_due<N: Copy>(
    lots: &mut Vec<Holding<N>>,
    hold: u64,
    side: OrderSide,
    strategy_id: &str,
    now: Timestamp,
) -> (r: Vec<Order>)
    ensures
        holding_views(final(lots)@) == still_held(holding_views(old(lots)@), hold, now),
        terms_of(r@) == exits(holding_views(old(lots)@), hold, side, strategy_id@, now),
        forall|i: int| 0 <= i < r@.len() ==> (#[trigger] r@[i])@.id.len() == 36,
{
    let ghost all = holding_views(lots@);
    let mut kept: Vec<Holding<N>> = Vec::new();
    let mut orders: Vec<Order> = Vec::new();
    let mut i: usize = 0;
    assert(holding_views(kept@) =~= still_held(all.take(0), hold, now));
    assert(terms_of(orders@) =~= exits(all.take(0), hold, side, strategy_id@, now));
    while i < lots.len()
        invariant
            i <= lots@.len(),
            *lots == *old(lots),
            all == holding_views(lots@),
            holding_views(kept@) == still_held(all.take(i as int), hold, now),
            terms_of(orders@) == exits(all.take(i as int), hold, side, strategy_id@, now),
            forall|k: int| 0 <= k < orders@.len() ==> (#[trigger] orders@[k])@.id.len() == 36,
        decreases lots@.len() - i,
    {
        assert(all.take(i + 1).drop_last() =~= all.take(i as int));
        assert(all.take(i + 1).last() == lots@[i as int]@);
        let lot = &lots[i];
        if is_due(lot, hold, now) {
            let ghost placed = terms_of(orders@);
            let order = make_order(&lot.symbol, side, lot.quantity, strategy_id, now);
            orders.push(order);
            assert(terms_of(orders@) =~= placed.push(order@.terms));
        } else {
            let ghost before = holding_views(kept@);
            let copy = Holding {
                symbol: lot.symbol.copy(),
                entered_at: lot.entered_at,
                quantity: lot.quantity,
                entry_value: lot.entry_value,
            };
            kept.push(copy);
            assert(holding_views(kept@) =~= before.push(lot@));
        }
        i = i + 1;
    }
    assert(all.take(i as int) =~= all);
    *lots = kept;
    orders
}

/// The number of whole shares that an amount of money buys at the price of the
/// symbol's position, or at `otherwise` where there is none. There is no such number
/// where the price is not positive or the amount does not buy a single share.
pub open spec fn whole_shares<N: Number>(
    positions: Seq<PositionView>,
    symbol: Seq<char>,
    amount: N,
    otherwise: N,
) -> Option<N> {
    let price = position_price(positions, symbol, otherwise);
    let shares = floored(quotient(amount, price));
    if no_more(price, zero::<N>()) || less(shares, one::<N>()) {
        None
    } else {
        Some(shares)
    }
}

/// What lots are opened with.
pub struct Opening<N> {
    /// The money that goes into one lot.
    pub amount: N,
    /// The price of a symbol without a position.
    pub otherwise: N,
    /// The side of the opening orders.
    pub side: OrderSide,
    /// The value of the signal.
    pub value: N,
    /// The time of the signal.
    pub now: Timestamp,
}

/// The lots and orders after a list of symbols was gone through in turn: a lot is
/// opened in each symbol of which none is held and at least one share can be had.
pub open spec fn opened<N: Number>(
    lots: Seq<HoldingView<N>>,
    orders: Seq<Terms>,
    symbols: Seq<Seq<char>>,
    positions: Seq<PositionView>,
    with: Opening<N>,
    strategy_id: Seq<char>,
) -> (Seq<HoldingView<N>>, Seq<Terms>)
    decreases symbols.len(),
{
    if symbols.len() == 0 {
        (lots, orders)
    } else {
        let (held, placed) = opened(
            lots,
            orders,
            symbols.drop_last(),
            positions,
            with,
            strategy_id,
        );
        let symbol = symbols.last();
        match whole_shares(positions, symbol, with.amount, with.otherwise) {
            Some(shares) if !holds(held, symbol) => {
                let quantity = shares_amount(shares);
                (
                    held.push(
                        HoldingView {
                            symbol,
                            entered_at: with.now,
                            quantity,
                            entry_value: with.value,
                        },
                    ),
                    placed.push(market_terms(symbol, with.side, quantity, strategy_id, with.now)),
                )
            },
            _ => (held, placed),
        }
    }
}

/// The number of whole shares that an amount buys.
pub fn shares_for<N: Number>(
    positions: &Vec<Position>,
    symbol: &str,
    amount: N,
    otherwise: N,
) -> (r: Option<N>)
    requires
        functional::<N>(),
    ensures
        r == whole_shares(
            positions@.map_values(|p: Position| p@),
            symbol@,
            amount,
            otherwise,
        ),
{
    let price = price_of(positions, symbol, otherwise);
    if price.at_most(N::ratio(0, 1)) {
        return None;
    }
    let shares = amount.over(price).floor();
    if shares.below(N::ratio(1, 1)) {
        return None;
    }
    Some(shares)
}

/// Opens lots in the symbols in turn and adds the orders to `orders`.
pub fn open_lots<N: Number>(
    lots: &mut Vec<Holding<N>>,
    orders: &mut Vec<Order>,
    symbols: &Vec<Symbol>,
    positions: &Vec<Position>,
    with: Opening<N>,
    strategy_id: &str,
)
    requires
        functional::<N>(),
    ensures
        (holding_views(final(lots)@), terms_of(final(orders)@)) == opened(
            holding_views(old(lots)@),
            terms_of(old(orders)@),
            symbol_names(symbols@),
            positions@.map_values(|p: Position| p@),
            with,
            strategy_id@,
        ),
        old(orders)@.len() <= final(orders)@.len(),
        forall|i: int|
            0 <= i < old(orders)@.len() ==> #[trigger] final(orders)@[i] == old(orders)@[i],
        forall|i: int|
            old(orders)@.len() <= i < final(orders)@.len() ==> (#[trigger] final(orders)@[i])@
                .id.len() == 36,
{
    let ghost names = symbol_names(symbols@);
    let ghost views = positions@.map_values(|p: Position| p@);
    let mut i: usize = 0;
    while i < symbols.len()
        invariant
            functional::<N>(),
            i <= symbols@.len(),
            names == symbol_names(symbols@),
            views == positions@.map_values(|p: Position| p@),
            (holding_views(lots@), terms_of(orders@)) == opened(
                holding_views(old(lots)@),
                terms_of(old(orders)@),
                names.take(i as int),
                views,
                with,
                strategy_id@,
            ),
            old(orders)@.len() <= orders@.len(),
            forall|k: int|
                0 <= k < old(orders)@.len() ==> #[trigger] orders@[k] == old(orders)@[k],
            forall|k: int|
                old(orders)@.len() <= k < orders@.len() ==> (#[trigger] orders@[k])@.id.len()
                    == 36,
        decreases symbols@.len() - i,
    {
        assert(names.take(i + 1).drop_last() =~= names.take(i as int));
        assert(names.take(i + 1).last() == symbols@[i as int]@);
        let symbol = &symbols[i];
        if place_of(lots, symbol.as_str()).is_none() {
            if let Some(shares) = shares_for(
                positions,
                symbol.as_str(),
                with.amount,
                with.otherwise,
            ) {
                let ghost before = holding_views(lots@);
                let ghost placed = terms_of(orders@);
                let quantity = amount_of(shares);
                let order = make_order(symbol, with.side, quantity, strategy_id, with.now);
                orders.push(order);
                assert(terms_of(orders@) =~= placed.push(order@.terms));
                let lot = Holding {
                    symbol: symbol.copy(),
                    entered_at: with.now,
                    quantity,
                    entry_value: with.value,
                };
                lots.push(lot);
                assert(holding_views(lots@) =~= before.push(lot@));
            }
        }
        i = i + 1;
    }
    assert(names.take(i as int) =~= names);
}

/// Opening lots keeps the lots there were, and every lot it adds is in a symbol of
/// the list and comes with an opening order of its quantity. Nothing else is
/// ordered. Lots in distinct symbols stay in distinct symbols.
pub proof fn law_each_new_lot_is_ordered<N: Number>(
    lots: Seq<HoldingView<N>>,
    orders: Seq<Terms>,
    symbols: Seq<Seq<char>>,
    positions: Seq<PositionView>,
    with: Opening<N>,
    strategy_id: Seq<char>,
)
    ensures
        ({
            let (held, placed) = opened(lots, orders, symbols, positions, with, strategy_id);
            &&& lots.is_prefix_of(held)
            &&& orders.is_prefix_of(placed)
            &&& held.len() - lots.len() == placed.len() - orders.len()
            &&& forall|k: int|
                lots.len() <= k < held.len() ==> {
                    &&& symbols.contains((#[trigger] held[k]).symbol)
                    &&& !holds(lots, held[k].symbol)
                    &&& held[k].entered_at == with.now
                    &&& placed[orders.len() + k - lots.len()] == market_terms(
                        held[k].symbol,
                        with.side,
                        held[k].quantity,
                        strategy_id,
                        with.now,
                    )
                }
            &&& held_symbols(lots).no_duplicates() ==> held_symbols(held).no_duplicates()
        }),
    decreases symbols.len(),
{
    if symbols.len() > 0 {
        let rest = symbols.drop_last();
        law_each_new_lot_is_ordered(lots, orders, rest, positions, with, strategy_id);
        let (before, placed_before) = opened(lots, orders, rest, positions, with, strategy_id);
        let (held, placed) = opened(lots, orders, symbols, positions, with, strategy_id);
        let symbol = symbols.last();
        assert(symbols[symbols.len() - 1] == symbol);
        assert forall|s: Seq<char>| #[trigger] rest.contains(s) implies symbols.contains(s) by {
            let j = choose|j: int| 0 <= j < rest.len() && rest[j] == s;
            assert(symbols[j] == s);
        }
        assert forall|s: Seq<char>| #[trigger] holds(lots, s) implies holds(before, s) by {
            let j = choose|j: int| 0 <= j < lots.len() && held_symbols(lots)[j] == s;
            assert(before[j] == lots[j]);
            assert(held_symbols(before)[j] == s);
        }
        if held.len() > before.len() {
            assert(held_symbols(held) =~= held_symbols(before).push(symbol));
            if held_symbols(lots).no_duplicates() {
                lemma_push_distinct(held_symbols(before), symbol);
            }
            assert forall|k: int| lots.len() <= k < held.len() implies {
                &&& symbols.contains((#[trigger] held[k]).symbol)
                &&& !holds(lots, held[k].symbol)
                &&& held[k].entered_at == with.now
                &&& placed[orders.len() + k - lots.len()] == market_terms(
                    held[k].symbol,
                    with.side,
                    held[k].quantity,
                    strategy_id,
                    with.now,
                )
            } by {
                if k < before.len() {
                    assert(held[k] == before[k]);
                    assert(rest.contains(before[k].symbol));
                }
            }
        } else {
            assert forall|k: int| lots.len() <= k < held.len() implies symbols.contains(
                (#[trigger] held[k]).symbol,
            ) by {
                assert(rest.contains(before[k].symbol));
            }
        }
    }
}

/// A lot is closed exactly when it is due: each lot either stays, or an order of
/// its quantity on the closing side goes out, and nothing else happens.
pub proof fn law_each_lot_stays_or_is_closed<N>(
    lots: Seq<HoldingView<N>>,
    hold: u64,
    side: OrderSide,
    strategy_id: Seq<char>,
    now: Timestamp,
)
    ensures
        still_held(lots, hold, now).len() + exits(lots, hold, side, strategy_id, now).len()
            == lots.len(),
        forall|i: int|
            0 <= i < lots.len() ==> if due(#[trigger] lots[i], hold, now) {
                exits(lots, hold, side, strategy_id, now).contains(
                    closing_terms(lots[i], side, strategy_id, now),
                )
            } else {
                still_held(lots, hold, now).contains(lots[i])
            },
        forall|lot: HoldingView<N>| #[trigger]
            still_held(lots, hold, now).contains(lot) ==> lots.contains(lot) && !due(
                lot,
                hold,
                now,
            ),
        forall|t: Terms| #[trigger]
            exits(lots, hold, side, strategy_id, now).contains(t) ==> exists|lot: HoldingView<N>|
                #[trigger] lots.contains(lot) && due(lot, hold, now) && t == closing_terms(
                    lot,
                    side,
                    strategy_id,
                    now,
                ),
    decreases lots.len(),
{
    let kept = still_held(lots, hold, now);
    let out = exits(lots, hold, side, strategy_id, now);
    if lots.len() > 0 {
        let rest = lots.drop_last();
        let last = lots.last();
        law_each_lot_stays_or_is_closed(rest, hold, side, strategy_id, now);
        let kept_before = still_held(rest, hold, now);
        let out_before = exits(rest, hold, side, strategy_id, now);
        assert(lots.contains(last)) by {
            assert(lots[lots.len() - 1] == last);
        }
        assert forall|lot: HoldingView<N>| #[trigger] rest.contains(lot) implies lots.contains(
            lot,
        ) by {
            let j = choose|j: int| 0 <= j < rest.len() && rest[j] == lot;
            assert(lots[j] == lot);
        }
        assert forall|t: Terms| #[trigger] out_before.contains(t) implies out.contains(t) by {
            let j = choose|j: int| 0 <= j < out_before.len() && out_before[j] == t;
            assert(out[j] == t);
        }
        assert forall|lot: HoldingView<N>| #[trigger]
            kept_before.contains(lot) implies kept.contains(lot) by {
            let j = choose|j: int| 0 <= j < kept_before.len() && kept_before[j] == lot;
            assert(kept[j] == lot);
        }
        assert forall|i: int| 0 <= i < lots.len() implies if due(#[trigger] lots[i], hold, now) {
            out.contains(closing_terms(lots[i], side, strategy_id, now))
        } else {
            kept.contains(lots[i])
        } by {
            if i < rest.len() {
                assert(rest[i] == lots[i]);
            } else {
                if due(last, hold, now) {
                    assert(out[out.len() - 1] == closing_terms(last, side, strategy_id, now));
                } else {
                    assert(kept[kept.len() - 1] == last);
                }
            }
        }
        assert forall|lot: HoldingView<N>| #[trigger] kept.contains(lot) implies lots.contains(lot)
            && !due(lot, hold, now) by {
            let j = choose|j: int| 0 <= j < kept.len() && kept[j] == lot;
            if j < kept_before.len() {
                assert(kept_before[j] == lot);
                assert(kept_before.contains(lot));
            }
        }
        assert forall|t: Terms| #[trigger] out.contains(t) implies exists|lot: HoldingView<N>|
            #[trigger] lots.contains(lot) && due(lot, hold, now) && t == closing_terms(
                lot,
                side,
                strategy_id,
                now,
            ) by {
            let j = choose|j: int| 0 <= j < out.len() && out[j] == t;
            if j < out_before.len() {
                assert(out_before[j] == t);
                assert(out_before.contains(t));
                let lot = choose|lot: HoldingView<N>| #[trigger]
                    rest.contains(lot) && due(lot, hold, now) && t == closing_terms(
                        lot,
                        side,
                        strategy_id,
                        now,
                    );
                assert(lots.contains(lot));
            } else {
                assert(lots.contains(last));
            }
        }
    }
}

/// Lots in distinct symbols stay in distinct symbols when the due ones leave.
pub proof fn lemma_still_held_distinct<N>(lots: Seq<HoldingView<N>>, hold: u64, now: Timestamp)
    requires
        held_symbols(lots).no_duplicates(),
    ensures
        held_symbols(still_held(lots, hold, now)).no_duplicates(),
        forall|s: Seq<char>| #[trigger]
            holds(still_held(lots, hold, now), s) ==> holds(lots, s),
    decreases lots.len(),
{
    if lots.len() > 0 {
        let rest = lots.drop_last();
        let all = held_symbols(lots);
        assert(held_symbols(rest) =~= all.drop_last());
        assert(held_symbols(rest).no_duplicates()) by {
            assert forall|i: int, j: int|
                0 <= i < rest.len() && 0 <= j < rest.len() && i != j implies held_symbols(rest)[i]
                != held_symbols(rest)[j] by {
                assert(all[i] != all[j]);
            }
        }
        lemma_still_held_distinct(rest, hold, now);
        let before = still_held(rest, hold, now);
        let kept = still_held(lots, hold, now);
        assert forall|s: Seq<char>| holds(rest, s) implies holds(lots, s) by {
            let j = choose|j: int| 0 <= j < rest.len() && held_symbols(rest)[j] == s;
            assert(all[j] == s);
        }
        if !due(lots.last(), hold, now) {
            let last = lots.last().symbol;
            assert(held_symbols(kept) =~= held_symbols(before).push(last));
            assert(!holds(before, last)) by {
                if holds(before, last) {
                    assert(holds(rest, last));
                    let j = choose|j: int| 0 <= j < rest.len() && held_symbols(rest)[j] == last;
                    assert(all[j] == all[all.len() - 1]);
                }
            }
            lemma_push_distinct(held_symbols(before), last);
            assert forall|s: Seq<char>| #[trigger] holds(kept, s) implies holds(lots, s) by {
                let j = choose|j: int| 0 <= j < kept.len() && held_symbols(kept)[j] == s;
                if j < before.len() {
                    assert(held_symbols(before)[j] == s);
                    assert(holds(before, s));
                } else {
                    assert(all[all.len() - 1] == s);
                }
            }
        }
    }
}

/// A new text at the end keeps texts distinct.
pub proof fn lemma_push_distinct(texts: Seq<Seq<char>>, t: Seq<char>)
    requires
        texts.no_duplicates(),
        !texts.contains(t),
    ensures
        texts.push(t).no_duplicates(),
{
    assert forall|i: int, j: int|
        0 <= i < texts.len() + 1 && 0 <= j < texts.len() + 1 && i != j implies texts.push(t)[i]
        != texts.push(t)[j] by {
        if i < texts.len() {
            assert(texts.contains(texts[i]));
        }
        if j < texts.len() {
            assert(texts.contains(texts[j]));
        }
    }
}

/// The quantity of the lot in a symbol, where one is held; of the last one, where there
/// are several.
pub open spec fn quantity_held<N>(lots: Seq<HoldingView<N>>, symbol: Seq<char>) -> Option<Decimal>
    decreases lots.len(),
{
    if lots.len() == 0 {
        None
    } else if lots.last().symbol == symbol {
        Some(lots.last().quantity)
    } else {
        quantity_held(lots.drop_last(), symbol)
    }
}

/// Goes through orders in turn and follows the quantity that is held in a symbol: an
/// opening order has to find none, and a closing order has to have the quantity that it
/// finds. `None` where an order does not fit.
pub open spec fn replay(
    held: Option<Option<Decimal>>,
    orders: Seq<Terms>,
    symbol: Seq<char>,
    opening: OrderSide,
    closing: OrderSide,
) -> Option<Option<Decimal>>
    decreases orders.len(),
{
    if orders.len() == 0 {
        held
    } else {
        let before = replay(held, orders.drop_last(), symbol, opening, closing);
        let order = orders.last();
        if order.symbol != symbol || before is None {
            before
        } else {
            match before->0 {
                None if order.side == opening => Some(Some(order.quantity)),
                Some(quantity) if order.side == closing && order.quantity == quantity => Some(
                    None,
                ),
                _ => None,
            }
        }
    }
}

/// Going through two lists of orders is going through one after the other.
pub proof fn lemma_replay_in_parts(
    held: Option<Option<Decimal>>,
    first: Seq<Terms>,
    second: Seq<Terms>,
    symbol: Seq<char>,
    opening: OrderSide,
    closing: OrderSide,
)
    ensures
        replay(held, first + second, symbol, opening, closing) == replay(
            replay(held, first, symbol, opening, closing),
            second,
            symbol,
            opening,
            closing,
        ),
    decreases second.len(),
{
    if second.len() == 0 {
        assert(first + second =~= first);
    } else {
        assert((first + second).drop_last() =~= first + second.drop_last());
        lemma_replay_in_parts(held, first, second.drop_last(), symbol, opening, closing);
    }
}

/// There is a quantity exactly of a symbol that is held.
pub proof fn lemma_quantity_if_held<N>(lots: Seq<HoldingView<N>>, symbol: Seq<char>)
    ensures
        quantity_held(lots, symbol) is Some <==> holds(lots, symbol),
    decreases lots.len(),
{
    let symbols = held_symbols(lots);
    if lots.len() > 0 {
        let front = lots.drop_last();
        lemma_quantity_if_held(front, symbol);
        assert(symbols[lots.len() - 1] == lots.last().symbol);
        if holds(front, symbol) {
            let i = held_symbols(front).index_of(symbol);
            assert(symbols[i] == symbol);
        }
        if holds(lots, symbol) && lots.last().symbol != symbol {
            let i = symbols.index_of(symbol);
            assert(held_symbols(front)[i] == symbol);
        }
    }
}

/// Where there is one lot to a symbol, its quantity is the one held.
pub proof fn lemma_quantity_of_lot<N>(lots: Seq<HoldingView<N>>, i: int)
    requires
        0 <= i < lots.len(),
        held_symbols(lots).no_duplicates(),
    ensures
        quantity_held(lots, lots[i].symbol) == Some(lots[i].quantity),
    decreases lots.len(),
{
    let symbols = held_symbols(lots);
    let last = lots.len() - 1;
    if i < last {
        assert(symbols[i] != symbols[last]);
        let front = lots.drop_last();
        assert(held_symbols(front) =~= symbols.drop_last());
        lemma_quantity_of_lot(front, i);
    }
}

/// Closing due lots takes each out of its symbol with one closing order, where there is
/// one lot to a symbol.
pub proof fn lemma_exits_replayed<N>(
    lots: Seq<HoldingView<N>>,
    hold: u64,
    opening: OrderSide,
    closing: OrderSide,
    strategy_id: Seq<char>,
    now: Timestamp,
    symbol: Seq<char>,
    held: Option<Decimal>,
)
    requires
        held_symbols(lots).no_duplicates(),
        opening != closing,
        holds(lots, symbol) ==> held == quantity_held(lots, symbol),
    ensures
        replay(
            Some(held),
            exits(lots, hold, closing, strategy_id, now),
            symbol,
            opening,
            closing,
        ) == Some(
            if holds(lots, symbol) {
                quantity_held(still_held(lots, hold, now), symbol)
            } else {
                held
            },
        ),
        holds(still_held(lots, hold, now), symbol) ==> holds(lots, symbol),
    decreases lots.len(),
{
    if lots.len() > 0 {
        let front = lots.drop_last();
        let last = lots.last();
        lemma_quantity_if_held(lots, symbol);
        lemma_quantity_if_held(front, symbol);
        assert(held_symbols(front) =~= held_symbols(lots).drop_last());
        if last.symbol == symbol && holds(front, symbol) {
            let i = held_symbols(front).index_of(symbol);
            assert(held_symbols(lots)[i] == held_symbols(lots)[lots.len() - 1]);
        }
        lemma_exits_replayed(front, hold, opening, closing, strategy_id, now, symbol, held);
        let kept = still_held(front, hold, now);
        lemma_quantity_if_held(kept, symbol);
        let before = exits(front, hold, closing, strategy_id, now);
        if due(last, hold, now) {
            let order = closing_terms(last, closing, strategy_id, now);
            assert(before.push(order).drop_last() =~= before);
        } else {
            assert(kept.push(last).drop_last() =~= kept);
            lemma_quantity_if_held(kept.push(last), symbol);
        }
    }
}

/// Opening lots opens one in each symbol with one opening order.
pub proof fn lemma_opened_replayed<N: Number>(
    lots: Seq<HoldingView<N>>,
    orders: Seq<Terms>,
    symbols: Seq<Seq<char>>,
    positions: Seq<PositionView>,
    with: Opening<N>,
    closing: OrderSide,
    strategy_id: Seq<char>,
    symbol: Seq<char>,
    held: Option<Decimal>,
)
    requires
        with.side != closing,
        replay(Some(held), orders, symbol, with.side, closing) == Some(
            quantity_held(lots, symbol),
        ),
    ensures
        ({
            let (after, placed) = opened(lots, orders, symbols, positions, with, strategy_id);
            replay(Some(held), placed, symbol, with.side, closing) == Some(
                quantity_held(after, symbol),
            )
        }),
    decreases symbols.len(),
{
    if symbols.len() > 0 {
        let front = symbols.drop_last();
        lemma_opened_replayed(
            lots,
            orders,
            front,
            positions,
            with,
            closing,
            strategy_id,
            symbol,
            held,
        );
        let (before, placed) = opened(lots, orders, front, positions, with, strategy_id);
        let (after, all) = opened(lots, orders, symbols, positions, with, strategy_id);
        lemma_quantity_if_held(before, symbol);
        if after.len() > before.len() {
            assert(after.drop_last() =~= before);
            assert(all.drop_last() =~= placed);
        } else {
            assert(after == before && all == placed);
        }
    }
}

/// Whether positions stand for the same symbols at the same current prices, place by place.
pub open spec fn same_prices(a: Seq<PositionView>, b: Seq<PositionView>) -> bool {
    &&& a.len() == b.len()
    &&& forall|i: int|
        0 <= i < a.len() ==> (#[trigger] a[i]).symbol == b[i].symbol && a[i].current_price
            == b[i].current_price
}

/// The price that a symbol is reckoned at is the current price of its own position, the
/// first one where there are several; without a position it is the other price.
pub proof fn law_symbols_are_reckoned_at_their_own_price<N: Number>(
    positions: Seq<PositionView>,
    symbol: Seq<char>,
    otherwise: N,
    i: int,
)
    ensures
        0 <= i < positions.len() && positions[i].symbol == symbol && (forall|k: int|
            0 <= k < i ==> (#[trigger] positions[k]).symbol != symbol) ==> position_price(
            positions,
            symbol,
            otherwise,
        ) == match decimal_value::<N>(positions[i].current_price) {
            Some(price) => price,
            None => otherwise,
        },
        (forall|k: int| 0 <= k < positions.len() ==> (#[trigger] positions[k]).symbol != symbol)
            ==> position_price(positions, symbol, otherwise) == otherwise,
{
    let symbols = position_symbols(positions);
    lemma_first_place(symbols, symbol);
    if 0 <= i < positions.len() && positions[i].symbol == symbol && (forall|k: int|
        0 <= k < i ==> (#[trigger] positions[k]).symbol != symbol) {
        assert forall|k: int| 0 <= k < i implies symbols[k] != symbol by {
            assert(positions[k].symbol != symbol);
        }
        lemma_first_place_is(symbols, symbol, i);
    }
    if forall|k: int| 0 <= k < positions.len() ==> (#[trigger] positions[k]).symbol != symbol {
        if symbols.contains(symbol) {
            let k = symbols.index_of(symbol);
            assert(positions[k].symbol == symbol);
        }
    }
}

/// The shares that an amount buys depend on the positions only by their symbols and current
/// prices.
pub proof fn lemma_same_shares<N: Number>(
    a: Seq<PositionView>,
    b: Seq<PositionView>,
    symbol: Seq<char>,
    amount: N,
    otherwise: N,
)
    requires
        same_prices(a, b),
    ensures
        whole_shares(a, symbol, amount, otherwise) == whole_shares(b, symbol, amount, otherwise),
{
    assert(position_symbols(a) =~= position_symbols(b)) by {
        assert forall|i: int| 0 <= i < a.len() implies position_symbols(a)[i]
            == position_symbols(b)[i] by {
            assert(a[i].symbol == b[i].symbol);
        }
    }
    lemma_first_place(position_symbols(a), symbol);
    if let Some(i) = first_place(position_symbols(a), symbol) {
        assert(a[i].symbol == b[i].symbol);
    }
}

/// Lots are opened alike where positions stand for the same symbols at the same prices.
pub proof fn lemma_opened_alike<N: Number>(
    lots: Seq<HoldingView<N>>,
    orders: Seq<Terms>,
    symbols: Seq<Seq<char>>,
    a: Seq<PositionView>,
    b: Seq<PositionView>,
    with: Opening<N>,
    strategy_id: Seq<char>,
)
    requires
        same_prices(a, b),
    ensures
        opened(lots, orders, symbols, a, with, strategy_id) == opened(
            lots,
            orders,
            symbols,
            b,
            with,
            strategy_id,
        ),
    decreases symbols.len(),
{
    if symbols.len() > 0 {
        lemma_opened_alike(lots, orders, symbols.drop_last(), a, b, with, strategy_id);
        lemma_same_shares(a, b, symbols.last(), with.amount, with.otherwise);
    }
}

/// Every lot that is opened has the whole shares that its amount buys, and every symbol of
/// the list ends up held unless the amount does not buy a share of it.
pub proof fn lemma_opened_lots<N: Number>(
    lots: Seq<HoldingView<N>>,
    orders: Seq<Terms>,
    symbols: Seq<Seq<char>>,
    positions: Seq<PositionView>,
    with: Opening<N>,
    strategy_id: Seq<char>,
)
    ensures
        ({
            let (held, placed) = opened(lots, orders, symbols, positions, with, strategy_id);
            &&& lots.len() <= held.len()
            &&& forall|k: int|
                lots.len() <= k < held.len() ==> {
                    let shares = whole_shares(
                        positions,
                        (#[trigger] held[k]).symbol,
                        with.amount,
                        with.otherwise,
                    );
                    &&& shares is Some
                    &&& held[k].quantity == shares_amount(shares->0)
                    &&& held[k].entry_value == with.value
                }
            &&& forall|s: Seq<char>| #[trigger]
                symbols.contains(s) ==> holds(held, s) || whole_shares(
                    positions,
                    s,
                    with.amount,
                    with.otherwise,
                ) is None
            &&& forall|s: Seq<char>| #[trigger] holds(lots, s) ==> holds(held, s)
        }),
    decreases symbols.len(),
{
    if symbols.len() > 0 {
        let rest = symbols.drop_last();
        let symbol = symbols.last();
        lemma_opened_lots(lots, orders, rest, positions, with, strategy_id);
        let (before, _) = opened(lots, orders, rest, positions, with, strategy_id);
        let (held, _) = opened(lots, orders, symbols, positions, with, strategy_id);
        assert forall|k: int| lots.len() <= k < held.len() implies {
            let shares = whole_shares(
                positions,
                (#[trigger] held[k]).symbol,
                with.amount,
                with.otherwise,
            );
            &&& shares is Some
            &&& held[k].quantity == shares_amount(shares->0)
            &&& held[k].entry_value == with.value
        } by {
            if k < before.len() {
                assert(held[k] == before[k]);
            }
        }
        assert forall|s: Seq<char>| #[trigger] holds(before, s) implies holds(held, s) by {
            let i = held_symbols(before).index_of(s);
            assert(held[i] == before[i]);
            assert(held_symbols(held)[i] == s);
        }
        if held.len() > before.len() {
            assert(held_symbols(held)[before.len() as int] == symbol);
        }
        assert forall|s: Seq<char>| #[trigger] symbols.contains(s) implies holds(held, s)
            || whole_shares(positions, s, with.amount, with.otherwise) is None by {
            let i = symbols.index_of(s);
            if i < rest.len() {
                assert(rest[i] == s);
                assert(rest.contains(s));
            }
        }
    }
}

/// Whether a number of shares is whole, at least one, and the most that an amount buys at a
/// price: they are worth no more than the amount, and one more would be.
pub open spec fn most_shares(shares: Fixed, price: Fixed, amount: Fixed) -> bool {
    &&& shares.units >= UNIT
    &&& shares.units as int % UNIT as int == 0
    &&& product(shares, price).units <= amount.units
    &&& amount.units < product(sum(shares, one::<Fixed>()), price).units
}

/// The whole shares that an amount buys are the most that it buys: together they are worth
/// no more than the amount, and one more would be. Where there are none, the price is not
/// positive or a single share is worth more than the amount.
pub proof fn law_whole_shares_are_the_most(
    positions: Seq<PositionView>,
    symbol: Seq<char>,
    amount: Fixed,
    otherwise: Fixed,
)
    requires
        0 <= amount.units < 9_000_000_000_000_000_000,
        position_price(positions, symbol, otherwise).units == 0 || position_price(
            positions,
            symbol,
            otherwise,
        ).units < 0 || position_price(positions, symbol, otherwise).units >= UNIT,
    ensures
        ({
            let price = position_price(positions, symbol, otherwise);
            match whole_shares(positions, symbol, amount, otherwise) {
                Some(shares) => price.units > 0 && most_shares(shares, price, amount),
                None => price.units <= 0 || amount.units < price.units,
            }
        }),
{
    let price = position_price(positions, symbol, otherwise);
    if price.units > 0 {
        let shares = floored(quotient(amount, price));
        lemma_quotient_within(amount, price);
        lemma_parts_are_all(amount, price);
        if shares.units < UNIT {
            assert(shares.units == 0);
            assert(product(one::<Fixed>(), price) == price) by {
                lemma_times_one(price);
            }
        }
    }
}

/// A lot is due from the moment on at which it has been held for its seconds, and not a
/// nanosecond earlier.
pub proof fn law_lots_are_due_after_their_time<N>(
    lot: HoldingView<N>,
    hold: u64,
    now: Timestamp,
)
    requires
        !now.in_leap(),
        !lot.entered_at.in_leap(),
        0 < hold <= i64::MAX,
    ensures
        due(lot, hold, now) <==> now.value() >= lot.entered_at.value() + hold * 1_000_000_000,
{
    law_elapsed_time_is_a_difference(lot.entered_at, now);
    law_seconds_are_taken_as_they_are(hold);
}

} // verus!

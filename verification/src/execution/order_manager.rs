//! The orders that were sent to the broker, by id.
use crate::text::{first_place, lemma_first_place, lemma_first_place_is, same_text};
use crate::types::{Order, OrderStatus, OrderView};
use vstd::prelude::*;

verus! {

/// The ids of orders.
pub open spec fn order_ids(orders: Seq<OrderView>) -> Seq<Seq<char>> {
    orders.map_values(|o: OrderView| o.id)
}

/// Orders as mathematical values.
pub open spec fn order_views(orders: Seq<Order>) -> Seq<OrderView> {
    orders.map_values(|o: Order| o@)
}

/// Whether an order in this state can still be filled.
pub open spec fn still_open(status: OrderStatus) -> bool {
    status == OrderStatus::Pending || status == OrderStatus::Submitted || status
        == OrderStatus::PartiallyFilled
}

/// The orders that can still be filled.
pub open spec fn open_ones(orders: Seq<OrderView>) -> Seq<OrderView>
    decreases orders.len(),
{
    if orders.len() == 0 {
        Seq::empty()
    } else {
        let before = open_ones(orders.drop_last());
        if still_open(orders.last().terms.status) {
            before.push(orders.last())
        } else {
            before
        }
    }
}

/// The orders after one was entered: in the place of the order with its id, or at the
/// end where there is none.
pub open spec fn entered(orders: Seq<OrderView>, order: OrderView) -> Seq<OrderView> {
    match first_place(order_ids(orders), order.id) {
        Some(i) => orders.update(i, order),
        None => orders.push(order),
    }
}

/// The order with an id.
pub open spec fn found(orders: Seq<OrderView>, id: Seq<char>) -> Option<OrderView> {
    match first_place(order_ids(orders), id) {
        Some(i) => Some(orders[i]),
        None => None,
    }
}

fn is_open(status: OrderStatus) -> (r: bool)
    ensures
        r == still_open(status),
{
    match status {
        OrderStatus::Pending | OrderStatus::Submitted | OrderStatus::PartiallyFilled => true,
        _ => false,
    }
}

/// Tracks the lifecycle of all orders.
pub struct OrderManager {
    orders: Vec<Order>,
}

impl OrderManager {
    /// The orders in the book, in the order in which their ids were first seen.
    pub closed spec fn book(&self) -> Seq<OrderView> {
        order_views(self.orders@)
    }

    /// No two orders have the same id.
    pub open spec fn wf(&self) -> bool {
        order_ids(self.book()).no_duplicates()
    }

    /// A manager that tracks nothing.
    pub fn new() -> (r: OrderManager)
        ensures
            r.wf(),
            r.book() == Seq::<OrderView>::empty(),
    {
        let r = OrderManager { orders: Vec::new() };
        assert(r.book() =~= Seq::<OrderView>::empty());
        r
    }

    fn place_of(&self, order_id: &str) -> (r: Option<usize>)
        ensures
            match r {
                Some(i) => i < self.orders@.len() && first_place(
                    order_ids(self.book()),
                    order_id@,
                ) == Some(i as int),
                None => first_place(order_ids(self.book()), order_id@) == None::<int>,
            },
    {
        let ghost ids = order_ids(self.book());
        let mut i: usize = 0;
        while i < self.orders.len()
            invariant
                i <= self.orders@.len(),
                ids == order_ids(self.book()),
                forall|j: int| 0 <= j < i ==> ids[j] != order_id@,
            decreases self.orders@.len() - i,
        {
            assert(ids[i as int] == self.orders@[i as int].id@);
            if same_text(self.orders[i].id.as_str(), order_id) {
                proof {
                    lemma_first_place_is(ids, order_id@, i as int);
                }
                return Some(i);
            }
            i = i + 1;
        }
        proof {
            lemma_first_place(ids, order_id@);
        }
        None
    }

    fn enter(&mut self, order: Order)
        requires
            old(self).wf(),
        ensures
            final(self).wf(),
            final(self).book() == entered(old(self).book(), order@),
    {
        let ghost before = self.book();
        proof {
            law_ids_stay_distinct(before, order@);
        }
        match self.place_of(order.id.as_str()) {
            Some(i) => {
                let ghost view = order@;
                self.orders[i] = order;
                assert(self.book() =~= before.update(i as int, view));
            },
            None => {
                let ghost view = order@;
                self.orders.push(order);
                assert(self.book() =~= before.push(view));
            },
        }
    }

    /// Starts tracking an order.
    pub fn track(&mut self, order: Order)
        requires
            old(self).wf(),
        ensures
            final(self).wf(),
            final(self).book() == entered(old(self).book(), order@),
    {
        self.enter(order);
    }

    /// Takes in a new state of an order.
    pub fn update(&mut self, order: Order)
        requires
            old(self).wf(),
        ensures
            final(self).wf(),
            final(self).book() == entered(old(self).book(), order@),
    {
        self.enter(order);
    }

    /// The order with an id.
    pub fn get(&self, order_id: &str) -> (r: Option<Order>)
        ensures
            match r {
                Some(order) => found(self.book(), order_id@) == Some(order@),
                None => found(self.book(), order_id@) == None::<OrderView>,
            },
    {
        match self.place_of(order_id) {
            Some(i) => Some(self.orders[i].copy()),
            None => None,
        }
    }

    /// The orders that can still be filled.
    pub fn open_orders(&self) -> (r: Vec<Order>)
        ensures
            order_views(r@) == open_ones(self.book()),
    {
        let ghost all = self.book();
        let mut chosen: Vec<Order> = Vec::new();
        let mut i: usize = 0;
        assert(order_views(chosen@) =~= open_ones(all.take(0)));
        while i < self.orders.len()
            invariant
                i <= self.orders@.len(),
                all == self.book(),
                order_views(chosen@) == open_ones(all.take(i as int)),
            decreases self.orders@.len() - i,
        {
            assert(all.take(i + 1).drop_last() =~= all.take(i as int));
            assert(all.take(i + 1).last() == self.orders@[i as int]@);
            if is_open(self.orders[i].status) {
                let ghost before = order_views(chosen@);
                let order = self.orders[i].copy();
                chosen.push(order);
                assert(order_views(chosen@) =~= before.push(order@));
            }
            i = i + 1;
        }
        assert(all.take(i as int) =~= all);
        chosen
    }

    /// How many orders can still be filled.
    pub fn open_order_count(&self) -> (r: usize)
        ensures
            r == open_ones(self.book()).len(),
    {
        let ghost all = self.book();
        let mut count: usize = 0;
        let mut i: usize = 0;
        assert(open_ones(all.take(0)) =~= Seq::empty());
        while i < self.orders.len()
            invariant
                i <= self.orders@.len(),
                count <= i,
                all == self.book(),
                count == open_ones(all.take(i as int)).len(),
            decreases self.orders@.len() - i,
        {
            assert(all.take(i + 1).drop_last() =~= all.take(i as int));
            assert(all.take(i + 1).last() == self.orders@[i as int]@);
            if is_open(self.orders[i].status) {
                count = count + 1;
            }
            i = i + 1;
        }
        assert(all.take(i as int) =~= all);
        count
    }
}

/// Entering an order never gives two orders the same id.
pub proof fn law_ids_stay_distinct(orders: Seq<OrderView>, order: OrderView)
    requires
        order_ids(orders).no_duplicates(),
    ensures
        order_ids(entered(orders, order)).no_duplicates(),
{
    let ids = order_ids(orders);
    let after = order_ids(entered(orders, order));
    lemma_first_place(ids, order.id);
    match first_place(ids, order.id) {
        Some(i) => {
            assert(after =~= ids);
        },
        None => {
            assert(after =~= ids.push(order.id));
            assert forall|a: int, b: int|
                0 <= a < after.len() && 0 <= b < after.len() && a != b implies after[a]
                != after[b] by {
                if a < ids.len() {
                    assert(ids.contains(ids[a]));
                }
                if b < ids.len() {
                    assert(ids.contains(ids[b]));
                }
            }
        },
    }
}

/// What was entered last under an id is what is found under it, and what is found
/// under every other id stays what it was.
pub proof fn law_found_is_what_was_entered_last(
    orders: Seq<OrderView>,
    order: OrderView,
    id: Seq<char>,
)
    ensures
        found(entered(orders, order), id) == if id == order.id {
            Some(order)
        } else {
            found(orders, id)
        },
{
    let ids = order_ids(orders);
    let after = order_ids(entered(orders, order));
    lemma_first_place(ids, order.id);
    lemma_first_place(ids, id);
    match first_place(ids, order.id) {
        Some(i) => {
            assert(after =~= ids);
            if id != order.id {
                if let Some(j) = first_place(ids, id) {
                    assert(i != j);
                }
            }
        },
        None => {
            assert(after =~= ids.push(order.id));
            if id == order.id {
                assert forall|j: int| 0 <= j < ids.len() implies after[j] != id by {
                    assert(ids.contains(ids[j]));
                }
                lemma_first_place_is(after, id, ids.len() as int);
            } else {
                match first_place(ids, id) {
                    Some(j) => {
                        assert forall|k: int| 0 <= k < j implies after[k] != id by {
                            assert(ids[k] != id);
                        }
                        lemma_first_place_is(after, id, j);
                    },
                    None => {
                        lemma_first_place(after, id);
                        if after.contains(id) {
                            let k = choose|k: int| 0 <= k < after.len() && after[k] == id;
                            assert(ids[k] == id);
                            assert(ids.contains(id));
                        }
                    },
                }
            }
        },
    }
}

/// The open orders are those of the book that are neither filled nor cancelled, rejected or
/// expired: each of them is open, and nothing else is.
pub proof fn law_open_orders_can_still_be_filled(orders: Seq<OrderView>)
    ensures
        open_ones(orders).len() <= orders.len(),
        forall|i: int|
            0 <= i < orders.len() && (#[trigger] orders[i]).terms.status != OrderStatus::Filled
                && orders[i].terms.status != OrderStatus::Cancelled && orders[i].terms.status
                != OrderStatus::Rejected && orders[i].terms.status != OrderStatus::Expired
                ==> open_ones(orders).contains(orders[i]),
        forall|k: int|
            0 <= k < open_ones(orders).len() ==> {
                let order = #[trigger] open_ones(orders)[k];
                &&& orders.contains(order)
                &&& order.terms.status != OrderStatus::Filled
                &&& order.terms.status != OrderStatus::Cancelled
                &&& order.terms.status != OrderStatus::Rejected
                &&& order.terms.status != OrderStatus::Expired
            },
        (forall|i: int| 0 <= i < orders.len() ==> still_open((#[trigger] orders[i]).terms.status))
            ==> open_ones(orders) == orders,
    decreases orders.len(),
{
    let chosen = open_ones(orders);
    if orders.len() > 0 {
        let front = orders.drop_last();
        let before = open_ones(front);
        let last = orders.len() - 1;
        law_open_orders_can_still_be_filled(front);
        assert forall|i: int|
            0 <= i < orders.len() && (#[trigger] orders[i]).terms.status != OrderStatus::Filled
                && orders[i].terms.status != OrderStatus::Cancelled && orders[i].terms.status
                != OrderStatus::Rejected && orders[i].terms.status
                != OrderStatus::Expired implies chosen.contains(orders[i]) by {
            if i < last {
                assert(front[i] == orders[i]);
                let k = before.index_of(orders[i]);
                assert(chosen[k] == orders[i]);
            } else {
                assert(chosen[before.len() as int] == orders[i]);
            }
        }
        assert forall|k: int| 0 <= k < chosen.len() implies {
            let order = #[trigger] chosen[k];
            &&& orders.contains(order)
            &&& order.terms.status != OrderStatus::Filled
            &&& order.terms.status != OrderStatus::Cancelled
            &&& order.terms.status != OrderStatus::Rejected
            &&& order.terms.status != OrderStatus::Expired
        } by {
            if k < before.len() {
                assert(chosen[k] == before[k]);
                let i = front.index_of(before[k]);
                assert(orders[i] == before[k]);
            } else {
                assert(orders[last] == chosen[k]);
            }
        }
        if forall|i: int|
            0 <= i < orders.len() ==> still_open((#[trigger] orders[i]).terms.status) {
            assert forall|i: int| 0 <= i < front.len() implies still_open(
                (#[trigger] front[i]).terms.status,
            ) by {
                assert(front[i] == orders[i]);
            }
            assert(still_open(orders[last].terms.status));
            assert(front.push(orders.last()) =~= orders);
        }
    } else {
        assert(chosen =~= orders);
    }
}

/// Entering an order that is known takes its place and leaves the length of the book; one
/// that is not known is put at the end. All other orders stay where they are.
pub proof fn law_entering_leaves_the_others(orders: Seq<OrderView>, order: OrderView)
    ensures
        order_ids(orders).contains(order.id) ==> entered(orders, order).len() == orders.len(),
        !order_ids(orders).contains(order.id) ==> entered(orders, order) == orders.push(order),
        forall|i: int|
            0 <= i < orders.len() && orders[i].id != order.id ==> #[trigger] entered(
                orders,
                order,
            )[i] == orders[i],
        entered(orders, order).contains(order),
{
    let ids = order_ids(orders);
    lemma_first_place(ids, order.id);
    match first_place(ids, order.id) {
        Some(i) => {
            assert(entered(orders, order)[i] == order);
        },
        None => {
            assert(entered(orders, order)[orders.len() as int] == order);
        },
    }
}

} // verus!

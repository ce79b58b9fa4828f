//! Reading the tables: the orders that a role sees and the line items of
//! an order.

use vstd::prelude::*;
use crate::actor::Actor;
use crate::records::{
    views, Order, OrderDefect, OrderDefectView, OrderPart, OrderPartView, OrderWork,
    OrderWorkView,
};
use crate::visibility::{is_visible, seen_by};

verus! {

/// A line item of an order.
pub trait LineItem: View + Sized {
    /// The order that the item belongs to, read from its view.
    spec fn order_of(v: Self::V) -> i32;

    fn order_id(&self) -> (id: i32)
        ensures
            id == Self::order_of(self@),
    ;
}

impl LineItem for OrderDefect {
    open spec fn order_of(v: OrderDefectView) -> i32 {
        v.order_id
    }

    fn order_id(&self) -> (id: i32) {
        self.order_id
    }
}

impl LineItem for OrderWork {
    open spec fn order_of(v: OrderWorkView) -> i32 {
        v.order_id
    }

    fn order_id(&self) -> (id: i32) {
        self.order_id
    }
}

impl LineItem for OrderPart {
    open spec fn order_of(v: OrderPartView) -> i32 {
        v.order_id
    }

    fn order_id(&self) -> (id: i32) {
        self.order_id
    }
}

/// The predicate "belongs to the order `order_id`" on the views of `T`.
pub open spec fn belongs_to<T: LineItem>(order_id: i32) -> spec_fn(T::V) -> bool {
    |v: T::V| T::order_of(v) == order_id
}

/// The orders that the actor sees, in the order of the table.
pub fn visible_orders<'a>(orders: &'a Vec<Order>, actor: &Actor) -> (r: Vec<&'a Order>)
    ensures
        views(r@) == views(orders@).filter(seen_by(*actor)),
{
    let ghost all = views(orders@);
    let ghost p = seen_by(*actor);
    let mut seen: Vec<&Order> = Vec::new();
    let mut i: usize = 0;
    proof {
        reveal(Seq::filter);
        assert(all.take(0).filter(p) =~= Seq::empty());
        assert(views(seen@) =~= Seq::empty());
    }
    while i < orders.len()
        invariant
            i <= orders.len(),
            all == views(orders@),
            p == seen_by(*actor),
            views(seen@) == all.take(i as int).filter(p),
        decreases orders.len() - i,
    {
        let ghost before = views(seen@);
        proof {
            assert(all.take(i as int + 1) =~= all.take(i as int).push(all[i as int]));
            all.take(i as int).lemma_filter_push(all[i as int], p);
            assert(all[i as int] == orders@[i as int]@);
        }
        if is_visible(&orders[i], actor) {
            seen.push(&orders[i]);
            proof {
                assert(views(seen@) =~= before.push(all[i as int]));
            }
        }
        i += 1;
    }
    proof {
        assert(all.take(i as int) =~= all);
    }
    seen
}

/// The line items of one order, in the order of the table.
pub fn items_of<'a, T: LineItem>(rows: &'a Vec<T>, order_id: i32) -> (r: Vec<&'a T>)
    ensures
        views(r@) == views(rows@).filter(belongs_to::<T>(order_id)),
{
    let ghost all = views(rows@);
    let ghost p = belongs_to::<T>(order_id);
    let mut found: Vec<&T> = Vec::new();
    let mut i: usize = 0;
    proof {
        reveal(Seq::filter);
        assert(all.take(0).filter(p) =~= Seq::empty());
        assert(views(found@) =~= Seq::empty());
    }
    while i < rows.len()
        invariant
            i <= rows.len(),
            all == views(rows@),
            p == belongs_to::<T>(order_id),
            views(found@) == all.take(i as int).filter(p),
        decreases rows.len() - i,
    {
        let ghost before = views(found@);
        proof {
            assert(all.take(i as int + 1) =~= all.take(i as int).push(all[i as int]));
            all.take(i as int).lemma_filter_push(all[i as int], p);
            assert(all[i as int] == rows@[i as int]@);
        }
        if rows[i].order_id() == order_id {
            found.push(&rows[i]);
            proof {
                assert(views(found@) =~= before.push(all[i as int]));
            }
        }
        i += 1;
    }
    proof {
        assert(all.take(i as int) =~= all);
    }
    found
}

} // verus!

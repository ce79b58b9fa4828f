//! Which orders a role sees.

use vstd::prelude::*;
use crate::actor::{Actor, Role};
use crate::records::{Order, OrderView};
use crate::status::OrderStatus;

verus! {

/// The status-filtered view of the orders: a master sees what is neither
/// closed nor cancelled, a storekeeper what is in parts selection, approval
/// or work, a diagnostician what awaits diagnosis, a worker the orders in
/// work of which they are the main worker, and an administrator everything.
pub open spec fn visible_to(order: OrderView, actor: Actor) -> bool {
    match actor.role {
        Role::Admin => true,
        Role::Master => !order.status.terminal(),
        Role::Storekeeper => order.status == OrderStatus::PartsSelection || order.status
            == OrderStatus::Approval || order.status == OrderStatus::InWork,
        Role::Diagnostician => order.status == OrderStatus::Diagnostics,
        Role::Worker => order.status == OrderStatus::InWork && order.worker_id == Some(actor.id),
    }
}

/// The predicate `visible_to` for one actor.
pub open spec fn seen_by(actor: Actor) -> spec_fn(OrderView) -> bool {
    |o: OrderView| visible_to(o, actor)
}

/// Whether the actor sees the order.
pub fn is_visible(order: &Order, actor: &Actor) -> (r: bool)
    ensures
        r == visible_to(order@, *actor),
{
    match actor.role {
        Role::Admin => true,
        Role::Master => !order.status.is_terminal(),
        Role::Storekeeper => order.status == OrderStatus::PartsSelection || order.status
            == OrderStatus::Approval || order.status == OrderStatus::InWork,
        Role::Diagnostician => order.status == OrderStatus::Diagnostics,
        Role::Worker => {
            let mine = match order.worker_id {
                Some(w) => w == actor.id,
                None => false,
            };
            order.status == OrderStatus::InWork && mine
        },
    }
}

} // verus!

//! Every operation of the engine keeps the state of the station well-formed.

use vstd::prelude::*;
use crate::catalog::CatalogView;
use crate::lookup::{has_key, lemma_first_index, occurs, Keyed};
use crate::records::{
    Car, CarView, Client, Order, OrderDefect, OrderPart, OrderPartView, OrderView, OrderWork,
};
use crate::state::{keys_issued, WorkshopState};

verus! {

/// A record that occurs in a table still occurs once a row is appended.
pub proof fn lemma_occurs_after_push<T>(s: Seq<T>, row: T, p: spec_fn(T) -> bool)
    requires
        occurs(s, p),
    ensures
        occurs(s.push(row), p),
{
    let i = choose|i: int| 0 <= i < s.len() && p(#[trigger] s[i]);
    assert(s.push(row)[i] == s[i]);
}

/// A record still occurs once a row is replaced by one with the same answer
/// to `p`.
pub proof fn lemma_occurs_after_update<T>(s: Seq<T>, k: int, row: T, p: spec_fn(T) -> bool)
    requires
        occurs(s, p),
        0 <= k < s.len(),
        p(row) == p(s[k]),
    ensures
        occurs(s.update(k, row), p),
{
    let i = choose|i: int| 0 <= i < s.len() && p(#[trigger] s[i]);
    if i == k {
        assert(s.update(k, row)[k] == row);
    } else {
        assert(s.update(k, row)[i] == s[i]);
    }
}

/// Appending a row with the next identifier keeps the identifiers issued.
pub proof fn lemma_keys_after_push<T: Keyed>(rows: Seq<T::V>, last: i32, row: T::V)
    requires
        keys_issued::<T>(rows, last),
        last < i32::MAX,
        T::key_of(row) == last + 1,
    ensures
        keys_issued::<T>(rows.push(row), (last + 1) as i32),
{
    let next = rows.push(row);
    assert forall|i: int| 0 <= i < next.len() implies T::key_of(#[trigger] next[i]) <= last
        + 1 by {
        if i < rows.len() {
            assert(next[i] == rows[i]);
        }
    }
    assert forall|i: int, j: int| 0 <= i < j < next.len() implies T::key_of(#[trigger] next[i])
        != T::key_of(#[trigger] next[j]) by {
        assert(next[i] == rows[i]);
        if j < rows.len() {
            assert(next[j] == rows[j]);
        }
    }
}

/// The state of a station that has seen nothing is well-formed.
pub proof fn lemma_empty_is_well_formed()
    ensures
        WorkshopState::empty().wf(),
{
}

/// Registering a client keeps the state well-formed.
pub proof fn lemma_register_client_keeps_wf(
    s: WorkshopState,
    actor_id: i32,
    full_name: Seq<char>,
    phone: Seq<char>,
    address: Option<Seq<char>>,
    created_at: Seq<char>,
)
    requires
        s.wf(),
    ensures
        s.after_register_client(actor_id, full_name, phone, address, created_at).wf(),
{
    let t = s.after_register_client(actor_id, full_name, phone, address, created_at);
    if s.client_verdict(full_name, phone) is Ok {
        let row = t.clients.last();
        assert(t.clients == s.clients.push(row));
        lemma_keys_after_push::<Client>(s.clients, s.last_client_id, row);
        assert forall|i: int|
            0 <= i < t.cars.len() && (#[trigger] t.cars[i]).client_id is Some implies t.has_client(
            t.cars[i].client_id->0,
        ) by {
            lemma_occurs_after_push(s.clients, row, has_key::<Client>(t.cars[i].client_id->0));
        }
        assert forall|i: int| 0 <= i < t.orders.len() implies t.has_client(
            (#[trigger] t.orders[i]).client_id,
        ) && t.has_car(t.orders[i].car_id) by {
            lemma_occurs_after_push(s.clients, row, has_key::<Client>(t.orders[i].client_id));
        }
        assert(t.references_hold());
    }
}

/// Registering a car keeps the state well-formed.
pub proof fn lemma_register_car_keeps_wf(s: WorkshopState, actor_id: i32, car: CarView)
    requires
        s.wf(),
    ensures
        s.after_register_car(actor_id, car).wf(),
{
    let t = s.after_register_car(actor_id, car);
    if s.car_verdict(car.client_id, car.vin, car.license_plate, car.make, car.model) is Ok {
        let row = t.cars.last();
        assert(t.cars == s.cars.push(row));
        lemma_keys_after_push::<Car>(s.cars, s.last_car_id, row);
        assert forall|i: int|
            0 <= i < t.cars.len() && (#[trigger] t.cars[i]).client_id is Some implies t.has_client(
            t.cars[i].client_id->0,
        ) by {
            if i < s.cars.len() {
                assert(t.cars[i] == s.cars[i]);
            }
        }
        assert forall|i: int| 0 <= i < t.orders.len() implies t.has_client(
            (#[trigger] t.orders[i]).client_id,
        ) && t.has_car(t.orders[i].car_id) by {
            lemma_occurs_after_push(s.cars, row, has_key::<Car>(t.orders[i].car_id));
        }
        assert(t.references_hold());
    }
}

/// Taking in an order keeps the state well-formed.
pub proof fn lemma_create_order_keeps_wf(
    s: WorkshopState,
    actor_id: i32,
    client_id: i32,
    car_id: i32,
    complaint: Option<Seq<char>>,
    current_mileage: Option<i32>,
    created_at: Seq<char>,
)
    requires
        s.wf(),
    ensures
        s.after_create_order(
            actor_id,
            client_id,
            car_id,
            complaint,
            current_mileage,
            created_at,
        ).wf(),
{
    let t = s.after_create_order(
        actor_id,
        client_id,
        car_id,
        complaint,
        current_mileage,
        created_at,
    );
    if s.intake_verdict(client_id, car_id) is Ok {
        let row = t.orders.last();
        assert(t.orders == s.orders.push(row));
        lemma_keys_after_push::<Order>(s.orders, s.last_order_id, row);
        assert forall|i: int| 0 <= i < t.orders.len() implies t.has_client(
            (#[trigger] t.orders[i]).client_id,
        ) && t.has_car(t.orders[i].car_id) by {
            if i < s.orders.len() {
                assert(t.orders[i] == s.orders[i]);
            }
        }
        assert forall|i: int| 0 <= i < t.defects.len() implies t.has_order(
            (#[trigger] t.defects[i]).order_id,
        ) by {
            lemma_occurs_after_push(s.orders, row, has_key::<Order>(t.defects[i].order_id));
        }
        assert forall|i: int| 0 <= i < t.works.len() implies t.has_order(
            (#[trigger] t.works[i]).order_id,
        ) by {
            lemma_occurs_after_push(s.orders, row, has_key::<Order>(t.works[i].order_id));
        }
        assert forall|i: int| 0 <= i < t.parts.len() implies t.has_order(
            (#[trigger] t.parts[i]).order_id,
        ) by {
            lemma_occurs_after_push(s.orders, row, has_key::<Order>(t.parts[i].order_id));
        }
        assert(t.references_hold());
        assert forall|i: int, j: int|
            0 <= i < t.works.len() && 0 <= j < t.orders.len() && (
            #[trigger] t.works[i]).worker_id is Some && (#[trigger] t.orders[j]).id
                == t.works[i].order_id implies t.orders[j].status.assignment_made() by {
            if j < s.orders.len() {
                assert(t.orders[j] == s.orders[j]);
            } else {
                // the new order has an identifier that no work refers to
                let k = choose|k: int|
                    0 <= k < s.orders.len() && has_key::<Order>(s.works[i].order_id)(
                        #[trigger] s.orders[k],
                    );
                assert(s.orders[k].id <= s.last_order_id);
            }
        }
    }
}

/// Replacing an order by one with the same identifier, client and car keeps
/// the identifiers and the references of the state.
pub proof fn lemma_order_update_keeps_references(s: WorkshopState, i: int, row: OrderView)
    requires
        s.ids_issued(),
        s.references_hold(),
        0 <= i < s.orders.len(),
        row.id == s.orders[i].id,
        row.client_id == s.orders[i].client_id,
        row.car_id == s.orders[i].car_id,
    ensures
        (WorkshopState { orders: s.orders.update(i, row), ..s }).ids_issued(),
        (WorkshopState { orders: s.orders.update(i, row), ..s }).references_hold(),
{
    let t = WorkshopState { orders: s.orders.update(i, row), ..s };
    assert forall|a: int| 0 <= a < t.orders.len() implies Order::key_of(#[trigger] t.orders[a])
        == Order::key_of(s.orders[a]) by {}
    assert(keys_issued::<Order>(t.orders, t.last_order_id));
    assert forall|a: int| 0 <= a < t.orders.len() implies t.has_client(
        (#[trigger] t.orders[a]).client_id,
    ) && t.has_car(t.orders[a].car_id) by {
        assert(s.has_client(s.orders[a].client_id) && s.has_car(s.orders[a].car_id));
    }
    assert forall|a: int| 0 <= a < t.defects.len() implies t.has_order(
        (#[trigger] t.defects[a]).order_id,
    ) by {
        lemma_occurs_after_update(s.orders, i, row, has_key::<Order>(t.defects[a].order_id));
    }
    assert forall|a: int| 0 <= a < t.works.len() implies t.has_order(
        (#[trigger] t.works[a]).order_id,
    ) by {
        lemma_occurs_after_update(s.orders, i, row, has_key::<Order>(t.works[a].order_id));
    }
    assert forall|a: int| 0 <= a < t.parts.len() implies t.has_order(
        (#[trigger] t.parts[a]).order_id,
    ) by {
        lemma_occurs_after_update(s.orders, i, row, has_key::<Order>(t.parts[a].order_id));
    }
    assert forall|a: int|
        0 <= a < t.works.len() && (#[trigger] t.works[a]).defect_id is Some implies t.defect_of_order(
        t.works[a].defect_id->0,
        t.works[a].order_id,
    ) by {
        assert(s.defect_of_order(s.works[a].defect_id->0, s.works[a].order_id));
    }
}

/// A transition request keeps the state well-formed, whatever its outcome.
pub proof fn lemma_transition_keeps_wf(
    s: WorkshopState,
    order_id: i32,
    target: Seq<char>,
    actor_id: i32,
)
    requires
        s.wf(),
    ensures
        s.after_transition(order_id, target, actor_id).wf(),
{
    let t = s.after_transition(order_id, target, actor_id);
    if s.transition_result(order_id, target) is Ok {
        let to = s.transition_result(order_id, target)->Ok_0;
        lemma_first_index(s.orders, has_key::<Order>(order_id));
        let i = s.order_slot(order_id)->0;
        let o = s.orders[i];
        let row = OrderView { status: to, ..o };
        lemma_order_update_keeps_references(s, i, row);
        let mid = WorkshopState { orders: s.orders.update(i, row), ..s };
        assert(t.orders == mid.orders);
        assert(t.ids_issued() == mid.ids_issued());
        assert(t.references_hold() == mid.references_hold());
        assert(o.status.admits(to));
        assert forall|a: int, j: int|
            0 <= a < t.works.len() && 0 <= j < t.orders.len() && (
            #[trigger] t.works[a]).worker_id is Some && (#[trigger] t.orders[j]).id
                == t.works[a].order_id implies t.orders[j].status.assignment_made() by {
            assert(s.orders[j].id == s.works[a].order_id);
            assert(s.orders[j].status.assignment_made());
        }
    }
}

/// Recording a diagnosis keeps the state well-formed, whatever its outcome.
pub proof fn lemma_diagnosis_keeps_wf(
    s: WorkshopState,
    order_id: i32,
    diagnostician_id: i32,
    defect_type_ids: Seq<i32>,
    catalog: CatalogView,
)
    requires
        s.wf(),
    ensures
        s.after_diagnosis(order_id, diagnostician_id, defect_type_ids, catalog).wf(),
{
    let t = s.after_diagnosis(order_id, diagnostician_id, defect_type_ids, catalog);
    if s.diagnosis_verdict(order_id, defect_type_ids, catalog) is Ok {
        let n = defect_type_ids.len() as int;
        let d0 = s.defects.len() as int;
        let w0 = s.works.len() as int;
        lemma_first_index(s.orders, has_key::<Order>(order_id));
        assert(s.has_order(order_id));
        assert forall|i: int| 0 <= i < t.defects.len() implies OrderDefect::key_of(
            #[trigger] t.defects[i],
        ) == (if i < d0 {
            OrderDefect::key_of(s.defects[i])
        } else {
            (s.last_defect_id + 1 + (i - d0)) as i32
        }) by {}
        assert(keys_issued::<OrderDefect>(t.defects, t.last_defect_id));
        assert forall|i: int| 0 <= i < t.works.len() implies OrderWork::key_of(
            #[trigger] t.works[i],
        ) == (if i < w0 {
            OrderWork::key_of(s.works[i])
        } else {
            (s.last_work_id + 1 + (i - w0)) as i32
        }) by {}
        assert(keys_issued::<OrderWork>(t.works, t.last_work_id));
        assert forall|i: int| 0 <= i < t.defects.len() implies t.has_order(
            (#[trigger] t.defects[i]).order_id,
        ) by {
            if i < d0 {
                assert(t.defects[i] == s.defects[i]);
            }
        }
        assert forall|i: int| 0 <= i < t.works.len() implies t.has_order(
            (#[trigger] t.works[i]).order_id,
        ) by {
            if i < w0 {
                assert(t.works[i] == s.works[i]);
            }
        }
        assert forall|i: int|
            0 <= i < t.works.len() && (#[trigger] t.works[i]).defect_id is Some implies t.defect_of_order(
            t.works[i].defect_id->0,
            t.works[i].order_id,
        ) by {
            if i < w0 {
                assert(t.works[i] == s.works[i]);
                let k = choose|k: int|
                    0 <= k < s.defects.len() && (#[trigger] s.defects[k]).id
                        == s.works[i].defect_id->0 && s.defects[k].order_id
                        == s.works[i].order_id;
                assert(t.defects[k] == s.defects[k]);
            } else {
                let k = d0 + (i - w0);
                assert(t.defects[k].id == t.works[i].defect_id->0);
                assert(t.defects[k].order_id == order_id);
            }
        }
        assert(t.references_hold());
        assert forall|i: int, j: int|
            0 <= i < t.works.len() && 0 <= j < t.orders.len() && (
            #[trigger] t.works[i]).worker_id is Some && (#[trigger] t.orders[j]).id
                == t.works[i].order_id implies t.orders[j].status.assignment_made() by {
            if i < w0 {
                assert(t.works[i] == s.works[i]);
            }
        }
    }
}

/// Adding a part keeps the state well-formed, whatever its outcome.
pub proof fn lemma_add_part_keeps_wf(s: WorkshopState, actor_id: i32, part: OrderPartView)
    requires
        s.wf(),
    ensures
        s.after_add_part(actor_id, part).wf(),
{
    let t = s.after_add_part(actor_id, part);
    if s.part_verdict(part.order_id, part.quantity) is Ok {
        let row = t.parts.last();
        assert(t.parts == s.parts.push(row));
        lemma_keys_after_push::<OrderPart>(s.parts, s.last_part_id, row);
        assert forall|i: int| 0 <= i < t.parts.len() implies t.has_order(
            (#[trigger] t.parts[i]).order_id,
        ) by {
            if i < s.parts.len() {
                assert(t.parts[i] == s.parts[i]);
            }
        }
        assert forall|i: int| 0 <= i < t.parts.len() implies (#[trigger] t.parts[i]).quantity
            >= 0 by {
            if i < s.parts.len() {
                assert(t.parts[i] == s.parts[i]);
            }
        }
    }
}

/// Confirming line items keeps the state well-formed.
pub proof fn lemma_confirm_keeps_wf(
    s: WorkshopState,
    order_id: i32,
    work_ids: Seq<i32>,
    part_ids: Seq<i32>,
)
    requires
        s.wf(),
    ensures
        s.after_confirm(order_id, work_ids, part_ids).wf(),
{
    let t = s.after_confirm(order_id, work_ids, part_ids);
    assert forall|i: int| 0 <= i < t.works.len() implies OrderWork::key_of(#[trigger] t.works[i])
        == OrderWork::key_of(s.works[i]) by {}
    assert(keys_issued::<OrderWork>(t.works, t.last_work_id));
    assert forall|i: int| 0 <= i < t.parts.len() implies OrderPart::key_of(#[trigger] t.parts[i])
        == OrderPart::key_of(s.parts[i]) by {}
    assert(keys_issued::<OrderPart>(t.parts, t.last_part_id));
    assert forall|i: int| 0 <= i < t.works.len() implies t.has_order(
        (#[trigger] t.works[i]).order_id,
    ) by {
        assert(t.works[i].order_id == s.works[i].order_id);
    }
    assert forall|i: int| 0 <= i < t.parts.len() implies t.has_order(
        (#[trigger] t.parts[i]).order_id,
    ) by {
        assert(t.parts[i].order_id == s.parts[i].order_id);
    }
    assert forall|i: int|
        0 <= i < t.works.len() && (#[trigger] t.works[i]).defect_id is Some implies t.defect_of_order(
        t.works[i].defect_id->0,
        t.works[i].order_id,
    ) by {
        assert(s.works[i].defect_id == t.works[i].defect_id);
        assert(s.defect_of_order(s.works[i].defect_id->0, s.works[i].order_id));
    }
    assert(t.references_hold());
    assert forall|i: int, j: int|
        0 <= i < t.works.len() && 0 <= j < t.orders.len() && (
        #[trigger] t.works[i]).worker_id is Some && (#[trigger] t.orders[j]).id
            == t.works[i].order_id implies t.orders[j].status.assignment_made() by {
        assert(s.works[i].worker_id == t.works[i].worker_id);
        assert(s.works[i].order_id == t.works[i].order_id);
    }
    assert forall|i: int| 0 <= i < t.parts.len() implies (#[trigger] t.parts[i]).quantity
        >= 0 by {
        assert(t.parts[i].quantity == s.parts[i].quantity);
    }
}

/// Assigning workers keeps the state well-formed, whatever its outcome.
pub proof fn lemma_assignment_keeps_wf(
    s: WorkshopState,
    order_id: i32,
    actor_id: i32,
    assignments: Seq<(i32, i32)>,
    main_worker: Option<i32>,
)
    requires
        s.wf(),
    ensures
        s.after_assignment(order_id, actor_id, assignments, main_worker).wf(),
{
    let t = s.after_assignment(order_id, actor_id, assignments, main_worker);
    if s.order_slot(order_id) is Some {
        lemma_first_index(s.orders, has_key::<Order>(order_id));
        let i = s.order_slot(order_id)->0;
        let row = t.orders[i];
        lemma_order_update_keeps_references(s, i, row);
        let mid = WorkshopState { orders: s.orders.update(i, row), ..s };
        assert(t.orders == mid.orders);
        assert forall|a: int| 0 <= a < t.works.len() implies OrderWork::key_of(
            #[trigger] t.works[a],
        ) == OrderWork::key_of(s.works[a]) by {}
        assert(keys_issued::<OrderWork>(t.works, t.last_work_id));
        assert(t.ids_issued());
        assert forall|a: int| 0 <= a < t.works.len() implies t.has_order(
            (#[trigger] t.works[a]).order_id,
        ) by {
            assert(t.works[a].order_id == mid.works[a].order_id);
            assert(mid.has_order(mid.works[a].order_id));
        }
        assert forall|a: int|
            0 <= a < t.works.len() && (#[trigger] t.works[a]).defect_id is Some implies t.defect_of_order(
            t.works[a].defect_id->0,
            t.works[a].order_id,
        ) by {
            assert(s.works[a].defect_id == t.works[a].defect_id);
            assert(s.defect_of_order(s.works[a].defect_id->0, s.works[a].order_id));
        }
        assert forall|a: int| 0 <= a < t.defects.len() implies t.has_order(
            (#[trigger] t.defects[a]).order_id,
        ) by {
            assert(mid.has_order(mid.defects[a].order_id));
        }
        assert forall|a: int| 0 <= a < t.parts.len() implies t.has_order(
            (#[trigger] t.parts[a]).order_id,
        ) by {
            assert(mid.has_order(mid.parts[a].order_id));
        }
        assert forall|a: int| 0 <= a < t.orders.len() implies t.has_client(
            (#[trigger] t.orders[a]).client_id,
        ) && t.has_car(t.orders[a].car_id) by {
            assert(mid.has_client(mid.orders[a].client_id));
            assert(mid.has_car(mid.orders[a].car_id));
        }
        assert forall|a: int|
            0 <= a < t.cars.len() && (#[trigger] t.cars[a]).client_id is Some implies t.has_client(
            t.cars[a].client_id->0,
        ) by {
            assert(mid.has_client(mid.cars[a].client_id->0));
        }
        assert(t.references_hold());
        assert forall|a: int, j: int|
            0 <= a < t.works.len() && 0 <= j < t.orders.len() && (
            #[trigger] t.works[a]).worker_id is Some && (#[trigger] t.orders[j]).id
                == t.works[a].order_id implies t.orders[j].status.assignment_made() by {
            if j == i {
            } else {
                assert(t.orders[j] == s.orders[j]);
                assert(s.orders[j].id != s.orders[i].id);
                assert(s.works[a].order_id != order_id);
                assert(t.works[a] == s.works[a]);
            }
        }
    }
}

} // verus!

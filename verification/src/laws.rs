//! What holds of the engine for every state and every request.

use vstd::prelude::*;
use crate::catalog::CatalogView;
use crate::error::EngineError;
use crate::invariants::{
    lemma_add_part_keeps_wf, lemma_assignment_keeps_wf, lemma_confirm_keeps_wf,
    lemma_create_order_keeps_wf, lemma_diagnosis_keeps_wf, lemma_register_car_keeps_wf,
    lemma_register_client_keeps_wf, lemma_transition_keeps_wf,
};
use crate::lookup::{first_index, has_key, is_first, lemma_first_index, lemma_first_index_found};
use crate::records::{CarView, Order, OrderPartView, OrderView};
use crate::state::{assigned_worker, WorkshopState};
use crate::status::{
    lemma_wire_name_round_trip, status_named, transition_verdict, OrderStatus, WorkStatus,
};

verus! {

/// One request to the engine, with its arguments.
pub enum Operation {
    RegisterClient {
        actor_id: i32,
        full_name: Seq<char>,
        phone: Seq<char>,
        address: Option<Seq<char>>,
        created_at: Seq<char>,
    },
    RegisterCar { actor_id: i32, car: CarView },
    CreateOrder {
        actor_id: i32,
        client_id: i32,
        car_id: i32,
        complaint: Option<Seq<char>>,
        current_mileage: Option<i32>,
        created_at: Seq<char>,
    },
    Transition { order_id: i32, target: Seq<char>, actor_id: i32 },
    RecordDiagnosis {
        order_id: i32,
        diagnostician_id: i32,
        defect_type_ids: Seq<i32>,
        catalog: CatalogView,
    },
    AddPart { actor_id: i32, part: OrderPartView },
    ConfirmLineItems { order_id: i32, work_ids: Seq<i32>, part_ids: Seq<i32> },
    AssignWorkers {
        order_id: i32,
        actor_id: i32,
        assignments: Seq<(i32, i32)>,
        main_worker: Option<i32>,
    },
}

/// The state that a request leaves behind.
pub open spec fn apply(s: WorkshopState, op: Operation) -> WorkshopState {
    match op {
        Operation::RegisterClient { actor_id, full_name, phone, address, created_at } =>
            s.after_register_client(actor_id, full_name, phone, address, created_at),
        Operation::RegisterCar { actor_id, car } => s.after_register_car(actor_id, car),
        Operation::CreateOrder {
            actor_id,
            client_id,
            car_id,
            complaint,
            current_mileage,
            created_at,
        } => s.after_create_order(
            actor_id,
            client_id,
            car_id,
            complaint,
            current_mileage,
            created_at,
        ),
        Operation::Transition { order_id, target, actor_id } => s.after_transition(
            order_id,
            target,
            actor_id,
        ),
        Operation::RecordDiagnosis { order_id, diagnostician_id, defect_type_ids, catalog } =>
            s.after_diagnosis(order_id, diagnostician_id, defect_type_ids, catalog),
        Operation::AddPart { actor_id, part } => s.after_add_part(actor_id, part),
        Operation::ConfirmLineItems { order_id, work_ids, part_ids } => s.after_confirm(
            order_id,
            work_ids,
            part_ids,
        ),
        Operation::AssignWorkers { order_id, actor_id, assignments, main_worker } =>
            s.after_assignment(order_id, actor_id, assignments, main_worker),
    }
}

/// The place of a status on the forward line; a cancelled order is off it.
pub open spec fn stage(status: OrderStatus) -> Option<int> {
    match status {
        OrderStatus::Diagnostics => Some(0int),
        OrderStatus::PartsSelection => Some(1int),
        OrderStatus::Approval => Some(2int),
        OrderStatus::InWork => Some(3int),
        OrderStatus::Ready => Some(4int),
        OrderStatus::Closed => Some(5int),
        OrderStatus::Cancelled => None,
    }
}

/// Every request, whatever its arguments and its outcome, takes a
/// well-formed state to a well-formed state.
pub proof fn law_every_operation_keeps_the_state_well_formed(s: WorkshopState, op: Operation)
    requires
        s.wf(),
    ensures
        apply(s, op).wf(),
{
    match op {
        Operation::RegisterClient { actor_id, full_name, phone, address, created_at } => {
            lemma_register_client_keeps_wf(s, actor_id, full_name, phone, address, created_at);
        },
        Operation::RegisterCar { actor_id, car } => {
            lemma_register_car_keeps_wf(s, actor_id, car);
        },
        Operation::CreateOrder {
            actor_id,
            client_id,
            car_id,
            complaint,
            current_mileage,
            created_at,
        } => {
            lemma_create_order_keeps_wf(
                s,
                actor_id,
                client_id,
                car_id,
                complaint,
                current_mileage,
                created_at,
            );
        },
        Operation::Transition { order_id, target, actor_id } => {
            lemma_transition_keeps_wf(s, order_id, target, actor_id);
        },
        Operation::RecordDiagnosis { order_id, diagnostician_id, defect_type_ids, catalog } => {
            lemma_diagnosis_keeps_wf(s, order_id, diagnostician_id, defect_type_ids, catalog);
        },
        Operation::AddPart { actor_id, part } => {
            lemma_add_part_keeps_wf(s, actor_id, part);
        },
        Operation::ConfirmLineItems { order_id, work_ids, part_ids } => {
            lemma_confirm_keeps_wf(s, order_id, work_ids, part_ids);
        },
        Operation::AssignWorkers { order_id, actor_id, assignments, main_worker } => {
            lemma_assignment_keeps_wf(s, order_id, actor_id, assignments, main_worker);
        },
    }
}

/// A transition request writes a status only if the target text is the
/// wire name of that status. A text that names no status is refused with
/// `InvalidStatus` where the order exists, and the state stays as it was.
pub proof fn law_only_recognised_statuses_are_written(
    s: WorkshopState,
    order_id: i32,
    target: Seq<char>,
    actor_id: i32,
)
    ensures
        s.transition_result(order_id, target) is Ok ==> status_named(target) == Some(
            s.transition_result(order_id, target)->Ok_0,
        ) && target == s.transition_result(order_id, target)->Ok_0.wire_name(),
        status_named(target) is None ==> s.after_transition(order_id, target, actor_id) == s,
        status_named(target) is None && s.order(order_id) is Some ==> s.transition_result(
            order_id,
            target,
        ) == Err::<OrderStatus, EngineError>(EngineError::InvalidStatus),
{
}

/// The wire names denote seven different statuses: each status is read
/// back from its own name.
pub proof fn law_wire_names_round_trip(status: OrderStatus)
    ensures
        status_named(status.wire_name()) == Some(status),
{
    lemma_wire_name_round_trip(status);
}

/// The generic transition never puts an order in work: whatever the target
/// text, the outcome is not `InWork`, and a request that names `In_Work`
/// leaves the state as it was.
pub proof fn law_transition_never_enters_work(
    s: WorkshopState,
    order_id: i32,
    target: Seq<char>,
    actor_id: i32,
)
    ensures
        s.transition_result(order_id, target) != Ok::<OrderStatus, EngineError>(
            OrderStatus::InWork,
        ),
        target == OrderStatus::InWork.wire_name() ==> s.transition_result(order_id, target) is Err
            && s.after_transition(order_id, target, actor_id) == s,
        target == OrderStatus::InWork.wire_name() && s.order(order_id) is Some
            ==> s.transition_result(order_id, target) == Err::<OrderStatus, EngineError>(
            EngineError::InvalidTransition,
        ),
{
    lemma_wire_name_round_trip(OrderStatus::InWork);
}

/// The order with the identifier `id` keeps its place when the row at its
/// place is replaced by one with the same identifier.
pub proof fn lemma_slot_after_update(orders: Seq<OrderView>, id: i32, i: int, row: OrderView)
    requires
        first_index(orders, has_key::<Order>(id)) == Some(i),
        row.id == id,
    ensures
        first_index(orders.update(i, row), has_key::<Order>(id)) == Some(i),
{
    lemma_first_index(orders, has_key::<Order>(id));
    let p = has_key::<Order>(id);
    let next = orders.update(i, row);
    assert(p(next[i]));
    assert forall|j: int| 0 <= j < i implies !p(#[trigger] next[j]) by {
        assert(next[j] == orders[j]);
        assert(!p(orders[j]));
    }
    assert(is_first(next, p, i));
    lemma_first_index_found(next, p, i);
}

/// An order that another order's row replaces nothing of: the order with
/// the identifier `id` is found at the same place after a row with another
/// identifier was replaced by one with that other identifier.
pub proof fn lemma_slot_untouched(orders: Seq<OrderView>, id: i32, k: int, row: OrderView)
    requires
        0 <= k < orders.len(),
        orders[k].id == row.id,
        row.id != id,
    ensures
        first_index(orders.update(k, row), has_key::<Order>(id)) == first_index(
            orders,
            has_key::<Order>(id),
        ),
        first_index(orders, has_key::<Order>(id)) is Some ==> orders.update(
            k,
            row,
        )[first_index(orders, has_key::<Order>(id))->0] == orders[first_index(
            orders,
            has_key::<Order>(id),
        )->0],
{
    let p = has_key::<Order>(id);
    let next = orders.update(k, row);
    lemma_first_index(orders, p);
    lemma_first_index(next, p);
    match first_index(orders, p) {
        Some(i) => {
            assert(p(next[i]));
            assert forall|j: int| 0 <= j < i implies !p(#[trigger] next[j]) by {
                if j != k {
                    assert(next[j] == orders[j]);
                }
                assert(!p(orders[j]));
            }
            assert(is_first(next, p, i));
            lemma_first_index_found(next, p, i);
        },
        None => {
            if first_index(next, p) is Some {
                let i = first_index(next, p)->0;
                assert(p(next[i]));
                assert(i != k);
                assert(next[i] == orders[i]);
                assert(!p(orders[i]));
            }
        },
    }
}

/// Only the assignment of workers puts an order in work: after any other
/// request, an order that is in work was in work before.
pub proof fn law_only_assignment_enters_work(s: WorkshopState, op: Operation, order_id: i32)
    requires
        s.wf(),
        !(op is AssignWorkers),
        apply(s, op).order(order_id) is Some,
        apply(s, op).order(order_id)->0.status == OrderStatus::InWork,
    ensures
        s.order(order_id) is Some,
        s.order(order_id)->0.status == OrderStatus::InWork,
{
    let t = apply(s, op);
    let p = has_key::<Order>(order_id);
    lemma_first_index(t.orders, p);
    lemma_first_index(s.orders, p);
    match op {
        Operation::CreateOrder {
            actor_id,
            client_id,
            car_id,
            complaint,
            current_mileage,
            created_at,
        } => {
            if s.intake_verdict(client_id, car_id) is Ok {
                let i = first_index(t.orders, p)->0;
                if i < s.orders.len() {
                    assert(t.orders[i] == s.orders[i]);
                    assert forall|j: int| 0 <= j < i implies !p(#[trigger] s.orders[j]) by {
                        assert(t.orders[j] == s.orders[j]);
                    }
                    assert(is_first(s.orders, p, i));
                    lemma_first_index_found(s.orders, p, i);
                }
            }
        },
        Operation::Transition { order_id: moved, target, actor_id } => {
            if s.transition_result(moved, target) is Ok {
                let q = has_key::<Order>(moved);
                lemma_first_index(s.orders, q);
                let k = first_index(s.orders, q)->0;
                let row = t.orders[k];
                assert(t.orders == s.orders.update(k, row));
                if moved == order_id {
                    lemma_slot_after_update(s.orders, moved, k, row);
                } else {
                    lemma_slot_untouched(s.orders, order_id, k, row);
                }
            }
        },
        _ => {
            assert(t.orders == s.orders);
        },
    }
}

/// The reachability policy is forward-only and skips nothing: a target
/// other than `Cancelled` is reached only from the stage just before it,
/// and `Cancelled` exactly from the states that are not terminal.
pub proof fn law_reachability_is_one_step_forward(from: OrderStatus, to: OrderStatus)
    ensures
        to != OrderStatus::Cancelled ==> (from.reaches(to) <==> stage(from) is Some && stage(to)
            == Some(stage(from)->0 + 1)),
        to == OrderStatus::Cancelled ==> (from.reaches(to) <==> !from.terminal()),
        from.terminal() ==> !from.reaches(to),
{
}

/// A request that skips ahead, stays in place or goes backward is refused
/// with `InvalidTransition`, and so is every request on a terminal state;
/// cancelling a state that is not terminal succeeds.
pub proof fn law_skips_and_reversals_are_rejected(from: OrderStatus, to: OrderStatus)
    ensures
        to != OrderStatus::Cancelled && !(stage(from) is Some && stage(to) == Some(
            stage(from)->0 + 1,
        )) ==> transition_verdict(from, to.wire_name()) == Err::<OrderStatus, EngineError>(
            EngineError::InvalidTransition,
        ),
        from.terminal() ==> transition_verdict(from, to.wire_name()) == Err::<
            OrderStatus,
            EngineError,
        >(EngineError::InvalidTransition),
        !from.terminal() ==> transition_verdict(from, OrderStatus::Cancelled.wire_name()) == Ok::<
            OrderStatus,
            EngineError,
        >(OrderStatus::Cancelled),
        transition_verdict(from, to.wire_name()) is Ok <==> from.reaches(to) && to
            != OrderStatus::InWork,
{
    lemma_wire_name_round_trip(to);
    lemma_wire_name_round_trip(OrderStatus::Cancelled);
}

/// An accepted transition gives the order the new status and leaves every
/// other order, and every other field of the order, as it was.
pub proof fn law_transition_moves_one_order(
    s: WorkshopState,
    order_id: i32,
    target: Seq<char>,
    actor_id: i32,
    other_id: i32,
)
    requires
        s.transition_result(order_id, target) is Ok,
    ensures
        s.after_transition(order_id, target, actor_id).order(order_id) == Some(
            OrderView {
                status: s.transition_result(order_id, target)->Ok_0,
                ..s.order(order_id)->0
            },
        ),
        other_id != order_id ==> s.after_transition(order_id, target, actor_id).order(other_id)
            == s.order(other_id),
{
    let t = s.after_transition(order_id, target, actor_id);
    let p = has_key::<Order>(order_id);
    lemma_first_index(s.orders, p);
    let k = first_index(s.orders, p)->0;
    let row = t.orders[k];
    assert(t.orders == s.orders.update(k, row));
    lemma_slot_after_update(s.orders, order_id, k, row);
    if other_id != order_id {
        lemma_slot_untouched(s.orders, other_id, k, row);
    }
}

/// A diagnosis of `n` defect types that is accepted adds exactly `n`
/// defects and exactly `n` works behind the rows that were there, and the
/// `k`-th new work is linked to the `k`-th new defect, both on the order.
pub proof fn law_diagnosis_adds_one_defect_and_one_work_each(
    s: WorkshopState,
    order_id: i32,
    diagnostician_id: i32,
    defect_type_ids: Seq<i32>,
    catalog: CatalogView,
)
    requires
        s.diagnosis_verdict(order_id, defect_type_ids, catalog) is Ok,
    ensures
        ({
            let t = s.after_diagnosis(order_id, diagnostician_id, defect_type_ids, catalog);
            let n = defect_type_ids.len() as int;
            let d0 = s.defects.len() as int;
            let w0 = s.works.len() as int;
            &&& s.diagnosis_verdict(order_id, defect_type_ids, catalog) == Ok::<
                usize,
                EngineError,
            >(n as usize)
            &&& t.defects.len() == d0 + n
            &&& t.works.len() == w0 + n
            &&& t.defects.subrange(0, d0) == s.defects
            &&& t.works.subrange(0, w0) == s.works
            &&& t.orders == s.orders
            &&& forall|k: int|
                0 <= k < n ==> {
                    &&& (#[trigger] t.works[w0 + k]).defect_id == Some(t.defects[d0 + k].id)
                    &&& t.works[w0 + k].order_id == order_id
                    &&& t.defects[d0 + k].order_id == order_id
                    &&& t.defects[d0 + k].defect_type_id == Some(defect_type_ids[k])
                    &&& t.defects[d0 + k].diagnostician_id == diagnostician_id
                    &&& !t.defects[d0 + k].is_confirmed
                    &&& !t.works[w0 + k].is_confirmed
                    &&& t.works[w0 + k].worker_id is None
                }
        }),
{
    let t = s.after_diagnosis(order_id, diagnostician_id, defect_type_ids, catalog);
    assert(t.defects.subrange(0, s.defects.len() as int) =~= s.defects);
    assert(t.works.subrange(0, s.works.len() as int) =~= s.works);
}

/// A work that a diagnosis creates takes its name, price and norm hours
/// from the linked service where the catalog has one, and is a placeholder
/// priced zero with one norm hour under the defect's own title where it has
/// none.
pub proof fn law_diagnosis_snapshots_the_catalog(
    s: WorkshopState,
    order_id: i32,
    diagnostician_id: i32,
    defect_type_ids: Seq<i32>,
    catalog: CatalogView,
    k: int,
)
    requires
        s.diagnosis_verdict(order_id, defect_type_ids, catalog) is Ok,
        0 <= k < defect_type_ids.len(),
    ensures
        ({
            let t = s.after_diagnosis(order_id, diagnostician_id, defect_type_ids, catalog);
            let work = t.works[s.works.len() + k];
            let defect = t.defects[s.defects.len() + k];
            match catalog.linked_service(defect_type_ids[k]) {
                Some(service) => {
                    &&& work.service_id == Some(service.id)
                    &&& work.service_name_snapshot == service.name
                    &&& work.price == service.base_price
                    &&& work.norm_hours == service.norm_hours
                },
                None => {
                    &&& work.service_id is None
                    &&& work.service_name_snapshot == defect.defect_description
                    &&& work.price.hundredths == 0
                    &&& work.norm_hours.hundredths == 100
                },
            }
        }),
{
    assert(catalog.draft(defect_type_ids[k]) is Some);
}

/// Confirming line items changes no order, whichever items are named.
pub proof fn law_confirmation_leaves_orders_alone(
    s: WorkshopState,
    order_id: i32,
    work_ids: Seq<i32>,
    part_ids: Seq<i32>,
)
    ensures
        s.after_confirm(order_id, work_ids, part_ids).orders == s.orders,
        s.after_confirm(order_id, work_ids, part_ids).defects == s.defects,
        s.after_confirm(order_id, work_ids, part_ids).audit == s.audit,
        forall|id: i32| #[trigger]
            s.after_confirm(order_id, work_ids, part_ids).order(id) == s.order(id),
{
}

/// Confirmation reaches exactly the named items of the order: such a work
/// or part is confirmed afterwards, every other one is as it was.
pub proof fn law_confirmation_is_scoped_to_the_order(
    s: WorkshopState,
    order_id: i32,
    work_ids: Seq<i32>,
    part_ids: Seq<i32>,
)
    ensures
        ({
            let t = s.after_confirm(order_id, work_ids, part_ids);
            &&& t.works.len() == s.works.len()
            &&& t.parts.len() == s.parts.len()
            &&& forall|i: int|
                0 <= i < s.works.len() ==> #[trigger] t.works[i] == (if s.works[i].order_id
                    == order_id && work_ids.contains(s.works[i].id) {
                    crate::records::OrderWorkView { is_confirmed: true, ..s.works[i] }
                } else {
                    s.works[i]
                })
            &&& forall|i: int|
                0 <= i < s.parts.len() ==> #[trigger] t.parts[i] == (if s.parts[i].order_id
                    == order_id && part_ids.contains(s.parts[i].id) {
                    OrderPartView { is_confirmed: true, ..s.parts[i] }
                } else {
                    s.parts[i]
                })
        }),
{
}

/// Assigning workers to an order that exists puts it in work. With a main
/// worker the order's worker becomes that worker; without one the order's
/// worker stays as it was. Every other order is untouched.
pub proof fn law_assignment_puts_the_order_in_work(
    s: WorkshopState,
    order_id: i32,
    actor_id: i32,
    assignments: Seq<(i32, i32)>,
    main_worker: Option<i32>,
    other_id: i32,
)
    requires
        s.order(order_id) is Some,
    ensures
        ({
            let t = s.after_assignment(order_id, actor_id, assignments, main_worker);
            &&& s.assignment_verdict(order_id, assignments) == Ok::<usize, EngineError>(
                assignments.len() as usize,
            )
            &&& t.order(order_id) is Some
            &&& t.order(order_id)->0.status == OrderStatus::InWork
            &&& main_worker is Some ==> t.order(order_id)->0.worker_id == main_worker
            &&& main_worker is None ==> t.order(order_id)->0.worker_id == s.order(
                order_id,
            )->0.worker_id
            &&& t.order(order_id)->0 == (OrderView {
                status: OrderStatus::InWork,
                worker_id: t.order(order_id)->0.worker_id,
                ..s.order(order_id)->0
            })
            &&& other_id != order_id ==> t.order(other_id) == s.order(other_id)
        }),
{
    let t = s.after_assignment(order_id, actor_id, assignments, main_worker);
    let p = has_key::<Order>(order_id);
    lemma_first_index(s.orders, p);
    let k = first_index(s.orders, p)->0;
    let row = t.orders[k];
    assert(t.orders == s.orders.update(k, row));
    lemma_slot_after_update(s.orders, order_id, k, row);
    if other_id != order_id {
        lemma_slot_untouched(s.orders, other_id, k, row);
    }
}

/// After an assignment, a work of the order that a pair names carries the
/// worker of the last such pair and is pending; every other work is as it
/// was.
pub proof fn law_assignment_reaches_the_named_works(
    s: WorkshopState,
    order_id: i32,
    actor_id: i32,
    assignments: Seq<(i32, i32)>,
    main_worker: Option<i32>,
    i: int,
)
    requires
        s.order(order_id) is Some,
        0 <= i < s.works.len(),
    ensures
        ({
            let t = s.after_assignment(order_id, actor_id, assignments, main_worker);
            let named = s.works[i].order_id == order_id && assigned_worker(
                assignments,
                s.works[i].id,
            ) is Some;
            &&& t.works.len() == s.works.len()
            &&& named ==> t.works[i].worker_id == assigned_worker(assignments, s.works[i].id)
                && t.works[i].status == WorkStatus::Pending
            &&& !named ==> t.works[i] == s.works[i]
        }),
{
}

/// A pair of the list gives its work the pair's worker unless a later pair
/// names the same work; a work that no pair names gets no worker.
pub proof fn law_last_assignment_wins(assignments: Seq<(i32, i32)>, work_id: i32)
    ensures
        assigned_worker(assignments, work_id) is Some <==> exists|k: int|
            0 <= k < assignments.len() && (#[trigger] assignments[k]).0 == work_id,
        assigned_worker(assignments, work_id) is Some ==> exists|k: int|
            0 <= k < assignments.len() && (#[trigger] assignments[k]) == (
                work_id,
                assigned_worker(assignments, work_id)->0,
            ) && forall|j: int| k < j < assignments.len() ==> (#[trigger] assignments[j]).0 != work_id,
    decreases assignments.len(),
{
    if assignments.len() == 0 {
    } else if assignments.last().0 == work_id {
        let k = assignments.len() - 1;
        assert(assignments[k] == (work_id, assigned_worker(assignments, work_id)->0));
    } else {
        let rest = assignments.drop_last();
        law_last_assignment_wins(rest, work_id);
        if assigned_worker(rest, work_id) is Some {
            let k = choose|k: int|
                0 <= k < rest.len() && (#[trigger] rest[k]) == (
                    work_id,
                    assigned_worker(rest, work_id)->0,
                ) && forall|j: int| k < j < rest.len() ==> (#[trigger] rest[j]).0 != work_id;
            assert(assignments[k] == rest[k]);
            assert forall|j: int| k < j < assignments.len() implies (#[trigger] assignments[j]).0
                != work_id by {
                if j < rest.len() {
                    assert(assignments[j] == rest[j]);
                }
            }
        }
        if exists|k: int| 0 <= k < assignments.len() && (#[trigger] assignments[k]).0 == work_id {
            let k = choose|k: int|
                0 <= k < assignments.len() && (#[trigger] assignments[k]).0 == work_id;
            assert(rest[k] == assignments[k]);
        }
    }
}

/// No request removes an order: an order that exists before a request
/// exists after it, under the same identifier, for the same client and car.
pub proof fn law_orders_are_never_removed(s: WorkshopState, op: Operation, i: int)
    requires
        0 <= i < s.orders.len(),
    ensures
        apply(s, op).orders.len() >= s.orders.len(),
        apply(s, op).orders[i].id == s.orders[i].id,
        apply(s, op).orders[i].client_id == s.orders[i].client_id,
        apply(s, op).orders[i].car_id == s.orders[i].car_id,
        apply(s, op).orders[i].created_at == s.orders[i].created_at,
{
    match op {
        Operation::Transition { order_id, target, actor_id } => {
            if s.transition_result(order_id, target) is Ok {
                lemma_first_index(s.orders, has_key::<Order>(order_id));
            }
        },
        Operation::AssignWorkers { order_id, actor_id, assignments, main_worker } => {
            lemma_first_index(s.orders, has_key::<Order>(order_id));
        },
        _ => {},
    }
}

/// The record of faults is append-only: no request changes or removes a
/// defect that was recorded.
pub proof fn law_defects_are_append_only(s: WorkshopState, op: Operation)
    ensures
        apply(s, op).defects.len() >= s.defects.len(),
        apply(s, op).defects.subrange(0, s.defects.len() as int) == s.defects,
{
    let t = apply(s, op);
    assert(t.defects.subrange(0, s.defects.len() as int) =~= s.defects);
}

/// What a work took from the catalog stays as it was taken: no request
/// changes the order, the service, the name, the price, the norm hours or
/// the defect of a work that exists.
pub proof fn law_work_snapshots_are_kept(s: WorkshopState, op: Operation, i: int)
    requires
        0 <= i < s.works.len(),
    ensures
        apply(s, op).works.len() >= s.works.len(),
        apply(s, op).works[i].id == s.works[i].id,
        apply(s, op).works[i].order_id == s.works[i].order_id,
        apply(s, op).works[i].service_id == s.works[i].service_id,
        apply(s, op).works[i].service_name_snapshot == s.works[i].service_name_snapshot,
        apply(s, op).works[i].price == s.works[i].price,
        apply(s, op).works[i].norm_hours == s.works[i].norm_hours,
        apply(s, op).works[i].defect_id == s.works[i].defect_id,
{
    match op {
        Operation::RecordDiagnosis { order_id, diagnostician_id, defect_type_ids, catalog } => {
            let t = s.after_diagnosis(order_id, diagnostician_id, defect_type_ids, catalog);
            if s.diagnosis_verdict(order_id, defect_type_ids, catalog) is Ok {
                assert(t.works[i] == s.works[i]);
            }
        },
        Operation::ConfirmLineItems { order_id, work_ids, part_ids } => {
            let t = s.after_confirm(order_id, work_ids, part_ids);
            assert(t.works[i] == WorkshopState::confirmed_work(s.works[i], order_id, work_ids));
        },
        Operation::AssignWorkers { order_id, actor_id, assignments, main_worker } => {
            let t = s.after_assignment(order_id, actor_id, assignments, main_worker);
            if s.order_slot(order_id) is Some {
                assert(t.works[i] == WorkshopState::assigned_work(
                    s.works[i],
                    order_id,
                    assignments,
                ));
            }
        },
        _ => {},
    }
}

/// What a part was added with stays: no request changes the order, the
/// stock reference, the name, the brand, the price or the quantity of a
/// part that exists.
pub proof fn law_part_snapshots_are_kept(s: WorkshopState, op: Operation, i: int)
    requires
        0 <= i < s.parts.len(),
    ensures
        apply(s, op).parts.len() >= s.parts.len(),
        apply(s, op).parts[i].id == s.parts[i].id,
        apply(s, op).parts[i].order_id == s.parts[i].order_id,
        apply(s, op).parts[i].warehouse_item_id == s.parts[i].warehouse_item_id,
        apply(s, op).parts[i].part_name_snapshot == s.parts[i].part_name_snapshot,
        apply(s, op).parts[i].brand == s.parts[i].brand,
        apply(s, op).parts[i].price_per_unit == s.parts[i].price_per_unit,
        apply(s, op).parts[i].quantity == s.parts[i].quantity,
{
    match op {
        Operation::AddPart { actor_id, part } => {
            let t = s.after_add_part(actor_id, part);
            if s.part_verdict(part.order_id, part.quantity) is Ok {
                assert(t.parts[i] == s.parts[i]);
            }
        },
        Operation::ConfirmLineItems { order_id, work_ids, part_ids } => {
            let t = s.after_confirm(order_id, work_ids, part_ids);
            assert(t.parts[i] == WorkshopState::confirmed_part(s.parts[i], order_id, part_ids));
        },
        _ => {},
    }
}

/// A refused request changes nothing: where a request that can be refused
/// is refused, the state after it is the state before it.
pub proof fn law_refusals_have_no_effect(s: WorkshopState, op: Operation)
    ensures
        match op {
            Operation::RegisterClient { full_name, phone, .. } => s.client_verdict(full_name, phone)
                is Err ==> apply(s, op) == s,
            Operation::RegisterCar { car, .. } => s.car_verdict(
                car.client_id,
                car.vin,
                car.license_plate,
                car.make,
                car.model,
            ) is Err ==> apply(s, op) == s,
            Operation::CreateOrder { client_id, car_id, .. } => s.intake_verdict(client_id, car_id)
                is Err ==> apply(s, op) == s,
            Operation::Transition { order_id, target, .. } => s.transition_result(order_id, target)
                is Err ==> apply(s, op) == s,
            Operation::RecordDiagnosis { order_id, defect_type_ids, catalog, .. } =>
                s.diagnosis_verdict(order_id, defect_type_ids, catalog) is Err ==> apply(s, op)
                    == s,
            Operation::AddPart { part, .. } => s.part_verdict(part.order_id, part.quantity) is Err
                ==> apply(s, op) == s,
            Operation::ConfirmLineItems { .. } => true,
            Operation::AssignWorkers { order_id, assignments, .. } => s.assignment_verdict(
                order_id,
                assignments,
            ) is Err ==> apply(s, op) == s,
        },
{
}

/// Assigning the same workers a second time changes nothing but the audit
/// trail, which records the second request too.
pub proof fn law_assignment_is_idempotent(
    s: WorkshopState,
    order_id: i32,
    actor_id: i32,
    assignments: Seq<(i32, i32)>,
    main_worker: Option<i32>,
)
    ensures
        ({
            let once = s.after_assignment(order_id, actor_id, assignments, main_worker);
            let twice = once.after_assignment(order_id, actor_id, assignments, main_worker);
            &&& twice.orders == once.orders
            &&& twice.works == once.works
            &&& twice == (WorkshopState { audit: twice.audit, ..once })
            &&& s.order(order_id) is Some ==> twice.audit == once.audit.push(once.audit.last())
            &&& s.order(order_id) is None ==> twice == s
        }),
{
    let once = s.after_assignment(order_id, actor_id, assignments, main_worker);
    let twice = once.after_assignment(order_id, actor_id, assignments, main_worker);
    let p = has_key::<Order>(order_id);
    lemma_first_index(s.orders, p);
    if s.order_slot(order_id) is Some {
        let k = s.order_slot(order_id)->0;
        let row = once.orders[k];
        assert(once.orders == s.orders.update(k, row));
        lemma_slot_after_update(s.orders, order_id, k, row);
        assert(once.order_slot(order_id) == Some(k));
        assert(twice.orders =~= once.orders);
        assert forall|i: int| 0 <= i < once.works.len() implies #[trigger] twice.works[i]
            == once.works[i] by {
            assert(once.works[i] == WorkshopState::assigned_work(
                s.works[i],
                order_id,
                assignments,
            ));
            assert(twice.works[i] == WorkshopState::assigned_work(
                once.works[i],
                order_id,
                assignments,
            ));
        }
        assert(twice.works =~= once.works);
    }
}

} // verus!

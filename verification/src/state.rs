//! The state of the station as a mathematical value, its well-formedness,
//! and what each operation of the engine makes of it.

use vstd::prelude::*;
use crate::audit::{AuditAction, AuditEvent};
use crate::catalog::{CatalogView, DiagnosisDraftView};
use crate::decimal::Decimal;
use crate::error::EngineError;
use crate::lookup::{first_index, has_key, occurs, Keyed};
use crate::records::{
    Car, CarView, Client, ClientView, Order, OrderDefect, OrderDefectView, OrderPart,
    OrderPartView, OrderView, OrderWork, OrderWorkView,
};
use crate::status::{transition_verdict, OrderStatus, WorkStatus};
use crate::text::is_blank;

verus! {

/// The tables of the station, the audit trail, and for each table the
/// highest identifier that was issued so far.
pub struct WorkshopState {
    pub clients: Seq<ClientView>,
    pub cars: Seq<CarView>,
    pub orders: Seq<OrderView>,
    pub defects: Seq<OrderDefectView>,
    pub works: Seq<OrderWorkView>,
    pub parts: Seq<OrderPartView>,
    pub audit: Seq<AuditEvent>,
    pub last_client_id: i32,
    pub last_car_id: i32,
    pub last_order_id: i32,
    pub last_defect_id: i32,
    pub last_work_id: i32,
    pub last_part_id: i32,
}

/// No identifier of the table exceeds `last`, which is not negative, and
/// none occurs twice.
pub open spec fn keys_issued<T: Keyed>(rows: Seq<T::V>, last: i32) -> bool {
    &&& 0 <= last
    &&& forall|i: int| 0 <= i < rows.len() ==> T::key_of(#[trigger] rows[i]) <= last
    &&& forall|i: int, j: int|
        0 <= i < j < rows.len() ==> T::key_of(#[trigger] rows[i]) != T::key_of(#[trigger] rows[j])
}

/// The worker that a list of `(work id, worker id)` pairs gives to a work:
/// that of the last pair that names the work.
pub open spec fn assigned_worker(assignments: Seq<(i32, i32)>, work_id: i32) -> Option<i32>
    decreases assignments.len(),
{
    if assignments.len() == 0 {
        None
    } else if assignments.last().0 == work_id {
        Some(assignments.last().1)
    } else {
        assigned_worker(assignments.drop_last(), work_id)
    }
}

/// Every defect type of the list resolves in the catalog.
pub open spec fn all_resolve(catalog: CatalogView, defect_type_ids: Seq<i32>) -> bool {
    forall|k: int|
        0 <= k < defect_type_ids.len() ==> (#[trigger] catalog.draft(defect_type_ids[k])) is Some
}

/// The defect that the `k`-th entry of a diagnosis records.
pub open spec fn recorded_defect(
    last_defect_id: i32,
    order_id: i32,
    diagnostician_id: i32,
    draft: DiagnosisDraftView,
    k: int,
) -> OrderDefectView {
    OrderDefectView {
        id: (last_defect_id + 1 + k) as i32,
        order_id,
        diagnostician_id,
        defect_description: draft.description,
        diagnostician_comment: draft.comment,
        is_confirmed: false,
        defect_type_id: Some(draft.defect_type_id),
    }
}

/// The work that the `k`-th entry of a diagnosis creates, linked to the
/// defect of the same entry.
pub open spec fn recorded_work(
    last_work_id: i32,
    last_defect_id: i32,
    order_id: i32,
    draft: DiagnosisDraftView,
    k: int,
) -> OrderWorkView {
    OrderWorkView {
        id: (last_work_id + 1 + k) as i32,
        order_id,
        service_id: draft.service_id,
        service_name_snapshot: draft.work_name,
        price: draft.price,
        norm_hours: draft.norm_hours,
        worker_id: None,
        status: WorkStatus::Pending,
        is_confirmed: false,
        defect_id: Some((last_defect_id + 1 + k) as i32),
    }
}

impl WorkshopState {
    /// The state of a station that has seen nothing yet.
    pub open spec fn empty() -> WorkshopState {
        WorkshopState {
            clients: Seq::empty(),
            cars: Seq::empty(),
            orders: Seq::empty(),
            defects: Seq::empty(),
            works: Seq::empty(),
            parts: Seq::empty(),
            audit: Seq::empty(),
            last_client_id: 0,
            last_car_id: 0,
            last_order_id: 0,
            last_defect_id: 0,
            last_work_id: 0,
            last_part_id: 0,
        }
    }

    /// A client with this id is registered.
    pub open spec fn has_client(self, id: i32) -> bool {
        occurs(self.clients, has_key::<Client>(id))
    }

    /// A car with this id is registered.
    pub open spec fn has_car(self, id: i32) -> bool {
        occurs(self.cars, has_key::<Car>(id))
    }

    /// An order with this id exists.
    pub open spec fn has_order(self, id: i32) -> bool {
        occurs(self.orders, has_key::<Order>(id))
    }

    /// The position of the order with this id.
    pub open spec fn order_slot(self, id: i32) -> Option<int> {
        first_index(self.orders, has_key::<Order>(id))
    }

    /// The order with this id.
    pub open spec fn order(self, id: i32) -> Option<OrderView> {
        match self.order_slot(id) {
            Some(i) => Some(self.orders[i]),
            None => None,
        }
    }

    /// Identifiers are unique in each table and were all issued.
    pub open spec fn ids_issued(self) -> bool {
        &&& keys_issued::<Client>(self.clients, self.last_client_id)
        &&& keys_issued::<Car>(self.cars, self.last_car_id)
        &&& keys_issued::<Order>(self.orders, self.last_order_id)
        &&& keys_issued::<OrderDefect>(self.defects, self.last_defect_id)
        &&& keys_issued::<OrderWork>(self.works, self.last_work_id)
        &&& keys_issued::<OrderPart>(self.parts, self.last_part_id)
    }

    /// Every reference from one record to another points to a record that
    /// exists: a car to its client, an order to its client and car, a line
    /// item to its order, and a work to a defect of the same order.
    pub open spec fn references_hold(self) -> bool {
        &&& forall|i: int|
            0 <= i < self.cars.len() && (#[trigger] self.cars[i]).client_id is Some
                ==> self.has_client(self.cars[i].client_id->0)
        &&& forall|i: int|
            0 <= i < self.orders.len() ==> self.has_client((#[trigger] self.orders[i]).client_id)
                && self.has_car(self.orders[i].car_id)
        &&& forall|i: int|
            0 <= i < self.defects.len() ==> self.has_order((#[trigger] self.defects[i]).order_id)
        &&& forall|i: int|
            0 <= i < self.works.len() ==> self.has_order((#[trigger] self.works[i]).order_id)
        &&& forall|i: int|
            0 <= i < self.parts.len() ==> self.has_order((#[trigger] self.parts[i]).order_id)
        &&& forall|i: int|
            0 <= i < self.works.len() && (#[trigger] self.works[i]).defect_id is Some
                ==> self.defect_of_order(self.works[i].defect_id->0, self.works[i].order_id)
    }

    /// A defect with this id is recorded against this order.
    pub open spec fn defect_of_order(self, defect_id: i32, order_id: i32) -> bool {
        exists|k: int|
            0 <= k < self.defects.len() && (#[trigger] self.defects[k]).id == defect_id
                && self.defects[k].order_id == order_id
    }

    /// A work carries a worker only once its order has seen an assignment.
    pub open spec fn workers_follow_assignment(self) -> bool {
        forall|i: int, j: int|
            0 <= i < self.works.len() && 0 <= j < self.orders.len() && (
            #[trigger] self.works[i]).worker_id is Some && (#[trigger] self.orders[j]).id
                == self.works[i].order_id ==> self.orders[j].status.assignment_made()
    }

    /// No part has a negative quantity.
    pub open spec fn quantities_hold(self) -> bool {
        forall|i: int| 0 <= i < self.parts.len() ==> (#[trigger] self.parts[i]).quantity >= 0
    }

    /// The invariant of the station's state.
    pub open spec fn wf(self) -> bool {
        &&& self.ids_issued()
        &&& self.references_hold()
        &&& self.workers_follow_assignment()
        &&& self.quantities_hold()
    }

    // Clients and cars

    /// Some client has this phone.
    pub open spec fn phone_taken(self, phone: Seq<char>) -> bool {
        exists|i: int| 0 <= i < self.clients.len() && (#[trigger] self.clients[i]).phone == phone
    }

    /// Some car has this VIN.
    pub open spec fn vin_taken(self, vin: Seq<char>) -> bool {
        exists|i: int| 0 <= i < self.cars.len() && (#[trigger] self.cars[i]).vin == Some(vin)
    }

    /// Some car has this license plate.
    pub open spec fn plate_taken(self, plate: Seq<char>) -> bool {
        exists|i: int|
            0 <= i < self.cars.len() && (#[trigger] self.cars[i]).license_plate == Some(plate)
    }

    /// The id of the client that a registration creates, or why it is
    /// refused: a blank name or phone, or a phone that another client has.
    pub open spec fn client_verdict(self, full_name: Seq<char>, phone: Seq<char>) -> Result<
        i32,
        EngineError,
    > {
        if is_blank(full_name) || is_blank(phone) {
            Err(EngineError::ValidationError)
        } else if self.phone_taken(phone) {
            Err(EngineError::ValidationError)
        } else if self.last_client_id == i32::MAX {
            Err(EngineError::PersistenceError)
        } else {
            Ok((self.last_client_id + 1) as i32)
        }
    }

    /// The state after a request to register a client: where it is
    /// accepted, the client is appended and the event logged.
    pub open spec fn after_register_client(
        self,
        actor_id: i32,
        full_name: Seq<char>,
        phone: Seq<char>,
        address: Option<Seq<char>>,
        created_at: Seq<char>,
    ) -> WorkshopState {
        match self.client_verdict(full_name, phone) {
            Err(_) => self,
            Ok(id) => WorkshopState {
                clients: self.clients.push(
                    ClientView { id, full_name, phone, address, created_at },
                ),
                audit: self.audit.push(
                    AuditEvent {
                        actor_id: Some(actor_id),
                        action: AuditAction::ClientCreated { client_id: id },
                    },
                ),
                last_client_id: id,
                ..self
            },
        }
    }

    /// The id of the car that a registration creates, or why it is refused.
    pub open spec fn car_verdict(
        self,
        client_id: Option<i32>,
        vin: Option<Seq<char>>,
        license_plate: Option<Seq<char>>,
        make: Seq<char>,
        model: Seq<char>,
    ) -> Result<i32, EngineError> {
        if is_blank(make) || is_blank(model) {
            Err(EngineError::ValidationError)
        } else if license_plate is None || is_blank(license_plate->0) {
            Err(EngineError::ValidationError)
        } else if vin is Some && vin->0.len() > 0 && self.vin_taken(vin->0) {
            Err(EngineError::ValidationError)
        } else if license_plate->0.len() > 0 && self.plate_taken(license_plate->0) {
            Err(EngineError::ValidationError)
        } else if client_id is Some && !self.has_client(client_id->0) {
            Err(EngineError::NotFound)
        } else if self.last_car_id == i32::MAX {
            Err(EngineError::PersistenceError)
        } else {
            Ok((self.last_car_id + 1) as i32)
        }
    }

    /// The state after a request to register a car: where it is accepted,
    /// the car is appended under its new id, without a last visit, and the
    /// event logged.
    pub open spec fn after_register_car(self, actor_id: i32, car: CarView) -> WorkshopState {
        match self.car_verdict(car.client_id, car.vin, car.license_plate, car.make, car.model) {
            Err(_) => self,
            Ok(id) => WorkshopState {
                cars: self.cars.push(CarView { id, last_visit_date: None, ..car }),
                audit: self.audit.push(
                    AuditEvent {
                        actor_id: Some(actor_id),
                        action: AuditAction::CarCreated { car_id: id },
                    },
                ),
                last_car_id: id,
                ..self
            },
        }
    }

    // Orders

    /// The id of the order that an intake creates, or why it is refused.
    pub open spec fn intake_verdict(self, client_id: i32, car_id: i32) -> Result<i32, EngineError> {
        if !self.has_client(client_id) || !self.has_car(car_id) {
            Err(EngineError::NotFound)
        } else if self.last_order_id == i32::MAX {
            Err(EngineError::PersistenceError)
        } else {
            Ok((self.last_order_id + 1) as i32)
        }
    }

    /// The state after an intake: where it is accepted, the new order is
    /// appended in `Diagnostics`, with no amounts, master or worker, and the
    /// event logged.
    pub open spec fn after_create_order(
        self,
        actor_id: i32,
        client_id: i32,
        car_id: i32,
        complaint: Option<Seq<char>>,
        current_mileage: Option<i32>,
        created_at: Seq<char>,
    ) -> WorkshopState {
        match self.intake_verdict(client_id, car_id) {
            Err(_) => self,
            Ok(id) => WorkshopState {
                orders: self.orders.push(
                    OrderView {
                        id,
                        client_id,
                        car_id,
                        master_id: None,
                        worker_id: None,
                        status: OrderStatus::Diagnostics,
                        complaint,
                        current_mileage,
                        prepayment: Decimal { hundredths: 0 },
                        total_amount: Decimal { hundredths: 0 },
                        created_at,
                        completed_at: None,
                    },
                ),
                audit: self.audit.push(
                    AuditEvent {
                        actor_id: Some(actor_id),
                        action: AuditAction::OrderCreated { order_id: id, client_id, car_id },
                    },
                ),
                last_order_id: id,
                ..self
            },
        }
    }

    /// The new status that a transition request gives the order, or why it
    /// is refused: the order is missing, the target is no status name, or
    /// the policy does not admit the step.
    pub open spec fn transition_result(self, order_id: i32, target: Seq<char>) -> Result<
        OrderStatus,
        EngineError,
    > {
        match self.order(order_id) {
            None => Err(EngineError::NotFound),
            Some(o) => transition_verdict(o.status, target),
        }
    }

    /// The state after a transition request: where it is accepted, the
    /// order has the new status and the change is logged with the old and
    /// the new status.
    pub open spec fn after_transition(
        self,
        order_id: i32,
        target: Seq<char>,
        actor_id: i32,
    ) -> WorkshopState {
        match self.transition_result(order_id, target) {
            Err(_) => self,
            Ok(to) => {
                let i = self.order_slot(order_id)->0;
                let o = self.orders[i];
                WorkshopState {
                    orders: self.orders.update(i, OrderView { status: to, ..o }),
                    audit: self.audit.push(
                        AuditEvent {
                            actor_id: Some(actor_id),
                            action: AuditAction::StatusChanged {
                                order_id,
                                client_id: o.client_id,
                                car_id: o.car_id,
                                from: o.status,
                                to,
                            },
                        },
                    ),
                    ..self
                }
            },
        }
    }

    // Diagnosis

    /// The number of defects that a diagnosis records, or why it is
    /// refused.
    pub open spec fn diagnosis_verdict(
        self,
        order_id: i32,
        defect_type_ids: Seq<i32>,
        catalog: CatalogView,
    ) -> Result<usize, EngineError> {
        match self.order(order_id) {
            None => Err(EngineError::NotFound),
            Some(o) => if o.status != OrderStatus::Diagnostics {
                Err(EngineError::ValidationError)
            } else if !all_resolve(catalog, defect_type_ids) {
                Err(EngineError::CatalogLookupFailed)
            } else if self.last_defect_id + defect_type_ids.len() > i32::MAX || self.last_work_id
                + defect_type_ids.len() > i32::MAX {
                Err(EngineError::PersistenceError)
            } else {
                Ok(defect_type_ids.len() as usize)
            },
        }
    }

    /// The state after a diagnosis: where it is accepted, one defect and
    /// one work for each defect type of the list, in its order, behind the
    /// rows that were there.
    pub open spec fn after_diagnosis(
        self,
        order_id: i32,
        diagnostician_id: i32,
        defect_type_ids: Seq<i32>,
        catalog: CatalogView,
    ) -> WorkshopState {
        match self.diagnosis_verdict(order_id, defect_type_ids, catalog) {
            Err(_) => self,
            Ok(_) => {
                let n = defect_type_ids.len();
                WorkshopState {
                    defects: self.defects + Seq::new(
                        n,
                        |k: int|
                            recorded_defect(
                                self.last_defect_id,
                                order_id,
                                diagnostician_id,
                                catalog.draft(defect_type_ids[k])->0,
                                k,
                            ),
                    ),
                    works: self.works + Seq::new(
                        n,
                        |k: int|
                            recorded_work(
                                self.last_work_id,
                                self.last_defect_id,
                                order_id,
                                catalog.draft(defect_type_ids[k])->0,
                                k,
                            ),
                    ),
                    last_defect_id: (self.last_defect_id + n) as i32,
                    last_work_id: (self.last_work_id + n) as i32,
                    ..self
                }
            },
        }
    }

    // Parts

    /// The id of the part that is added, or why it is refused.
    pub open spec fn part_verdict(self, order_id: i32, quantity: i32) -> Result<i32, EngineError> {
        if !self.has_order(order_id) {
            Err(EngineError::NotFound)
        } else if quantity < 0 {
            Err(EngineError::ValidationError)
        } else if self.last_part_id == i32::MAX {
            Err(EngineError::PersistenceError)
        } else {
            Ok((self.last_part_id + 1) as i32)
        }
    }

    /// The state after a request to add a part: where it is accepted, the
    /// part is appended under its new id, unconfirmed, and the event logged.
    pub open spec fn after_add_part(self, actor_id: i32, part: OrderPartView) -> WorkshopState {
        match self.part_verdict(part.order_id, part.quantity) {
            Err(_) => self,
            Ok(id) => WorkshopState {
                parts: self.parts.push(OrderPartView { id, is_confirmed: false, ..part }),
                audit: self.audit.push(
                    AuditEvent {
                        actor_id: Some(actor_id),
                        action: AuditAction::PartAdded { order_id: part.order_id, part_id: id },
                    },
                ),
                last_part_id: id,
                ..self
            },
        }
    }

    // Confirmation

    /// The work after a confirmation of `work_ids` for the order
    /// `order_id`: confirmed where it belongs to the order and is named.
    pub open spec fn confirmed_work(w: OrderWorkView, order_id: i32, work_ids: Seq<i32>)
        -> OrderWorkView {
        if w.order_id == order_id && work_ids.contains(w.id) {
            OrderWorkView { is_confirmed: true, ..w }
        } else {
            w
        }
    }

    /// The part after a confirmation of `part_ids` for the order
    /// `order_id`: confirmed where it belongs to the order and is named.
    pub open spec fn confirmed_part(p: OrderPartView, order_id: i32, part_ids: Seq<i32>)
        -> OrderPartView {
        if p.order_id == order_id && part_ids.contains(p.id) {
            OrderPartView { is_confirmed: true, ..p }
        } else {
            p
        }
    }

    /// The state after a confirmation: the works and parts as confirmed,
    /// everything else as it was.
    pub open spec fn after_confirm(self, order_id: i32, work_ids: Seq<i32>, part_ids: Seq<i32>)
        -> WorkshopState {
        WorkshopState {
            works: Seq::new(
                self.works.len(),
                |i: int| Self::confirmed_work(self.works[i], order_id, work_ids),
            ),
            parts: Seq::new(
                self.parts.len(),
                |i: int| Self::confirmed_part(self.parts[i], order_id, part_ids),
            ),
            ..self
        }
    }

    // Assignment

    /// The work after an assignment for the order `order_id`: where a pair
    /// names it and it belongs to the order, it gets that worker and starts
    /// over as pending.
    pub open spec fn assigned_work(w: OrderWorkView, order_id: i32, assignments: Seq<(i32, i32)>)
        -> OrderWorkView {
        if w.order_id == order_id && assigned_worker(assignments, w.id) is Some {
            OrderWorkView {
                worker_id: assigned_worker(assignments, w.id),
                status: WorkStatus::Pending,
                ..w
            }
        } else {
            w
        }
    }

    /// The number of assignments applied, or `NotFound` where the order is
    /// missing.
    pub open spec fn assignment_verdict(self, order_id: i32, assignments: Seq<(i32, i32)>)
        -> Result<usize, EngineError> {
        if self.order(order_id) is None {
            Err(EngineError::NotFound)
        } else {
            Ok(assignments.len() as usize)
        }
    }

    /// The state after an assignment: where the order exists, its works as
    /// assigned, the order in work with the main worker that was given or
    /// else the one it had, and the event logged.
    pub open spec fn after_assignment(
        self,
        order_id: i32,
        actor_id: i32,
        assignments: Seq<(i32, i32)>,
        main_worker: Option<i32>,
    ) -> WorkshopState {
        match self.order_slot(order_id) {
            None => self,
            Some(i) => {
                let o = self.orders[i];
                WorkshopState {
                    works: Seq::new(
                        self.works.len(),
                        |k: int| Self::assigned_work(self.works[k], order_id, assignments),
                    ),
                    orders: self.orders.update(
                        i,
                        OrderView {
                            status: OrderStatus::InWork,
                            worker_id: if main_worker is Some {
                                main_worker
                            } else {
                                o.worker_id
                            },
                            ..o
                        },
                    ),
                    audit: self.audit.push(
                        AuditEvent {
                            actor_id: Some(actor_id),
                            action: AuditAction::WorkersAssigned {
                                order_id,
                                assignments: assignments.len() as usize,
                                main_worker,
                            },
                        },
                    ),
                    ..self
                }
            },
        }
    }
}

} // verus!

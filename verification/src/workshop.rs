//! The engine: the station's tables in memory and the operations on them.

use vstd::prelude::*;
use crate::actor::Actor;
use crate::audit::{AuditAction, AuditEvent};
use crate::catalog::{Catalog, DiagnosisDraft};
use crate::decimal::Decimal;
use crate::error::EngineError;
use crate::invariants::{
    lemma_add_part_keeps_wf, lemma_assignment_keeps_wf, lemma_confirm_keeps_wf,
    lemma_create_order_keeps_wf, lemma_diagnosis_keeps_wf, lemma_register_car_keeps_wf,
    lemma_register_client_keeps_wf, lemma_transition_keeps_wf,
};
use crate::lookup::{
    find, has_key, highest_key, lemma_first_index, lemma_highest_key, top_key, Keyed,
};
use crate::queries::{belongs_to, items_of, visible_orders};
use crate::visibility::seen_by;
use crate::records::{
    opt_chars, views, Car, Client, Order, OrderDefect, OrderPart, OrderWork,
};
use crate::state::{all_resolve, assigned_worker, recorded_defect, recorded_work, WorkshopState};
use crate::status::{OrderStatus, WorkStatus};
use crate::text::{blank, copy_text, str_eq};

verus! {

/// The tables behind a `Workshop`.
struct Tables {
    clients: Vec<Client>,
    cars: Vec<Car>,
    orders: Vec<Order>,
    defects: Vec<OrderDefect>,
    works: Vec<OrderWork>,
    parts: Vec<OrderPart>,
    audit: Vec<AuditEvent>,
    last_client_id: i32,
    last_car_id: i32,
    last_order_id: i32,
    last_defect_id: i32,
    last_work_id: i32,
    last_part_id: i32,
}

impl View for Tables {
    type V = WorkshopState;

    closed spec fn view(&self) -> WorkshopState {
        WorkshopState {
            clients: views(self.clients@),
            cars: views(self.cars@),
            orders: views(self.orders@),
            defects: views(self.defects@),
            works: views(self.works@),
            parts: views(self.parts@),
            audit: self.audit@,
            last_client_id: self.last_client_id,
            last_car_id: self.last_car_id,
            last_order_id: self.last_order_id,
            last_defect_id: self.last_defect_id,
            last_work_id: self.last_work_id,
            last_part_id: self.last_part_id,
        }
    }
}

impl Tables {
    fn empty() -> (r: Tables)
        ensures
            r@ == WorkshopState::empty(),
    {
        let r = Tables {
            clients: Vec::new(),
            cars: Vec::new(),
            orders: Vec::new(),
            defects: Vec::new(),
            works: Vec::new(),
            parts: Vec::new(),
            audit: Vec::new(),
            last_client_id: 0,
            last_car_id: 0,
            last_order_id: 0,
            last_defect_id: 0,
            last_work_id: 0,
            last_part_id: 0,
        };
        proof {
            assert(r@.clients =~= Seq::empty());
            assert(r@.cars =~= Seq::empty());
            assert(r@.orders =~= Seq::empty());
            assert(r@.defects =~= Seq::empty());
            assert(r@.works =~= Seq::empty());
            assert(r@.parts =~= Seq::empty());
            assert(r@.audit =~= Seq::empty());
        }
        r
    }
}

/// Whether no identifier occurs twice in a table.
pub fn keys_distinct<T: Keyed>(rows: &Vec<T>) -> (r: bool)
    ensures
        r == forall|i: int, j: int|
            0 <= i < j < rows@.len() ==> T::key_of(#[trigger] views(rows@)[i]) != T::key_of(
                #[trigger] views(rows@)[j],
            ),
{
    let ghost s = views(rows@);
    let mut j: usize = 0;
    while j < rows.len()
        invariant
            j <= rows.len(),
            s == views(rows@),
            forall|a: int, b: int|
                0 <= a < b < j ==> T::key_of(#[trigger] s[a]) != T::key_of(#[trigger] s[b]),
        decreases rows.len() - j,
    {
        let key = rows[j].key();
        assert(s[j as int] == rows@[j as int]@);
        let mut i: usize = 0;
        while i < j
            invariant
                i <= j,
                j < rows.len(),
                s == views(rows@),
                key == T::key_of(s[j as int]),
                forall|a: int| 0 <= a < i ==> T::key_of(#[trigger] s[a]) != key,
            decreases j - i,
        {
            assert(s[i as int] == rows@[i as int]@);
            if rows[i].key() == key {
                return false;
            }
            i += 1;
        }
        j += 1;
    }
    true
}

/// The state that a set of rows stands for: the rows as the tables, no
/// audit trail, and the highest identifier of each table as the last one
/// issued.
pub open spec fn snapshot_of(
    clients: Seq<Client>,
    cars: Seq<Car>,
    orders: Seq<Order>,
    defects: Seq<OrderDefect>,
    works: Seq<OrderWork>,
    parts: Seq<OrderPart>,
) -> WorkshopState {
    WorkshopState {
        clients: views(clients),
        cars: views(cars),
        orders: views(orders),
        defects: views(defects),
        works: views(works),
        parts: views(parts),
        audit: Seq::empty(),
        last_client_id: highest_key::<Client>(views(clients)),
        last_car_id: highest_key::<Car>(views(cars)),
        last_order_id: highest_key::<Order>(views(orders)),
        last_defect_id: highest_key::<OrderDefect>(views(defects)),
        last_work_id: highest_key::<OrderWork>(views(works)),
        last_part_id: highest_key::<OrderPart>(views(parts)),
    }
}

impl Tables {
    fn ids_are_issued(&self) -> (r: bool)
        requires
            self@.last_client_id == highest_key::<Client>(self@.clients),
            self@.last_car_id == highest_key::<Car>(self@.cars),
            self@.last_order_id == highest_key::<Order>(self@.orders),
            self@.last_defect_id == highest_key::<OrderDefect>(self@.defects),
            self@.last_work_id == highest_key::<OrderWork>(self@.works),
            self@.last_part_id == highest_key::<OrderPart>(self@.parts),
        ensures
            r == self@.ids_issued(),
    {
        proof {
            lemma_highest_key::<Client>(self@.clients);
            lemma_highest_key::<Car>(self@.cars);
            lemma_highest_key::<Order>(self@.orders);
            lemma_highest_key::<OrderDefect>(self@.defects);
            lemma_highest_key::<OrderWork>(self@.works);
            lemma_highest_key::<OrderPart>(self@.parts);
        }
        keys_distinct(&self.clients) && keys_distinct(&self.cars) && keys_distinct(&self.orders)
            && keys_distinct(&self.defects) && keys_distinct(&self.works) && keys_distinct(
            &self.parts,
        )
    }

    fn knows_client(&self, id: i32) -> (r: bool)
        ensures
            r == self@.has_client(id),
    {
        proof {
            lemma_first_index(self@.clients, has_key::<Client>(id));
        }
        find(&self.clients, id).is_some()
    }

    fn knows_car(&self, id: i32) -> (r: bool)
        ensures
            r == self@.has_car(id),
    {
        proof {
            lemma_first_index(self@.cars, has_key::<Car>(id));
        }
        find(&self.cars, id).is_some()
    }

    fn knows_order(&self, id: i32) -> (r: bool)
        ensures
            r == self@.has_order(id),
    {
        proof {
            lemma_first_index(self@.orders, has_key::<Order>(id));
        }
        find(&self.orders, id).is_some()
    }

    fn cars_are_owned(&self) -> (r: bool)
        ensures
            r == forall|i: int|
                0 <= i < self@.cars.len() && (#[trigger] self@.cars[i]).client_id is Some
                    ==> self@.has_client(self@.cars[i].client_id->0),
    {
        let mut i: usize = 0;
        while i < self.cars.len()
            invariant
                i <= self.cars.len(),
                forall|j: int|
                    0 <= j < i && (#[trigger] self@.cars[j]).client_id is Some
                        ==> self@.has_client(self@.cars[j].client_id->0),
            decreases self.cars.len() - i,
        {
            assert(self@.cars[i as int] == self.cars@[i as int]@);
            match self.cars[i].client_id {
                Some(c) => {
                    if !self.knows_client(c) {
                        return false;
                    }
                },
                None => {},
            }
            i += 1;
        }
        true
    }

    fn orders_are_placed(&self) -> (r: bool)
        ensures
            r == forall|i: int|
                0 <= i < self@.orders.len() ==> self@.has_client(
                    (#[trigger] self@.orders[i]).client_id,
                ) && self@.has_car(self@.orders[i].car_id),
    {
        let mut i: usize = 0;
        while i < self.orders.len()
            invariant
                i <= self.orders.len(),
                forall|j: int|
                    0 <= j < i ==> self@.has_client((#[trigger] self@.orders[j]).client_id)
                        && self@.has_car(self@.orders[j].car_id),
            decreases self.orders.len() - i,
        {
            assert(self@.orders[i as int] == self.orders@[i as int]@);
            if !self.knows_client(self.orders[i].client_id) || !self.knows_car(
                self.orders[i].car_id,
            ) {
                return false;
            }
            i += 1;
        }
        true
    }

    fn defects_are_attached(&self) -> (r: bool)
        ensures
            r == forall|i: int|
                0 <= i < self@.defects.len() ==> self@.has_order(
                    (#[trigger] self@.defects[i]).order_id,
                ),
    {
        let mut i: usize = 0;
        while i < self.defects.len()
            invariant
                i <= self.defects.len(),
                forall|j: int|
                    0 <= j < i ==> self@.has_order((#[trigger] self@.defects[j]).order_id),
            decreases self.defects.len() - i,
        {
            assert(self@.defects[i as int] == self.defects@[i as int]@);
            if !self.knows_order(self.defects[i].order_id) {
                return false;
            }
            i += 1;
        }
        true
    }

    fn works_are_attached(&self) -> (r: bool)
        ensures
            r == forall|i: int|
                0 <= i < self@.works.len() ==> self@.has_order((#[trigger] self@.works[i]).order_id),
    {
        let mut i: usize = 0;
        while i < self.works.len()
            invariant
                i <= self.works.len(),
                forall|j: int| 0 <= j < i ==> self@.has_order((#[trigger] self@.works[j]).order_id),
            decreases self.works.len() - i,
        {
            assert(self@.works[i as int] == self.works@[i as int]@);
            if !self.knows_order(self.works[i].order_id) {
                return false;
            }
            i += 1;
        }
        true
    }

    fn parts_are_attached(&self) -> (r: bool)
        ensures
            r == forall|i: int|
                0 <= i < self@.parts.len() ==> self@.has_order((#[trigger] self@.parts[i]).order_id),
    {
        let mut i: usize = 0;
        while i < self.parts.len()
            invariant
                i <= self.parts.len(),
                forall|j: int| 0 <= j < i ==> self@.has_order((#[trigger] self@.parts[j]).order_id),
            decreases self.parts.len() - i,
        {
            assert(self@.parts[i as int] == self.parts@[i as int]@);
            if !self.knows_order(self.parts[i].order_id) {
                return false;
            }
            i += 1;
        }
        true
    }

    fn defect_is_of_order(&self, defect_id: i32, order_id: i32) -> (r: bool)
        requires
            self@.ids_issued(),
        ensures
            r == self@.defect_of_order(defect_id, order_id),
    {
        proof {
            lemma_first_index(self@.defects, has_key::<OrderDefect>(defect_id));
        }
        match find(&self.defects, defect_id) {
            Some(k) => {
                assert(self@.defects[k as int] == self.defects@[k as int]@);
                let same = self.defects[k].order_id == order_id;
                proof {
                    if !same && self@.defect_of_order(defect_id, order_id) {
                        let m = choose|m: int|
                            0 <= m < self@.defects.len() && (#[trigger] self@.defects[m]).id
                                == defect_id && self@.defects[m].order_id == order_id;
                        assert(OrderDefect::key_of(self@.defects[m]) == OrderDefect::key_of(
                            self@.defects[k as int],
                        ));
                    }
                }
                same
            },
            None => {
                proof {
                    if self@.defect_of_order(defect_id, order_id) {
                        let m = choose|m: int|
                            0 <= m < self@.defects.len() && (#[trigger] self@.defects[m]).id
                                == defect_id && self@.defects[m].order_id == order_id;
                        assert(has_key::<OrderDefect>(defect_id)(self@.defects[m]));
                    }
                }
                false
            },
        }
    }

    fn works_are_traced(&self) -> (r: bool)
        requires
            self@.ids_issued(),
        ensures
            r == forall|i: int|
                0 <= i < self@.works.len() && (#[trigger] self@.works[i]).defect_id is Some
                    ==> self@.defect_of_order(self@.works[i].defect_id->0, self@.works[i].order_id),
    {
        let mut i: usize = 0;
        while i < self.works.len()
            invariant
                i <= self.works.len(),
                self@.ids_issued(),
                forall|j: int|
                    0 <= j < i && (#[trigger] self@.works[j]).defect_id is Some
                        ==> self@.defect_of_order(
                        self@.works[j].defect_id->0,
                        self@.works[j].order_id,
                    ),
            decreases self.works.len() - i,
        {
            assert(self@.works[i as int] == self.works@[i as int]@);
            match self.works[i].defect_id {
                Some(d) => {
                    if !self.defect_is_of_order(d, self.works[i].order_id) {
                        return false;
                    }
                },
                None => {},
            }
            i += 1;
        }
        true
    }

    fn workers_are_placed(&self) -> (r: bool)
        requires
            self@.ids_issued(),
            self@.references_hold(),
        ensures
            r == self@.workers_follow_assignment(),
    {
        let mut i: usize = 0;
        while i < self.works.len()
            invariant
                i <= self.works.len(),
                self@.ids_issued(),
                self@.references_hold(),
                forall|a: int, j: int|
                    0 <= a < i && 0 <= j < self@.orders.len() && (
                    #[trigger] self@.works[a]).worker_id is Some && (#[trigger] self@.orders[j]).id
                        == self@.works[a].order_id ==> self@.orders[j].status.assignment_made(),
            decreases self.works.len() - i,
        {
            assert(self@.works[i as int] == self.works@[i as int]@);
            if self.works[i].worker_id.is_some() {
                let order_id = self.works[i].order_id;
                proof {
                    lemma_first_index(self@.orders, has_key::<Order>(order_id));
                    assert(self@.has_order(self@.works[i as int].order_id));
                }
                match find(&self.orders, order_id) {
                    Some(k) => {
                        assert(self@.orders[k as int] == self.orders@[k as int]@);
                        let status = self.orders[k].status;
                        let made = status != OrderStatus::Diagnostics && status
                            != OrderStatus::PartsSelection && status != OrderStatus::Approval;
                        if !made {
                            return false;
                        }
                        proof {
                            assert forall|j: int|
                                0 <= j < self@.orders.len() && (#[trigger] self@.orders[j]).id
                                    == order_id implies self@.orders[j].status.assignment_made() by {
                                if j != k {
                                    assert(Order::key_of(self@.orders[j]) == Order::key_of(
                                        self@.orders[k as int],
                                    ));
                                }
                            }
                        }
                    },
                    None => {},
                }
            }
            i += 1;
        }
        true
    }

    fn quantities_are_sound(&self) -> (r: bool)
        ensures
            r == self@.quantities_hold(),
    {
        let mut i: usize = 0;
        while i < self.parts.len()
            invariant
                i <= self.parts.len(),
                forall|j: int| 0 <= j < i ==> (#[trigger] self@.parts[j]).quantity >= 0,
            decreases self.parts.len() - i,
        {
            assert(self@.parts[i as int] == self.parts@[i as int]@);
            if self.parts[i].quantity < 0 {
                return false;
            }
            i += 1;
        }
        true
    }

    /// Whether the tables are well-formed, the last identifiers being the
    /// highest ones.
    fn is_sound(&self) -> (r: bool)
        requires
            self@.last_client_id == highest_key::<Client>(self@.clients),
            self@.last_car_id == highest_key::<Car>(self@.cars),
            self@.last_order_id == highest_key::<Order>(self@.orders),
            self@.last_defect_id == highest_key::<OrderDefect>(self@.defects),
            self@.last_work_id == highest_key::<OrderWork>(self@.works),
            self@.last_part_id == highest_key::<OrderPart>(self@.parts),
        ensures
            r == self@.wf(),
    {
        if !self.ids_are_issued() {
            return false;
        }
        if !(self.cars_are_owned() && self.orders_are_placed() && self.defects_are_attached()
            && self.works_are_attached() && self.parts_are_attached() && self.works_are_traced()) {
            return false;
        }
        self.workers_are_placed() && self.quantities_are_sound()
    }
}

/// The station's records and its audit trail. Its state is well-formed at
/// all times.
pub struct Workshop {
    tables: Tables,
}

impl View for Workshop {
    type V = WorkshopState;

    closed spec fn view(&self) -> WorkshopState {
        self.tables@
    }
}

/// An order with its line items, as a worker reads it.
pub struct OrderDetails<'a> {
    pub order: &'a Order,
    pub works: Vec<&'a OrderWork>,
    pub parts: Vec<&'a OrderPart>,
    pub defects: Vec<&'a OrderDefect>,
}

/// Whether a list of identifiers holds `id`.
pub fn contains_id(ids: &Vec<i32>, id: i32) -> (r: bool)
    ensures
        r == ids@.contains(id),
{
    let mut k: usize = 0;
    while k < ids.len()
        invariant
            k <= ids.len(),
            forall|j: int| 0 <= j < k ==> ids@[j] != id,
        decreases ids.len() - k,
    {
        if ids[k] == id {
            return true;
        }
        k += 1;
    }
    false
}

/// The worker that a list of assignments gives to a work, if any.
pub fn worker_for(assignments: &Vec<(i32, i32)>, work_id: i32) -> (r: Option<i32>)
    ensures
        r == assigned_worker(assignments@, work_id),
{
    let mut found: Option<i32> = None;
    let mut k: usize = 0;
    while k < assignments.len()
        invariant
            k <= assignments.len(),
            found == assigned_worker(assignments@.take(k as int), work_id),
        decreases assignments.len() - k,
    {
        proof {
            let next = assignments@.take(k as int + 1);
            assert(next.drop_last() =~= assignments@.take(k as int));
            assert(next.last() == assignments@[k as int]);
        }
        let pair = assignments[k];
        if pair.0 == work_id {
            found = Some(pair.1);
        }
        k += 1;
    }
    proof {
        assert(assignments@.take(k as int) =~= assignments@);
    }
    found
}

impl Workshop {
    #[verifier::type_invariant]
    spec fn well_formed(self) -> bool {
        self@.wf()
    }

    /// A station that has seen nothing yet.
    pub fn new() -> (r: Workshop)
        ensures
            r@ == WorkshopState::empty(),
            r@.wf(),
    {
        Workshop { tables: Tables::empty() }
    }

    /// Takes up a station from its rows. The rows must be consistent:
    /// identifiers unique in each table, every reference pointing to a row
    /// that is there, no worker on a work whose order has seen no
    /// assignment, no negative quantity. Inconsistent rows give `None`.
    pub fn from_rows(
        clients: Vec<Client>,
        cars: Vec<Car>,
        orders: Vec<Order>,
        defects: Vec<OrderDefect>,
        works: Vec<OrderWork>,
        parts: Vec<OrderPart>,
    ) -> (r: Option<Workshop>)
        ensures
            match r {
                Some(w) => w@ == snapshot_of(clients@, cars@, orders@, defects@, works@, parts@)
                    && w@.wf(),
                None => !snapshot_of(clients@, cars@, orders@, defects@, works@, parts@).wf(),
            },
    {
        let last_client_id = top_key(&clients);
        let last_car_id = top_key(&cars);
        let last_order_id = top_key(&orders);
        let last_defect_id = top_key(&defects);
        let last_work_id = top_key(&works);
        let last_part_id = top_key(&parts);
        let tables = Tables {
            clients,
            cars,
            orders,
            defects,
            works,
            parts,
            audit: Vec::new(),
            last_client_id,
            last_car_id,
            last_order_id,
            last_defect_id,
            last_work_id,
            last_part_id,
        };
        proof {
            assert(tables@.audit =~= Seq::empty());
            assert(tables@ == snapshot_of(clients@, cars@, orders@, defects@, works@, parts@));
        }
        if tables.is_sound() {
            Some(Workshop { tables })
        } else {
            None
        }
    }

    /// Takes the tables out for a change, leaving an empty station behind.
    fn take(&mut self) -> (t: Tables)
        ensures
            t@ == old(self)@,
            t@.wf(),
    {
        proof {
            use_type_invariant(&*self);
        }
        let mut t = Tables::empty();
        std::mem::swap(&mut self.tables, &mut t);
        t
    }

    /// The clients, in the order of their registration.
    pub fn clients(&self) -> (r: &Vec<Client>)
        ensures
            views(r@) == self@.clients,
    {
        &self.tables.clients
    }

    /// The cars, in the order of their registration.
    pub fn cars(&self) -> (r: &Vec<Car>)
        ensures
            views(r@) == self@.cars,
    {
        &self.tables.cars
    }

    /// The orders, in the order of their intake.
    pub fn orders(&self) -> (r: &Vec<Order>)
        ensures
            views(r@) == self@.orders,
    {
        &self.tables.orders
    }

    /// The defects of all orders, in the order in which they were recorded.
    pub fn defects(&self) -> (r: &Vec<OrderDefect>)
        ensures
            views(r@) == self@.defects,
    {
        &self.tables.defects
    }

    /// The works of all orders, in the order in which they were created.
    pub fn works(&self) -> (r: &Vec<OrderWork>)
        ensures
            views(r@) == self@.works,
    {
        &self.tables.works
    }

    /// The parts of all orders, in the order in which they were added.
    pub fn parts(&self) -> (r: &Vec<OrderPart>)
        ensures
            views(r@) == self@.parts,
    {
        &self.tables.parts
    }

    /// The events logged since the trail was last handed out.
    pub fn audit_trail(&self) -> (r: &Vec<AuditEvent>)
        ensures
            r@ == self@.audit,
    {
        &self.tables.audit
    }

    /// The order with this id, if the station has it.
    pub fn order(&self, id: i32) -> (r: Option<&Order>)
        ensures
            match r {
                Some(o) => self@.order(id) == Some(o@),
                None => self@.order(id) is None,
            },
    {
        match find(&self.tables.orders, id) {
            Some(i) => Some(&self.tables.orders[i]),
            None => None,
        }
    }

    fn phone_in_use(&self, phone: &str) -> (r: bool)
        ensures
            r == self@.phone_taken(phone@),
    {
        let clients = &self.tables.clients;
        let mut i: usize = 0;
        while i < clients.len()
            invariant
                i <= clients.len(),
                views(clients@) == self@.clients,
                forall|j: int| 0 <= j < i ==> (#[trigger] self@.clients[j]).phone != phone@,
            decreases clients.len() - i,
        {
            assert(self@.clients[i as int] == clients@[i as int]@);
            if str_eq(clients[i].phone.as_str(), phone) {
                return true;
            }
            i += 1;
        }
        false
    }

    /// Registers a client and logs it. A blank name or phone, or a phone
    /// that another client has, is a `ValidationError`; identifiers running
    /// out is a `PersistenceError`.
    pub fn register_client(
        &mut self,
        actor: &Actor,
        full_name: String,
        phone: String,
        address: Option<String>,
        created_at: String,
    ) -> (r: Result<i32, EngineError>)
        ensures
            r == old(self)@.client_verdict(full_name@, phone@),
            final(self)@ == old(self)@.after_register_client(
                actor.id,
                full_name@,
                phone@,
                opt_chars(address),
                created_at@,
            ),
            final(self)@.wf(),
    {
        proof {
            use_type_invariant(&*self);
            lemma_register_client_keeps_wf(
                self@,
                actor.id,
                full_name@,
                phone@,
                opt_chars(address),
                created_at@,
            );
        }
        if blank(full_name.as_str()) || blank(phone.as_str()) {
            return Err(EngineError::ValidationError);
        }
        if self.phone_in_use(phone.as_str()) {
            return Err(EngineError::ValidationError);
        }
        if self.tables.last_client_id == i32::MAX {
            return Err(EngineError::PersistenceError);
        }
        let id = self.tables.last_client_id + 1;
        let ghost after = self@.after_register_client(
            actor.id,
            full_name@,
            phone@,
            opt_chars(address),
            created_at@,
        );
        let mut t = self.take();
        t.clients.push(Client { id, full_name, phone, address, created_at });
        t.audit.push(
            AuditEvent {
                actor_id: Some(actor.id),
                action: AuditAction::ClientCreated { client_id: id },
            },
        );
        t.last_client_id = id;
        proof {
            assert(t@.clients =~= after.clients);
            assert(t@ == after);
        }
        self.tables = t;
        Ok(id)
    }
    fn vin_in_use(&self, vin: &str) -> (r: bool)
        ensures
            r == self@.vin_taken(vin@),
    {
        let cars = &self.tables.cars;
        let mut i: usize = 0;
        while i < cars.len()
            invariant
                i <= cars.len(),
                views(cars@) == self@.cars,
                forall|j: int| 0 <= j < i ==> (#[trigger] self@.cars[j]).vin != Some(vin@),
            decreases cars.len() - i,
        {
            assert(self@.cars[i as int] == cars@[i as int]@);
            let same = match &cars[i].vin {
                Some(v) => str_eq(v.as_str(), vin),
                None => false,
            };
            if same {
                return true;
            }
            i += 1;
        }
        false
    }

    fn plate_in_use(&self, plate: &str) -> (r: bool)
        ensures
            r == self@.plate_taken(plate@),
    {
        let cars = &self.tables.cars;
        let mut i: usize = 0;
        while i < cars.len()
            invariant
                i <= cars.len(),
                views(cars@) == self@.cars,
                forall|j: int|
                    0 <= j < i ==> (#[trigger] self@.cars[j]).license_plate != Some(plate@),
            decreases cars.len() - i,
        {
            assert(self@.cars[i as int] == cars@[i as int]@);
            let same = match &cars[i].license_plate {
                Some(p) => str_eq(p.as_str(), plate),
                None => false,
            };
            if same {
                return true;
            }
            i += 1;
        }
        false
    }

    /// Whether a client with this id is registered.
    pub fn has_client(&self, id: i32) -> (r: bool)
        ensures
            r == self@.has_client(id),
    {
        proof {
            lemma_first_index(self@.clients, has_key::<Client>(id));
        }
        find(&self.tables.clients, id).is_some()
    }

    /// Whether a car with this id is registered.
    pub fn has_car(&self, id: i32) -> (r: bool)
        ensures
            r == self@.has_car(id),
    {
        proof {
            lemma_first_index(self@.cars, has_key::<Car>(id));
        }
        find(&self.tables.cars, id).is_some()
    }

    /// Registers a car and logs it; the id and the last visit of `car` are
    /// not read. A blank make, model or license plate, and a VIN or plate
    /// that another car has, is a `ValidationError`; a client that is named
    /// but not registered is `NotFound`; identifiers running out is a
    /// `PersistenceError`.
    pub fn register_car(&mut self, actor: &Actor, car: Car) -> (r: Result<i32, EngineError>)
        ensures
            r == old(self)@.car_verdict(
                car@.client_id,
                car@.vin,
                car@.license_plate,
                car@.make,
                car@.model,
            ),
            final(self)@ == old(self)@.after_register_car(actor.id, car@),
            final(self)@.wf(),
    {
        proof {
            use_type_invariant(&*self);
            lemma_register_car_keeps_wf(self@, actor.id, car@);
        }
        if blank(car.make.as_str()) || blank(car.model.as_str()) {
            return Err(EngineError::ValidationError);
        }
        let plate_missing = match &car.license_plate {
            Some(p) => blank(p.as_str()),
            None => true,
        };
        if plate_missing {
            return Err(EngineError::ValidationError);
        }
        let vin_clash = match &car.vin {
            Some(v) => !v.as_str().is_empty() && self.vin_in_use(v.as_str()),
            None => false,
        };
        if vin_clash {
            return Err(EngineError::ValidationError);
        }
        let plate_clash = match &car.license_plate {
            Some(p) => !p.as_str().is_empty() && self.plate_in_use(p.as_str()),
            None => false,
        };
        if plate_clash {
            return Err(EngineError::ValidationError);
        }
        let owner_missing = match car.client_id {
            Some(c) => !self.has_client(c),
            None => false,
        };
        if owner_missing {
            return Err(EngineError::NotFound);
        }
        if self.tables.last_car_id == i32::MAX {
            return Err(EngineError::PersistenceError);
        }
        let id = self.tables.last_car_id + 1;
        let ghost after = self@.after_register_car(actor.id, car@);
        let mut row = car;
        row.id = id;
        row.last_visit_date = None;
        let mut t = self.take();
        t.cars.push(row);
        t.audit.push(
            AuditEvent { actor_id: Some(actor.id), action: AuditAction::CarCreated { car_id: id } },
        );
        t.last_car_id = id;
        proof {
            assert(t@.cars =~= after.cars);
            assert(t@ == after);
        }
        self.tables = t;
        Ok(id)
    }

    /// Takes in an order for a client's car and logs the intake. The order
    /// starts in `Diagnostics` with no amounts, no master and no worker. A
    /// client or car that is not registered is `NotFound`; identifiers
    /// running out is a `PersistenceError`.
    pub fn create_order(
        &mut self,
        actor: &Actor,
        client_id: i32,
        car_id: i32,
        complaint: Option<String>,
        current_mileage: Option<i32>,
        created_at: String,
    ) -> (r: Result<i32, EngineError>)
        ensures
            r == old(self)@.intake_verdict(client_id, car_id),
            final(self)@ == old(self)@.after_create_order(
                actor.id,
                client_id,
                car_id,
                opt_chars(complaint),
                current_mileage,
                created_at@,
            ),
            final(self)@.wf(),
    {
        proof {
            use_type_invariant(&*self);
            lemma_create_order_keeps_wf(
                self@,
                actor.id,
                client_id,
                car_id,
                opt_chars(complaint),
                current_mileage,
                created_at@,
            );
        }
        if !self.has_client(client_id) || !self.has_car(car_id) {
            return Err(EngineError::NotFound);
        }
        if self.tables.last_order_id == i32::MAX {
            return Err(EngineError::PersistenceError);
        }
        let id = self.tables.last_order_id + 1;
        let ghost after = self@.after_create_order(
            actor.id,
            client_id,
            car_id,
            opt_chars(complaint),
            current_mileage,
            created_at@,
        );
        let mut t = self.take();
        t.orders.push(
            Order {
                id,
                client_id,
                car_id,
                master_id: None,
                worker_id: None,
                status: OrderStatus::Diagnostics,
                complaint,
                current_mileage,
                prepayment: Decimal::zero(),
                total_amount: Decimal::zero(),
                created_at,
                completed_at: None,
            },
        );
        t.audit.push(
            AuditEvent {
                actor_id: Some(actor.id),
                action: AuditAction::OrderCreated { order_id: id, client_id, car_id },
            },
        );
        t.last_order_id = id;
        proof {
            assert(t@.orders =~= after.orders);
            assert(t@ == after);
        }
        self.tables = t;
        Ok(id)
    }

    /// Moves an order to the status named `target`, if the reachability
    /// policy admits the step, and logs the change. A missing order is
    /// `NotFound`, a text that names no status `InvalidStatus`, a step that
    /// the policy does not admit `InvalidTransition`; `In_Work` is never
    /// admitted here. A refused request changes nothing.
    pub fn transition(&mut self, order_id: i32, target: &str, actor: &Actor) -> (r: Result<
        OrderStatus,
        EngineError,
    >)
        ensures
            r == old(self)@.transition_result(order_id, target@),
            final(self)@ == old(self)@.after_transition(order_id, target@, actor.id),
            final(self)@.wf(),
    {
        proof {
            use_type_invariant(&*self);
            lemma_transition_keeps_wf(self@, order_id, target@, actor.id);
        }
        let i = match find(&self.tables.orders, order_id) {
            Some(i) => i,
            None => {
                return Err(EngineError::NotFound);
            },
        };
        assert(self@.orders[i as int] == self.tables.orders@[i as int]@);
        let from = self.tables.orders[i].status;
        let to = match from.check_transition(target) {
            Ok(to) => to,
            Err(e) => {
                return Err(e);
            },
        };
        let client_id = self.tables.orders[i].client_id;
        let car_id = self.tables.orders[i].car_id;
        let ghost after = self@.after_transition(order_id, target@, actor.id);
        let mut t = self.take();
        t.orders[i].status = to;
        t.audit.push(
            AuditEvent {
                actor_id: Some(actor.id),
                action: AuditAction::StatusChanged { order_id, client_id, car_id, from, to },
            },
        );
        proof {
            assert(t@.orders =~= after.orders);
            assert(t@ == after);
        }
        self.tables = t;
        Ok(to)
    }
    /// Records a diagnosis: for each defect type of the list, in order, one
    /// defect and one work linked to it, as the catalog resolves the type.
    /// A missing order is `NotFound`, an order that is not in `Diagnostics`
    /// a `ValidationError`, a type that the catalog does not resolve
    /// `CatalogLookupFailed`, and a list for which the identifiers do not
    /// suffice a `PersistenceError`; a list that is refused records
    /// nothing. Returns the number of defects recorded.
    #[verifier::loop_isolation(false)]
    pub fn record_diagnosis(
        &mut self,
        order_id: i32,
        diagnostician_id: i32,
        defect_type_ids: &Vec<i32>,
        catalog: &Catalog,
    ) -> (r: Result<usize, EngineError>)
        ensures
            r == old(self)@.diagnosis_verdict(order_id, defect_type_ids@, catalog@),
            final(self)@ == old(self)@.after_diagnosis(
                order_id,
                diagnostician_id,
                defect_type_ids@,
                catalog@,
            ),
            final(self)@.wf(),
    {
        proof {
            use_type_invariant(&*self);
            lemma_diagnosis_keeps_wf(self@, order_id, diagnostician_id, defect_type_ids@, catalog@);
        }
        let i = match find(&self.tables.orders, order_id) {
            Some(i) => i,
            None => {
                return Err(EngineError::NotFound);
            },
        };
        assert(self@.orders[i as int] == self.tables.orders@[i as int]@);
        if self.tables.orders[i].status != OrderStatus::Diagnostics {
            return Err(EngineError::ValidationError);
        }
        let n = defect_type_ids.len();
        let mut drafts: Vec<DiagnosisDraft> = Vec::new();
        let mut k: usize = 0;
        while k < n
            invariant
                k <= n,
                n == defect_type_ids@.len(),
                drafts@.len() == k,
                forall|j: int|
                    0 <= j < k ==> catalog@.draft(defect_type_ids@[j]) == Some(
                        (#[trigger] drafts@[j])@,
                    ),
            decreases n - k,
        {
            match catalog.draft_for(defect_type_ids[k]) {
                Some(d) => {
                    drafts.push(d);
                },
                None => {
                    assert(!all_resolve(catalog@, defect_type_ids@));
                    return Err(EngineError::CatalogLookupFailed);
                },
            }
            k += 1;
        }
        assert(all_resolve(catalog@, defect_type_ids@)) by {
            assert forall|j: int| 0 <= j < defect_type_ids@.len() implies (
            #[trigger] catalog@.draft(defect_type_ids@[j])) is Some by {
                assert(catalog@.draft(defect_type_ids@[j]) == Some(drafts@[j]@));
            }
        }
        let last_defect = self.tables.last_defect_id;
        let last_work = self.tables.last_work_id;
        if n > (i32::MAX - last_defect) as usize || n > (i32::MAX - last_work) as usize {
            return Err(EngineError::PersistenceError);
        }
        let ghost before = self@;
        let ghost after = before.after_diagnosis(
            order_id,
            diagnostician_id,
            defect_type_ids@,
            catalog@,
        );
        let mut t = self.take();
        let mut k: usize = 0;
        while k < n
            invariant
                k <= n,
                n == defect_type_ids@.len(),
                drafts@.len() == n,
                last_defect + n <= i32::MAX,
                last_work + n <= i32::MAX,
                0 <= last_defect,
                0 <= last_work,
                last_defect == before.last_defect_id,
                last_work == before.last_work_id,
                forall|j: int|
                    0 <= j < n ==> catalog@.draft(defect_type_ids@[j]) == Some(
                        (#[trigger] drafts@[j])@,
                    ),
                t@.defects == before.defects + Seq::new(
                    k as nat,
                    |j: int|
                        recorded_defect(
                            last_defect,
                            order_id,
                            diagnostician_id,
                            catalog@.draft(defect_type_ids@[j])->0,
                            j,
                        ),
                ),
                t@.works == before.works + Seq::new(
                    k as nat,
                    |j: int|
                        recorded_work(
                            last_work,
                            last_defect,
                            order_id,
                            catalog@.draft(defect_type_ids@[j])->0,
                            j,
                        ),
                ),
                t@.clients == before.clients,
                t@.cars == before.cars,
                t@.orders == before.orders,
                t@.parts == before.parts,
                t@.audit == before.audit,
                t@.last_client_id == before.last_client_id,
                t@.last_car_id == before.last_car_id,
                t@.last_order_id == before.last_order_id,
                t@.last_part_id == before.last_part_id,
            decreases n - k,
        {
            let ghost defects_before = t@.defects;
            let ghost works_before = t@.works;
            let draft = &drafts[k];
            assert(catalog@.draft(defect_type_ids@[k as int]) == Some(draft@));
            let step = k as i32;
            let defect_id = last_defect + 1 + step;
            let defect = OrderDefect {
                id: defect_id,
                order_id,
                diagnostician_id,
                defect_description: draft.description.clone(),
                diagnostician_comment: copy_text(&draft.comment),
                is_confirmed: false,
                defect_type_id: Some(draft.defect_type_id),
            };
            let work = OrderWork {
                id: last_work + 1 + step,
                order_id,
                service_id: draft.service_id,
                service_name_snapshot: draft.work_name.clone(),
                price: draft.price,
                norm_hours: draft.norm_hours,
                worker_id: None,
                status: WorkStatus::Pending,
                is_confirmed: false,
                defect_id: Some(defect_id),
            };
            proof {
                assert(defect@ == recorded_defect(
                    last_defect,
                    order_id,
                    diagnostician_id,
                    catalog@.draft(defect_type_ids@[k as int])->0,
                    k as int,
                ));
                assert(work@ == recorded_work(
                    last_work,
                    last_defect,
                    order_id,
                    catalog@.draft(defect_type_ids@[k as int])->0,
                    k as int,
                ));
            }
            t.defects.push(defect);
            t.works.push(work);
            proof {
                assert(t@.defects =~= defects_before.push(defect@));
                assert(t@.works =~= works_before.push(work@));
                assert(t@.defects =~= before.defects + Seq::new(
                    (k + 1) as nat,
                    |j: int|
                        recorded_defect(
                            last_defect,
                            order_id,
                            diagnostician_id,
                            catalog@.draft(defect_type_ids@[j])->0,
                            j,
                        ),
                ));
                assert(t@.works =~= before.works + Seq::new(
                    (k + 1) as nat,
                    |j: int|
                        recorded_work(
                            last_work,
                            last_defect,
                            order_id,
                            catalog@.draft(defect_type_ids@[j])->0,
                            j,
                        ),
                ));
            }
            k += 1;
        }
        t.last_defect_id = last_defect + n as i32;
        t.last_work_id = last_work + n as i32;
        proof {
            assert(t@.defects =~= after.defects);
            assert(t@.works =~= after.works);
            assert(t@ == after);
        }
        self.tables = t;
        Ok(n)
    }
    /// Whether an order with this id exists.
    pub fn has_order(&self, id: i32) -> (r: bool)
        ensures
            r == self@.has_order(id),
    {
        proof {
            lemma_first_index(self@.orders, has_key::<Order>(id));
        }
        find(&self.tables.orders, id).is_some()
    }

    /// Adds a part to an order and logs it; the id and the confirmation of
    /// `part` are not read. A missing order is `NotFound`, a negative
    /// quantity a `ValidationError`, identifiers running out a
    /// `PersistenceError`.
    pub fn add_part(&mut self, actor: &Actor, part: OrderPart) -> (r: Result<i32, EngineError>)
        ensures
            r == old(self)@.part_verdict(part@.order_id, part@.quantity),
            final(self)@ == old(self)@.after_add_part(actor.id, part@),
            final(self)@.wf(),
    {
        proof {
            use_type_invariant(&*self);
            lemma_add_part_keeps_wf(self@, actor.id, part@);
        }
        if !self.has_order(part.order_id) {
            return Err(EngineError::NotFound);
        }
        if part.quantity < 0 {
            return Err(EngineError::ValidationError);
        }
        if self.tables.last_part_id == i32::MAX {
            return Err(EngineError::PersistenceError);
        }
        let id = self.tables.last_part_id + 1;
        let order_id = part.order_id;
        let ghost after = self@.after_add_part(actor.id, part@);
        let mut row = part;
        row.id = id;
        row.is_confirmed = false;
        let mut t = self.take();
        t.parts.push(row);
        t.audit.push(
            AuditEvent {
                actor_id: Some(actor.id),
                action: AuditAction::PartAdded { order_id, part_id: id },
            },
        );
        t.last_part_id = id;
        proof {
            assert(t@.parts =~= after.parts);
            assert(t@ == after);
        }
        self.tables = t;
        Ok(id)
    }

    /// Confirms the named works and parts of an order. An id that does not
    /// belong to the order is passed over. The status of the order stays
    /// as it is.
    #[verifier::loop_isolation(false)]
    pub fn confirm_line_items(&mut self, order_id: i32, work_ids: &Vec<i32>, part_ids: &Vec<i32>)
        ensures
            final(self)@ == old(self)@.after_confirm(order_id, work_ids@, part_ids@),
            final(self)@.wf(),
    {
        proof {
            use_type_invariant(&*self);
            lemma_confirm_keeps_wf(self@, order_id, work_ids@, part_ids@);
        }
        let ghost before = self@;
        let ghost after = before.after_confirm(order_id, work_ids@, part_ids@);
        let mut t = self.take();
        let mut i: usize = 0;
        while i < t.works.len()
            invariant
                i <= t.works.len(),
                t@.works.len() == before.works.len(),
                forall|j: int|
                    0 <= j < i ==> #[trigger] t@.works[j] == WorkshopState::confirmed_work(
                        before.works[j],
                        order_id,
                        work_ids@,
                    ),
                forall|j: int| i <= j < before.works.len() ==> #[trigger] t@.works[j] == before.works[j],
                t@ == (WorkshopState { works: t@.works, ..before }),
            decreases t.works.len() - i,
        {
            let ghost works_before = t@.works;
            assert(t@.works[i as int] == t.works@[i as int]@);
            if t.works[i].order_id == order_id && contains_id(work_ids, t.works[i].id) {
                t.works[i].is_confirmed = true;
            }
            proof {
                assert(t@.works =~= works_before.update(
                    i as int,
                    WorkshopState::confirmed_work(before.works[i as int], order_id, work_ids@),
                ));
            }
            i += 1;
        }
        let ghost mid = t@;
        let mut i: usize = 0;
        while i < t.parts.len()
            invariant
                i <= t.parts.len(),
                t@.parts.len() == before.parts.len(),
                forall|j: int|
                    0 <= j < i ==> #[trigger] t@.parts[j] == WorkshopState::confirmed_part(
                        before.parts[j],
                        order_id,
                        part_ids@,
                    ),
                forall|j: int| i <= j < before.parts.len() ==> #[trigger] t@.parts[j] == before.parts[j],
                t@ == (WorkshopState { parts: t@.parts, ..mid }),
            decreases t.parts.len() - i,
        {
            let ghost parts_before = t@.parts;
            assert(t@.parts[i as int] == t.parts@[i as int]@);
            if t.parts[i].order_id == order_id && contains_id(part_ids, t.parts[i].id) {
                t.parts[i].is_confirmed = true;
            }
            proof {
                assert(t@.parts =~= parts_before.update(
                    i as int,
                    WorkshopState::confirmed_part(before.parts[i as int], order_id, part_ids@),
                ));
            }
            i += 1;
        }
        proof {
            assert(t@.works =~= after.works);
            assert(t@.parts =~= after.parts);
            assert(t@ == after);
        }
        self.tables = t;
    }

    /// Assigns workers to the works of an order and puts the order in
    /// work, whatever its status was: each pair gives a work of the order
    /// its worker and makes it pending again, the order's status becomes
    /// `InWork`, a main worker that is given becomes the order's worker,
    /// and the assignment is logged. A pair that names no work of the order
    /// is passed over. A missing order is `NotFound`. Returns the number of
    /// assignments in the list.
    #[verifier::loop_isolation(false)]
    pub fn assign_workers(
        &mut self,
        order_id: i32,
        actor: &Actor,
        work_assignments: &Vec<(i32, i32)>,
        main_worker_id: Option<i32>,
    ) -> (r: Result<usize, EngineError>)
        ensures
            r == old(self)@.assignment_verdict(order_id, work_assignments@),
            final(self)@ == old(self)@.after_assignment(
                order_id,
                actor.id,
                work_assignments@,
                main_worker_id,
            ),
            final(self)@.wf(),
    {
        proof {
            use_type_invariant(&*self);
            lemma_assignment_keeps_wf(self@, order_id, actor.id, work_assignments@, main_worker_id);
        }
        let slot = match find(&self.tables.orders, order_id) {
            Some(i) => i,
            None => {
                return Err(EngineError::NotFound);
            },
        };
        let ghost before = self@;
        let ghost after = before.after_assignment(
            order_id,
            actor.id,
            work_assignments@,
            main_worker_id,
        );
        let mut t = self.take();
        let mut i: usize = 0;
        while i < t.works.len()
            invariant
                i <= t.works.len(),
                t@.works.len() == before.works.len(),
                forall|j: int|
                    0 <= j < i ==> #[trigger] t@.works[j] == WorkshopState::assigned_work(
                        before.works[j],
                        order_id,
                        work_assignments@,
                    ),
                forall|j: int| i <= j < before.works.len() ==> #[trigger] t@.works[j] == before.works[j],
                t@ == (WorkshopState { works: t@.works, ..before }),
            decreases t.works.len() - i,
        {
            let ghost works_before = t@.works;
            assert(t@.works[i as int] == t.works@[i as int]@);
            if t.works[i].order_id == order_id {
                match worker_for(work_assignments, t.works[i].id) {
                    Some(worker) => {
                        t.works[i].worker_id = Some(worker);
                        t.works[i].status = WorkStatus::Pending;
                    },
                    None => {},
                }
            }
            proof {
                assert(t@.works =~= works_before.update(
                    i as int,
                    WorkshopState::assigned_work(before.works[i as int], order_id, work_assignments@),
                ));
            }
            i += 1;
        }
        assert(before.orders[slot as int] == t.orders@[slot as int]@);
        t.orders[slot].status = OrderStatus::InWork;
        match main_worker_id {
            Some(worker) => {
                t.orders[slot].worker_id = Some(worker);
            },
            None => {},
        }
        t.audit.push(
            AuditEvent {
                actor_id: Some(actor.id),
                action: AuditAction::WorkersAssigned {
                    order_id,
                    assignments: work_assignments.len(),
                    main_worker: main_worker_id,
                },
            },
        );
        proof {
            assert(t@.works =~= after.works);
            assert(t@.orders =~= after.orders);
            assert(t@ == after);
        }
        self.tables = t;
        Ok(work_assignments.len())
    }
    /// The orders that the actor sees, in the order of the table.
    pub fn visible_orders(&self, actor: &Actor) -> (r: Vec<&Order>)
        ensures
            views(r@) == self@.orders.filter(seen_by(*actor)),
    {
        visible_orders(&self.tables.orders, actor)
    }

    /// The defects recorded against an order.
    pub fn defects_of(&self, order_id: i32) -> (r: Vec<&OrderDefect>)
        ensures
            views(r@) == self@.defects.filter(belongs_to::<OrderDefect>(order_id)),
    {
        items_of(&self.tables.defects, order_id)
    }

    /// The works of an order.
    pub fn works_of(&self, order_id: i32) -> (r: Vec<&OrderWork>)
        ensures
            views(r@) == self@.works.filter(belongs_to::<OrderWork>(order_id)),
    {
        items_of(&self.tables.works, order_id)
    }

    /// The parts of an order.
    pub fn parts_of(&self, order_id: i32) -> (r: Vec<&OrderPart>)
        ensures
            views(r@) == self@.parts.filter(belongs_to::<OrderPart>(order_id)),
    {
        items_of(&self.tables.parts, order_id)
    }

    /// An order with its line items, for the worker who is its main
    /// worker. Any other worker is refused as unauthorized.
    pub fn order_details_for_worker(&self, order_id: i32, worker_id: i32) -> (r: Result<
        OrderDetails<'_>,
        EngineError,
    >)
        ensures
            match r {
                Ok(details) => {
                    &&& self@.order(order_id) == Some(details.order@)
                    &&& details.order@.worker_id == Some(worker_id)
                    &&& views(details.works@) == self@.works.filter(
                        belongs_to::<OrderWork>(order_id),
                    )
                    &&& views(details.parts@) == self@.parts.filter(
                        belongs_to::<OrderPart>(order_id),
                    )
                    &&& views(details.defects@) == self@.defects.filter(
                        belongs_to::<OrderDefect>(order_id),
                    )
                },
                Err(e) => match self@.order(order_id) {
                    None => e == EngineError::NotFound,
                    Some(o) => e == EngineError::Unauthorized && o.worker_id != Some(worker_id),
                },
            },
    {
        let order = match self.order(order_id) {
            Some(o) => o,
            None => {
                return Err(EngineError::NotFound);
            },
        };
        let assigned = match order.worker_id {
            Some(w) => w == worker_id,
            None => false,
        };
        if !assigned {
            return Err(EngineError::Unauthorized);
        }
        Ok(
            OrderDetails {
                order,
                works: self.works_of(order_id),
                parts: self.parts_of(order_id),
                defects: self.defects_of(order_id),
            },
        )
    }
    /// Hands out the audit trail and starts a new one. The tables stay as
    /// they are.
    pub fn drain_audit(&mut self) -> (r: Vec<AuditEvent>)
        ensures
            r@ == old(self)@.audit,
            final(self)@ == (WorkshopState { audit: Seq::empty(), ..old(self)@ }),
            final(self)@.wf(),
    {
        let mut t = self.take();
        let mut trail = Vec::new();
        std::mem::swap(&mut t.audit, &mut trail);
        proof {
            assert(t@.audit =~= Seq::empty());
        }
        self.tables = t;
        trail
    }
}

} // verus!

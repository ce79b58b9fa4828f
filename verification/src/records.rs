//! The records that the engine keeps: clients, cars, orders and the line
//! items of an order, each with its mathematical view.

use vstd::prelude::*;
use crate::decimal::Decimal;
use crate::status::{OrderStatus, WorkStatus};
use crate::lookup::Keyed;

verus! {

/// The characters of an optional text.
pub open spec fn opt_chars(text: Option<String>) -> Option<Seq<char>> {
    match text {
        Some(t) => Some(t@),
        None => None,
    }
}

/// A customer of the station.
#[derive(Clone, Debug)]
pub struct Client {
    pub id: i32,
    pub full_name: String,
    pub phone: String,
    pub address: Option<String>,
    pub created_at: String,
}

/// A client as a mathematical value.
pub struct ClientView {
    pub id: i32,
    pub full_name: Seq<char>,
    pub phone: Seq<char>,
    pub address: Option<Seq<char>>,
    pub created_at: Seq<char>,
}

impl View for Client {
    type V = ClientView;

    open spec fn view(&self) -> ClientView {
        ClientView {
            id: self.id,
            full_name: self.full_name@,
            phone: self.phone@,
            address: opt_chars(self.address),
            created_at: self.created_at@,
        }
    }
}

/// A vehicle known to the station.
#[derive(Clone, Debug)]
pub struct Car {
    pub id: i32,
    pub client_id: Option<i32>,
    pub vin: Option<String>,
    pub license_plate: Option<String>,
    pub make: String,
    pub model: String,
    pub production_year: Option<i32>,
    pub mileage: i32,
    pub last_visit_date: Option<String>,
    pub created_at: String,
}

/// A car as a mathematical value.
pub struct CarView {
    pub id: i32,
    pub client_id: Option<i32>,
    pub vin: Option<Seq<char>>,
    pub license_plate: Option<Seq<char>>,
    pub make: Seq<char>,
    pub model: Seq<char>,
    pub production_year: Option<i32>,
    pub mileage: i32,
    pub last_visit_date: Option<Seq<char>>,
    pub created_at: Seq<char>,
}

impl View for Car {
    type V = CarView;

    open spec fn view(&self) -> CarView {
        CarView {
            id: self.id,
            client_id: self.client_id,
            vin: opt_chars(self.vin),
            license_plate: opt_chars(self.license_plate),
            make: self.make@,
            model: self.model@,
            production_year: self.production_year,
            mileage: self.mileage,
            last_visit_date: opt_chars(self.last_visit_date),
            created_at: self.created_at@,
        }
    }
}

/// One repair engagement for a client's car.
#[derive(Clone, Debug)]
pub struct Order {
    pub id: i32,
    pub client_id: i32,
    pub car_id: i32,
    pub master_id: Option<i32>,
    /// The main worker responsible for the whole order.
    pub worker_id: Option<i32>,
    pub status: OrderStatus,
    pub complaint: Option<String>,
    pub current_mileage: Option<i32>,
    pub prepayment: Decimal,
    pub total_amount: Decimal,
    pub created_at: String,
    pub completed_at: Option<String>,
}

/// An order as a mathematical value.
pub struct OrderView {
    pub id: i32,
    pub client_id: i32,
    pub car_id: i32,
    pub master_id: Option<i32>,
    pub worker_id: Option<i32>,
    pub status: OrderStatus,
    pub complaint: Option<Seq<char>>,
    pub current_mileage: Option<i32>,
    pub prepayment: Decimal,
    pub total_amount: Decimal,
    pub created_at: Seq<char>,
    pub completed_at: Option<Seq<char>>,
}

impl View for Order {
    type V = OrderView;

    open spec fn view(&self) -> OrderView {
        OrderView {
            id: self.id,
            client_id: self.client_id,
            car_id: self.car_id,
            master_id: self.master_id,
            worker_id: self.worker_id,
            status: self.status,
            complaint: opt_chars(self.complaint),
            current_mileage: self.current_mileage,
            prepayment: self.prepayment,
            total_amount: self.total_amount,
            created_at: self.created_at@,
            completed_at: opt_chars(self.completed_at),
        }
    }
}

/// A diagnosed fault recorded against an order.
#[derive(Clone, Debug)]
pub struct OrderDefect {
    pub id: i32,
    pub order_id: i32,
    pub diagnostician_id: i32,
    pub defect_description: String,
    pub diagnostician_comment: Option<String>,
    pub is_confirmed: bool,
    pub defect_type_id: Option<i32>,
}

/// A defect as a mathematical value.
pub struct OrderDefectView {
    pub id: i32,
    pub order_id: i32,
    pub diagnostician_id: i32,
    pub defect_description: Seq<char>,
    pub diagnostician_comment: Option<Seq<char>>,
    pub is_confirmed: bool,
    pub defect_type_id: Option<i32>,
}

impl View for OrderDefect {
    type V = OrderDefectView;

    open spec fn view(&self) -> OrderDefectView {
        OrderDefectView {
            id: self.id,
            order_id: self.order_id,
            diagnostician_id: self.diagnostician_id,
            defect_description: self.defect_description@,
            diagnostician_comment: opt_chars(self.diagnostician_comment),
            is_confirmed: self.is_confirmed,
            defect_type_id: self.defect_type_id,
        }
    }
}

/// A billable labor line item of an order.
#[derive(Clone, Debug)]
pub struct OrderWork {
    pub id: i32,
    pub order_id: i32,
    pub service_id: Option<i32>,
    pub service_name_snapshot: String,
    pub price: Decimal,
    pub norm_hours: Decimal,
    pub worker_id: Option<i32>,
    pub status: WorkStatus,
    pub is_confirmed: bool,
    /// The defect that this work was created for, if any.
    pub defect_id: Option<i32>,
}

/// A work as a mathematical value.
pub struct OrderWorkView {
    pub id: i32,
    pub order_id: i32,
    pub service_id: Option<i32>,
    pub service_name_snapshot: Seq<char>,
    pub price: Decimal,
    pub norm_hours: Decimal,
    pub worker_id: Option<i32>,
    pub status: WorkStatus,
    pub is_confirmed: bool,
    pub defect_id: Option<i32>,
}

impl View for OrderWork {
    type V = OrderWorkView;

    open spec fn view(&self) -> OrderWorkView {
        OrderWorkView {
            id: self.id,
            order_id: self.order_id,
            service_id: self.service_id,
            service_name_snapshot: self.service_name_snapshot@,
            price: self.price,
            norm_hours: self.norm_hours,
            worker_id: self.worker_id,
            status: self.status,
            is_confirmed: self.is_confirmed,
            defect_id: self.defect_id,
        }
    }
}

/// A physical part line item of an order.
#[derive(Clone, Debug)]
pub struct OrderPart {
    pub id: i32,
    pub order_id: i32,
    pub warehouse_item_id: Option<i32>,
    pub part_name_snapshot: String,
    pub brand: String,
    pub price_per_unit: Decimal,
    pub quantity: i32,
    pub is_confirmed: bool,
}

/// A part as a mathematical value.
pub struct OrderPartView {
    pub id: i32,
    pub order_id: i32,
    pub warehouse_item_id: Option<i32>,
    pub part_name_snapshot: Seq<char>,
    pub brand: Seq<char>,
    pub price_per_unit: Decimal,
    pub quantity: i32,
    pub is_confirmed: bool,
}

impl View for OrderPart {
    type V = OrderPartView;

    open spec fn view(&self) -> OrderPartView {
        OrderPartView {
            id: self.id,
            order_id: self.order_id,
            warehouse_item_id: self.warehouse_item_id,
            part_name_snapshot: self.part_name_snapshot@,
            brand: self.brand@,
            price_per_unit: self.price_per_unit,
            quantity: self.quantity,
            is_confirmed: self.is_confirmed,
        }
    }
}

impl Keyed for Client {
    open spec fn key_of(v: ClientView) -> i32 {
        v.id
    }

    fn key(&self) -> (k: i32) {
        self.id
    }
}

impl Keyed for Car {
    open spec fn key_of(v: CarView) -> i32 {
        v.id
    }

    fn key(&self) -> (k: i32) {
        self.id
    }
}

impl Keyed for Order {
    open spec fn key_of(v: OrderView) -> i32 {
        v.id
    }

    fn key(&self) -> (k: i32) {
        self.id
    }
}

impl Keyed for OrderDefect {
    open spec fn key_of(v: OrderDefectView) -> i32 {
        v.id
    }

    fn key(&self) -> (k: i32) {
        self.id
    }
}

impl Keyed for OrderWork {
    open spec fn key_of(v: OrderWorkView) -> i32 {
        v.id
    }

    fn key(&self) -> (k: i32) {
        self.id
    }
}

impl Keyed for OrderPart {
    open spec fn key_of(v: OrderPartView) -> i32 {
        v.id
    }

    fn key(&self) -> (k: i32) {
        self.id
    }
}

/// The views of a sequence of records, in the same order.
pub open spec fn views<T: View>(rows: Seq<T>) -> Seq<T::V> {
    rows.map_values(|r: T| r@)
}

} // verus!

use service_station::actor::{Actor, Role};
use service_station::audit::AuditAction;
use service_station::decimal::Decimal;
use service_station::records::{Car, Client, Order, OrderDefect, OrderPart, OrderWork};
use service_station::status::{OrderStatus, WorkStatus};
use service_station::workshop::{keys_distinct, Workshop};

fn client(id: i32) -> Client {
    Client {
        id,
        full_name: "Ivan".to_string(),
        phone: format!("+{}", id),
        address: None,
        created_at: "t".to_string(),
    }
}

fn car(id: i32, client_id: Option<i32>) -> Car {
    Car {
        id,
        client_id,
        vin: None,
        license_plate: Some(format!("P{}", id)),
        make: "Lada".to_string(),
        model: "Niva".to_string(),
        production_year: None,
        mileage: 0,
        last_visit_date: None,
        created_at: "t".to_string(),
    }
}

fn order(id: i32, status: OrderStatus) -> Order {
    Order {
        id,
        client_id: 1,
        car_id: 1,
        master_id: None,
        worker_id: None,
        status,
        complaint: None,
        current_mileage: None,
        prepayment: Decimal { hundredths: 0 },
        total_amount: Decimal { hundredths: 0 },
        created_at: "t".to_string(),
        completed_at: None,
    }
}

fn defect(id: i32, order_id: i32) -> OrderDefect {
    OrderDefect {
        id,
        order_id,
        diagnostician_id: 2,
        defect_description: "d".to_string(),
        diagnostician_comment: None,
        is_confirmed: false,
        defect_type_id: None,
    }
}

fn work(id: i32, order_id: i32, defect_id: Option<i32>, worker_id: Option<i32>) -> OrderWork {
    OrderWork {
        id,
        order_id,
        service_id: None,
        service_name_snapshot: "w".to_string(),
        price: Decimal { hundredths: 0 },
        norm_hours: Decimal { hundredths: 100 },
        worker_id,
        status: WorkStatus::Pending,
        is_confirmed: false,
        defect_id,
    }
}

fn part(id: i32, order_id: i32, quantity: i32) -> OrderPart {
    OrderPart {
        id,
        order_id,
        warehouse_item_id: None,
        part_name_snapshot: "p".to_string(),
        brand: "b".to_string(),
        price_per_unit: Decimal { hundredths: 100 },
        quantity,
        is_confirmed: false,
    }
}

struct Rows {
    clients: Vec<Client>,
    cars: Vec<Car>,
    orders: Vec<Order>,
    defects: Vec<OrderDefect>,
    works: Vec<OrderWork>,
    parts: Vec<OrderPart>,
}

fn sound() -> Rows {
    Rows {
        clients: vec![client(1), client(4)],
        cars: vec![car(1, Some(1)), car(2, None)],
        orders: vec![order(5, OrderStatus::Approval), order(9, OrderStatus::InWork)],
        defects: vec![defect(3, 5), defect(4, 9)],
        works: vec![work(1, 5, Some(3), None), work(2, 9, Some(4), Some(7)), work(8, 9, None, None)],
        parts: vec![part(1, 5, 0), part(2, 9, 3)],
    }
}

fn take_up(r: Rows) -> Option<Workshop> {
    Workshop::from_rows(r.clients, r.cars, r.orders, r.defects, r.works, r.parts)
}

#[test]
fn consistent_rows_are_taken_up() {
    let mut w = take_up(sound()).unwrap();
    assert_eq!(w.orders().len(), 2);
    assert_eq!(w.works().len(), 3);
    assert!(w.audit_trail().is_empty());
    let m = Actor { id: 1, role: Role::Master };
    assert_eq!(w.create_order(&m, 4, 2, None, None, "t".to_string()), Ok(10));
    assert_eq!(w.add_part(&m, part(0, 5, 1)), Ok(3));
    assert_eq!(w.transition(5, "Cancelled", &m), Ok(OrderStatus::Cancelled));
    assert_eq!(w.order(5).unwrap().status, OrderStatus::Cancelled);
}

#[test]
fn empty_rows_make_an_empty_station() {
    let mut w =
        Workshop::from_rows(vec![], vec![], vec![], vec![], vec![], vec![]).unwrap();
    let m = Actor { id: 1, role: Role::Master };
    assert_eq!(
        w.register_client(&m, "Ivan".to_string(), "1".to_string(), None, "t".to_string()),
        Ok(1)
    );
}

#[test]
fn repeated_identifiers_are_inconsistent() {
    let mut r = sound();
    r.orders.push(order(5, OrderStatus::Ready));
    assert!(take_up(r).is_none());
    let mut r = sound();
    r.works.push(work(2, 5, None, None));
    assert!(take_up(r).is_none());
    let mut r = sound();
    r.clients.push(client(4));
    assert!(take_up(r).is_none());
    assert!(keys_distinct(&sound().works));
    assert!(!keys_distinct(&vec![part(1, 1, 1), part(2, 1, 1), part(1, 2, 1)]));
    assert!(keys_distinct(&Vec::<Order>::new()));
}

#[test]
fn dangling_references_are_inconsistent() {
    let mut r = sound();
    r.cars.push(car(3, Some(2)));
    assert!(take_up(r).is_none());
    let mut r = sound();
    r.orders[0].client_id = 2;
    assert!(take_up(r).is_none());
    let mut r = sound();
    r.orders[0].car_id = 3;
    assert!(take_up(r).is_none());
    let mut r = sound();
    r.defects.push(defect(5, 6));
    assert!(take_up(r).is_none());
    let mut r = sound();
    r.works.push(work(9, 6, None, None));
    assert!(take_up(r).is_none());
    let mut r = sound();
    r.parts.push(part(3, 6, 1));
    assert!(take_up(r).is_none());
}

#[test]
fn work_must_be_linked_to_a_defect_of_its_order() {
    let mut r = sound();
    r.works[0].defect_id = Some(4);
    assert!(take_up(r).is_none());
    let mut r = sound();
    r.works[0].defect_id = Some(77);
    assert!(take_up(r).is_none());
}

#[test]
fn worker_before_assignment_is_inconsistent() {
    let mut r = sound();
    r.works[0].worker_id = Some(7);
    assert!(take_up(r).is_none());
    let mut r = sound();
    r.works[0].worker_id = Some(7);
    r.orders[0].status = OrderStatus::Closed;
    assert!(take_up(r).is_some());
}

#[test]
fn negative_quantity_is_inconsistent() {
    let mut r = sound();
    r.parts[1].quantity = -1;
    assert!(take_up(r).is_none());
}

#[test]
fn audit_trail_is_drained_once() {
    let mut w = take_up(sound()).unwrap();
    let m = Actor { id: 3, role: Role::Master };
    w.transition(5, "Cancelled", &m).unwrap();
    w.add_part(&m, part(0, 9, 1)).unwrap();
    let trail = w.drain_audit();
    assert_eq!(trail.len(), 2);
    assert_eq!(trail[1].action, AuditAction::PartAdded { order_id: 9, part_id: 3 });
    assert_eq!(trail[0].actor_id, Some(3));
    assert!(w.audit_trail().is_empty());
    assert!(w.drain_audit().is_empty());
    assert_eq!(w.parts().len(), 3);
    assert_eq!(w.order(5).unwrap().status, OrderStatus::Cancelled);
}

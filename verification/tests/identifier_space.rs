use service_station::actor::{Actor, Role};
use service_station::catalog::{Catalog, DefectNode, DefectType, Service, ServiceLink};
use service_station::decimal::Decimal;
use service_station::error::EngineError;
use service_station::records::{Car, Client, Order, OrderDefect, OrderPart, OrderWork};
use service_station::status::{OrderStatus, WorkStatus};
use service_station::workshop::Workshop;

fn master() -> Actor {
    Actor { id: 1, role: Role::Master }
}

fn client(id: i32) -> Client {
    Client {
        id,
        full_name: "Ivan".to_string(),
        phone: format!("+{}", id),
        address: None,
        created_at: "t".to_string(),
    }
}

fn car(id: i32) -> Car {
    Car {
        id,
        client_id: None,
        vin: None,
        license_plate: Some(format!("P{}", id)),
        make: "Lada".to_string(),
        model: "Niva".to_string(),
        production_year: None,
        mileage: 0,
        last_visit_date: None,
        created_at: "t".to_string(),
    }
}

fn order(id: i32) -> Order {
    Order {
        id,
        client_id: 1,
        car_id: 1,
        master_id: None,
        worker_id: None,
        status: OrderStatus::Diagnostics,
        complaint: None,
        current_mileage: None,
        prepayment: Decimal { hundredths: 0 },
        total_amount: Decimal { hundredths: 0 },
        created_at: "t".to_string(),
        completed_at: None,
    }
}

fn catalog() -> Catalog {
    Catalog {
        nodes: vec![DefectNode { id: 1, name: "Brakes".to_string(), description: None }],
        defect_types: vec![DefectType { id: 10, node_id: 1, name: "Pads".to_string(), description: None }],
        services: vec![],
        links: vec![ServiceLink { defect_type_id: 10, service_id: 3 }],
    }
}

#[test]
fn exhausted_order_ids_are_a_storage_failure() {
    let mut w =
        Workshop::from_rows(vec![client(1)], vec![car(1)], vec![order(i32::MAX)], vec![], vec![], vec![])
            .unwrap();
    let r = w.create_order(&master(), 1, 1, None, None, "t".to_string());
    assert_eq!(r, Err(EngineError::PersistenceError));
    assert_eq!(w.orders().len(), 1);
    assert!(w.audit_trail().is_empty());
}

#[test]
fn exhausted_client_and_car_ids_are_a_storage_failure() {
    let mut w = Workshop::from_rows(
        vec![client(i32::MAX)],
        vec![car(i32::MAX)],
        vec![],
        vec![],
        vec![],
        vec![],
    )
    .unwrap();
    let r = w.register_client(&master(), "Petr".to_string(), "2".to_string(), None, "t".to_string());
    assert_eq!(r, Err(EngineError::PersistenceError));
    let r = w.register_car(&master(), car(i32::MAX));
    assert_eq!(r, Err(EngineError::ValidationError));
    assert_eq!(w.register_car(&master(), car(0)), Err(EngineError::PersistenceError));
    assert_eq!(w.cars().len(), 1);
}

#[test]
fn diagnosis_that_runs_out_of_ids_records_nothing() {
    let defect = OrderDefect {
        id: i32::MAX - 1,
        order_id: 5,
        diagnostician_id: 2,
        defect_description: "d".to_string(),
        diagnostician_comment: None,
        is_confirmed: false,
        defect_type_id: None,
    };
    let mut w =
        Workshop::from_rows(vec![client(1)], vec![car(1)], vec![order(5)], vec![defect], vec![], vec![])
            .unwrap();
    assert_eq!(
        w.record_diagnosis(5, 2, &vec![10, 10], &catalog()),
        Err(EngineError::PersistenceError)
    );
    assert_eq!(w.defects().len(), 1);
    assert!(w.works().is_empty());
    assert_eq!(w.record_diagnosis(5, 2, &vec![10], &catalog()), Ok(1));
    assert_eq!(w.defects()[1].id, i32::MAX);
    assert_eq!(w.works()[0].id, 1);
    assert_eq!(w.works()[0].defect_id, Some(i32::MAX));
    assert_eq!(w.record_diagnosis(5, 2, &vec![10], &catalog()), Err(EngineError::PersistenceError));
    assert_eq!(w.record_diagnosis(5, 2, &vec![], &catalog()), Ok(0));
    assert_eq!(
        w.record_diagnosis(5, 2, &vec![10, 99], &catalog()),
        Err(EngineError::CatalogLookupFailed)
    );
}

#[test]
fn exhausted_work_ids_stop_a_diagnosis() {
    let work = OrderWork {
        id: i32::MAX,
        order_id: 5,
        service_id: None,
        service_name_snapshot: "w".to_string(),
        price: Decimal { hundredths: 0 },
        norm_hours: Decimal { hundredths: 100 },
        worker_id: None,
        status: WorkStatus::Pending,
        is_confirmed: false,
        defect_id: None,
    };
    let mut w =
        Workshop::from_rows(vec![client(1)], vec![car(1)], vec![order(5)], vec![], vec![work], vec![])
            .unwrap();
    assert_eq!(w.record_diagnosis(5, 2, &vec![10], &catalog()), Err(EngineError::PersistenceError));
    assert!(w.defects().is_empty());
}

#[test]
fn exhausted_part_ids_are_a_storage_failure() {
    let part = |id: i32| OrderPart {
        id,
        order_id: 5,
        warehouse_item_id: Some(3),
        part_name_snapshot: "p".to_string(),
        brand: "b".to_string(),
        price_per_unit: Decimal { hundredths: 100 },
        quantity: 1,
        is_confirmed: false,
    };
    let mut w = Workshop::from_rows(
        vec![client(1)],
        vec![car(1)],
        vec![order(5)],
        vec![],
        vec![],
        vec![part(i32::MAX)],
    )
    .unwrap();
    assert_eq!(w.add_part(&master(), part(0)), Err(EngineError::PersistenceError));
    assert_eq!(w.parts().len(), 1);
}

#[test]
fn ids_continue_behind_the_highest_one() {
    let mut w = Workshop::from_rows(
        vec![client(1), client(40), client(7)],
        vec![car(1)],
        vec![order(-3), order(12)],
        vec![],
        vec![],
        vec![],
    )
    .unwrap();
    assert_eq!(
        w.register_client(&master(), "Petr".to_string(), "2".to_string(), None, "t".to_string()),
        Ok(41)
    );
    assert_eq!(w.create_order(&master(), 40, 1, None, None, "t".to_string()), Ok(13));
    assert_eq!(w.register_car(&master(), car(1)), Err(EngineError::ValidationError));
    assert_eq!(w.register_car(&master(), car(0)), Ok(2));
    assert!(w.has_order(-3));
}

#[test]
fn link_to_a_missing_service_counts_for_nothing() {
    let mut c = catalog();
    assert!(c.linked_service(10).is_none());
    let draft = c.draft_for(10).unwrap();
    assert_eq!(draft.service_id, None);
    assert_eq!(draft.work_name, "Brakes: Pads");
    assert_eq!(draft.price, Decimal { hundredths: 0 });
    assert_eq!(draft.norm_hours, Decimal { hundredths: 100 });
    c.services.push(Service {
        id: i32::MAX,
        name: "Last".to_string(),
        base_price: Decimal { hundredths: 1 },
        norm_hours: Decimal { hundredths: 1 },
    });
    assert_eq!(
        c.add_service("More".to_string(), Decimal { hundredths: 1 }, Decimal { hundredths: 1 }),
        Err(EngineError::PersistenceError)
    );
    assert_eq!(c.services.len(), 1);
}

#[test]
fn equal_service_ids_resolve_to_the_first_row() {
    let mut c = catalog();
    let service = |name: &str, price: u64| Service {
        id: 3,
        name: name.to_string(),
        base_price: Decimal { hundredths: price },
        norm_hours: Decimal { hundredths: 100 },
    };
    c.services.push(service("first", 100));
    c.services.push(service("second", 200));
    assert_eq!(c.linked_service(10).unwrap().name, "first");
    assert_eq!(c.draft_for(10).unwrap().price, Decimal { hundredths: 100 });
}

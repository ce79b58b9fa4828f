use service_station::actor::{Actor, Role};
use service_station::audit::{AuditAction, AuditEvent};
use service_station::catalog::{Catalog, DefectNode, DefectType, Service, ServiceLink};
use service_station::decimal::Decimal;
use service_station::error::EngineError;
use service_station::records::{Car, OrderPart};
use service_station::status::{OrderStatus, WorkStatus};
use service_station::workshop::Workshop;

fn master() -> Actor {
    Actor { id: 1, role: Role::Master }
}

fn car_of(client_id: Option<i32>, plate: &str, vin: Option<&str>) -> Car {
    Car {
        id: 0,
        client_id,
        vin: vin.map(|v| v.to_string()),
        license_plate: Some(plate.to_string()),
        make: "Lada".to_string(),
        model: "Niva".to_string(),
        production_year: Some(2012),
        mileage: 120000,
        last_visit_date: Some("2020-01-01".to_string()),
        created_at: "2024-01-01 10:00:00".to_string(),
    }
}

fn station_with_order() -> (Workshop, i32) {
    let mut w = Workshop::new();
    let client = w
        .register_client(
            &master(),
            "Ivan Petrov".to_string(),
            "+375291112233".to_string(),
            None,
            "2024-01-01".to_string(),
        )
        .unwrap();
    let car = w.register_car(&master(), car_of(Some(client), "1234 AB-7", None)).unwrap();
    let order = w
        .create_order(
            &master(),
            client,
            car,
            Some("knocking".to_string()),
            Some(120000),
            "2024-01-02".to_string(),
        )
        .unwrap();
    (w, order)
}

fn catalog() -> Catalog {
    Catalog {
        nodes: vec![
            DefectNode { id: 1, name: "Brakes".to_string(), description: None },
            DefectNode { id: 2, name: "Engine".to_string(), description: Some("motor".to_string()) },
        ],
        defect_types: vec![
            DefectType {
                id: 10,
                node_id: 1,
                name: "Worn pads".to_string(),
                description: Some("pads below 2 mm".to_string()),
            },
            DefectType { id: 11, node_id: 2, name: "Oil leak".to_string(), description: None },
            DefectType { id: 12, node_id: 9, name: "Orphan".to_string(), description: None },
        ],
        services: vec![
            Service {
                id: 7,
                name: "Pad replacement, premium".to_string(),
                base_price: Decimal { hundredths: 90000 },
                norm_hours: Decimal { hundredths: 300 },
            },
            Service {
                id: 5,
                name: "Pad replacement".to_string(),
                base_price: Decimal { hundredths: 50000 },
                norm_hours: Decimal { hundredths: 200 },
            },
        ],
        links: vec![
            ServiceLink { defect_type_id: 10, service_id: 7 },
            ServiceLink { defect_type_id: 10, service_id: 5 },
            ServiceLink { defect_type_id: 11, service_id: 99 },
        ],
    }
}

#[test]
fn new_station_is_empty() {
    let w = Workshop::new();
    assert!(w.orders().is_empty());
    assert!(w.clients().is_empty());
    assert!(w.cars().is_empty());
    assert!(w.defects().is_empty());
    assert!(w.works().is_empty());
    assert!(w.parts().is_empty());
    assert!(w.audit_trail().is_empty());
}

#[test]
fn new_order_starts_in_diagnostics() {
    let (w, order) = station_with_order();
    assert_eq!(order, 1);
    let o = w.order(order).unwrap();
    assert_eq!(o.status, OrderStatus::Diagnostics);
    assert_eq!(o.client_id, 1);
    assert_eq!(o.car_id, 1);
    assert_eq!(o.master_id, None);
    assert_eq!(o.worker_id, None);
    assert_eq!(o.prepayment, Decimal { hundredths: 0 });
    assert_eq!(o.total_amount, Decimal { hundredths: 0 });
    assert_eq!(o.complaint.as_deref(), Some("knocking"));
    assert_eq!(o.current_mileage, Some(120000));
    assert_eq!(o.created_at, "2024-01-02");
    assert_eq!(o.completed_at, None);
}

#[test]
fn order_needs_an_existing_client_and_car() {
    let (mut w, _) = station_with_order();
    let r = w.create_order(&master(), 42, 1, None, None, "t".to_string());
    assert_eq!(r, Err(EngineError::NotFound));
    let r = w.create_order(&master(), 1, 42, None, None, "t".to_string());
    assert_eq!(r, Err(EngineError::NotFound));
    assert_eq!(w.orders().len(), 1);
}

#[test]
fn order_ids_count_up_from_one() {
    let (mut w, first) = station_with_order();
    let second = w.create_order(&master(), 1, 1, None, None, "t".to_string()).unwrap();
    assert_eq!((first, second), (1, 2));
    assert!(w.has_order(2));
    assert!(!w.has_order(3));
}

#[test]
fn end_to_end_diagnosis_and_assignment() {
    let (mut w, order) = station_with_order();
    assert_eq!(w.order(order).unwrap().status, OrderStatus::Diagnostics);

    let recorded = w.record_diagnosis(order, 3, &vec![10, 11], &catalog());
    assert_eq!(recorded, Ok(2));
    assert_eq!(w.defects().len(), 2);
    assert_eq!(w.works().len(), 2);
    assert_eq!(w.works()[0].price, Decimal { hundredths: 50000 });
    assert_eq!(w.works()[0].price.to_text(), "500.00");
    assert_eq!(w.works()[0].norm_hours, Decimal { hundredths: 200 });
    assert_eq!(w.works()[1].price, Decimal { hundredths: 0 });
    assert_eq!(w.works()[1].price.to_text(), "0.00");
    assert_eq!(w.works()[0].defect_id, Some(w.defects()[0].id));
    assert_eq!(w.works()[1].defect_id, Some(w.defects()[1].id));

    let work_id = w.works()[0].id;
    let r = w.assign_workers(order, &master(), &vec![(work_id, 7)], Some(7));
    assert_eq!(r, Ok(1));
    let o = w.order(order).unwrap();
    assert_eq!(o.status, OrderStatus::InWork);
    assert_eq!(o.worker_id, Some(7));
    assert_eq!(w.works()[0].worker_id, Some(7));
    assert_eq!(w.works()[0].status, WorkStatus::Pending);
    assert_eq!(w.works()[1].worker_id, None);
}

#[test]
fn direct_transition_into_work_is_rejected() {
    let (mut w, order) = station_with_order();
    assert_eq!(w.transition(order, "Parts_Selection", &master()), Ok(OrderStatus::PartsSelection));
    assert_eq!(w.transition(order, "Approval", &master()), Ok(OrderStatus::Approval));
    let trail = w.audit_trail().len();
    assert_eq!(w.transition(order, "In_Work", &master()), Err(EngineError::InvalidTransition));
    assert_eq!(w.order(order).unwrap().status, OrderStatus::Approval);
    assert_eq!(w.audit_trail().len(), trail);
}

#[test]
fn transition_follows_the_forward_line() {
    let (mut w, order) = station_with_order();
    assert_eq!(w.transition(order, "Parts_Selection", &master()), Ok(OrderStatus::PartsSelection));
    assert_eq!(w.transition(order, "Approval", &master()), Ok(OrderStatus::Approval));
    assert_eq!(w.assign_workers(order, &master(), &vec![], Some(4)), Ok(0));
    assert_eq!(w.transition(order, "Ready", &master()), Ok(OrderStatus::Ready));
    assert_eq!(w.transition(order, "Closed", &master()), Ok(OrderStatus::Closed));
    assert_eq!(w.order(order).unwrap().status, OrderStatus::Closed);
}

#[test]
fn transition_rejects_skips_and_reversals() {
    let (mut w, order) = station_with_order();
    for target in ["Approval", "In_Work", "Ready", "Closed", "Diagnostics"] {
        assert_eq!(w.transition(order, target, &master()), Err(EngineError::InvalidTransition));
        assert_eq!(w.order(order).unwrap().status, OrderStatus::Diagnostics);
    }
    w.transition(order, "Parts_Selection", &master()).unwrap();
    w.transition(order, "Approval", &master()).unwrap();
    assert_eq!(w.transition(order, "Diagnostics", &master()), Err(EngineError::InvalidTransition));
    assert_eq!(
        w.transition(order, "Parts_Selection", &master()),
        Err(EngineError::InvalidTransition)
    );
    assert_eq!(w.order(order).unwrap().status, OrderStatus::Approval);
}

#[test]
fn cancellation_is_open_to_every_state_that_is_not_terminal() {
    let steps: [&[&str]; 3] = [&[], &["Parts_Selection"], &["Parts_Selection", "Approval"]];
    for path in steps {
        let (mut w, order) = station_with_order();
        for step in path {
            w.transition(order, step, &master()).unwrap();
        }
        assert_eq!(w.transition(order, "Cancelled", &master()), Ok(OrderStatus::Cancelled));
        assert_eq!(w.order(order).unwrap().status, OrderStatus::Cancelled);
    }
    let (mut w, order) = station_with_order();
    w.assign_workers(order, &master(), &vec![], None).unwrap();
    assert_eq!(w.transition(order, "Cancelled", &master()), Ok(OrderStatus::Cancelled));
    let (mut w, order) = station_with_order();
    w.assign_workers(order, &master(), &vec![], None).unwrap();
    w.transition(order, "Ready", &master()).unwrap();
    assert_eq!(w.transition(order, "Cancelled", &master()), Ok(OrderStatus::Cancelled));
}

#[test]
fn terminal_states_take_no_transition() {
    let (mut w, order) = station_with_order();
    w.transition(order, "Cancelled", &master()).unwrap();
    for target in
        ["Diagnostics", "Parts_Selection", "Approval", "In_Work", "Ready", "Closed", "Cancelled"]
    {
        assert_eq!(w.transition(order, target, &master()), Err(EngineError::InvalidTransition));
    }
    assert_eq!(w.order(order).unwrap().status, OrderStatus::Cancelled);
}

#[test]
fn unknown_status_text_is_invalid_status() {
    let (mut w, order) = station_with_order();
    for target in ["", "in_work", "Done", "Parts Selection", "Diagnostics "] {
        assert_eq!(w.transition(order, target, &master()), Err(EngineError::InvalidStatus));
    }
    assert_eq!(w.order(order).unwrap().status, OrderStatus::Diagnostics);
}

#[test]
fn transition_on_a_missing_order_is_not_found() {
    let (mut w, _) = station_with_order();
    assert_eq!(w.transition(99, "Parts_Selection", &master()), Err(EngineError::NotFound));
    assert_eq!(w.transition(99, "nonsense", &master()), Err(EngineError::NotFound));
}

#[test]
fn transition_is_logged_with_old_and_new_status() {
    let (mut w, order) = station_with_order();
    let actor = Actor { id: 5, role: Role::Storekeeper };
    w.transition(order, "Parts_Selection", &actor).unwrap();
    let last = *w.audit_trail().last().unwrap();
    assert_eq!(
        last,
        AuditEvent {
            actor_id: Some(5),
            action: AuditAction::StatusChanged {
                order_id: order,
                client_id: 1,
                car_id: 1,
                from: OrderStatus::Diagnostics,
                to: OrderStatus::PartsSelection,
            },
        }
    );
    assert_eq!(last.action.event_type(), "Update_Order_Status");
}

#[test]
fn diagnosis_creates_one_defect_and_one_work_per_entry() {
    let (mut w, order) = station_with_order();
    let ids = vec![11, 10, 11, 11, 10];
    assert_eq!(w.record_diagnosis(order, 3, &ids, &catalog()), Ok(5));
    assert_eq!(w.defects().len(), 5);
    assert_eq!(w.works().len(), 5);
    for k in 0..5 {
        let defect = &w.defects()[k];
        let work = &w.works()[k];
        assert_eq!(defect.id, k as i32 + 1);
        assert_eq!(work.id, k as i32 + 1);
        assert_eq!(defect.order_id, order);
        assert_eq!(work.order_id, order);
        assert_eq!(defect.defect_type_id, Some(ids[k]));
        assert_eq!(defect.diagnostician_id, 3);
        assert!(!defect.is_confirmed);
        assert!(!work.is_confirmed);
        assert_eq!(work.defect_id, Some(defect.id));
        assert_eq!(work.worker_id, None);
        assert_eq!(work.status, WorkStatus::Pending);
    }
    assert_eq!(w.order(order).unwrap().status, OrderStatus::Diagnostics);
}

#[test]
fn diagnosis_snapshots_the_service_with_the_lowest_id() {
    let (mut w, order) = station_with_order();
    w.record_diagnosis(order, 3, &vec![10], &catalog()).unwrap();
    let defect = &w.defects()[0];
    let work = &w.works()[0];
    assert_eq!(defect.defect_description, "Brakes: Worn pads");
    assert_eq!(defect.diagnostician_comment.as_deref(), Some("pads below 2 mm"));
    assert_eq!(work.service_id, Some(5));
    assert_eq!(work.service_name_snapshot, "Pad replacement");
    assert_eq!(work.price, Decimal { hundredths: 50000 });
    assert_eq!(work.norm_hours, Decimal { hundredths: 200 });
}

#[test]
fn diagnosis_without_a_service_creates_a_placeholder_work() {
    let (mut w, order) = station_with_order();
    w.record_diagnosis(order, 3, &vec![11], &catalog()).unwrap();
    let defect = &w.defects()[0];
    let work = &w.works()[0];
    assert_eq!(defect.defect_description, "Engine: Oil leak");
    assert_eq!(defect.diagnostician_comment, None);
    assert_eq!(work.service_id, None);
    assert_eq!(work.service_name_snapshot, "Engine: Oil leak");
    assert_eq!(work.price, Decimal { hundredths: 0 });
    assert_eq!(work.norm_hours, Decimal { hundredths: 100 });
}

#[test]
fn diagnosis_with_an_unknown_type_records_nothing() {
    let (mut w, order) = station_with_order();
    let r = w.record_diagnosis(order, 3, &vec![10, 77, 11], &catalog());
    assert_eq!(r, Err(EngineError::CatalogLookupFailed));
    assert!(w.defects().is_empty());
    assert!(w.works().is_empty());
    let r = w.record_diagnosis(order, 3, &vec![12], &catalog());
    assert_eq!(r, Err(EngineError::CatalogLookupFailed));
}

#[test]
fn diagnosis_of_nothing_records_nothing() {
    let (mut w, order) = station_with_order();
    assert_eq!(w.record_diagnosis(order, 3, &vec![], &catalog()), Ok(0));
    assert!(w.defects().is_empty());
    assert!(w.works().is_empty());
}

#[test]
fn diagnosis_needs_an_order_in_diagnostics() {
    let (mut w, order) = station_with_order();
    assert_eq!(w.record_diagnosis(99, 3, &vec![10], &catalog()), Err(EngineError::NotFound));
    w.transition(order, "Parts_Selection", &master()).unwrap();
    assert_eq!(
        w.record_diagnosis(order, 3, &vec![10], &catalog()),
        Err(EngineError::ValidationError)
    );
    assert!(w.defects().is_empty());
}

#[test]
fn later_catalog_edits_do_not_reach_existing_works() {
    let (mut w, order) = station_with_order();
    let mut cat = catalog();
    w.record_diagnosis(order, 3, &vec![10], &cat).unwrap();
    cat.services[1].base_price = Decimal { hundredths: 1 };
    cat.services[1].name = "renamed".to_string();
    assert_eq!(w.works()[0].price, Decimal { hundredths: 50000 });
    assert_eq!(w.works()[0].service_name_snapshot, "Pad replacement");
}

fn part(order_id: i32, name: &str, quantity: i32) -> OrderPart {
    OrderPart {
        id: 0,
        order_id,
        warehouse_item_id: None,
        part_name_snapshot: name.to_string(),
        brand: "TRW".to_string(),
        price_per_unit: Decimal { hundredths: 24000 },
        quantity,
        is_confirmed: true,
    }
}

#[test]
fn added_part_is_unconfirmed_and_logged() {
    let (mut w, order) = station_with_order();
    let id = w.add_part(&master(), part(order, "Lever", 2)).unwrap();
    assert_eq!(id, 1);
    let p = &w.parts()[0];
    assert_eq!(p.id, 1);
    assert!(!p.is_confirmed);
    assert_eq!(p.quantity, 2);
    assert_eq!(p.part_name_snapshot, "Lever");
    assert_eq!(p.price_per_unit.to_text(), "240.00");
    assert_eq!(
        w.audit_trail().last().unwrap().action,
        AuditAction::PartAdded { order_id: order, part_id: 1 }
    );
}

#[test]
fn part_with_negative_quantity_is_refused() {
    let (mut w, order) = station_with_order();
    assert_eq!(w.add_part(&master(), part(order, "Lever", -1)), Err(EngineError::ValidationError));
    assert_eq!(w.add_part(&master(), part(77, "Lever", 1)), Err(EngineError::NotFound));
    assert_eq!(w.add_part(&master(), part(order, "Lever", 0)), Ok(1));
    assert_eq!(w.parts().len(), 1);
}

#[test]
fn confirmation_never_changes_the_order_status() {
    let (mut w, order) = station_with_order();
    w.record_diagnosis(order, 3, &vec![10, 11], &catalog()).unwrap();
    w.add_part(&master(), part(order, "Lever", 1)).unwrap();
    w.transition(order, "Parts_Selection", &master()).unwrap();
    w.transition(order, "Approval", &master()).unwrap();
    let trail = w.audit_trail().len();
    w.confirm_line_items(order, &vec![1, 2], &vec![1]);
    assert_eq!(w.order(order).unwrap().status, OrderStatus::Approval);
    assert!(w.works()[0].is_confirmed);
    assert!(w.works()[1].is_confirmed);
    assert!(w.parts()[0].is_confirmed);
    assert_eq!(w.audit_trail().len(), trail);
    w.confirm_line_items(order, &vec![], &vec![]);
    assert_eq!(w.order(order).unwrap().status, OrderStatus::Approval);
}

#[test]
fn confirmation_is_scoped_to_the_order() {
    let (mut w, first) = station_with_order();
    let second = w.create_order(&master(), 1, 1, None, None, "t".to_string()).unwrap();
    w.record_diagnosis(first, 3, &vec![10], &catalog()).unwrap();
    w.record_diagnosis(second, 3, &vec![11], &catalog()).unwrap();
    w.add_part(&master(), part(first, "A", 1)).unwrap();
    w.add_part(&master(), part(second, "B", 1)).unwrap();
    w.confirm_line_items(second, &vec![1, 2, 3], &vec![1, 2, 3]);
    assert!(!w.works()[0].is_confirmed);
    assert!(w.works()[1].is_confirmed);
    assert!(!w.parts()[0].is_confirmed);
    assert!(w.parts()[1].is_confirmed);
    assert!(!w.defects()[0].is_confirmed);
    assert!(!w.defects()[1].is_confirmed);
}

#[test]
fn assignment_without_a_main_worker_keeps_the_orders_worker() {
    let (mut w, order) = station_with_order();
    w.record_diagnosis(order, 3, &vec![10], &catalog()).unwrap();
    w.assign_workers(order, &master(), &vec![(1, 8)], Some(8)).unwrap();
    w.assign_workers(order, &master(), &vec![(1, 9)], None).unwrap();
    let o = w.order(order).unwrap();
    assert_eq!(o.status, OrderStatus::InWork);
    assert_eq!(o.worker_id, Some(8));
    assert_eq!(w.works()[0].worker_id, Some(9));

    let (mut w, order) = station_with_order();
    w.record_diagnosis(order, 3, &vec![10], &catalog()).unwrap();
    w.assign_workers(order, &master(), &vec![(1, 9)], None).unwrap();
    let o = w.order(order).unwrap();
    assert_eq!(o.status, OrderStatus::InWork);
    assert_eq!(o.worker_id, None);
}

#[test]
fn assignment_resets_the_work_to_pending_and_the_last_pair_wins() {
    let (mut w, order) = station_with_order();
    w.record_diagnosis(order, 3, &vec![10, 11], &catalog()).unwrap();
    let r = w.assign_workers(order, &master(), &vec![(1, 7), (2, 8), (1, 9), (5, 3)], Some(7));
    assert_eq!(r, Ok(4));
    assert_eq!(w.works()[0].worker_id, Some(9));
    assert_eq!(w.works()[1].worker_id, Some(8));
    assert_eq!(w.works()[0].status, WorkStatus::Pending);
    assert_eq!(
        w.audit_trail().last().unwrap().action,
        AuditAction::WorkersAssigned { order_id: order, assignments: 4, main_worker: Some(7) }
    );
    assert_eq!(w.audit_trail().last().unwrap().action.event_type(), "Assign_Workers");
}

#[test]
fn assignment_leaves_the_works_of_other_orders_alone() {
    let (mut w, first) = station_with_order();
    let second = w.create_order(&master(), 1, 1, None, None, "t".to_string()).unwrap();
    w.record_diagnosis(first, 3, &vec![10], &catalog()).unwrap();
    w.record_diagnosis(second, 3, &vec![11], &catalog()).unwrap();
    w.assign_workers(second, &master(), &vec![(1, 7), (2, 7)], Some(7)).unwrap();
    assert_eq!(w.works()[0].worker_id, None);
    assert_eq!(w.works()[1].worker_id, Some(7));
    assert_eq!(w.order(first).unwrap().status, OrderStatus::Diagnostics);
    assert_eq!(w.order(first).unwrap().worker_id, None);
    assert_eq!(w.order(second).unwrap().status, OrderStatus::InWork);
}

#[test]
fn assignment_on_a_missing_order_is_not_found() {
    let (mut w, _) = station_with_order();
    let trail = w.audit_trail().len();
    assert_eq!(w.assign_workers(9, &master(), &vec![(1, 7)], Some(7)), Err(EngineError::NotFound));
    assert_eq!(w.audit_trail().len(), trail);
}

#[test]
fn client_needs_a_name_and_a_phone_of_its_own() {
    let mut w = Workshop::new();
    let m = master();
    let t = || "2024".to_string();
    assert_eq!(
        w.register_client(&m, "  \t ".to_string(), "1".to_string(), None, t()),
        Err(EngineError::ValidationError)
    );
    assert_eq!(
        w.register_client(&m, "Ivan".to_string(), "".to_string(), None, t()),
        Err(EngineError::ValidationError)
    );
    assert_eq!(w.register_client(&m, " Ivan ".to_string(), "1".to_string(), None, t()), Ok(1));
    assert_eq!(
        w.register_client(&m, "Petr".to_string(), "1".to_string(), None, t()),
        Err(EngineError::ValidationError)
    );
    assert_eq!(
        w.register_client(&m, "Petr".to_string(), "2".to_string(), Some("Minsk".to_string()), t()),
        Ok(2)
    );
    assert_eq!(w.clients().len(), 2);
    assert_eq!(w.clients()[0].full_name, " Ivan ");
    assert_eq!(w.clients()[1].address.as_deref(), Some("Minsk"));
    assert!(w.has_client(2));
    assert!(!w.has_client(3));
    assert_eq!(
        w.audit_trail().last().unwrap().action,
        AuditAction::ClientCreated { client_id: 2 }
    );
}

#[test]
fn car_needs_make_model_and_plate() {
    let mut w = Workshop::new();
    let m = master();
    let mut car = car_of(None, "1234", None);
    car.make = " ".to_string();
    assert_eq!(w.register_car(&m, car), Err(EngineError::ValidationError));
    let mut car = car_of(None, "1234", None);
    car.model = "".to_string();
    assert_eq!(w.register_car(&m, car), Err(EngineError::ValidationError));
    let mut car = car_of(None, "1234", None);
    car.license_plate = None;
    assert_eq!(w.register_car(&m, car), Err(EngineError::ValidationError));
    assert_eq!(w.register_car(&m, car_of(None, "  ", None)), Err(EngineError::ValidationError));
    assert_eq!(w.register_car(&m, car_of(None, "1234", None)), Ok(1));
    assert_eq!(w.cars()[0].id, 1);
    assert_eq!(w.cars()[0].last_visit_date, None);
    assert!(w.has_car(1));
}

#[test]
fn car_with_a_known_vin_or_plate_is_refused() {
    let mut w = Workshop::new();
    let m = master();
    assert_eq!(w.register_car(&m, car_of(None, "1234", Some("VIN1"))), Ok(1));
    assert_eq!(
        w.register_car(&m, car_of(None, "5678", Some("VIN1"))),
        Err(EngineError::ValidationError)
    );
    assert_eq!(
        w.register_car(&m, car_of(None, "1234", Some("VIN2"))),
        Err(EngineError::ValidationError)
    );
    assert_eq!(w.register_car(&m, car_of(None, "5678", Some(""))), Ok(2));
    assert_eq!(w.register_car(&m, car_of(None, "9999", Some(""))), Ok(3));
    assert_eq!(w.register_car(&m, car_of(Some(1), "0000", None)), Err(EngineError::NotFound));
    assert_eq!(w.cars().len(), 3);
}

#[test]
fn repeating_an_assignment_changes_nothing_but_the_trail() {
    let (mut w, order) = station_with_order();
    w.record_diagnosis(order, 3, &vec![10, 11], &catalog()).unwrap();
    let pairs = vec![(1, 7), (2, 8)];
    w.assign_workers(order, &master(), &pairs, Some(7)).unwrap();
    let status = w.order(order).unwrap().status;
    let worker = w.order(order).unwrap().worker_id;
    let works: Vec<(Option<i32>, WorkStatus)> =
        w.works().iter().map(|x| (x.worker_id, x.status)).collect();
    let trail = w.audit_trail().len();
    w.assign_workers(order, &master(), &pairs, Some(7)).unwrap();
    assert_eq!(w.order(order).unwrap().status, status);
    assert_eq!(w.order(order).unwrap().worker_id, worker);
    let again: Vec<(Option<i32>, WorkStatus)> =
        w.works().iter().map(|x| (x.worker_id, x.status)).collect();
    assert_eq!(again, works);
    assert_eq!(w.audit_trail().len(), trail + 1);
    assert_eq!(w.audit_trail()[trail], w.audit_trail()[trail - 1]);
}

#[test]
fn assignment_is_open_in_every_state() {
    for path in [vec![], vec!["Parts_Selection"], vec!["Parts_Selection", "Approval"], vec!["Cancelled"]] {
        let (mut w, order) = station_with_order();
        for step in path {
            w.transition(order, step, &master()).unwrap();
        }
        assert_eq!(w.assign_workers(order, &master(), &vec![], Some(2)), Ok(0));
        assert_eq!(w.order(order).unwrap().status, OrderStatus::InWork);
        assert_eq!(w.order(order).unwrap().worker_id, Some(2));
    }
}

#[test]
fn recorded_defects_and_snapshots_stay_as_they_are() {
    let (mut w, order) = station_with_order();
    w.record_diagnosis(order, 3, &vec![10], &catalog()).unwrap();
    w.add_part(&master(), part(order, "Lever", 2)).unwrap();
    let defect = (w.defects()[0].defect_description.clone(), w.defects()[0].is_confirmed);
    let work = (w.works()[0].service_name_snapshot.clone(), w.works()[0].price);
    let item = (w.parts()[0].part_name_snapshot.clone(), w.parts()[0].price_per_unit, w.parts()[0].quantity);
    w.transition(order, "Parts_Selection", &master()).unwrap();
    w.confirm_line_items(order, &vec![1], &vec![1]);
    w.assign_workers(order, &master(), &vec![(1, 7)], Some(7)).unwrap();
    w.record_diagnosis(order, 3, &vec![11], &catalog()).unwrap_err();
    w.transition(order, "Ready", &master()).unwrap();
    assert_eq!((w.defects()[0].defect_description.clone(), w.defects()[0].is_confirmed), defect);
    assert_eq!((w.works()[0].service_name_snapshot.clone(), w.works()[0].price), work);
    assert_eq!(
        (w.parts()[0].part_name_snapshot.clone(), w.parts()[0].price_per_unit, w.parts()[0].quantity),
        item
    );
    assert_eq!(w.defects().len(), 1);
    assert_eq!(w.orders().len(), 1);
}

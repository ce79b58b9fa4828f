use service_station::actor::{Actor, Role};
use service_station::catalog::{Catalog, DefectNode, DefectType};
use service_station::error::EngineError;
use service_station::records::Car;
use service_station::workshop::Workshop;

fn master() -> Actor {
    Actor { id: 1, role: Role::Master }
}

fn station() -> Workshop {
    let mut w = Workshop::new();
    w.register_client(&master(), "Ivan".to_string(), "1".to_string(), None, "t".to_string()).unwrap();
    w.register_car(
        &master(),
        Car {
            id: 0,
            client_id: Some(1),
            vin: None,
            license_plate: Some("1234".to_string()),
            make: "Lada".to_string(),
            model: "Niva".to_string(),
            production_year: None,
            mileage: 0,
            last_visit_date: None,
            created_at: "t".to_string(),
        },
    )
    .unwrap();
    let catalog = Catalog {
        nodes: vec![DefectNode { id: 1, name: "Brakes".to_string(), description: None }],
        defect_types: vec![DefectType { id: 10, node_id: 1, name: "Pads".to_string(), description: None }],
        services: vec![],
        links: vec![],
    };
    for _ in 0..3 {
        let id = w.create_order(&master(), 1, 1, None, None, "t".to_string()).unwrap();
        w.record_diagnosis(id, 2, &vec![10, 10], &catalog).unwrap();
    }
    w.transition(1, "Parts_Selection", &master()).unwrap();
    w.assign_workers(2, &master(), &vec![(3, 7)], Some(7)).unwrap();
    w
}

#[test]
fn workshop_lists_what_a_role_sees() {
    let w = station();
    let see = |role: Role, id: i32| -> Vec<i32> {
        w.visible_orders(&Actor { id, role }).iter().map(|o| o.id).collect()
    };
    assert_eq!(see(Role::Master, 1), vec![1, 2, 3]);
    assert_eq!(see(Role::Diagnostician, 1), vec![3]);
    assert_eq!(see(Role::Storekeeper, 1), vec![1, 2]);
    assert_eq!(see(Role::Worker, 7), vec![2]);
    assert_eq!(see(Role::Worker, 1), Vec::<i32>::new());
}

#[test]
fn workshop_lists_the_line_items_of_an_order() {
    let w = station();
    let works: Vec<i32> = w.works_of(2).iter().map(|x| x.id).collect();
    let defects: Vec<i32> = w.defects_of(2).iter().map(|x| x.id).collect();
    assert_eq!(works, vec![3, 4]);
    assert_eq!(defects, vec![3, 4]);
    assert!(w.parts_of(2).is_empty());
    assert!(w.works_of(9).is_empty());
}

#[test]
fn order_details_are_for_the_main_worker_only() {
    let w = station();
    let details = w.order_details_for_worker(2, 7).ok().unwrap();
    assert_eq!(details.order.id, 2);
    assert_eq!(details.works.len(), 2);
    assert_eq!(details.defects.len(), 2);
    assert_eq!(details.parts.len(), 0);
    assert_eq!(w.order_details_for_worker(2, 8).err(), Some(EngineError::Unauthorized));
    assert_eq!(w.order_details_for_worker(1, 7).err(), Some(EngineError::Unauthorized));
    assert_eq!(w.order_details_for_worker(9, 7).err(), Some(EngineError::NotFound));
}

use service_station::actor::{Actor, Role};
use service_station::catalog::{service_in_use, Catalog, DefectNode, DefectType, Service, ServiceLink};
use service_station::decimal::Decimal;
use service_station::error::EngineError;
use service_station::filters::{archived_orders, like_pattern, ArchiveFilter, LogFilter};
use service_station::lookup::{find, top_key};
use service_station::queries::{items_of, visible_orders};
use service_station::records::{Order, OrderWork};
use service_station::status::{OrderStatus, WorkStatus};
use service_station::text::{blank, str_eq};
use service_station::visibility::is_visible;
use service_station::workshop::{contains_id, worker_for};

const STATUSES: [(OrderStatus, &str); 7] = [
    (OrderStatus::Diagnostics, "Diagnostics"),
    (OrderStatus::PartsSelection, "Parts_Selection"),
    (OrderStatus::Approval, "Approval"),
    (OrderStatus::InWork, "In_Work"),
    (OrderStatus::Ready, "Ready"),
    (OrderStatus::Closed, "Closed"),
    (OrderStatus::Cancelled, "Cancelled"),
];

fn order(id: i32, status: OrderStatus, worker: Option<i32>) -> Order {
    Order {
        id,
        client_id: 1,
        car_id: 1,
        master_id: None,
        worker_id: worker,
        status,
        complaint: None,
        current_mileage: None,
        prepayment: Decimal { hundredths: 0 },
        total_amount: Decimal { hundredths: 0 },
        created_at: "2024-01-01".to_string(),
        completed_at: None,
    }
}

fn one_of_each() -> Vec<Order> {
    STATUSES.iter().enumerate().map(|(i, (s, _))| order(i as i32 + 1, *s, Some(7))).collect()
}

fn ids(orders: &[&Order]) -> Vec<i32> {
    orders.iter().map(|o| o.id).collect()
}

#[test]
fn status_names_are_the_wire_names() {
    for (status, name) in STATUSES {
        assert_eq!(status.as_str(), name);
        assert_eq!(OrderStatus::parse(name), Some(status));
    }
    for bad in ["", "diagnostics", "InWork", "In Work", "Closed ", "Отменён"] {
        assert_eq!(OrderStatus::parse(bad), None);
    }
}

#[test]
fn work_status_names_are_the_wire_names() {
    for (status, name) in
        [(WorkStatus::Pending, "Pending"), (WorkStatus::InProgress, "In_Progress"), (WorkStatus::Done, "Done")]
    {
        assert_eq!(status.as_str(), name);
        assert_eq!(WorkStatus::parse(name), Some(status));
    }
    assert_eq!(WorkStatus::parse("InProgress"), None);
}

#[test]
fn role_names_round_trip() {
    for (role, name) in [
        (Role::Admin, "Admin"),
        (Role::Master, "Master"),
        (Role::Diagnostician, "Diagnostician"),
        (Role::Storekeeper, "Storekeeper"),
        (Role::Worker, "Worker"),
    ] {
        assert_eq!(role.as_str(), name);
        assert_eq!(Role::parse(name), Some(role));
    }
    assert_eq!(Role::parse("worker"), None);
}

#[test]
fn reachability_table_is_exact() {
    for (from, _) in STATUSES {
        for (to, name) in STATUSES {
            let forward = from.next() == Some(to);
            let cancel = to == OrderStatus::Cancelled && !from.is_terminal();
            assert_eq!(from.can_reach(to), forward || cancel);
            let expected = if (forward || cancel) && to != OrderStatus::InWork {
                Ok(to)
            } else {
                Err(EngineError::InvalidTransition)
            };
            assert_eq!(from.check_transition(name), expected);
        }
        assert_eq!(from.check_transition("Paused"), Err(EngineError::InvalidStatus));
    }
    assert_eq!(OrderStatus::Approval.next(), Some(OrderStatus::InWork));
    assert_eq!(OrderStatus::Closed.next(), None);
    assert_eq!(OrderStatus::Cancelled.next(), None);
    assert!(OrderStatus::Closed.is_terminal());
    assert!(OrderStatus::Cancelled.is_terminal());
    assert!(!OrderStatus::Ready.is_terminal());
}

#[test]
fn every_error_has_a_message_of_its_own() {
    let all = [
        EngineError::NotFound,
        EngineError::InvalidTransition,
        EngineError::InvalidStatus,
        EngineError::CatalogLookupFailed,
        EngineError::Unauthorized,
        EngineError::PersistenceError,
        EngineError::ValidationError,
    ];
    for (i, a) in all.iter().enumerate() {
        assert!(!a.message().is_empty());
        for b in &all[i + 1..] {
            assert_ne!(a.message(), b.message());
        }
    }
}

#[test]
fn each_role_sees_its_orders() {
    let orders = one_of_each();
    let see = |role: Role, id: i32| ids(&visible_orders(&orders, &Actor { id, role }));
    assert_eq!(see(Role::Admin, 1), vec![1, 2, 3, 4, 5, 6, 7]);
    assert_eq!(see(Role::Master, 1), vec![1, 2, 3, 4, 5]);
    assert_eq!(see(Role::Storekeeper, 1), vec![2, 3, 4]);
    assert_eq!(see(Role::Diagnostician, 1), vec![1]);
    assert_eq!(see(Role::Worker, 7), vec![4]);
    assert_eq!(see(Role::Worker, 8), Vec::<i32>::new());
    let unassigned = order(9, OrderStatus::InWork, None);
    assert!(!is_visible(&unassigned, &Actor { id: 7, role: Role::Worker }));
    assert!(is_visible(&unassigned, &Actor { id: 7, role: Role::Storekeeper }));
}

#[test]
fn archive_filter_reads_all_archived_or_a_status() {
    assert_eq!(ArchiveFilter::parse("All"), Ok(ArchiveFilter::All));
    assert_eq!(ArchiveFilter::parse("Archived"), Ok(ArchiveFilter::Archived));
    assert_eq!(ArchiveFilter::parse("In_Work"), Ok(ArchiveFilter::Status(OrderStatus::InWork)));
    assert_eq!(ArchiveFilter::parse("all"), Err(EngineError::InvalidStatus));
    assert_eq!(ArchiveFilter::parse(""), Err(EngineError::InvalidStatus));
    let orders = one_of_each();
    assert_eq!(ids(&archived_orders(&orders, ArchiveFilter::All)), vec![1, 2, 3, 4, 5, 6, 7]);
    assert_eq!(ids(&archived_orders(&orders, ArchiveFilter::Archived)), vec![6, 7]);
    assert_eq!(
        ids(&archived_orders(&orders, ArchiveFilter::Status(OrderStatus::Ready))),
        vec![5]
    );
    assert!(ArchiveFilter::Archived.lets_through(OrderStatus::Cancelled));
    assert!(!ArchiveFilter::Archived.lets_through(OrderStatus::Ready));
}

#[test]
fn like_pattern_lowers_the_case_between_percent_signs() {
    assert_eq!(like_pattern("Petrov"), "%petrov%");
    assert_eq!(like_pattern(""), "%%");
    assert_eq!(like_pattern("1234 AB-7"), "%1234 ab-7%");
    assert_eq!(like_pattern("ИВАН"), "%иван%");
}

#[test]
fn log_filter_drops_what_restricts_nothing() {
    let f = LogFilter::from_request(None, None);
    assert_eq!((f.event_type, f.description_like), (None, None));
    let f = LogFilter::from_request(Some("Все события"), Some(""));
    assert_eq!((f.event_type, f.description_like), (None, None));
    let f = LogFilter::from_request(Some("Login"), Some("Заказ 5"));
    assert_eq!(f.event_type.as_deref(), Some("Login"));
    assert_eq!(f.description_like.as_deref(), Some("%заказ 5%"));
    let f = LogFilter::from_request(Some(""), Some(" "));
    assert_eq!(f.event_type.as_deref(), Some(""));
    assert_eq!(f.description_like.as_deref(), Some("% %"));
}

#[test]
fn blank_is_nothing_but_whitespace() {
    for text in ["", " ", "\t\n", "\u{a0}\u{2003}", "   \r\n "] {
        assert!(blank(text), "{:?}", text);
    }
    for text in ["a", " a ", "\u{200b}", "0", " . "] {
        assert!(!blank(text), "{:?}", text);
    }
}

#[test]
fn str_eq_compares_characters() {
    assert!(str_eq("", ""));
    assert!(str_eq("In_Work", "In_Work"));
    assert!(!str_eq("In_Work", "In_Worl"));
    assert!(!str_eq("In_Work", "In_Work "));
    assert!(str_eq("Заказ", "Заказ"));
    assert!(!str_eq("Заказ", "Закаэ"));
}

fn work(id: i32, order_id: i32, service_id: Option<i32>) -> OrderWork {
    OrderWork {
        id,
        order_id,
        service_id,
        service_name_snapshot: "w".to_string(),
        price: Decimal { hundredths: 0 },
        norm_hours: Decimal { hundredths: 100 },
        worker_id: None,
        status: WorkStatus::Pending,
        is_confirmed: false,
        defect_id: None,
    }
}

#[test]
fn items_of_an_order_keep_the_table_order() {
    let works = vec![work(1, 5, None), work(2, 6, None), work(3, 5, Some(2)), work(4, 7, None)];
    let found: Vec<i32> = items_of(&works, 5).iter().map(|w| w.id).collect();
    assert_eq!(found, vec![1, 3]);
    assert!(items_of(&works, 9).is_empty());
    assert_eq!(find(&works, 3), Some(2));
    assert_eq!(find(&works, 9), None);
    assert_eq!(top_key(&works), 4);
    assert_eq!(top_key(&Vec::<OrderWork>::new()), 0);
    assert!(service_in_use(&works, 2));
    assert!(!service_in_use(&works, 3));
}

#[test]
fn assignment_lists_are_read_from_the_end() {
    let pairs = vec![(1, 10), (2, 20), (1, 30)];
    assert_eq!(worker_for(&pairs, 1), Some(30));
    assert_eq!(worker_for(&pairs, 2), Some(20));
    assert_eq!(worker_for(&pairs, 3), None);
    assert_eq!(worker_for(&vec![], 1), None);
    assert!(contains_id(&vec![3, 1, 2], 1));
    assert!(!contains_id(&vec![3, 1, 2], 4));
    assert!(!contains_id(&vec![], 4));
}

fn small_catalog() -> Catalog {
    Catalog {
        nodes: vec![DefectNode { id: 1, name: "Brakes".to_string(), description: None }],
        defect_types: vec![DefectType { id: 10, node_id: 1, name: "Worn pads".to_string(), description: None }],
        services: vec![Service {
            id: 5,
            name: "Pad replacement".to_string(),
            base_price: Decimal { hundredths: 50000 },
            norm_hours: Decimal { hundredths: 200 },
        }],
        links: vec![
            ServiceLink { defect_type_id: 10, service_id: 5 },
            ServiceLink { defect_type_id: 11, service_id: 6 },
            ServiceLink { defect_type_id: 12, service_id: 5 },
        ],
    }
}

#[test]
fn services_are_added_changed_and_removed() {
    let mut c = small_catalog();
    let price = Decimal { hundredths: 1000 };
    let hours = Decimal { hundredths: 50 };
    assert_eq!(c.add_service("  ".to_string(), price, hours), Err(EngineError::ValidationError));
    assert_eq!(c.add_service("Oil change".to_string(), price, hours), Ok(6));
    assert_eq!(c.services.len(), 2);
    assert_eq!(c.services[1].name, "Oil change");
    assert_eq!(c.services[1].base_price, price);
    assert_eq!(c.update_service(6, "".to_string(), price, hours), Err(EngineError::ValidationError));
    assert_eq!(c.update_service(9, "x".to_string(), price, hours), Err(EngineError::NotFound));
    assert_eq!(c.update_service(6, "Oil and filter".to_string(), hours, price), Ok(()));
    assert_eq!(c.services[1].name, "Oil and filter");
    assert_eq!(c.services[1].base_price, hours);
    assert_eq!(c.services[1].norm_hours, price);
    assert_eq!(c.remove_service(5, true), Err(EngineError::ValidationError));
    assert_eq!(c.remove_service(9, true), Err(EngineError::ValidationError));
    assert_eq!(c.remove_service(9, false), Err(EngineError::NotFound));
    assert_eq!(c.remove_service(5, false), Ok(()));
    assert_eq!(c.services.len(), 1);
    assert_eq!(c.services[0].id, 6);
}

#[test]
fn relinking_replaces_the_links_of_one_service() {
    let mut c = small_catalog();
    assert_eq!(c.relink_service(5, &vec![20, 21]), 2);
    assert_eq!(
        c.links,
        vec![
            ServiceLink { defect_type_id: 11, service_id: 6 },
            ServiceLink { defect_type_id: 20, service_id: 5 },
            ServiceLink { defect_type_id: 21, service_id: 5 },
        ]
    );
    assert!(c.has_link(20, 5));
    assert!(!c.has_link(10, 5));
    assert_eq!(c.relink_service(6, &vec![]), 0);
    assert_eq!(c.links.len(), 2);
    assert!(c.linked_service(10).is_none());
    assert_eq!(c.linked_service(20).unwrap().id, 5);
}

#[test]
fn catalog_lookups_find_the_first_entry() {
    let c = small_catalog();
    assert_eq!(c.find_defect_type(10).unwrap().name, "Worn pads");
    assert!(c.find_defect_type(11).is_none());
    assert_eq!(c.find_node(1).unwrap().name, "Brakes");
    assert!(c.find_node(2).is_none());
    let draft = c.draft_for(10).unwrap();
    assert_eq!(draft.description, "Brakes: Worn pads");
    assert_eq!(draft.service_id, Some(5));
    assert_eq!(draft.defect_type_id, 10);
    assert!(c.draft_for(11).is_none());
}

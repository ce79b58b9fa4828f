use service_station::actor::{Actor, Role};
use service_station::auth::{check_credentials, login_outcome, login_user, login_worker, stored_password};
use service_station::error::EngineError;
use service_station::session::SessionDirectory;
use service_station::users::{available_workers, find_by_login, find_by_pin, User};

fn user(id: i32, role: Role, login: Option<&str>, hash: Option<String>, pin: Option<&str>, status: &str) -> User {
    User {
        id,
        full_name: format!("User {}", id),
        role,
        login: login.map(|l| l.to_string()),
        password_hash: hash,
        pin_code: pin.map(|p| p.to_string()),
        status: status.to_string(),
    }
}

fn staff() -> Vec<User> {
    vec![
        user(1, Role::Admin, Some("admin"), Some(bcrypt::hash("admin123", 4).unwrap()), None, "Active"),
        user(2, Role::Master, Some("master"), Some(bcrypt::hash("master123", 4).unwrap()), None, "Blocked"),
        user(3, Role::Master, Some("master"), Some(bcrypt::hash("second", 4).unwrap()), None, "Active"),
        user(4, Role::Worker, None, None, Some("1234"), "Active"),
        user(5, Role::Worker, Some("idle"), None, Some("9999"), "Fired"),
        user(6, Role::Storekeeper, Some("store"), None, Some("1111"), "Active"),
        user(7, Role::Worker, None, None, Some("1234"), "Active"),
        user(8, Role::Diagnostician, Some("broken"), Some("not a hash".to_string()), None, "Active"),
    ]
}

#[test]
fn login_accepts_the_right_password_only() {
    let users = staff();
    let mut sessions = SessionDirectory::new();
    let token = login_user(&users, &mut sessions, "admin", "admin123").unwrap();
    assert_eq!(sessions.len(), 1);
    assert_eq!(sessions.resolve(&token).unwrap().id, 1);
    assert_eq!(login_user(&users, &mut sessions, "admin", "admin124"), Err(EngineError::Unauthorized));
    assert_eq!(login_user(&users, &mut sessions, "admin", "admin123 "), Err(EngineError::Unauthorized));
    assert_eq!(login_user(&users, &mut sessions, "admin", ""), Err(EngineError::Unauthorized));
    assert_eq!(login_user(&users, &mut sessions, "nobody", "admin123"), Err(EngineError::Unauthorized));
    assert_eq!(sessions.len(), 1);
}

#[test]
fn login_passes_over_users_that_are_not_active() {
    let users = staff();
    let mut sessions = SessionDirectory::new();
    assert_eq!(
        login_user(&users, &mut sessions, "master", "master123"),
        Err(EngineError::Unauthorized)
    );
    let token = login_user(&users, &mut sessions, "master", "second").unwrap();
    assert_eq!(sessions.resolve(&token).unwrap().id, 3);
    assert_eq!(find_by_login(&users, "master").unwrap().id, 3);
    assert!(find_by_login(&users, "idle").is_none());
}

#[test]
fn login_without_a_readable_hash_is_refused() {
    let users = staff();
    let mut sessions = SessionDirectory::new();
    assert_eq!(login_user(&users, &mut sessions, "store", "x"), Err(EngineError::Unauthorized));
    assert_eq!(
        login_user(&users, &mut sessions, "broken", "not a hash"),
        Err(EngineError::Unauthorized)
    );
    assert_eq!(check_credentials(None, "x"), Err(EngineError::Unauthorized));
    assert_eq!(check_credentials(Some(&users[0]), "admin123"), Ok(()));
    assert_eq!(check_credentials(Some(&users[0]), "Admin123"), Err(EngineError::Unauthorized));
    assert_eq!(sessions.len(), 0);
}

#[test]
fn login_outcome_lets_only_a_match_in() {
    assert_eq!(login_outcome(Some(true)), Ok(()));
    assert_eq!(login_outcome(Some(false)), Err(EngineError::Unauthorized));
    assert_eq!(login_outcome(None), Err(EngineError::Unauthorized));
}

#[test]
fn worker_logs_in_by_pin() {
    let users = staff();
    let mut sessions = SessionDirectory::new();
    let token = login_worker(&users, &mut sessions, "1234").unwrap();
    assert_eq!(sessions.resolve(&token).unwrap().id, 4);
    assert_eq!(sessions.authorize(&token), Ok(Actor { id: 4, role: Role::Worker }));
    assert_eq!(login_worker(&users, &mut sessions, "9999"), Err(EngineError::Unauthorized));
    assert_eq!(login_worker(&users, &mut sessions, "1111"), Err(EngineError::Unauthorized));
    assert_eq!(login_worker(&users, &mut sessions, ""), Err(EngineError::Unauthorized));
    assert_eq!(find_by_pin(&users, "1234").unwrap().id, 4);
    assert_eq!(sessions.len(), 1);
}

#[test]
fn tokens_of_two_logins_differ() {
    let users = staff();
    let mut sessions = SessionDirectory::new();
    let a = login_worker(&users, &mut sessions, "1234").unwrap();
    let b = login_worker(&users, &mut sessions, "1234").unwrap();
    assert_ne!(a, b);
    assert_eq!(a.len(), 36);
    assert_eq!(sessions.len(), 2);
}

#[test]
fn stored_password_hashes_what_is_given() {
    assert_eq!(stored_password(&None), Ok(None));
    assert_eq!(stored_password(&Some(String::new())), Ok(None));
    let stored = stored_password(&Some("secret".to_string())).unwrap().unwrap();
    assert_ne!(stored, "secret");
    assert_eq!(bcrypt::verify("secret", &stored).unwrap(), true);
    assert_eq!(bcrypt::verify("Secret", &stored).unwrap(), false);
    assert!(stored.starts_with("$2b$12$"));
    let u = user(1, Role::Admin, Some("a"), Some(stored), None, "Active");
    assert_eq!(check_credentials(Some(&u), "secret"), Ok(()));
}

#[test]
fn session_directory_maps_tokens_to_users() {
    let users = staff();
    let mut sessions = SessionDirectory::new();
    assert_eq!(sessions.len(), 0);
    assert!(sessions.resolve("t1").is_none());
    assert_eq!(sessions.authorize("t1"), Err(EngineError::Unauthorized));
    sessions.insert("t1".to_string(), users[0].duplicate());
    sessions.insert("t2".to_string(), users[2].duplicate());
    assert_eq!(sessions.len(), 2);
    assert_eq!(sessions.resolve("t1").unwrap().id, 1);
    assert_eq!(sessions.authorize("t2"), Ok(Actor { id: 3, role: Role::Master }));
    sessions.insert("t1".to_string(), users[3].duplicate());
    assert_eq!(sessions.len(), 2);
    assert_eq!(sessions.resolve("t1").unwrap().id, 4);
    assert!(sessions.remove("t1"));
    assert!(!sessions.remove("t1"));
    assert!(sessions.resolve("t1").is_none());
    assert_eq!(sessions.resolve("t2").unwrap().id, 3);
    assert_eq!(sessions.len(), 1);
    assert!(sessions.resolve("T2").is_none());
}

#[test]
fn duplicate_copies_every_field() {
    let u = user(9, Role::Worker, Some("w"), Some("h".to_string()), Some("p"), "Active");
    let c = u.duplicate();
    assert_eq!(
        (c.id, c.full_name, c.role, c.login, c.password_hash, c.pin_code, c.status),
        (u.id, u.full_name, u.role, u.login, u.password_hash, u.pin_code, u.status)
    );
}

#[test]
fn available_workers_are_the_active_workers() {
    let users = staff();
    let ids: Vec<i32> = available_workers(&users).iter().map(|u| u.id).collect();
    assert_eq!(ids, vec![4, 7]);
    assert!(users[3].is_active());
    assert!(!users[4].is_active());
    assert!(users[3].works_under("1234"));
    assert!(!users[5].works_under("1111"));
    assert!(users[0].answers_to("admin"));
    assert!(!users[1].answers_to("master"));
    assert_eq!(users[5].actor(), Actor { id: 6, role: Role::Storekeeper });
}

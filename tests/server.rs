use quip::backend::MemoryBackend;
use quip::connection::{Connection, ConnectionStatus};
use quip::data::{BackendData, BackendQueryData, Group, User};
use quip::error::QuipError;
use quip::request::Request;
use quip::response::Response;
use quip::service::{
    after_empty_read, serve_close, serve_read, serve_send, serve_unauth, serve_write, AuthStep,
    UnauthStep,
};

fn user(name: &str, password: &str) -> User {
    User {
        name: name.to_string(),
        password: password.to_string(),
    }
}

fn backend() -> MemoryBackend {
    let data = BackendData::new(vec![user("Dessera", "Pass"), user("Scarlet", "Pass")], vec![]);
    MemoryBackend::from_data(data).unwrap()
}

fn lines(v: Vec<Response>) -> Vec<String> {
    v.iter().map(|r| r.to_string()).collect()
}

fn login(b: &mut MemoryBackend, line: &str) -> u64 {
    match serve_unauth(b, Request::try_from(line)) {
        UnauthStep::Login(id) => id,
        other => panic!("login refused: {:?}", other),
    }
}

fn reply(b: &mut MemoryBackend, line: &str) -> String {
    match serve_unauth(b, Request::try_from(line)) {
        UnauthStep::Reply(resp) => resp.to_string(),
        other => panic!("expected a reply, got {:?}", other),
    }
}

fn read(b: &mut MemoryBackend, id: u64, line: &str) -> Vec<u64> {
    match serve_read(b, id, Request::try_from(line)) {
        AuthStep::Continue(wake) => wake,
        other => panic!("expected to continue, got {:?}", other),
    }
}

#[test]
fn login_send_deliver() {
    let mut b = backend();
    let a = login(&mut b, "A0 Login Dessera Pass");
    assert_eq!(lines(serve_write(&mut b, a)), vec!["A0 Success Dessera"]);
    let c = login(&mut b, "B0 Login Scarlet Pass");
    assert_eq!(lines(serve_write(&mut b, c)), vec!["B0 Success Scarlet"]);

    let wake = read(&mut b, a, "A1 Send Scarlet Hi");
    assert_eq!(wake, vec![c, a]);
    assert_eq!(lines(serve_write(&mut b, a)), vec!["A1 Success Scarlet"]);
    assert_eq!(lines(serve_write(&mut b, c)), vec!["* Recv Dessera Hi"]);
}

#[test]
fn duplicate_login() {
    let mut b = backend();
    let a = login(&mut b, "A0 Login Dessera Pass");
    assert_eq!(reply(&mut b, "X0 Login Dessera Pass"), "X0 Error Duplicate");
    assert_eq!(lines(serve_write(&mut b, a)), vec!["A0 Success Dessera"]);
    read(&mut b, a, "A1 Nop");
    assert_eq!(lines(serve_write(&mut b, a)), vec!["A1 Success"]);
}

#[test]
fn wrong_password_and_unknown_user() {
    let mut b = backend();
    assert_eq!(reply(&mut b, "X0 Login Dessera Wrong"), "X0 Error Unauthorized");
    assert_eq!(reply(&mut b, "X1 Login Ghost Pass"), "X1 Error NotFound");
}

#[test]
fn offline_delivery() {
    let mut b = backend();
    let a = login(&mut b, "A0 Login Dessera Pass");
    let wake = read(&mut b, a, "A1 Send Scarlet Later");
    assert_eq!(wake, vec![a]);
    assert_eq!(
        lines(serve_write(&mut b, a)),
        vec!["A0 Success Dessera", "A1 Success Scarlet"]
    );
    let c = login(&mut b, "B0 Login Scarlet Pass");
    assert_eq!(
        lines(serve_write(&mut b, c)),
        vec!["* Recv Dessera Later", "B0 Success Scarlet"]
    );
}

#[test]
fn bad_command() {
    let mut b = backend();
    assert_eq!(reply(&mut b, "Q0 Flarp"), "* Error BadCommand");
    let a = login(&mut b, "A0 Login Dessera Pass");
    read(&mut b, a, "Q1 Flarp");
    assert_eq!(
        lines(serve_write(&mut b, a)),
        vec!["A0 Success Dessera", "* Error BadCommand"]
    );
}

#[test]
fn logout_and_reconnect() {
    let mut b = backend();
    let a = login(&mut b, "A0 Login Dessera Pass");
    match serve_read(&mut b, a, Request::try_from("A1 Logout")) {
        AuthStep::Close(QuipError::Disconnect) => (),
        other => panic!("expected a disconnect, got {:?}", other),
    }
    serve_close(&mut b, a);
    assert!(b.find_conn("Dessera").is_err());
    let again = login(&mut b, "A2 Login Dessera Pass");
    assert_eq!(lines(serve_write(&mut b, again)), vec!["A2 Success Dessera"]);
}

#[test]
fn logout_before_login_closes() {
    let mut b = backend();
    match serve_unauth(&mut b, Request::try_from("A0 Logout")) {
        UnauthStep::Close(QuipError::Disconnect) => (),
        other => panic!("expected a disconnect, got {:?}", other),
    }
}

#[test]
fn unauthenticated_verbs() {
    let mut b = backend();
    assert_eq!(reply(&mut b, "A0 Nop"), "A0 Success");
    assert_eq!(reply(&mut b, "A1 Send Scarlet Hi"), "A1 Error Unauthorized");
    assert_eq!(reply(&mut b, "A2 SetName Scarlet"), "A2 Error Unauthorized");
}

#[test]
fn login_after_login_is_unauthorized() {
    let mut b = backend();
    let a = login(&mut b, "A0 Login Dessera Pass");
    read(&mut b, a, "A1 Login Scarlet Pass");
    assert_eq!(
        lines(serve_write(&mut b, a)),
        vec!["A0 Success Dessera", "A1 Error Unauthorized"]
    );
}

#[test]
fn send_to_unknown_user() {
    let mut b = backend();
    let a = login(&mut b, "A0 Login Dessera Pass");
    read(&mut b, a, "A1 Send Ghost Hi");
    assert_eq!(
        lines(serve_write(&mut b, a)),
        vec!["A0 Success Dessera", "A1 Error NotFound"]
    );
    assert!(b.find_conn("Ghost").is_err());
}

#[test]
fn one_session_per_name() {
    let mut b = backend();
    let a = login(&mut b, "A0 Login Dessera Pass");
    assert_eq!(reply(&mut b, "X0 Login Dessera Pass"), "X0 Error Duplicate");
    assert_eq!(b.find_conn("Dessera").unwrap(), a);
    let live = b
        .conns
        .iter()
        .filter(|c| c.name == "Dessera" && c.status == ConnectionStatus::Auth)
        .count();
    assert_eq!(live, 1);
}

#[test]
fn sends_arrive_in_order() {
    let mut b = backend();
    let a = login(&mut b, "A0 Login Dessera Pass");
    let c = login(&mut b, "B0 Login Scarlet Pass");
    serve_write(&mut b, c);
    read(&mut b, a, "A1 Send Scarlet first");
    read(&mut b, a, "A2 Send Scarlet second");
    read(&mut b, a, "A3 Send Scarlet third");
    assert_eq!(
        lines(serve_write(&mut b, c)),
        vec![
            "* Recv Dessera first",
            "* Recv Dessera second",
            "* Recv Dessera third"
        ]
    );
}

#[test]
fn send_to_self_orders_recv_before_ack() {
    let mut b = backend();
    let a = login(&mut b, "A0 Login Dessera Pass");
    serve_write(&mut b, a);
    let wake = serve_send(&mut b, "Dessera", "A1", "Dessera", "me").unwrap();
    assert_eq!(wake, vec![a, a]);
    assert_eq!(
        lines(serve_write(&mut b, a)),
        vec!["* Recv Dessera me", "A1 Success Dessera"]
    );
}

#[test]
fn queued_message_survives_until_login() {
    let mut b = backend();
    let a = login(&mut b, "A0 Login Dessera Pass");
    read(&mut b, a, "A1 Send Scarlet one");
    read(&mut b, a, "A2 Send Scarlet two");
    let status = b
        .conns
        .iter()
        .find(|c| c.name == "Scarlet")
        .map(|c| (c.status, c.queue.len()));
    assert_eq!(status, Some((ConnectionStatus::Cache, 2)));
    let c = login(&mut b, "B0 Login Scarlet Pass");
    assert_eq!(
        lines(serve_write(&mut b, c)),
        vec![
            "* Recv Dessera one",
            "* Recv Dessera two",
            "B0 Success Scarlet"
        ]
    );
}

#[test]
fn rename_session() {
    let mut b = backend();
    let a = login(&mut b, "A0 Login Dessera Pass");
    let c = login(&mut b, "B0 Login Scarlet Pass");
    read(&mut b, a, "A1 SetName Dessera");
    read(&mut b, a, "A2 SetName Scarlet");
    read(&mut b, a, "A3 SetName Nova");
    assert_eq!(
        lines(serve_write(&mut b, a)),
        vec![
            "A0 Success Dessera",
            "A1 Success Dessera",
            "A2 Error Duplicate",
            "A3 Success Nova"
        ]
    );
    assert!(b.find_conn("Dessera").is_err());
    assert_eq!(b.find_conn("Nova").unwrap(), a);
    read(&mut b, c, "B1 Send Dessera hello");
    serve_write(&mut b, c);
    let cached = b.find_conn("Dessera").unwrap();
    assert_ne!(cached, a);
}

#[test]
fn registry_operations() {
    let mut b = backend();
    assert!(matches!(b.ensure_conn("Ghost"), Err(QuipError::NotFound(_))));
    let s = b.ensure_conn("Scarlet").unwrap();
    assert_eq!(b.ensure_conn("Scarlet").unwrap(), s);
    assert_eq!(b.push_resp("Scarlet", Response::success(None, None)), None);
    assert!(matches!(b.load_conn("Scarlet", "nope"), Err(QuipError::Unauthorized(_))));
    assert!(matches!(b.load_conn("Ghost", "Pass"), Err(QuipError::NotFound(_))));
    assert_eq!(b.load_conn("Scarlet", "Pass").unwrap(), s);
    assert!(matches!(b.load_conn("Scarlet", "Pass"), Err(QuipError::Duplicate(_))));
    assert_eq!(b.push_resp("Scarlet", Response::success(None, None)), Some(s));
    assert_eq!(lines(b.drain_conn(s)), vec!["* Success", "* Success"]);
    assert!(b.drain_conn(s).is_empty());
    assert!(matches!(b.rename_conn("Ghost", "Other"), Err(QuipError::NotFound(_))));
    b.unload_conn("Scarlet");
    b.unload_conn("Scarlet");
    assert!(matches!(b.find_conn("Scarlet"), Err(QuipError::NotFound(_))));
    assert_eq!(b.name_of(s), None);
}

#[test]
fn write_for_missing_session_is_empty() {
    let mut b = backend();
    assert!(serve_write(&mut b, 42).is_empty());
    match serve_read(&mut b, 42, Request::try_from("A0 Nop")) {
        AuthStep::Close(QuipError::Disconnect) => (),
        other => panic!("expected a disconnect, got {:?}", other),
    }
}

#[test]
fn one_empty_read_is_forgiven() {
    assert_eq!(after_empty_read(0), Some(1));
    assert_eq!(after_empty_read(1), None);
}

#[test]
fn groups_must_name_known_users() {
    let good = Group {
        name: "team".to_string(),
        users: vec!["Scarlet".to_string(), "Dessera".to_string()],
    };
    let data = BackendData::new(vec![user("Dessera", "Pass"), user("Scarlet", "Pass")], vec![good]);
    let q = BackendQueryData::try_from(data).unwrap();
    assert_eq!(q.groups.len(), 1);
    assert_eq!(q.groups[0].1, vec![1, 0]);

    let bad = Group {
        name: "team".to_string(),
        users: vec!["Ghost".to_string()],
    };
    let data = BackendData::new(vec![user("Dessera", "Pass")], vec![bad]);
    assert!(matches!(MemoryBackend::from_data(data), Err(QuipError::NotFound(_))));
}

#[test]
fn later_user_record_wins() {
    let data = BackendData::new(vec![user("Dessera", "Old"), user("Dessera", "New")], vec![]);
    let mut b = MemoryBackend::from_data(data).unwrap();
    assert!(matches!(b.load_conn("Dessera", "Old"), Err(QuipError::Unauthorized(_))));
    assert!(b.load_conn("Dessera", "New").is_ok());
}

#[test]
fn new_mailbox_is_empty() {
    let c = Connection::new(3, "Dessera", ConnectionStatus::Cache);
    assert_eq!(c.id, 3);
    assert_eq!(c.name, "Dessera");
    assert!(c.queue.is_empty());
    assert_eq!(c.status, ConnectionStatus::Cache);
}

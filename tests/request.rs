use quip::request::{Request, RequestBody};

#[test]
fn test_request_send() {
    let request = Request::try_from("A000 Send Dessera \"How are you today?\"").unwrap();
    assert_eq!(request.tag, "A000");

    match request.body {
        RequestBody::Send(name, msg) => {
            assert_eq!(name, "Dessera");
            assert_eq!(msg, "How are you today?");
        }
        _ => panic!("Mismatched command, need Send but others found"),
    }
}

#[test]
fn test_request_login() {
    let request = Request::try_from("A000 Login Dessera Pass").unwrap();
    assert_eq!(request.tag, "A000");

    match request.body {
        RequestBody::Login(name, password) => {
            assert_eq!(name, "Dessera");
            assert_eq!(password, "Pass");
        }
        _ => panic!("Mismatched command, need Login but others found"),
    }
}

#[test]
fn test_request_logout() {
    let request = Request::try_from("A000 Logout").unwrap();
    assert_eq!(request.tag, "A000");

    match request.body {
        RequestBody::Logout => (),
        _ => panic!("Mismatched command, need Logout but others found"),
    }
}

#[test]
fn test_request_nop() {
    let request = Request::try_from("A000 Nop").unwrap();
    assert_eq!(request.tag, "A000");

    match request.body {
        RequestBody::Nop => (),
        _ => panic!("Mismatched command, need Nop but others found"),
    }
}

#[test]
fn test_request_failed() {
    let request = Request::try_from("A000 Invalid Command");
    assert!(request.is_err());
}

#[test]
fn test_request_display_send() {
    let request = Request::new(
        "A000",
        RequestBody::Send("Dessera".to_string(), "Hello! How are you?".to_string()),
    );
    assert_eq!(
        request.to_string(),
        "A000 Send Dessera \"Hello! How are you?\""
    );
}

#[test]
fn test_request_display_login() {
    let request = Request::new(
        "A000",
        RequestBody::Login("Dessera".to_string(), "Pass".to_string()),
    );
    assert_eq!(request.to_string(), "A000 Login Dessera Pass");
}

#[test]
fn test_request_display_logout() {
    let request = Request::new("A000", RequestBody::Logout);
    assert_eq!(request.to_string(), "A000 Logout");
}

#[test]
fn test_request_display_nop() {
    let request = Request::new("A000", RequestBody::Nop);
    assert_eq!(request.to_string(), "A000 Nop");
}

#[test]
fn request_set_name() {
    let request = Request::try_from("B1 SetName Scarlet").unwrap();
    assert_eq!(request.tag, "B1");
    assert!(matches!(request.body, RequestBody::SetName(ref n) if n == "Scarlet"));
    assert_eq!(request.to_string(), "B1 SetName Scarlet");
}

#[test]
fn request_wrong_operand_counts_fail() {
    assert!(Request::try_from("A0 Send Dessera").is_err());
    assert!(Request::try_from("A0 Send Dessera Hi There").is_err());
    assert!(Request::try_from("A0 Login Dessera").is_err());
    assert!(Request::try_from("A0 SetName").is_err());
    assert!(Request::try_from("A0").is_err());
    assert!(Request::try_from("").is_err());
}

#[test]
fn request_ignores_extra_operands_but_send() {
    assert!(matches!(Request::try_from("A0 Nop extra").unwrap().body, RequestBody::Nop));
    assert!(matches!(Request::try_from("A0 Logout extra").unwrap().body, RequestBody::Logout));
    match Request::try_from("A0 Login Dessera Pass more").unwrap().body {
        RequestBody::Login(name, password) => {
            assert_eq!(name, "Dessera");
            assert_eq!(password, "Pass");
        }
        _ => panic!("expected Login"),
    }
}

#[test]
fn request_unknown_command_is_parse_error() {
    let err = Request::try_from("Q0 Flarp").unwrap_err();
    assert!(matches!(err, quip::error::QuipError::Parse(_)));
}

#[test]
fn request_round_trip() {
    let request = Request::new(
        "T9",
        RequestBody::Send("Scarlet".to_string(), "a \"quoted\" \\ text".to_string()),
    );
    let back = Request::try_from(request.to_string().as_str()).unwrap();
    assert_eq!(back.tag, "T9");
    match back.body {
        RequestBody::Send(to, msg) => {
            assert_eq!(to, "Scarlet");
            assert_eq!(msg, "a \"quoted\" \\ text");
        }
        _ => panic!("expected Send"),
    }
}

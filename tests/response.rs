use quip::response::{Response, ResponseBody, ResponseError};

#[test]
fn test_response_error() {
    assert_eq!(
        ResponseError::try_from("BadCommand").unwrap(),
        ResponseError::BadCommand
    );
    assert_eq!(
        ResponseError::try_from("Unauthorized").unwrap(),
        ResponseError::Unauthorized
    );
    assert_eq!(
        ResponseError::try_from("Duplicate").unwrap(),
        ResponseError::Duplicate
    );
    assert_eq!(
        ResponseError::try_from("NotFound").unwrap(),
        ResponseError::NotFound
    );
}

#[test]
fn test_response_success() {
    let resp = Response::try_from("A000 Success").unwrap();
    assert_eq!(resp.tag.unwrap(), "A000");

    match resp.body {
        ResponseBody::Success(None) => (),
        _ => panic!("Mismatched response, need Success with no message but others found"),
    }

    let resp = Response::try_from("A000 Success Message").unwrap();
    assert_eq!(resp.tag.unwrap(), "A000");

    match resp.body {
        ResponseBody::Success(Some(msg)) => assert_eq!(msg, "Message"),
        _ => panic!("Mismatched response, need Success but others found"),
    }
}

#[test]
fn test_response_body_error() {
    let resp = Response::try_from("A000 Error Duplicate").unwrap();
    assert_eq!(resp.tag.unwrap(), "A000");

    match resp.body {
        ResponseBody::Error(ResponseError::Duplicate) => (),
        _ => panic!("Mismatched response, need Error Duplicate but others found"),
    }
}

#[test]
fn test_response_recv() {
    let resp = Response::try_from("* Recv Dessera \"How are you today?\"").unwrap();
    assert!(resp.tag.is_none());

    match resp.body {
        ResponseBody::Recv(name, msg) => {
            assert_eq!(name, "Dessera");
            assert_eq!(msg, "How are you today?");
        }
        _ => panic!("Mismatched response, need Recv but others found"),
    }
}

#[test]
fn test_response_error_display() {
    assert_eq!(ResponseError::BadCommand.to_string(), "BadCommand");
    assert_eq!(ResponseError::Unauthorized.to_string(), "Unauthorized");
    assert_eq!(ResponseError::Duplicate.to_string(), "Duplicate");
    assert_eq!(ResponseError::NotFound.to_string(), "NotFound");
}

#[test]
fn test_response_display_success() {
    let res = Response::success(Some("A000".to_string()), None);
    assert_eq!(res.to_string(), "A000 Success");

    let res = Response::success(Some("A000".to_string()), Some("AdditionalInfo".to_string()));
    assert_eq!(res.to_string(), "A000 Success AdditionalInfo");

    let res = Response::success(None, None);
    assert_eq!(res.to_string(), "* Success");
}

#[test]
fn test_response_display_error() {
    let res = Response::error(Some("A000".to_string()), ResponseError::BadCommand);
    assert_eq!(res.to_string(), "A000 Error BadCommand");

    let res = Response::error(None, ResponseError::Unauthorized);
    assert_eq!(res.to_string(), "* Error Unauthorized");
}

#[test]
fn test_response_display_recv() {
    let res = Response::recv(Some("A000".to_string()), "Sender", "Message");
    assert_eq!(res.to_string(), "A000 Recv Sender Message");

    let res = Response::recv(None, "Sender", "Message");
    assert_eq!(res.to_string(), "* Recv Sender Message");

    let res = Response::recv(None, "Sender", "Complex  Message");
    assert_eq!(res.to_string(), "* Recv Sender \"Complex  Message\"");
}

#[test]
fn response_success_round_trips() {
    let line = "A000 Success Dessera";
    let resp = Response::try_from(line).unwrap();
    assert_eq!(resp.to_string(), line);
}

#[test]
fn response_error_code_is_case_sensitive() {
    assert!(ResponseError::try_from("notfound").is_err());
    assert!(Response::try_from("A0 Error notfound").is_err());
}

#[test]
fn response_ignores_extra_tokens() {
    let resp = Response::try_from("A0 Success a b").unwrap();
    assert_eq!(resp.to_string(), "A0 Success a");
}

#[test]
fn response_malformed_lines_fail() {
    assert!(Response::try_from("A0").is_err());
    assert!(Response::try_from("A0 Hello").is_err());
    assert!(Response::try_from("A0 Error").is_err());
    assert!(Response::try_from("* Recv Dessera").is_err());
    assert!(Response::try_from("A0 Success \"open").is_err());
}

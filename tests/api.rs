use bughouse_server::registry::Registry;
use bughouse_server::session::{Error, Session};
use bughouse_server::{SessionId, UserId};

fn create(name: &str) -> Option<Session> {
    Session::create(SessionId::from_string("mm00".to_string()), name.to_string(), 20, 5).map(|(s, _, _)| s)
}

#[test]
fn api_create() {
    let (s, created, _) = Session::create(SessionId::new(), "Mario".to_string(), 20, 5).unwrap();
    assert_eq!(created.user_id, UserId(0));
    assert_eq!(created.auth_token.as_str().len(), 32);
    assert_eq!(s.users()[0].name(), "Mario");
}

#[test]
fn api_create_with_invalid_user_name() {
    assert!(create("_INVALID_").is_none());
}

#[test]
fn api_connect() {
    let mut s = create("Mario").unwrap();
    let (joined, _) = s.add_user("Mario".to_string()).unwrap();
    assert_eq!(joined.user_id, UserId(1));
    assert_eq!(joined.user_name, "Mario");
}

#[test]
fn api_connect_with_invalid_name() {
    let mut s = create("Mario").unwrap();
    assert_eq!(s.add_user("_INVALID_".to_string()).unwrap_err(), Error::UserNameInvalid);
}

#[test]
fn api_connect_with_invalid_session_id() {
    let mut r: Registry<Session> = Registry::new();
    let s = create("Mario").unwrap();
    assert!(r.insert(s.id().duplicate(), s));
    assert!(r.get(&SessionId::from_string("_INVALID_".to_string())).is_none());
    assert!(r.get(&SessionId::from_string("mm00".to_string())).is_some());
}

#[test]
fn api_reconnect_after_connect() {
    let mut s = create("Mario").unwrap();
    let (joined, _) = s.add_user("Mario".to_string()).unwrap();
    let again = s.rejoin(&joined.auth_token).unwrap();
    assert_eq!(again.user_id, joined.user_id);
    assert_eq!(again.user_name, "Mario");
}

#[test]
fn api_reconnect_after_create() {
    let (s, created, _) = Session::create(SessionId::new(), "Mario".to_string(), 20, 5).unwrap();
    let again = s.rejoin(&created.auth_token).unwrap();
    assert_eq!(again.user_id, UserId(0));
    assert_eq!(again.user_name, "Mario");
}

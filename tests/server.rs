use rust_http::{HttpRequest, Server, SessionTable};

#[test]
fn test_new_session_creation_without_cookie() {
    let mut server = Server::new();

    let request = HttpRequest {
        method: "GET".to_string(),
        path: "/".to_string(),
        _headers: vec![],
        body: "".to_string(),
        cookie: None,
    };

    let session_id = server.handle_cookie(&request);

    assert!(server.sessions.contains_key(&session_id));
    assert_eq!(server.sessions.get(&session_id).unwrap(), "user_data");
}

#[test]
fn test_new_session_creation_existing_cookie() {
    let mut server = Server::new();

    server.sessions.insert("abc".to_string(), "user_data".to_string());

    let request = HttpRequest {
        method: "GET".to_string(),
        path: "/".to_string(),
        _headers: vec![],
        body: "".to_string(),
        cookie: Some("abc".to_string()),
    };

    let session = server.handle_cookie(&request);

    assert_eq!(session, "abc", "Cookie should be abc");
}

fn request_with_cookie(cookie: Option<&str>) -> HttpRequest {
    HttpRequest {
        method: "GET".to_string(),
        path: "/".to_string(),
        _headers: vec![],
        body: String::new(),
        cookie: cookie.map(|c| c.to_string()),
    }
}

#[test]
fn known_cookie_twice_returns_it_and_adds_nothing() {
    let mut server = Server::new();
    server.sessions.insert("known".to_string(), "user_data".to_string());
    let first = server.handle_cookie(&request_with_cookie(Some("known")));
    let second = server.handle_cookie(&request_with_cookie(Some("known")));
    assert_eq!(first, "known");
    assert_eq!(second, "known");
    assert!(!server.sessions.contains_key(&"other".to_string()));
}

#[test]
fn unknown_cookie_gets_a_new_recorded_session() {
    let mut server = Server::new();
    let id = server.handle_cookie(&request_with_cookie(Some("never-seen")));
    assert_ne!(id, "never-seen");
    assert_eq!(id.len(), 36);
    assert!(server.sessions.contains_key(&id));
    assert!(!server.sessions.contains_key(&"never-seen".to_string()));
    assert_eq!(server.sessions.get(&id).unwrap(), "user_data");
}

#[test]
fn serialized_resolutions_of_one_unknown_cookie_each_record_a_session() {
    let mut server = Server::new();
    let mut ids = Vec::new();
    for _ in 0..5 {
        ids.push(server.handle_cookie(&request_with_cookie(Some("fresh"))));
    }
    for id in &ids {
        assert!(server.sessions.contains_key(id));
    }
    assert!(!server.sessions.contains_key(&"fresh".to_string()));
}

#[test]
fn table_insert_replaces_existing_value() {
    let mut table = SessionTable::new();
    table.insert("k".to_string(), "one".to_string());
    table.insert("k".to_string(), "two".to_string());
    assert_eq!(table.get(&"k".to_string()).unwrap(), "two");
    assert!(table.get(&"missing".to_string()).is_none());
}

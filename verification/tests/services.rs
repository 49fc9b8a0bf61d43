use space_trader::galaxy::Galaxy;
use space_trader::http_response::{HttpHeader, HttpResponse};
use space_trader::planet::{get_planet, Planet};
use space_trader::port::{get_port, Port};
use space_trader::sector::{create_sector, get_sector, link_sectors, set_planet_id,
    set_sector_port_id};
use space_trader::session::{create_session, get_session, prune_sessions, touch_session, Session};
use space_trader::text::usize_to_string;
use space_trader::user::{create_admin_user, create_normal_user, get_user, user_exists,
    validate_credentials, User, ValidationResult};
use space_trader::message::Message;

fn sample_user(id: usize, name: &str, password: &str, disabled: bool) -> User {
    User {
        user_id: id,
        user_name: name.to_string(),
        user_password: password.to_string(),
        game_name: format!("Player {}", id),
        last_login_timestamp: None,
        is_disabled: disabled,
        requests_per_day: Some(150),
        requests_remaining: Some(150),
    }
}

#[test]
fn decimal_rendering_is_exact() {
    assert_eq!(usize_to_string(0), "0");
    assert_eq!(usize_to_string(7), "7");
    assert_eq!(usize_to_string(1234), "1234");
    assert_eq!(usize_to_string(1000000), "1000000");
}

#[test]
fn decimal_rendering_handles_the_largest_value() {
    assert_eq!(usize_to_string(usize::MAX), usize::MAX.to_string());
}

#[test]
fn unknown_status_code_renders_as_server_error() {
    let response = HttpResponse::new(999, "odd");
    assert_eq!(response.to_string(), "HTTP/1.1 999 Internal Server Error\r\n\r\nodd\r\n");
}

#[test]
fn http_response_renders_exactly() {
    let response = HttpResponse::new(200, "hi");
    assert_eq!(response.to_string(), "HTTP/1.1 200 OK\r\n\r\nhi\r\n");
}

#[test]
fn http_response_renders_headers_in_order() {
    let mut response = HttpResponse::new(201, "made");
    response.append_header("X-Session-Id", "abc");
    response.append_header("Content-Type", "text/plain");
    assert_eq!(
        response.to_string(),
        "HTTP/1.1 201 Created\r\nX-Session-Id: abc\r\nContent-Type: text/plain\r\n\r\nmade\r\n"
    );
}

#[test]
fn http_not_found_renders_no_content_phrase() {
    // 404 is bound to the "No Content" phrase by the shared code constant.
    let response = HttpResponse::new(404, "gone");
    assert_eq!(response.to_string(), "HTTP/1.1 404 No Content\r\n\r\ngone\r\n");
}

#[test]
fn http_success_band_is_half_open_below_299() {
    assert!(HttpResponse::new(200, "").is_successful());
    assert!(HttpResponse::new(298, "").is_successful());
    assert!(!HttpResponse::new(299, "").is_successful());
    assert!(!HttpResponse::new(404, "").is_successful());
}

#[test]
fn append_header_replaces_existing_name() {
    let mut response = HttpResponse::new_with_headers(
        200,
        vec![HttpHeader { name: "X-Session-Id".to_string(), value: "old".to_string() }],
        "",
    );
    response.append_header("X-Session-Id", "new");
    assert_eq!(response.headers.len(), 1);
    assert_eq!(response.headers[0].value, "new");
}

#[test]
fn credentials_validate_case_insensitively() {
    let users = vec![
        sample_user(1, "Admin", "overlord", false),
        sample_user(2, "Neo", "anderson", false),
        sample_user(3, "Ghost", "boo", true),
    ];
    match validate_credentials(&users, &"neo".to_string(), &"anderson".to_string()) {
        ValidationResult::Success(uid) => assert_eq!(uid, 2),
        _ => panic!("expected success"),
    }
    assert!(matches!(
        validate_credentials(&users, &"NEO".to_string(), &"wrong".to_string()),
        ValidationResult::IncorrectPassword
    ));
    assert!(matches!(
        validate_credentials(&users, &"nobody".to_string(), &"x".to_string()),
        ValidationResult::NoSuchUser
    ));
    assert!(matches!(
        validate_credentials(&users, &"ghost".to_string(), &"boo".to_string()),
        ValidationResult::UserIsDisabled
    ));
}

#[test]
fn universe_validates_first_matching_name() {
    let users = vec![sample_user(1, "Admin", "overlord", false)];
    assert_eq!(
        space_trader::universe::validate_credentials(
            &users,
            "ADMIN".to_string(),
            "overlord".to_string()
        ),
        Some(1)
    );
    assert_eq!(
        space_trader::universe::validate_credentials(
            &users,
            "admin".to_string(),
            "nope".to_string()
        ),
        None
    );
}

#[test]
fn get_user_blanks_the_password() {
    let users = vec![sample_user(4, "Trinity", "rabbit", false)];
    let fetched = get_user(&users, 4).unwrap();
    assert_eq!(fetched.user_id, 4);
    assert_eq!(fetched.user_name, "Trinity");
    assert_eq!(fetched.user_password, "");
    assert!(get_user(&users, 9).is_none());
}

#[test]
fn sessions_open_close_and_expire() {
    let mut sessions: Vec<Session> = Vec::new();
    let first = create_session(&mut sessions, 7, 100);
    assert_eq!(first.len(), 36);
    let second = create_session(&mut sessions, 7, 110);
    assert_ne!(first, second);
    // Opening the second session closed the first.
    assert!(get_session(&sessions, &first).is_none());
    let open = get_session(&sessions, &second).unwrap();
    assert_eq!(open.user_id, 7);
    assert_eq!(open.last_request_at, 110);

    touch_session(&mut sessions, &second, 150);
    assert_eq!(get_session(&sessions, &second).unwrap().last_request_at, 150);

    // Sixty seconds of idleness is still fine; more is pruned.
    prune_sessions(&mut sessions, 210);
    assert!(get_session(&sessions, &second).is_some());
    prune_sessions(&mut sessions, 211);
    assert!(get_session(&sessions, &second).is_none());
}

#[test]
fn session_clone_reopens() {
    let closed = Session {
        session_id: "token".to_string(),
        user_id: 1,
        last_request_at: 5,
        is_closed: true,
    };
    let copy = closed.clone();
    assert!(!copy.is_closed);
    assert_eq!(copy.session_id, "token");
    assert_eq!(copy.last_request_at, 5);
}

#[test]
fn planets_and_ports_look_up_by_id() {
    let planets = vec![
        Planet { planet_id: 1, planet_name: "Vulcan".to_string() },
        Planet { planet_id: 2, planet_name: "Arrakis".to_string() },
    ];
    assert_eq!(get_planet(&planets, 2).unwrap().planet_name, "Arrakis");
    assert!(get_planet(&planets, 3).is_none());

    let mut galaxy = Galaxy::new(9, "Harbor".to_string());
    create_sector(&mut galaxy);
    galaxy.ports.push(Port { port_id: 1, port_name: "Trading Post".to_string() });
    assert_eq!(get_port(&galaxy, 1).unwrap().port_name, "Trading Post");
    assert!(get_port(&galaxy, 2).is_none());
}

#[test]
fn sector_description_lists_links_planet_and_port() {
    let mut galaxy = Galaxy::new(4, "Charted".to_string());
    create_sector(&mut galaxy);
    create_sector(&mut galaxy);
    link_sectors(&mut galaxy, 1, 2);
    galaxy.ports.push(Port { port_id: 1, port_name: "Freeport".to_string() });
    set_sector_port_id(&mut galaxy, 1, 1);
    set_planet_id(&mut galaxy, 1, 2);
    let planets = vec![
        Planet { planet_id: 2, planet_name: "Arrakis".to_string() },
    ];
    let sector = get_sector(&galaxy, 1).unwrap();
    let lines = sector.get_description(&galaxy, &planets);
    assert_eq!(
        lines,
        vec![
            "Sector 1".to_string(),
            "  Links to: 2".to_string(),
            "  Planet: Arrakis".to_string(),
            "  Port: Freeport".to_string(),
        ]
    );
}

#[test]
fn user_creation_allocates_ids_and_rejects_duplicates() {
    let mut users: Vec<User> = Vec::new();
    assert_eq!(create_admin_user(&mut users), Ok(1));
    assert_eq!(
        create_normal_user(&mut users, "Neo".to_string(), "anderson".to_string(), "Agent".to_string()),
        Ok(2)
    );
    assert!(user_exists(&users, &"neo".to_string()));
    assert!(!user_exists(&users, &"trinity".to_string()));
    // A name that only differs in case is taken.
    assert!(create_normal_user(
        &mut users,
        "NEO".to_string(),
        "pw".to_string(),
        "Copycat".to_string()
    )
    .is_err());
    assert_eq!(users.len(), 2);
    assert_eq!(users[1].requests_per_day, Some(150));
}

#[test]
fn message_keeps_its_fields() {
    let m = Message::new(1, 2, 3, 1700000000, "hello there".to_string());
    assert_eq!(m.message_id, 1);
    assert_eq!(m.from_user_id, 2);
    assert_eq!(m.to_user_id, 3);
    assert_eq!(m.date_time, 1700000000);
    assert_eq!(m.message, "hello there");
}

#[test]
fn messages_get_increasing_ids() {
    let mut messages = Vec::new();
    let first = space_trader::message::create_message(&mut messages, 1, 2, &"hi".to_string(), 50);
    let second = space_trader::message::create_message(&mut messages, 2, 1, &"yo".to_string(), 60);
    assert_eq!(first, 1);
    assert_eq!(second, 2);
    assert_eq!(messages.len(), 2);
    assert_eq!(messages[1].message, "yo");
    assert_eq!(messages[1].date_time, 60);
}

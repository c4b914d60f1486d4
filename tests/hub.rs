use integral::board::{Board, EngineError};
use integral::events::Event;
use integral::hub::{Delivery, Hub, Subscription};
use integral::identity::Token;
use integral::session::{next_step, open_session, SessionStep};

fn s(x: &str) -> String {
    x.to_string()
}

fn drain(h: &mut Hub, sub: Subscription) -> Vec<Event> {
    let mut out = Vec::new();
    loop {
        match h.recv(sub) {
            Delivery::Event(e) => out.push(e),
            _ => return out,
        }
    }
}

fn token() -> Token {
    Token {
        iss: s("integral"),
        sub: s("u1"),
        iat: 0,
        exp: 10,
        dn: s("Ann"),
        email: s("ann@example.com"),
        admin: false,
    }
}

#[test]
fn early_subscriber_gets_every_event_in_order_late_one_gets_none() {
    let mut h = Hub::new(8);
    let early = h.subscribe().unwrap();
    let events = vec![
        Event::Job(s("1")),
        Event::Resource(s("2")),
        Event::Job(s("3")),
        Event::Resource(s("4")),
    ];
    for e in events.iter() {
        h.publish(e.clone());
    }
    let late = h.subscribe().unwrap();
    assert_eq!(drain(&mut h, early), events);
    assert!(drain(&mut h, late).is_empty());
    assert!(matches!(h.recv(late), Delivery::Empty));
}

#[test]
fn subscriber_that_falls_behind_is_dropped_and_told() {
    let mut h = Hub::new(2);
    let sub = h.subscribe().unwrap();
    h.publish(Event::Job(s("1")));
    h.publish(Event::Job(s("2")));
    h.publish(Event::Job(s("3")));
    assert!(matches!(h.recv(sub), Delivery::Lagged));
    assert!(matches!(h.recv(sub), Delivery::Closed));
    h.unsubscribe(sub);
    h.unsubscribe(sub);
}

#[test]
fn subscriber_within_window_keeps_up() {
    let mut h = Hub::new(2);
    let sub = h.subscribe().unwrap();
    h.publish(Event::Job(s("1")));
    h.publish(Event::Job(s("2")));
    assert_eq!(drain(&mut h, sub), vec![Event::Job(s("1")), Event::Job(s("2"))]);
    h.publish(Event::Job(s("3")));
    assert_eq!(drain(&mut h, sub), vec![Event::Job(s("3"))]);
}

#[test]
fn unsubscribed_handle_is_closed() {
    let mut h = Hub::new(4);
    let a = h.subscribe().unwrap();
    let b = h.subscribe().unwrap();
    assert_ne!(a, b);
    h.unsubscribe(a);
    h.publish(Event::Job(s("1")));
    assert!(matches!(h.recv(a), Delivery::Closed));
    assert_eq!(drain(&mut h, b), vec![Event::Job(s("1"))]);
}

#[test]
fn stream_sees_new_job_first() {
    let mut h = Hub::new(16);
    let mut b = Board::new();
    let sub = open_session(&mut h, Ok(token())).unwrap();
    let job = b
        .create_job(&mut h, s("job-42"), s("alarm"), None, None, None, s("d"), 1)
        .unwrap();
    match next_step(&mut h, sub) {
        SessionStep::Send(m) => assert_eq!(m, format!("{{\"type\":\"Job\",\"id\":\"{}\"}}", job.id)),
        other => panic!("unexpected step {:?}", other),
    }
    assert!(matches!(next_step(&mut h, sub), SessionStep::Wait));
}

#[test]
fn failed_identity_opens_no_subscription() {
    let mut h = Hub::new(4);
    let r = open_session(&mut h, Err(EngineError::Unauthorized));
    assert_eq!(r.unwrap_err(), EngineError::Unauthorized);
    let first = h.subscribe().unwrap();
    assert_eq!(first.id, 0);
}

#[test]
fn lagging_session_closes() {
    let mut h = Hub::new(1);
    let sub = open_session(&mut h, Ok(token())).unwrap();
    h.publish(Event::Resource(s("r1")));
    h.publish(Event::Resource(s("r2")));
    assert!(matches!(next_step(&mut h, sub), SessionStep::Close));
    assert!(matches!(next_step(&mut h, sub), SessionStep::Close));
}

#[test]
fn event_json_shape() {
    assert_eq!(Event::Job(s("j1")).to_json(), "{\"type\":\"Job\",\"id\":\"j1\"}");
    assert_eq!(Event::Resource(s("r\"2")).to_json(), "{\"type\":\"Resource\",\"id\":\"r\\\"2\"}");
}

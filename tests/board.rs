use integral::board::{Board, ConflictKind, EngineError};
use integral::events::Event;
use integral::hub::{Delivery, Hub, Subscription};

fn s(x: &str) -> String {
    x.to_string()
}

fn setup() -> (Board, Hub) {
    (Board::new(), Hub::new(64))
}

fn open_job(b: &mut Board, h: &mut Hub, id: &str) {
    b.create_job(h, s(id), s("smoke reported"), Some(s("5th and Main")), None, None, s("dispatcher"), 100)
        .unwrap();
}

fn in_service_resource(b: &mut Board, h: &mut Hub, id: &str) {
    b.create_resource(h, s(id), s("Engine 1"), None, true).unwrap();
}

fn drain(h: &mut Hub, sub: Subscription) -> Vec<Event> {
    let mut out = Vec::new();
    loop {
        match h.recv(sub) {
            Delivery::Event(e) => out.push(e),
            _ => return out,
        }
    }
}

#[test]
fn assign_then_second_assign_conflicts() {
    let (mut b, mut h) = setup();
    open_job(&mut b, &mut h, "A");
    open_job(&mut b, &mut h, "A2");
    in_service_resource(&mut b, &mut h, "R");
    let a = b.assign(&mut h, s("as1"), &s("A"), &s("R"), &s("user1"), 200).unwrap();
    assert_eq!(a.job_id, "A");
    assert_eq!(a.resource_id, "R");
    assert_eq!(a.assigned_by, "user1");
    assert_eq!(a.assigned_at, 200);
    assert_eq!(a.removed_at, None);
    let second = b.assign(&mut h, s("as2"), &s("A2"), &s("R"), &s("user2"), 201);
    assert_eq!(second.unwrap_err(), EngineError::Conflict(ConflictKind::AlreadyAssigned));
    assert_eq!(b.get_active_assignments().len(), 1);
}

#[test]
fn out_of_service_releases_assignment_and_blocks_new_ones() {
    let (mut b, mut h) = setup();
    open_job(&mut b, &mut h, "A");
    open_job(&mut b, &mut h, "B");
    in_service_resource(&mut b, &mut h, "R");
    b.assign(&mut h, s("as1"), &s("A"), &s("R"), &s("user1"), 200).unwrap();
    b.set_in_service(&mut h, &s("R"), false, &s("admin"), 300).unwrap();
    assert!(b.get_active_assignments().is_empty());
    let for_a = b.get_assignments_for_job(&s("A"));
    assert_eq!(for_a.len(), 1);
    assert_eq!(for_a[0].removed_at, Some(300));
    assert_eq!(for_a[0].removed_by, Some(s("admin")));
    let listed = b.list();
    assert_eq!(listed.len(), 1);
    assert!(!listed[0].in_service);
    assert!(listed[0].current_assignment.is_none());
    let again = b.assign(&mut h, s("as2"), &s("B"), &s("R"), &s("user1"), 301);
    assert_eq!(again.unwrap_err(), EngineError::Conflict(ConflictKind::OutOfService));
}

#[test]
fn many_requests_for_one_resource_let_exactly_one_through() {
    let (mut b, mut h) = setup();
    in_service_resource(&mut b, &mut h, "R");
    let n = 6;
    for k in 0..n {
        open_job(&mut b, &mut h, &format!("J{}", k));
    }
    let mut ok = 0;
    let mut conflicts = 0;
    for k in 0..n {
        match b.assign(&mut h, format!("as{}", k), &format!("J{}", k), &s("R"), &s("u"), 10 + k as i64) {
            Ok(_) => ok += 1,
            Err(EngineError::Conflict(ConflictKind::AlreadyAssigned)) => conflicts += 1,
            Err(e) => panic!("unexpected error {:?}", e),
        }
    }
    assert_eq!(ok, 1);
    assert_eq!(conflicts, n - 1);
}

#[test]
fn closing_a_job_releases_its_assignments() {
    let (mut b, mut h) = setup();
    open_job(&mut b, &mut h, "J");
    open_job(&mut b, &mut h, "K");
    in_service_resource(&mut b, &mut h, "R1");
    in_service_resource(&mut b, &mut h, "R2");
    in_service_resource(&mut b, &mut h, "R3");
    b.assign(&mut h, s("a1"), &s("J"), &s("R1"), &s("u"), 10).unwrap();
    b.assign(&mut h, s("a2"), &s("J"), &s("R2"), &s("u"), 11).unwrap();
    b.assign(&mut h, s("a3"), &s("K"), &s("R3"), &s("u"), 12).unwrap();
    b.unassign(&mut h, &s("a2"), &s("early"), 13).unwrap();
    b.close_job(&mut h, &s("J"), &s("closer"), 50).unwrap();
    let read = b.get_assignments_for_job(&s("J"));
    assert_eq!(read.len(), 2);
    assert!(read.iter().all(|a| a.removed_at.is_some()));
    assert_eq!(read[0].removed_by, Some(s("closer")));
    assert_eq!(read[0].removed_at, Some(50));
    assert_eq!(read[1].removed_by, Some(s("early")));
    let active = b.get_active_assignments();
    assert_eq!(active.len(), 1);
    assert_eq!(active[0].id, "a3");
    let (job, _) = b.get_job_by_id(&s("J")).unwrap();
    assert_eq!(job.closed_at, Some(50));
    assert_eq!(job.closed_by, Some(s("closer")));
    let again = b.assign(&mut h, s("a4"), &s("J"), &s("R1"), &s("u"), 51);
    assert_eq!(again.unwrap_err(), EngineError::Conflict(ConflictKind::JobClosed));
}

#[test]
fn closing_twice_changes_nothing_and_missing_job_is_not_found() {
    let (mut b, mut h) = setup();
    open_job(&mut b, &mut h, "J");
    let sub = h.subscribe().unwrap();
    b.close_job(&mut h, &s("J"), &s("first"), 50).unwrap();
    b.close_job(&mut h, &s("J"), &s("second"), 60).unwrap();
    let (job, _) = b.get_job_by_id(&s("J")).unwrap();
    assert_eq!(job.closed_at, Some(50));
    assert_eq!(job.closed_by, Some(s("first")));
    assert_eq!(drain(&mut h, sub).len(), 1);
    assert_eq!(b.close_job(&mut h, &s("nope"), &s("x"), 1), Err(EngineError::NotFound));
}

#[test]
fn assign_reports_missing_records() {
    let (mut b, mut h) = setup();
    open_job(&mut b, &mut h, "J");
    in_service_resource(&mut b, &mut h, "R");
    assert_eq!(
        b.assign(&mut h, s("a"), &s("X"), &s("R"), &s("u"), 1).unwrap_err(),
        EngineError::NotFound
    );
    assert_eq!(
        b.assign(&mut h, s("a"), &s("J"), &s("X"), &s("u"), 1).unwrap_err(),
        EngineError::NotFound
    );
}

#[test]
fn duplicate_assignment_id_is_refused() {
    let (mut b, mut h) = setup();
    open_job(&mut b, &mut h, "J");
    in_service_resource(&mut b, &mut h, "R1");
    in_service_resource(&mut b, &mut h, "R2");
    b.assign(&mut h, s("a"), &s("J"), &s("R1"), &s("u"), 1).unwrap();
    assert_eq!(
        b.assign(&mut h, s("a"), &s("J"), &s("R2"), &s("u"), 2).unwrap_err(),
        EngineError::Conflict(ConflictKind::DuplicateId)
    );
}

#[test]
fn create_job_checks_input() {
    let (mut b, mut h) = setup();
    let r = b.create_job(&mut h, s("J"), s(""), None, None, None, s("d"), 1);
    assert_eq!(r.unwrap_err(), EngineError::Invalid);
    let job = b
        .create_job(&mut h, s("J"), s("fire"), None, Some(s("Ann")), Some(s("555")), s("d"), 7)
        .unwrap();
    assert_eq!(job.id, "J");
    assert_eq!(job.synopsis, "fire");
    assert_eq!(job.caller_name, Some(s("Ann")));
    assert_eq!(job.caller_phone, Some(s("555")));
    assert_eq!(job.created_at, 7);
    assert_eq!(job.created_by, "d");
    assert_eq!(job.closed_at, None);
    let dup = b.create_job(&mut h, s("J"), s("again"), None, None, None, s("d"), 8);
    assert_eq!(dup.unwrap_err(), EngineError::Conflict(ConflictKind::DuplicateId));
    assert_eq!(b.get_all_jobs().len(), 1);
}

#[test]
fn create_resource_checks_input() {
    let (mut b, mut h) = setup();
    let r = b.create_resource(&mut h, s("R"), s(""), None, true);
    assert_eq!(r.unwrap_err(), EngineError::Invalid);
    let res = b.create_resource(&mut h, s("R"), s("Medic 3"), Some(s("night shift")), false).unwrap();
    assert_eq!(res.display_name, "Medic 3");
    assert_eq!(res.comment, Some(s("night shift")));
    assert!(!res.in_service);
    let dup = b.create_resource(&mut h, s("R"), s("Other"), None, true);
    assert_eq!(dup.unwrap_err(), EngineError::Conflict(ConflictKind::DuplicateId));
    assert_eq!(
        b.set_in_service(&mut h, &s("nope"), true, &s("a"), 1),
        Err(EngineError::NotFound)
    );
}

#[test]
fn new_resource_out_of_service_cannot_be_assigned_until_put_in_service() {
    let (mut b, mut h) = setup();
    open_job(&mut b, &mut h, "J");
    b.create_resource(&mut h, s("R"), s("Truck"), None, false).unwrap();
    assert_eq!(
        b.assign(&mut h, s("a"), &s("J"), &s("R"), &s("u"), 1).unwrap_err(),
        EngineError::Conflict(ConflictKind::OutOfService)
    );
    b.set_in_service(&mut h, &s("R"), true, &s("admin"), 2).unwrap();
    assert!(b.assign(&mut h, s("a"), &s("J"), &s("R"), &s("u"), 3).is_ok());
    let listed = b.list();
    assert_eq!(listed[0].current_assignment.as_ref().unwrap().id, "a");
}

#[test]
fn unassign_once_only() {
    let (mut b, mut h) = setup();
    open_job(&mut b, &mut h, "J");
    in_service_resource(&mut b, &mut h, "R");
    b.assign(&mut h, s("a"), &s("J"), &s("R"), &s("u"), 1).unwrap();
    let sub = h.subscribe().unwrap();
    b.unassign(&mut h, &s("a"), &s("v"), 5).unwrap();
    assert_eq!(drain(&mut h, sub), vec![Event::Resource(s("R")), Event::Job(s("J"))]);
    assert_eq!(b.unassign(&mut h, &s("a"), &s("v"), 6), Err(EngineError::NotFound));
    assert_eq!(b.unassign(&mut h, &s("zz"), &s("v"), 6), Err(EngineError::NotFound));
    let read = b.get_assignments_for_job(&s("J"));
    assert_eq!(read[0].removed_at, Some(5));
    assert_eq!(read[0].removed_by, Some(s("v")));
    assert!(b.assign(&mut h, s("b"), &s("J"), &s("R"), &s("u"), 7).is_ok());
}

#[test]
fn comments_are_kept_in_order_even_on_closed_jobs() {
    let (mut b, mut h) = setup();
    open_job(&mut b, &mut h, "J");
    open_job(&mut b, &mut h, "K");
    let c = b.add_comment(s("c1"), &s("J"), s("first"), s("ann"), 5).unwrap();
    assert_eq!(c.job_id, "J");
    assert_eq!(c.comment, "first");
    b.add_comment(s("c2"), &s("K"), s("other"), s("ann"), 6).unwrap();
    b.close_job(&mut h, &s("J"), &s("bob"), 7).unwrap();
    b.add_comment(s("c3"), &s("J"), s("after close"), s("bob"), 8).unwrap();
    let (job, comments) = b.get_job_by_id(&s("J")).unwrap();
    assert_eq!(job.id, "J");
    let texts: Vec<&str> = comments.iter().map(|c| c.comment.as_str()).collect();
    assert_eq!(texts, vec!["first", "after close"]);
    assert_eq!(
        b.add_comment(s("c4"), &s("nope"), s("x"), s("ann"), 9).unwrap_err(),
        EngineError::NotFound
    );
    assert_eq!(
        b.add_comment(s("c1"), &s("J"), s("x"), s("ann"), 9).unwrap_err(),
        EngineError::Conflict(ConflictKind::DuplicateId)
    );
    assert!(b.get_job_by_id(&s("nope")).is_none());
}

#[test]
fn listing_shows_latest_location() {
    let (mut b, mut h) = setup();
    in_service_resource(&mut b, &mut h, "R");
    b.create_resource(&mut h, s("S"), s("Other"), None, true).unwrap();
    b.set_location(&mut h, &s("R"), s("1.0"), s("2.0"), 10).unwrap();
    b.set_location(&mut h, &s("R"), s("3.0"), s("4.0"), 30).unwrap();
    b.set_location(&mut h, &s("R"), s("5.0"), s("6.0"), 20).unwrap();
    b.set_location(&mut h, &s("R"), s("7.0"), s("8.0"), 30).unwrap();
    assert_eq!(
        b.set_location(&mut h, &s("nope"), s("0"), s("0"), 1),
        Err(EngineError::NotFound)
    );
    let listed = b.list();
    let loc = listed[0].location.as_ref().unwrap();
    assert_eq!(loc.latitude, "7.0");
    assert_eq!(loc.longitude, "8.0");
    assert_eq!(loc.at_time, 30);
    assert!(listed[1].location.is_none());
}

#[test]
fn assign_publishes_resource_then_job() {
    let (mut b, mut h) = setup();
    open_job(&mut b, &mut h, "J");
    in_service_resource(&mut b, &mut h, "R");
    let sub = h.subscribe().unwrap();
    b.assign(&mut h, s("a"), &s("J"), &s("R"), &s("u"), 1).unwrap();
    let _ = b.assign(&mut h, s("b"), &s("J"), &s("R"), &s("u"), 2);
    assert_eq!(drain(&mut h, sub), vec![Event::Resource(s("R")), Event::Job(s("J"))]);
}

#[test]
fn error_messages() {
    assert_eq!(
        EngineError::Conflict(ConflictKind::AlreadyAssigned).message(),
        "that resource is already assigned to a job"
    );
    assert_eq!(
        EngineError::Conflict(ConflictKind::OutOfService).message(),
        "that resource is out of service"
    );
    assert_eq!(EngineError::NotFound.message(), "not found");
    assert_eq!(EngineError::Conflict(ConflictKind::JobClosed).message(), "that job is closed");
    assert_eq!(EngineError::Conflict(ConflictKind::DuplicateId).message(), "that id is already in use");
    assert_eq!(EngineError::Invalid.message(), "invalid input");
    assert_eq!(EngineError::Unauthorized.message(), "unauthorized");
    assert_eq!(EngineError::StoreUnavailable.message(), "the store is unavailable");
}

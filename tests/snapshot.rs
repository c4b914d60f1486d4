use integral::board::Board;
use integral::records::{Assignment, Job, Resource};

fn s(x: &str) -> String {
    x.to_string()
}

fn job(id: &str, closed: bool) -> Job {
    Job {
        id: s(id),
        synopsis: s("work"),
        location: None,
        caller_name: None,
        caller_phone: None,
        created_at: 1,
        closed_at: if closed { Some(5) } else { None },
        created_by: s("d"),
        closed_by: if closed { Some(s("d")) } else { None },
    }
}

fn resource(id: &str, in_service: bool) -> Resource {
    Resource {
        id: s(id),
        display_name: s("Unit"),
        comment: None,
        in_service,
        current_assignment: None,
        location: None,
    }
}

fn assignment(id: &str, job: &str, res: &str, active: bool) -> Assignment {
    Assignment {
        id: s(id),
        resource_id: s(res),
        job_id: s(job),
        assigned_at: 2,
        removed_at: if active { None } else { Some(3) },
        assigned_by: s("u"),
        removed_by: if active { None } else { Some(s("u")) },
    }
}

fn build(jobs: Vec<Job>, resources: Vec<Resource>, assignments: Vec<Assignment>) -> Option<Board> {
    Board::from_tables(&jobs, &Vec::new(), &resources, &Vec::new(), &assignments)
}

#[test]
fn consistent_tables_make_a_board() {
    let b = build(
        vec![job("J", false), job("K", true)],
        vec![resource("R", true), resource("S", false)],
        vec![assignment("a1", "J", "R", true), assignment("a2", "K", "S", false)],
    )
    .unwrap();
    let active = b.get_active_assignments();
    assert_eq!(active.len(), 1);
    assert_eq!(active[0].id, "a1");
    assert_eq!(b.get_all_jobs().len(), 2);
}

#[test]
fn tables_breaking_an_invariant_are_refused() {
    assert!(build(vec![job("J", false), job("J", false)], vec![], vec![]).is_none());
    assert!(build(
        vec![job("J", false), job("K", false)],
        vec![resource("R", true)],
        vec![assignment("a1", "J", "R", true), assignment("a2", "K", "R", true)],
    )
    .is_none());
    assert!(build(vec![job("J", true)], vec![resource("R", true)], vec![assignment("a1", "J", "R", true)])
        .is_none());
    assert!(build(vec![job("J", false)], vec![resource("R", false)], vec![assignment("a1", "J", "R", true)])
        .is_none());
    assert!(build(vec![], vec![resource("R", true)], vec![assignment("a1", "J", "R", true)]).is_none());
    let mut listed = resource("R", true);
    listed.current_assignment = Some(assignment("a1", "J", "R", false));
    assert!(build(vec![job("J", false)], vec![listed], vec![]).is_none());
    assert!(build(
        vec![job("J", false)],
        vec![resource("R", true)],
        vec![assignment("a1", "J", "R", false), assignment("a1", "J", "R", false)],
    )
    .is_none());
}

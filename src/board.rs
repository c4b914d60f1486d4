//! The assignment consistency engine: jobs, resources and assignments held
//! together, with every mutation checked against the current state and
//! applied as one step, so that the assignment invariants hold in every
//! state that the operations can produce.

use vstd::prelude::*;
use crate::events::Event;
use crate::hub::Hub;
use crate::records::{Assignment, Comment, Job, Resource, ResourceLocation};

verus! {

/// Which invariant an operation would have broken.
#[derive(Debug, Clone, Copy, PartialEq, Eq, Structural)]
pub enum ConflictKind {
    /// The resource already has an active assignment.
    AlreadyAssigned,
    /// The resource is out of service.
    OutOfService,
    /// The job is closed.
    JobClosed,
    /// A record with that id already exists.
    DuplicateId,
}

/// The ways an operation can fail.
#[derive(Debug, Clone, Copy, PartialEq, Eq, Structural)]
pub enum EngineError {
    /// A referenced record does not exist.
    NotFound,
    /// The operation would break an invariant.
    Conflict(ConflictKind),
    /// Malformed input.
    Invalid,
    /// The identity check failed.
    Unauthorized,
    /// The store could not be reached.
    StoreUnavailable,
}

impl EngineError {
    /// The human-readable text of each error.
    pub open spec fn message_text(&self) -> Seq<char> {
        match self {
            EngineError::NotFound => "not found"@,
            EngineError::Conflict(ConflictKind::AlreadyAssigned) => "that resource is already assigned to a job"@,
            EngineError::Conflict(ConflictKind::OutOfService) => "that resource is out of service"@,
            EngineError::Conflict(ConflictKind::JobClosed) => "that job is closed"@,
            EngineError::Conflict(ConflictKind::DuplicateId) => "that id is already in use"@,
            EngineError::Invalid => "invalid input"@,
            EngineError::Unauthorized => "unauthorized"@,
            EngineError::StoreUnavailable => "the store is unavailable"@,
        }
    }

    /// A human-readable message for the error.
    pub fn message(&self) -> (r: String)
        ensures
            r@ == self.message_text(),
    {
        match self {
            EngineError::NotFound => String::from_str("not found"),
            EngineError::Conflict(ConflictKind::AlreadyAssigned) => String::from_str(
                "that resource is already assigned to a job",
            ),
            EngineError::Conflict(ConflictKind::OutOfService) => String::from_str(
                "that resource is out of service",
            ),
            EngineError::Conflict(ConflictKind::JobClosed) => String::from_str("that job is closed"),
            EngineError::Conflict(ConflictKind::DuplicateId) => String::from_str(
                "that id is already in use",
            ),
            EngineError::Invalid => String::from_str("invalid input"),
            EngineError::Unauthorized => String::from_str("unauthorized"),
            EngineError::StoreUnavailable => String::from_str("the store is unavailable"),
        }
    }
}

/// The abstract state of a board: its five tables, in order of insertion.
pub ghost struct BoardView {
    pub jobs: Seq<Job>,
    pub comments: Seq<Comment>,
    pub resources: Seq<Resource>,
    pub locations: Seq<ResourceLocation>,
    pub assignments: Seq<Assignment>,
}

/// `a` as removed at `now` by `by`.
pub open spec fn deactivated(a: Assignment, now: i64, by: String) -> Assignment {
    Assignment { removed_at: Some(now), removed_by: Some(by), ..a }
}

/// Whether `a` is active and belongs to the job (`by_job`) or to the
/// resource (otherwise) with id `key`.
pub open spec fn releases(a: Assignment, key: Seq<char>, by_job: bool) -> bool {
    a.is_active() && if by_job {
        a.job_id@ == key
    } else {
        a.resource_id@ == key
    }
}

/// `s` with every active assignment of the job or resource `key` removed at
/// `now` by `by`.
pub open spec fn released(s: Seq<Assignment>, key: Seq<char>, by_job: bool, now: i64, by: String) -> Seq<
    Assignment,
> {
    Seq::new(
        s.len(),
        |i: int| if releases(s[i], key, by_job) { deactivated(s[i], now, by) } else { s[i] },
    )
}

/// The latest entry of resource `rid` in a location history: the one with the
/// greatest time, the later-added one among equal times.
pub open spec fn latest_location(s: Seq<ResourceLocation>, rid: Seq<char>) -> Option<ResourceLocation>
    decreases s.len(),
{
    if s.len() == 0 {
        None
    } else {
        let rest = latest_location(s.drop_last(), rid);
        let l = s.last();
        if l.resource_id@ == rid && (rest is None || rest.unwrap().at_time <= l.at_time) {
            Some(l)
        } else {
            rest
        }
    }
}

impl BoardView {
    pub open spec fn has_job(self, id: Seq<char>) -> bool {
        exists|i: int| 0 <= i < self.jobs.len() && self.jobs[i].id@ == id
    }

    pub open spec fn job_index(self, id: Seq<char>) -> int {
        choose|i: int| 0 <= i < self.jobs.len() && self.jobs[i].id@ == id
    }

    pub open spec fn job(self, id: Seq<char>) -> Job {
        self.jobs[self.job_index(id)]
    }

    pub open spec fn has_comment(self, id: Seq<char>) -> bool {
        exists|i: int| 0 <= i < self.comments.len() && self.comments[i].id@ == id
    }

    pub open spec fn has_resource(self, id: Seq<char>) -> bool {
        exists|i: int| 0 <= i < self.resources.len() && self.resources[i].id@ == id
    }

    pub open spec fn resource_index(self, id: Seq<char>) -> int {
        choose|i: int| 0 <= i < self.resources.len() && self.resources[i].id@ == id
    }

    pub open spec fn resource(self, id: Seq<char>) -> Resource {
        self.resources[self.resource_index(id)]
    }

    pub open spec fn has_assignment(self, id: Seq<char>) -> bool {
        exists|i: int| 0 <= i < self.assignments.len() && self.assignments[i].id@ == id
    }

    pub open spec fn assignment_index(self, id: Seq<char>) -> int {
        choose|i: int| 0 <= i < self.assignments.len() && self.assignments[i].id@ == id
    }

    pub open spec fn assignment(self, id: Seq<char>) -> Assignment {
        self.assignments[self.assignment_index(id)]
    }

    /// Whether resource `rid` has an active assignment.
    pub open spec fn is_assigned(self, rid: Seq<char>) -> bool {
        exists|i: int|
            0 <= i < self.assignments.len() && self.assignments[i].is_active()
                && self.assignments[i].resource_id@ == rid
    }

    /// The active assignment of resource `rid`, if any.
    pub open spec fn active_assignment(self, rid: Seq<char>) -> Option<Assignment> {
        if self.is_assigned(rid) {
            Some(
                self.assignments[choose|i: int|
                    0 <= i < self.assignments.len() && self.assignments[i].is_active()
                        && self.assignments[i].resource_id@ == rid],
            )
        } else {
            None
        }
    }

    /// Each table's ids are distinct.
    pub open spec fn ids_unique(self) -> bool {
        &&& forall|i: int, j: int|
            0 <= i < j < self.jobs.len() ==> self.jobs[i].id@ != self.jobs[j].id@
        &&& forall|i: int, j: int|
            0 <= i < j < self.comments.len() ==> self.comments[i].id@ != self.comments[j].id@
        &&& forall|i: int, j: int|
            0 <= i < j < self.resources.len() ==> self.resources[i].id@ != self.resources[j].id@
        &&& forall|i: int, j: int|
            0 <= i < j < self.assignments.len() ==> self.assignments[i].id@
                != self.assignments[j].id@
    }

    /// Stored resources carry no listing data.
    pub open spec fn resources_bare(self) -> bool {
        forall|i: int|
            0 <= i < self.resources.len() ==> (#[trigger] self.resources[i]).current_assignment is None
                && self.resources[i].location is None
    }

    /// Every resource has at most one active assignment.
    pub open spec fn one_active_per_resource(self) -> bool {
        forall|i: int, j: int|
            0 <= i < self.assignments.len() && 0 <= j < self.assignments.len()
                && self.assignments[i].is_active() && self.assignments[j].is_active()
                && self.assignments[i].resource_id@ == self.assignments[j].resource_id@ ==> i == j
    }

    /// No active assignment refers to a closed or missing job.
    pub open spec fn active_jobs_open(self) -> bool {
        forall|i: int|
            0 <= i < self.assignments.len() && (#[trigger] self.assignments[i]).is_active() ==> {
                let jid = self.assignments[i].job_id@;
                self.has_job(jid) && self.job(jid).is_open()
            }
    }

    /// No active assignment refers to a missing or out-of-service resource.
    pub open spec fn active_resources_in_service(self) -> bool {
        forall|i: int|
            0 <= i < self.assignments.len() && (#[trigger] self.assignments[i]).is_active() ==> {
                let rid = self.assignments[i].resource_id@;
                self.has_resource(rid) && self.resource(rid).in_service
            }
    }

    /// What assigning resource `resource_id` to job `job_id` gives: the
    /// checks in order, then the new active assignment.
    pub open spec fn assign_outcome(
        self,
        id: String,
        job_id: String,
        resource_id: String,
        by: String,
        now: i64,
    ) -> Result<Assignment, EngineError> {
        if !self.has_job(job_id@) || !self.has_resource(resource_id@) {
            Err(EngineError::NotFound)
        } else if !self.job(job_id@).is_open() {
            Err(EngineError::Conflict(ConflictKind::JobClosed))
        } else if !self.resource(resource_id@).in_service {
            Err(EngineError::Conflict(ConflictKind::OutOfService))
        } else if self.is_assigned(resource_id@) {
            Err(EngineError::Conflict(ConflictKind::AlreadyAssigned))
        } else if self.has_assignment(id@) {
            Err(EngineError::Conflict(ConflictKind::DuplicateId))
        } else {
            Ok(
                Assignment {
                    id,
                    resource_id,
                    job_id,
                    assigned_at: now,
                    removed_at: None,
                    assigned_by: by,
                    removed_by: None,
                },
            )
        }
    }

    /// The board after an assignment attempt with outcome `r`.
    pub open spec fn with_assignment(self, r: Result<Assignment, EngineError>) -> BoardView {
        match r {
            Ok(a) => BoardView { assignments: self.assignments.push(a), ..self },
            Err(_) => self,
        }
    }

    /// The board with job `job_id` closed at `now` by `closer`, and every
    /// active assignment of that job removed at the same time by the same
    /// user.
    pub open spec fn closed(self, job_id: String, closer: String, now: i64) -> BoardView {
        BoardView {
            jobs: self.jobs.update(
                self.job_index(job_id@),
                Job { closed_at: Some(now), closed_by: Some(closer), ..self.job(job_id@) },
            ),
            assignments: released(self.assignments, job_id@, true, now, closer),
            ..self
        }
    }

    /// The board after a request to close job `job_id`: a missing or already
    /// closed job leaves it as it is.
    pub open spec fn close_job_state(self, job_id: String, closer: String, now: i64) -> BoardView {
        if self.has_job(job_id@) && self.job(job_id@).is_open() {
            self.closed(job_id, closer, now)
        } else {
            self
        }
    }

    /// The board after setting resource `resource_id` in or out of service;
    /// going out of service removes its active assignment at `now` by
    /// `actor`.
    pub open spec fn service_state(
        self,
        resource_id: String,
        in_service: bool,
        actor: String,
        now: i64,
    ) -> BoardView {
        if !self.has_resource(resource_id@) {
            self
        } else {
            BoardView {
                resources: self.resources.update(
                    self.resource_index(resource_id@),
                    Resource { in_service, ..self.resource(resource_id@) },
                ),
                assignments: if in_service {
                    self.assignments
                } else {
                    released(self.assignments, resource_id@, false, now, actor)
                },
                ..self
            }
        }
    }

    /// Whether assignment `id` exists and is active.
    pub open spec fn is_active_assignment(self, id: Seq<char>) -> bool {
        self.has_assignment(id) && self.assignment(id).is_active()
    }

    /// The board after removing assignment `id` at `now` by `actor`.
    pub open spec fn unassign_state(self, id: String, actor: String, now: i64) -> BoardView {
        if self.is_active_assignment(id@) {
            BoardView {
                assignments: self.assignments.update(
                    self.assignment_index(id@),
                    deactivated(self.assignment(id@), now, actor),
                ),
                ..self
            }
        } else {
            self
        }
    }

    /// Each resource with its active assignment and its latest known
    /// location, in order of registration.
    pub open spec fn listing(self) -> Seq<Resource> {
        Seq::new(
            self.resources.len(),
            |i: int|
                Resource {
                    current_assignment: self.active_assignment(self.resources[i].id@),
                    location: latest_location(self.locations, self.resources[i].id@),
                    ..self.resources[i]
                },
        )
    }

    /// The active assignments, in order of creation.
    pub open spec fn active_assignments(self) -> Seq<Assignment> {
        self.assignments.filter(|a: Assignment| a.is_active())
    }

    /// Every assignment, active or not, of job `job_id`, in order of
    /// creation.
    pub open spec fn assignments_for_job(self, job_id: Seq<char>) -> Seq<Assignment> {
        self.assignments.filter(|a: Assignment| a.job_id@ == job_id)
    }

    /// The comments of job `job_id`, in order of addition.
    pub open spec fn comments_for_job(self, job_id: Seq<char>) -> Seq<Comment> {
        self.comments.filter(|c: Comment| c.job_id@ == job_id)
    }

    /// The board and the outcomes after trying the requests `reqs` in order,
    /// each one `(assignment id, job id, assigner, time)`, all on resource
    /// `resource_id`.
    pub open spec fn assign_all(self, resource_id: String, reqs: Seq<(String, String, String, i64)>) -> (
        BoardView,
        Seq<Result<Assignment, EngineError>>,
    )
        decreases reqs.len(),
    {
        if reqs.len() == 0 {
            (self, Seq::empty())
        } else {
            let (b, outs) = self.assign_all(resource_id, reqs.drop_last());
            let q = reqs.last();
            let o = b.assign_outcome(q.0, q.1, resource_id, q.2, q.3);
            (b.with_assignment(o), outs.push(o))
        }
    }

    pub open spec fn wf(self) -> bool {
        &&& self.ids_unique()
        &&& self.resources_bare()
        &&& self.one_active_per_resource()
        &&& self.active_jobs_open()
        &&& self.active_resources_in_service()
    }
}

/// With distinct ids, the job at index `k` is the one that its id finds.
proof fn lemma_job_index(v: BoardView, k: int)
    requires
        v.ids_unique(),
        0 <= k < v.jobs.len(),
    ensures
        v.has_job(v.jobs[k].id@),
        v.job_index(v.jobs[k].id@) == k,
{
    let id = v.jobs[k].id@;
    assert(v.has_job(id));
    let c = v.job_index(id);
    if c < k {
        assert(v.jobs[c].id@ != v.jobs[k].id@);
    } else if c > k {
        assert(v.jobs[k].id@ != v.jobs[c].id@);
    }
}

/// With distinct ids, the resource at index `k` is the one that its id finds.
proof fn lemma_resource_index(v: BoardView, k: int)
    requires
        v.ids_unique(),
        0 <= k < v.resources.len(),
    ensures
        v.has_resource(v.resources[k].id@),
        v.resource_index(v.resources[k].id@) == k,
{
    let id = v.resources[k].id@;
    assert(v.has_resource(id));
    let c = v.resource_index(id);
    if c < k {
        assert(v.resources[c].id@ != v.resources[k].id@);
    } else if c > k {
        assert(v.resources[k].id@ != v.resources[c].id@);
    }
}

/// Removes, at `now` by `by`, every active assignment of the job (`by_job`)
/// or resource `key`.
fn release(assignments: &mut Vec<Assignment>, key: &String, by_job: bool, now: i64, by: &String)
    ensures
        final(assignments)@ == released(old(assignments)@, key@, by_job, now, *by),
{
    let ghost start = assignments@;
    let mut i: usize = 0;
    while i < assignments.len()
        invariant
            i <= assignments@.len(),
            assignments@.len() == start.len(),
            forall|k: int|
                0 <= k < i ==> #[trigger] assignments@[k] == released(start, key@, by_job, now, *by)[k],
            forall|k: int| i <= k < start.len() ==> #[trigger] assignments@[k] == start[k],
        decreases start.len() - i,
    {
        let hit = assignments[i].removed_at.is_none() && if by_job {
            assignments[i].job_id == *key
        } else {
            assignments[i].resource_id == *key
        };
        if hit {
            let mut a = assignments[i].clone();
            a.removed_at = Some(now);
            a.removed_by = Some(by.clone());
            assignments.set(i, a);
        }
        i += 1;
    }
    assert(assignments@ =~= released(start, key@, by_job, now, *by));
}

proof fn lemma_assign_all_first_wins(b: BoardView, rid: String, reqs: Seq<(String, String, String, i64)>)
    requires
        b.wf(),
        reqs.len() > 0,
        b.has_resource(rid@),
        b.resource(rid@).in_service,
        !b.is_assigned(rid@),
        forall|k: int| 0 <= k < reqs.len() ==> b.has_job((#[trigger] reqs[k]).1@) && b.job(reqs[k].1@).is_open(),
        !b.has_assignment(reqs[0].0@),
    ensures
        b.assign_all(rid, reqs).1.len() == reqs.len(),
        b.assign_all(rid, reqs).1[0] is Ok,
        b.assign_all(rid, reqs).1[0] == b.assign_outcome(reqs[0].0, reqs[0].1, rid, reqs[0].2, reqs[0].3),
        b.assign_all(rid, reqs).0 == b.with_assignment(b.assign_all(rid, reqs).1[0]),
        forall|k: int|
            1 <= k < reqs.len() ==> #[trigger] b.assign_all(rid, reqs).1[k] == Err::<Assignment, EngineError>(
                EngineError::Conflict(ConflictKind::AlreadyAssigned),
            ),
    decreases reqs.len(),
{
    if reqs.len() == 1 {
        assert(reqs.drop_last().len() == 0);
    } else {
        let pre = reqs.drop_last();
        assert forall|k: int| 0 <= k < pre.len() implies b.has_job((#[trigger] pre[k]).1@) && b.job(
            pre[k].1@,
        ).is_open() by {
            assert(pre[k] == reqs[k]);
        }
        lemma_assign_all_first_wins(b, rid, pre);
        assert(pre[0] == reqs[0]);
        let (b1, outs) = b.assign_all(rid, pre);
        let a0 = outs[0].unwrap();
        assert(b1.assignments == b.assignments.push(a0));
        assert(b1.assignments[b.assignments.len() as int] == a0);
        assert(b1.is_assigned(rid@));
        let q = reqs.last();
        assert(b.has_job(q.1@) && b.job(q.1@).is_open());
    }
}

/// However many requests to assign one resource are made, and in whatever
/// order they are applied, at most one gets through: when the resource is in
/// service and free, every job named is open and the first request's id is
/// new, the first one succeeds and every later one gets
/// `Conflict(AlreadyAssigned)`.
pub proof fn lemma_one_assignment_wins(b: BoardView, resource_id: String, reqs: Seq<(String, String, String, i64)>)
    requires
        b.wf(),
        reqs.len() > 0,
        b.has_resource(resource_id@),
        b.resource(resource_id@).in_service,
        !b.is_assigned(resource_id@),
        forall|k: int|
            0 <= k < reqs.len() ==> b.has_job((#[trigger] reqs[k]).1@) && b.job(reqs[k].1@).is_open(),
        !b.has_assignment(reqs[0].0@),
    ensures
        ({
            let outs = b.assign_all(resource_id, reqs).1;
            &&& outs.len() == reqs.len()
            &&& outs[0] is Ok
            &&& forall|k: int|
                1 <= k < outs.len() ==> #[trigger] outs[k] == Err::<Assignment, EngineError>(
                    EngineError::Conflict(ConflictKind::AlreadyAssigned),
                )
        }),
{
    lemma_assign_all_first_wins(b, resource_id, reqs);
}

/// Closing a job and then reading its assignments shows each assignment
/// that was active before as removed at the closing time by the closer, and
/// none of the job's assignments active.
pub proof fn lemma_close_job_cascade(b: BoardView, job_id: String, closer: String, now: i64)
    requires
        b.wf(),
        b.has_job(job_id@),
    ensures
        ({
            let after = b.close_job_state(job_id, closer, now);
            &&& after.assignments.len() == b.assignments.len()
            &&& forall|i: int|
                0 <= i < b.assignments.len() && (#[trigger] b.assignments[i]).is_active()
                    && b.assignments[i].job_id@ == job_id@ ==> after.assignments[i].removed_at == Some(now)
                    && after.assignments[i].removed_by == Some(closer)
            &&& forall|k: int|
                0 <= k < after.assignments_for_job(job_id@).len() ==> !(#[trigger] after.assignments_for_job(
                    job_id@,
                )[k]).is_active()
        }),
{
    broadcast use vstd::seq_lib::group_filter_ensures;

    let after = b.close_job_state(job_id, closer, now);
    let read = after.assignments_for_job(job_id@);
    assert forall|k: int| 0 <= k < read.len() implies !(#[trigger] read[k]).is_active() by {
        let pred = |a: Assignment| a.job_id@ == job_id@;
        let e = read[k];
        assert(after.assignments.filter(pred).contains(e));
        after.assignments.lemma_filter_contains_rev(pred, e);
        let i = choose|i: int| 0 <= i < after.assignments.len() && after.assignments[i] == e;
        assert(pred(e));
        if b.job(job_id@).is_open() {
            assert(after.assignments[i] == released(b.assignments, job_id@, true, now, closer)[i]);
        } else {
            assert(after.assignments[i] == b.assignments[i]);
        }
    }
}

/// The board view made of the given tables.
pub open spec fn tables_view(
    jobs: Vec<Job>,
    comments: Vec<Comment>,
    resources: Vec<Resource>,
    locations: Vec<ResourceLocation>,
    assignments: Vec<Assignment>,
) -> BoardView {
    BoardView {
        jobs: jobs@,
        comments: comments@,
        resources: resources@,
        locations: locations@,
        assignments: assignments@,
    }
}

/// A record with a text id.
pub trait Keyed {
    spec fn key(&self) -> Seq<char>;

    fn key_ref(&self) -> (r: &String)
        ensures
            r@ == self.key(),
    ;
}

impl Keyed for Job {
    open spec fn key(&self) -> Seq<char> {
        self.id@
    }

    fn key_ref(&self) -> (r: &String) {
        &self.id
    }
}

impl Keyed for Comment {
    open spec fn key(&self) -> Seq<char> {
        self.id@
    }

    fn key_ref(&self) -> (r: &String) {
        &self.id
    }
}

impl Keyed for Resource {
    open spec fn key(&self) -> Seq<char> {
        self.id@
    }

    fn key_ref(&self) -> (r: &String) {
        &self.id
    }
}

impl Keyed for Assignment {
    open spec fn key(&self) -> Seq<char> {
        self.id@
    }

    fn key_ref(&self) -> (r: &String) {
        &self.id
    }
}

/// Whether the records of `v` have distinct ids.
fn keys_distinct<T: Keyed>(v: &Vec<T>) -> (r: bool)
    ensures
        r == (forall|i: int, j: int| 0 <= i < j < v@.len() ==> v@[i].key() != v@[j].key()),
{
    let mut i: usize = 0;
    while i < v.len()
        invariant
            i <= v@.len(),
            forall|a: int, b: int| 0 <= a < b < v@.len() && a < i ==> v@[a].key() != v@[b].key(),
        decreases v@.len() - i,
    {
        let mut j: usize = i + 1;
        while j < v.len()
            invariant
                i < v@.len(),
                i + 1 <= j <= v@.len(),
                forall|a: int, b: int| 0 <= a < b < v@.len() && a < i ==> v@[a].key() != v@[b].key(),
                forall|b: int| i < b < j ==> v@[i as int].key() != v@[b].key(),
            decreases v@.len() - j,
        {
            if *v[i].key_ref() == *v[j].key_ref() {
                return false;
            }
            j += 1;
        }
        i += 1;
    }
    true
}

/// The board: the authoritative state of jobs, resources and assignments.
pub struct Board {
    jobs: Vec<Job>,
    comments: Vec<Comment>,
    resources: Vec<Resource>,
    locations: Vec<ResourceLocation>,
    assignments: Vec<Assignment>,
}

impl View for Board {
    type V = BoardView;

    closed spec fn view(&self) -> BoardView {
        BoardView {
            jobs: self.jobs@,
            comments: self.comments@,
            resources: self.resources@,
            locations: self.locations@,
            assignments: self.assignments@,
        }
    }
}

impl Board {
    /// An empty board.
    pub fn new() -> (r: Board)
        ensures
            r@.wf(),
            r@.jobs.len() == 0,
            r@.comments.len() == 0,
            r@.resources.len() == 0,
            r@.locations.len() == 0,
            r@.assignments.len() == 0,
    {
        Board {
            jobs: Vec::new(),
            comments: Vec::new(),
            resources: Vec::new(),
            locations: Vec::new(),
            assignments: Vec::new(),
        }
    }

    fn find_job(&self, id: &String) -> (r: Option<usize>)
        requires
            self@.ids_unique(),
        ensures
            r is None <==> !self@.has_job(id@),
            r is Some ==> r.unwrap() == self@.job_index(id@) && self@.jobs[r.unwrap() as int].id@
                == id@,
    {
        let mut i: usize = 0;
        while i < self.jobs.len()
            invariant
                self@.ids_unique(),
                i <= self.jobs@.len(),
                forall|k: int| 0 <= k < i ==> self.jobs@[k].id@ != id@,
            decreases self.jobs@.len() - i,
        {
            if self.jobs[i].id == *id {
                proof {
                    let k = self@.job_index(id@);
                    assert(self@.has_job(id@));
                    if k < i {
                        assert(self.jobs@[k].id@ != self.jobs@[i as int].id@);
                    } else if k > i {
                        assert(0 <= k < self.jobs@.len());
                        assert(self.jobs@[i as int].id@ != self.jobs@[k].id@);
                    }
                }
                return Some(i);
            }
            i += 1;
        }
        None
    }

    fn find_resource(&self, id: &String) -> (r: Option<usize>)
        requires
            self@.ids_unique(),
        ensures
            r is None <==> !self@.has_resource(id@),
            r is Some ==> r.unwrap() == self@.resource_index(id@) && self@.resources[r.unwrap() as int].id@
                == id@,
    {
        let mut i: usize = 0;
        while i < self.resources.len()
            invariant
                self@.ids_unique(),
                i <= self.resources@.len(),
                forall|k: int| 0 <= k < i ==> self.resources@[k].id@ != id@,
            decreases self.resources@.len() - i,
        {
            if self.resources[i].id == *id {
                proof {
                    let k = self@.resource_index(id@);
                    assert(self@.has_resource(id@));
                    if k < i {
                        assert(self.resources@[k].id@ != self.resources@[i as int].id@);
                    } else if k > i {
                        assert(0 <= k < self.resources@.len());
                        assert(self.resources@[i as int].id@ != self.resources@[k].id@);
                    }
                }
                return Some(i);
            }
            i += 1;
        }
        None
    }

    fn find_assignment(&self, id: &String) -> (r: Option<usize>)
        requires
            self@.ids_unique(),
        ensures
            r is None <==> !self@.has_assignment(id@),
            r is Some ==> r.unwrap() == self@.assignment_index(id@)
                && self@.assignments[r.unwrap() as int].id@ == id@,
    {
        let mut i: usize = 0;
        while i < self.assignments.len()
            invariant
                self@.ids_unique(),
                i <= self.assignments@.len(),
                forall|k: int| 0 <= k < i ==> self.assignments@[k].id@ != id@,
            decreases self.assignments@.len() - i,
        {
            if self.assignments[i].id == *id {
                proof {
                    let k = self@.assignment_index(id@);
                    assert(self@.has_assignment(id@));
                    if k < i {
                        assert(self.assignments@[k].id@ != self.assignments@[i as int].id@);
                    } else if k > i {
                        assert(0 <= k < self.assignments@.len());
                        assert(self.assignments@[i as int].id@ != self.assignments@[k].id@);
                    }
                }
                return Some(i);
            }
            i += 1;
        }
        None
    }

    fn active_index(&self, rid: &String) -> (r: Option<usize>)
        requires
            self@.wf(),
        ensures
            r is None <==> !self@.is_assigned(rid@),
            r is Some ==> r.unwrap() < self@.assignments.len()
                && self@.assignments[r.unwrap() as int].is_active()
                && self@.assignments[r.unwrap() as int].resource_id@ == rid@,
    {
        let mut i: usize = 0;
        while i < self.assignments.len()
            invariant
                i <= self.assignments@.len(),
                forall|k: int|
                    0 <= k < i ==> !(self.assignments@[k].is_active()
                        && self.assignments@[k].resource_id@ == rid@),
            decreases self.assignments@.len() - i,
        {
            if self.assignments[i].removed_at.is_none() && self.assignments[i].resource_id == *rid {
                return Some(i);
            }
            i += 1;
        }
        None
    }

    /// Assigns resource `resource_id` to job `job_id`, as assignment `id`
    /// made by `assigned_by` at time `now`. The checks and the insertion form
    /// one step: the job must exist and be open, the resource must exist, be
    /// in service and have no active assignment, and `id` must be new. On
    /// success the hub is told that the resource and then the job changed.
    pub fn assign(
        &mut self,
        hub: &mut Hub,
        id: String,
        job_id: &String,
        resource_id: &String,
        assigned_by: &String,
        now: i64,
    ) -> (r: Result<Assignment, EngineError>)
        requires
            old(self)@.wf(),
            old(hub).wf(),
        ensures
            final(self)@.wf(),
            final(hub).wf(),
            r == old(self)@.assign_outcome(id, *job_id, *resource_id, *assigned_by, now),
            final(self)@ == old(self)@.with_assignment(r),
            final(hub)@ == if r is Ok {
                old(hub)@.publish(Event::Resource(*resource_id)).publish(Event::Job(*job_id))
            } else {
                old(hub)@
            },
    {
        let ji = match self.find_job(job_id) {
            None => {
                return Err(EngineError::NotFound);
            },
            Some(ji) => ji,
        };
        let ri = match self.find_resource(resource_id) {
            None => {
                return Err(EngineError::NotFound);
            },
            Some(ri) => ri,
        };
        if self.jobs[ji].closed_at.is_some() {
            return Err(EngineError::Conflict(ConflictKind::JobClosed));
        }
        if !self.resources[ri].in_service {
            return Err(EngineError::Conflict(ConflictKind::OutOfService));
        }
        if self.active_index(resource_id).is_some() {
            return Err(EngineError::Conflict(ConflictKind::AlreadyAssigned));
        }
        if self.find_assignment(&id).is_some() {
            return Err(EngineError::Conflict(ConflictKind::DuplicateId));
        }
        let a = Assignment {
            id,
            resource_id: resource_id.clone(),
            job_id: job_id.clone(),
            assigned_at: now,
            removed_at: None,
            assigned_by: assigned_by.clone(),
            removed_by: None,
        };
        let ghost old_view = self@;
        self.assignments.push(a.clone());
        proof {
            let v = self@;
            assert(v.jobs == old_view.jobs);
            assert(v.resources == old_view.resources);
            assert(v.comments == old_view.comments);
            let n = old_view.assignments.len();
            assert forall|i: int, j: int| 0 <= i < j < v.assignments.len() implies v.assignments[i].id@
                != v.assignments[j].id@ by {
                if j == n {
                    assert(old_view.assignments[i].id@ != a.id@);
                } else {
                    assert(old_view.assignments[i] == v.assignments[i]);
                    assert(old_view.assignments[j] == v.assignments[j]);
                }
            }
            assert forall|i: int, j: int|
                0 <= i < v.assignments.len() && 0 <= j < v.assignments.len()
                    && v.assignments[i].is_active() && v.assignments[j].is_active()
                    && v.assignments[i].resource_id@ == v.assignments[j].resource_id@ implies i == j by {
                if i == n && j < n {
                    assert(old_view.assignments[j].is_active()
                        && old_view.assignments[j].resource_id@ == resource_id@);
                }
                if j == n && i < n {
                    assert(old_view.assignments[i].is_active()
                        && old_view.assignments[i].resource_id@ == resource_id@);
                }
            }
            assert forall|i: int|
                0 <= i < v.assignments.len() && (#[trigger] v.assignments[i]).is_active() implies {
                let jid = v.assignments[i].job_id@;
                v.has_job(jid) && v.job(jid).is_open()
            } by {
                if i < n {
                    assert(old_view.assignments[i] == v.assignments[i]);
                } else {
                    assert(v.jobs[ji as int].id@ == job_id@);
                }
            }
            assert forall|i: int|
                0 <= i < v.assignments.len() && (#[trigger] v.assignments[i]).is_active() implies {
                let rid = v.assignments[i].resource_id@;
                v.has_resource(rid) && v.resource(rid).in_service
            } by {
                if i < n {
                    assert(old_view.assignments[i] == v.assignments[i]);
                } else {
                    assert(v.resources[ri as int].id@ == resource_id@);
                }
            }
        }
        hub.publish(Event::Resource(resource_id.clone()));
        hub.publish(Event::Job(job_id.clone()));
        Ok(a)
    }
    /// Closes job `job_id` at `now` on behalf of `closer`, and in the same
    /// step removes every active assignment of the job, attributed to
    /// `closer`. A missing job gives `NotFound`; closing a closed job again
    /// changes nothing and publishes nothing.
    pub fn close_job(&mut self, hub: &mut Hub, job_id: &String, closer: &String, now: i64) -> (r: Result<
        (),
        EngineError,
    >)
        requires
            old(self)@.wf(),
            old(hub).wf(),
        ensures
            final(self)@.wf(),
            final(hub).wf(),
            r is Err <==> !old(self)@.has_job(job_id@),
            r is Err ==> r == Err::<(), EngineError>(EngineError::NotFound),
            final(self)@ == old(self)@.close_job_state(*job_id, *closer, now),
            final(hub)@ == if old(self)@.has_job(job_id@) && old(self)@.job(job_id@).is_open() {
                old(hub)@.publish(Event::Job(*job_id))
            } else {
                old(hub)@
            },
    {
        let ji = match self.find_job(job_id) {
            None => {
                return Err(EngineError::NotFound);
            },
            Some(ji) => ji,
        };
        if self.jobs[ji].closed_at.is_some() {
            return Ok(());
        }
        let ghost old_view = self@;
        let mut j = self.jobs[ji].clone();
        j.closed_at = Some(now);
        j.closed_by = Some(closer.clone());
        self.jobs.set(ji, j);
        release(&mut self.assignments, job_id, true, now, closer);
        proof {
            let v = self@;
            assert(v == old_view.closed(*job_id, *closer, now));
            assert(v.comments == old_view.comments);
            assert(v.resources == old_view.resources);
            assert forall|i: int, k: int| 0 <= i < k < v.jobs.len() implies v.jobs[i].id@ != v.jobs[k].id@ by {
                assert(v.jobs[i].id@ == old_view.jobs[i].id@);
                assert(v.jobs[k].id@ == old_view.jobs[k].id@);
            }
            assert forall|i: int, k: int| 0 <= i < k < v.assignments.len() implies v.assignments[i].id@
                != v.assignments[k].id@ by {
                assert(v.assignments[i].id@ == old_view.assignments[i].id@);
                assert(v.assignments[k].id@ == old_view.assignments[k].id@);
            }
            assert forall|i: int, k: int|
                0 <= i < v.assignments.len() && 0 <= k < v.assignments.len()
                    && v.assignments[i].is_active() && v.assignments[k].is_active()
                    && v.assignments[i].resource_id@ == v.assignments[k].resource_id@ implies i == k by {
                assert(old_view.assignments[i] == v.assignments[i]);
                assert(old_view.assignments[k] == v.assignments[k]);
            }
            assert forall|i: int|
                0 <= i < v.assignments.len() && (#[trigger] v.assignments[i]).is_active() implies {
                let jid = v.assignments[i].job_id@;
                v.has_job(jid) && v.job(jid).is_open()
            } by {
                let a = old_view.assignments[i];
                assert(a == v.assignments[i]);
                assert(a.job_id@ != job_id@);
                let c = old_view.job_index(a.job_id@);
                assert(v.jobs[c].id@ == a.job_id@);
                lemma_job_index(v, c);
            }
            assert forall|i: int|
                0 <= i < v.assignments.len() && (#[trigger] v.assignments[i]).is_active() implies {
                let rid = v.assignments[i].resource_id@;
                v.has_resource(rid) && v.resource(rid).in_service
            } by {
                assert(old_view.assignments[i] == v.assignments[i]);
            }
        }
        hub.publish(Event::Job(job_id.clone()));
        Ok(())
    }

    /// Puts resource `resource_id` in or out of service. Going out of
    /// service removes the resource's active assignment, if any, at `now` by
    /// `actor`, in the same step. A missing resource gives `NotFound`; on
    /// success the hub is told that the resource changed.
    pub fn set_in_service(
        &mut self,
        hub: &mut Hub,
        resource_id: &String,
        in_service: bool,
        actor: &String,
        now: i64,
    ) -> (r: Result<(), EngineError>)
        requires
            old(self)@.wf(),
            old(hub).wf(),
        ensures
            final(self)@.wf(),
            final(hub).wf(),
            r is Err <==> !old(self)@.has_resource(resource_id@),
            r is Err ==> r == Err::<(), EngineError>(EngineError::NotFound),
            final(self)@ == old(self)@.service_state(*resource_id, in_service, *actor, now),
            final(hub)@ == if r is Ok {
                old(hub)@.publish(Event::Resource(*resource_id))
            } else {
                old(hub)@
            },
    {
        let ri = match self.find_resource(resource_id) {
            None => {
                return Err(EngineError::NotFound);
            },
            Some(ri) => ri,
        };
        let ghost old_view = self@;
        let mut res = self.resources[ri].clone();
        res.in_service = in_service;
        self.resources.set(ri, res);
        if !in_service {
            release(&mut self.assignments, resource_id, false, now, actor);
        }
        proof {
            let v = self@;
            assert(v == old_view.service_state(*resource_id, in_service, *actor, now));
            assert(v.comments == old_view.comments);
            assert(v.jobs == old_view.jobs);
            assert forall|i: int, k: int| 0 <= i < k < v.resources.len() implies v.resources[i].id@
                != v.resources[k].id@ by {
                assert(v.resources[i].id@ == old_view.resources[i].id@);
                assert(v.resources[k].id@ == old_view.resources[k].id@);
            }
            assert forall|i: int, k: int| 0 <= i < k < v.assignments.len() implies v.assignments[i].id@
                != v.assignments[k].id@ by {
                assert(v.assignments[i].id@ == old_view.assignments[i].id@);
                assert(v.assignments[k].id@ == old_view.assignments[k].id@);
            }
            assert forall|i: int|
                0 <= i < v.resources.len() implies (#[trigger] v.resources[i]).current_assignment is None
                && v.resources[i].location is None by {
                assert(old_view.resources[i].current_assignment is None);
            }
            assert forall|i: int, k: int|
                0 <= i < v.assignments.len() && 0 <= k < v.assignments.len()
                    && v.assignments[i].is_active() && v.assignments[k].is_active()
                    && v.assignments[i].resource_id@ == v.assignments[k].resource_id@ implies i == k by {
                assert(old_view.assignments[i] == v.assignments[i]);
                assert(old_view.assignments[k] == v.assignments[k]);
            }
            assert forall|i: int|
                0 <= i < v.assignments.len() && (#[trigger] v.assignments[i]).is_active() implies {
                let jid = v.assignments[i].job_id@;
                v.has_job(jid) && v.job(jid).is_open()
            } by {
                assert(old_view.assignments[i] == v.assignments[i]);
            }
            assert forall|i: int|
                0 <= i < v.assignments.len() && (#[trigger] v.assignments[i]).is_active() implies {
                let rid = v.assignments[i].resource_id@;
                v.has_resource(rid) && v.resource(rid).in_service
            } by {
                let a = old_view.assignments[i];
                assert(a == v.assignments[i]);
                let c = old_view.resource_index(a.resource_id@);
                assert(v.resources[c].id@ == a.resource_id@);
                lemma_resource_index(v, c);
            }
        }
        hub.publish(Event::Resource(resource_id.clone()));
        Ok(())
    }

    /// Removes assignment `assignment_id` at `now` on behalf of `actor`. A
    /// missing or already removed assignment gives `NotFound`; on success the
    /// hub is told that its resource and then its job changed.
    pub fn unassign(&mut self, hub: &mut Hub, assignment_id: &String, actor: &String, now: i64) -> (r:
        Result<(), EngineError>)
        requires
            old(self)@.wf(),
            old(hub).wf(),
        ensures
            final(self)@.wf(),
            final(hub).wf(),
            r is Err <==> !old(self)@.is_active_assignment(assignment_id@),
            r is Err ==> r == Err::<(), EngineError>(EngineError::NotFound),
            final(self)@ == old(self)@.unassign_state(*assignment_id, *actor, now),
            final(hub)@ == if r is Ok {
                old(hub)@.publish(
                    Event::Resource(old(self)@.assignment(assignment_id@).resource_id),
                ).publish(Event::Job(old(self)@.assignment(assignment_id@).job_id))
            } else {
                old(hub)@
            },
    {
        let ai = match self.find_assignment(assignment_id) {
            None => {
                return Err(EngineError::NotFound);
            },
            Some(ai) => ai,
        };
        if self.assignments[ai].removed_at.is_some() {
            return Err(EngineError::NotFound);
        }
        let ghost old_view = self@;
        let mut a = self.assignments[ai].clone();
        let rid = a.resource_id.clone();
        let jid = a.job_id.clone();
        a.removed_at = Some(now);
        a.removed_by = Some(actor.clone());
        self.assignments.set(ai, a);
        proof {
            let v = self@;
            assert(v == old_view.unassign_state(*assignment_id, *actor, now));
            assert(v.comments == old_view.comments);
            assert(v.jobs == old_view.jobs);
            assert(v.resources == old_view.resources);
            assert forall|i: int, k: int| 0 <= i < k < v.assignments.len() implies v.assignments[i].id@
                != v.assignments[k].id@ by {
                assert(v.assignments[i].id@ == old_view.assignments[i].id@);
                assert(v.assignments[k].id@ == old_view.assignments[k].id@);
            }
            assert forall|i: int, k: int|
                0 <= i < v.assignments.len() && 0 <= k < v.assignments.len()
                    && v.assignments[i].is_active() && v.assignments[k].is_active()
                    && v.assignments[i].resource_id@ == v.assignments[k].resource_id@ implies i == k by {
                assert(old_view.assignments[i] == v.assignments[i]);
                assert(old_view.assignments[k] == v.assignments[k]);
            }
            assert forall|i: int|
                0 <= i < v.assignments.len() && (#[trigger] v.assignments[i]).is_active() implies {
                let jid = v.assignments[i].job_id@;
                v.has_job(jid) && v.job(jid).is_open()
            } by {
                assert(old_view.assignments[i] == v.assignments[i]);
            }
            assert forall|i: int|
                0 <= i < v.assignments.len() && (#[trigger] v.assignments[i]).is_active() implies {
                let rid = v.assignments[i].resource_id@;
                v.has_resource(rid) && v.resource(rid).in_service
            } by {
                assert(old_view.assignments[i] == v.assignments[i]);
            }
        }
        hub.publish(Event::Resource(rid));
        hub.publish(Event::Job(jid));
        Ok(())
    }
    /// Opens job `id`, created by `created_by` at `now`. An empty synopsis
    /// gives `Invalid`, an id in use `Conflict(DuplicateId)`; on success the
    /// hub is told that the job changed.
    pub fn create_job(
        &mut self,
        hub: &mut Hub,
        id: String,
        synopsis: String,
        location: Option<String>,
        caller_name: Option<String>,
        caller_phone: Option<String>,
        created_by: String,
        now: i64,
    ) -> (r: Result<Job, EngineError>)
        requires
            old(self)@.wf(),
            old(hub).wf(),
        ensures
            final(self)@.wf(),
            final(hub).wf(),
            synopsis@.len() == 0 ==> r == Err::<Job, EngineError>(EngineError::Invalid),
            synopsis@.len() > 0 && old(self)@.has_job(id@) ==> r == Err::<Job, EngineError>(
                EngineError::Conflict(ConflictKind::DuplicateId),
            ),
            synopsis@.len() > 0 && !old(self)@.has_job(id@) ==> r == Ok::<Job, EngineError>(
                Job {
                    id,
                    synopsis,
                    location,
                    caller_name,
                    caller_phone,
                    created_at: now,
                    closed_at: None,
                    created_by,
                    closed_by: None,
                },
            ),
            r is Ok ==> final(self)@ == (BoardView { jobs: old(self)@.jobs.push(r.unwrap()), ..old(self)@ })
                && final(hub)@ == old(hub)@.publish(Event::Job(id)),
            r is Err ==> final(self)@ == old(self)@ && final(hub)@ == old(hub)@,
    {
        if synopsis.as_str().is_empty() {
            return Err(EngineError::Invalid);
        }
        if self.find_job(&id).is_some() {
            return Err(EngineError::Conflict(ConflictKind::DuplicateId));
        }
        let ev = Event::Job(id.clone());
        let job = Job {
            id,
            synopsis,
            location,
            caller_name,
            caller_phone,
            created_at: now,
            closed_at: None,
            created_by,
            closed_by: None,
        };
        let ghost old_view = self@;
        self.jobs.push(job.clone());
        proof {
            let v = self@;
            let n = old_view.jobs.len();
            assert(v.comments == old_view.comments);
            assert(v.resources == old_view.resources);
            assert(v.assignments == old_view.assignments);
            assert forall|i: int, k: int| 0 <= i < k < v.jobs.len() implies v.jobs[i].id@ != v.jobs[k].id@ by {
                if k == n {
                    assert(old_view.jobs[i].id@ != job.id@);
                } else {
                    assert(old_view.jobs[i] == v.jobs[i]);
                    assert(old_view.jobs[k] == v.jobs[k]);
                }
            }
            assert forall|i: int|
                0 <= i < v.assignments.len() && (#[trigger] v.assignments[i]).is_active() implies {
                let jid = v.assignments[i].job_id@;
                v.has_job(jid) && v.job(jid).is_open()
            } by {
                let c = old_view.job_index(v.assignments[i].job_id@);
                assert(v.jobs[c] == old_view.jobs[c]);
                lemma_job_index(v, c);
            }
        }
        hub.publish(ev);
        Ok(job)
    }

    /// Appends comment `id` with text `comment` by `created_by` at `now` to
    /// job `job_id`, open or closed. A missing job gives `NotFound`, an id in
    /// use `Conflict(DuplicateId)`. Nothing is published.
    pub fn add_comment(
        &mut self,
        id: String,
        job_id: &String,
        comment: String,
        created_by: String,
        now: i64,
    ) -> (r: Result<Comment, EngineError>)
        requires
            old(self)@.wf(),
        ensures
            final(self)@.wf(),
            !old(self)@.has_job(job_id@) ==> r == Err::<Comment, EngineError>(EngineError::NotFound),
            old(self)@.has_job(job_id@) && old(self)@.has_comment(id@) ==> r == Err::<
                Comment,
                EngineError,
            >(EngineError::Conflict(ConflictKind::DuplicateId)),
            old(self)@.has_job(job_id@) && !old(self)@.has_comment(id@) ==> r == Ok::<
                Comment,
                EngineError,
            >(Comment { id, job_id: *job_id, comment, created_at: now, created_by }),
            r is Ok ==> final(self)@ == (BoardView {
                comments: old(self)@.comments.push(r.unwrap()),
                ..old(self)@
            }),
            r is Err ==> final(self)@ == old(self)@,
    {
        if self.find_job(job_id).is_none() {
            return Err(EngineError::NotFound);
        }
        let mut i: usize = 0;
        while i < self.comments.len()
            invariant
                self@ == old(self)@,
                self@.wf(),
                self@.has_job(job_id@),
                i <= self.comments@.len(),
                forall|k: int| 0 <= k < i ==> self.comments@[k].id@ != id@,
            decreases self.comments@.len() - i,
        {
            if self.comments[i].id == id {
                return Err(EngineError::Conflict(ConflictKind::DuplicateId));
            }
            i += 1;
        }
        let c = Comment { id, job_id: job_id.clone(), comment, created_at: now, created_by };
        let ghost old_view = self@;
        self.comments.push(c.clone());
        proof {
            let v = self@;
            let n = old_view.comments.len();
            assert(v.jobs == old_view.jobs);
            assert(v.resources == old_view.resources);
            assert(v.assignments == old_view.assignments);
            assert forall|i: int, k: int| 0 <= i < k < v.comments.len() implies v.comments[i].id@
                != v.comments[k].id@ by {
                if k == n {
                    assert(old_view.comments[i].id@ != c.id@);
                } else {
                    assert(old_view.comments[i] == v.comments[i]);
                    assert(old_view.comments[k] == v.comments[k]);
                }
            }
        }
        Ok(c)
    }

    /// Registers resource `id` named `display_name`. Whether a new resource
    /// starts in service is the caller's explicit choice. An empty name gives
    /// `Invalid`, an id in use `Conflict(DuplicateId)`; on success the hub is
    /// told that the resource changed.
    pub fn create_resource(
        &mut self,
        hub: &mut Hub,
        id: String,
        display_name: String,
        comment: Option<String>,
        in_service: bool,
    ) -> (r: Result<Resource, EngineError>)
        requires
            old(self)@.wf(),
            old(hub).wf(),
        ensures
            final(self)@.wf(),
            final(hub).wf(),
            display_name@.len() == 0 ==> r == Err::<Resource, EngineError>(EngineError::Invalid),
            display_name@.len() > 0 && old(self)@.has_resource(id@) ==> r == Err::<
                Resource,
                EngineError,
            >(EngineError::Conflict(ConflictKind::DuplicateId)),
            display_name@.len() > 0 && !old(self)@.has_resource(id@) ==> r == Ok::<
                Resource,
                EngineError,
            >(
                Resource {
                    id,
                    display_name,
                    comment,
                    in_service,
                    current_assignment: None,
                    location: None,
                },
            ),
            r is Ok ==> final(self)@ == (BoardView {
                resources: old(self)@.resources.push(r.unwrap()),
                ..old(self)@
            }) && final(hub)@ == old(hub)@.publish(Event::Resource(id)),
            r is Err ==> final(self)@ == old(self)@ && final(hub)@ == old(hub)@,
    {
        if display_name.as_str().is_empty() {
            return Err(EngineError::Invalid);
        }
        if self.find_resource(&id).is_some() {
            return Err(EngineError::Conflict(ConflictKind::DuplicateId));
        }
        let ev = Event::Resource(id.clone());
        let res = Resource {
            id,
            display_name,
            comment,
            in_service,
            current_assignment: None,
            location: None,
        };
        let ghost old_view = self@;
        self.resources.push(res.clone());
        proof {
            let v = self@;
            let n = old_view.resources.len();
            assert(v.comments == old_view.comments);
            assert(v.jobs == old_view.jobs);
            assert(v.assignments == old_view.assignments);
            assert forall|i: int, k: int| 0 <= i < k < v.resources.len() implies v.resources[i].id@
                != v.resources[k].id@ by {
                if k == n {
                    assert(old_view.resources[i].id@ != res.id@);
                } else {
                    assert(old_view.resources[i] == v.resources[i]);
                    assert(old_view.resources[k] == v.resources[k]);
                }
            }
            assert forall|i: int|
                0 <= i < v.resources.len() implies (#[trigger] v.resources[i]).current_assignment is None
                && v.resources[i].location is None by {
                if i < n {
                    assert(old_view.resources[i] == v.resources[i]);
                }
            }
            assert forall|i: int|
                0 <= i < v.assignments.len() && (#[trigger] v.assignments[i]).is_active() implies {
                let rid = v.assignments[i].resource_id@;
                v.has_resource(rid) && v.resource(rid).in_service
            } by {
                let c = old_view.resource_index(v.assignments[i].resource_id@);
                assert(v.resources[c] == old_view.resources[c]);
                lemma_resource_index(v, c);
            }
        }
        hub.publish(ev);
        Ok(res)
    }

    /// Records that resource `resource_id` was at (`latitude`, `longitude`)
    /// at `now`. Service and assignment state are untouched. A missing
    /// resource gives `NotFound`; on success the hub is told that the
    /// resource changed.
    pub fn set_location(
        &mut self,
        hub: &mut Hub,
        resource_id: &String,
        latitude: String,
        longitude: String,
        now: i64,
    ) -> (r: Result<(), EngineError>)
        requires
            old(self)@.wf(),
            old(hub).wf(),
        ensures
            final(self)@.wf(),
            final(hub).wf(),
            r is Err <==> !old(self)@.has_resource(resource_id@),
            r is Err ==> r == Err::<(), EngineError>(EngineError::NotFound),
            r is Ok ==> final(self)@ == (BoardView {
                locations: old(self)@.locations.push(
                    ResourceLocation { resource_id: *resource_id, at_time: now, latitude, longitude },
                ),
                ..old(self)@
            }) && final(hub)@ == old(hub)@.publish(Event::Resource(*resource_id)),
            r is Err ==> final(self)@ == old(self)@ && final(hub)@ == old(hub)@,
    {
        if self.find_resource(resource_id).is_none() {
            return Err(EngineError::NotFound);
        }
        let ghost old_view = self@;
        self.locations.push(
            ResourceLocation { resource_id: resource_id.clone(), at_time: now, latitude, longitude },
        );
        proof {
            let v = self@;
            assert(v.comments == old_view.comments);
            assert(v.jobs == old_view.jobs);
            assert(v.resources == old_view.resources);
            assert(v.assignments == old_view.assignments);
        }
        hub.publish(Event::Resource(resource_id.clone()));
        Ok(())
    }
    fn latest_for(&self, rid: &String) -> (r: Option<ResourceLocation>)
        ensures
            r == latest_location(self@.locations, rid@),
    {
        let mut cur: Option<ResourceLocation> = None;
        let mut i: usize = 0;
        while i < self.locations.len()
            invariant
                i <= self.locations@.len(),
                cur == latest_location(self.locations@.subrange(0, i as int), rid@),
            decreases self.locations@.len() - i,
        {
            let ghost pre = self.locations@.subrange(0, i as int);
            let l = &self.locations[i];
            let take = l.resource_id == *rid && match &cur {
                None => true,
                Some(c) => c.at_time <= l.at_time,
            };
            if take {
                cur = Some(l.clone());
            }
            i += 1;
            proof {
                let s = self.locations@.subrange(0, i as int);
                assert(s.drop_last() =~= pre);
            }
        }
        assert(self.locations@.subrange(0, self.locations@.len() as int) =~= self.locations@);
        cur
    }

    /// Every resource with its active assignment, if any, and its latest
    /// known location, if any, read from one state of the board.
    pub fn list(&self) -> (r: Vec<Resource>)
        requires
            self@.wf(),
        ensures
            r@ == self@.listing(),
    {
        let mut out: Vec<Resource> = Vec::new();
        let mut i: usize = 0;
        while i < self.resources.len()
            invariant
                self@.wf(),
                i <= self.resources@.len(),
                out@ == self@.listing().subrange(0, i as int),
            decreases self.resources@.len() - i,
        {
            let mut res = self.resources[i].clone();
            let current = match self.active_index(&res.id) {
                Some(k) => {
                    proof {
                        let rid = res.id@;
                        let c = choose|c: int|
                            0 <= c < self@.assignments.len() && self@.assignments[c].is_active()
                                && self@.assignments[c].resource_id@ == rid;
                        assert(self@.is_assigned(rid));
                        assert(c == k);
                    }
                    Some(self.assignments[k].clone())
                },
                None => None,
            };
            res.current_assignment = current;
            res.location = self.latest_for(&self.resources[i].id);
            out.push(res);
            i += 1;
            assert(out@ =~= self@.listing().subrange(0, i as int));
        }
        assert(out@ =~= self@.listing());
        out
    }

    /// The active assignments, in order of creation.
    pub fn get_active_assignments(&self) -> (r: Vec<Assignment>)
        ensures
            r@ == self@.active_assignments(),
    {
        let mut out: Vec<Assignment> = Vec::new();
        let mut i: usize = 0;
        while i < self.assignments.len()
            invariant
                i <= self.assignments@.len(),
                out@ == self.assignments@.subrange(0, i as int).filter(|a: Assignment| a.is_active()),
            decreases self.assignments@.len() - i,
        {
            let ghost pre = self.assignments@.subrange(0, i as int);
            if self.assignments[i].removed_at.is_none() {
                out.push(self.assignments[i].clone());
            }
            i += 1;
            proof {
                let s = self.assignments@.subrange(0, i as int);
                assert(s.drop_last() =~= pre);
                reveal(Seq::filter);
            }
        }
        assert(self.assignments@.subrange(0, self.assignments@.len() as int) =~= self.assignments@);
        out
    }

    /// Every assignment, active or not, of job `job_id`, in order of
    /// creation.
    pub fn get_assignments_for_job(&self, job_id: &String) -> (r: Vec<Assignment>)
        ensures
            r@ == self@.assignments_for_job(job_id@),
    {
        let mut out: Vec<Assignment> = Vec::new();
        let mut i: usize = 0;
        while i < self.assignments.len()
            invariant
                i <= self.assignments@.len(),
                out@ == self.assignments@.subrange(0, i as int).filter(
                    |a: Assignment| a.job_id@ == job_id@,
                ),
            decreases self.assignments@.len() - i,
        {
            let ghost pre = self.assignments@.subrange(0, i as int);
            if self.assignments[i].job_id == *job_id {
                out.push(self.assignments[i].clone());
            }
            i += 1;
            proof {
                let s = self.assignments@.subrange(0, i as int);
                assert(s.drop_last() =~= pre);
                reveal(Seq::filter);
            }
        }
        assert(self.assignments@.subrange(0, self.assignments@.len() as int) =~= self.assignments@);
        out
    }

    /// Every job, in order of creation.
    pub fn get_all_jobs(&self) -> (r: Vec<Job>)
        ensures
            r@ == self@.jobs,
    {
        let mut out: Vec<Job> = Vec::new();
        let mut i: usize = 0;
        while i < self.jobs.len()
            invariant
                i <= self.jobs@.len(),
                out@ == self.jobs@.subrange(0, i as int),
            decreases self.jobs@.len() - i,
        {
            out.push(self.jobs[i].clone());
            i += 1;
            assert(out@ =~= self.jobs@.subrange(0, i as int));
        }
        assert(out@ =~= self.jobs@);
        out
    }

    /// Job `id` with its comments in order of addition, or `None` when there
    /// is no such job.
    pub fn get_job_by_id(&self, id: &String) -> (r: Option<(Job, Vec<Comment>)>)
        requires
            self@.wf(),
        ensures
            r is None <==> !self@.has_job(id@),
            r is Some ==> r.unwrap().0 == self@.job(id@) && r.unwrap().1@ == self@.comments_for_job(id@),
    {
        let ji = match self.find_job(id) {
            None => {
                return None;
            },
            Some(ji) => ji,
        };
        let job = self.jobs[ji].clone();
        let mut out: Vec<Comment> = Vec::new();
        let mut i: usize = 0;
        while i < self.comments.len()
            invariant
                i <= self.comments@.len(),
                out@ == self.comments@.subrange(0, i as int).filter(|c: Comment| c.job_id@ == id@),
            decreases self.comments@.len() - i,
        {
            let ghost pre = self.comments@.subrange(0, i as int);
            if self.comments[i].job_id == *id {
                out.push(self.comments[i].clone());
            }
            i += 1;
            proof {
                let s = self.comments@.subrange(0, i as int);
                assert(s.drop_last() =~= pre);
                reveal(Seq::filter);
            }
        }
        assert(self.comments@.subrange(0, self.comments@.len() as int) =~= self.comments@);
        Some((job, out))
    }
    /// A board holding the given tables, in the given order, when they
    /// satisfy every invariant of a board: distinct ids in each table, bare
    /// stored resources, at most one active assignment per resource, and
    /// active assignments only on open jobs and in-service resources.
    /// `None` otherwise.
    pub fn from_tables(
        jobs: &Vec<Job>,
        comments: &Vec<Comment>,
        resources: &Vec<Resource>,
        locations: &Vec<ResourceLocation>,
        assignments: &Vec<Assignment>,
    ) -> (r: Option<Board>)
        ensures
            (r is Some) == tables_view(*jobs, *comments, *resources, *locations, *assignments).wf(),
            r is Some ==> r.unwrap()@ == tables_view(*jobs, *comments, *resources, *locations, *assignments),
    {
        let ghost v = BoardView {
            jobs: jobs@,
            comments: comments@,
            resources: resources@,
            locations: locations@,
            assignments: assignments@,
        };
        let b = Board {
            jobs: jobs.clone(),
            comments: comments.clone(),
            resources: resources.clone(),
            locations: locations.clone(),
            assignments: assignments.clone(),
        };
        assert(b.jobs@ =~= jobs@);
        assert(b.comments@ =~= comments@);
        assert(b.resources@ =~= resources@);
        assert(b.locations@ =~= locations@);
        assert(b.assignments@ =~= assignments@);
        if !keys_distinct(&b.jobs) {
            proof {
                let (x, y) = choose|x: int, y: int|
                    0 <= x < y < b.jobs@.len() && b.jobs@[x].key() == b.jobs@[y].key();
                assert(v.jobs[x].id@ == v.jobs[y].id@);
            }
            return None;
        }
        if !keys_distinct(&b.comments) {
            proof {
                let (x, y) = choose|x: int, y: int|
                    0 <= x < y < b.comments@.len() && b.comments@[x].key() == b.comments@[y].key();
                assert(v.comments[x].id@ == v.comments[y].id@);
            }
            return None;
        }
        if !keys_distinct(&b.resources) {
            proof {
                let (x, y) = choose|x: int, y: int|
                    0 <= x < y < b.resources@.len() && b.resources@[x].key() == b.resources@[y].key();
                assert(v.resources[x].id@ == v.resources[y].id@);
            }
            return None;
        }
        if !keys_distinct(&b.assignments) {
            proof {
                let (x, y) = choose|x: int, y: int|
                    0 <= x < y < b.assignments@.len() && b.assignments@[x].key() == b.assignments@[y].key();
                assert(v.assignments[x].id@ == v.assignments[y].id@);
            }
            return None;
        }
        assert(b@.ids_unique());
        let mut i: usize = 0;
        while i < b.resources.len()
            invariant
                b@ == v,
                v == tables_view(*jobs, *comments, *resources, *locations, *assignments),
                i <= b.resources@.len(),
                forall|k: int|
                    0 <= k < i ==> (#[trigger] b.resources@[k]).current_assignment is None
                        && b.resources@[k].location is None,
            decreases b.resources@.len() - i,
        {
            if b.resources[i].current_assignment.is_some() || b.resources[i].location.is_some() {
                proof {
                    let r = b@.resources[i as int];
                    assert(!(r.current_assignment is None && r.location is None));
                    assert(!v.resources_bare());
                    assert(!v.wf());
                }
                return None;
            }
            i += 1;
        }
        if !b.one_active_each() {
            return None;
        }
        let mut i: usize = 0;
        while i < b.assignments.len()
            invariant
                b@ == v,
                v == tables_view(*jobs, *comments, *resources, *locations, *assignments),
                b@.ids_unique(),
                b@.resources_bare(),
                b@.one_active_per_resource(),
                i <= b.assignments@.len(),
                forall|k: int|
                    0 <= k < i && (#[trigger] b@.assignments[k]).is_active() ==> {
                        let jid = b@.assignments[k].job_id@;
                        let rid = b@.assignments[k].resource_id@;
                        &&& b@.has_job(jid) && b@.job(jid).is_open()
                        &&& b@.has_resource(rid) && b@.resource(rid).in_service
                    },
            decreases b.assignments@.len() - i,
        {
            if b.assignments[i].removed_at.is_none() {
                assert(b@.assignments[i as int].is_active());
                match b.find_job(&b.assignments[i].job_id) {
                    None => {
                        return None;
                    },
                    Some(ji) => {
                        if b.jobs[ji].closed_at.is_some() {
                            return None;
                        }
                    },
                }
                match b.find_resource(&b.assignments[i].resource_id) {
                    None => {
                        return None;
                    },
                    Some(ri) => {
                        if !b.resources[ri].in_service {
                            return None;
                        }
                    },
                }
            }
            i += 1;
        }
        Some(b)
    }

    /// Whether no two active assignments share a resource.
    fn one_active_each(&self) -> (r: bool)
        ensures
            r == self@.one_active_per_resource(),
    {
        let a = &self.assignments;
        let mut i: usize = 0;
        while i < a.len()
            invariant
                i <= a@.len(),
                a@ == self@.assignments,
                forall|x: int, y: int|
                    0 <= x < y < a@.len() && x < i ==> !(a@[x].is_active() && a@[y].is_active()
                        && a@[x].resource_id@ == a@[y].resource_id@),
            decreases a@.len() - i,
        {
            let mut j: usize = i + 1;
            while j < a.len()
                invariant
                    a@ == self@.assignments,
                    i < a@.len(),
                    i + 1 <= j <= a@.len(),
                    forall|x: int, y: int|
                        0 <= x < y < a@.len() && x < i ==> !(a@[x].is_active() && a@[y].is_active()
                            && a@[x].resource_id@ == a@[y].resource_id@),
                    forall|y: int|
                        i < y < j ==> !(a@[i as int].is_active() && a@[y].is_active()
                            && a@[i as int].resource_id@ == a@[y].resource_id@),
                decreases a@.len() - j,
            {
                if a[i].removed_at.is_none() && a[j].removed_at.is_none() && a[i].resource_id
                    == a[j].resource_id {
                    proof {
                        assert(!self@.one_active_per_resource() ) by {
                            assert(self@.assignments[i as int].is_active());
                            assert(self@.assignments[j as int].is_active());
                        }
                    }
                    return false;
                }
                j += 1;
            }
            i += 1;
        }
        proof {
            assert forall|x: int, y: int|
                0 <= x < a@.len() && 0 <= y < a@.len() && a@[x].is_active() && a@[y].is_active()
                    && a@[x].resource_id@ == a@[y].resource_id@ implies x == y by {
                if x < y {
                } else if y < x {
                }
            }
        }
        true
    }
}

} // verus!
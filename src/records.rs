//! The records of the board: jobs, their comments, resources, their location
//! history, assignments and user accounts.

use vstd::prelude::*;

verus! {

/// Copies an optional string exactly.
pub fn clone_opt_string(o: &Option<String>) -> (r: Option<String>)
    ensures
        r == *o,
{
    match o {
        Some(s) => Some(s.clone()),
        None => None,
    }
}

/// A time-bounded binding of one resource to one job; it is active while
/// `removed_at` is unset.
#[derive(Debug)]
pub struct Assignment {
    pub id: String,
    pub resource_id: String,
    pub job_id: String,
    pub assigned_at: i64,
    pub removed_at: Option<i64>,
    pub assigned_by: String,
    pub removed_by: Option<String>,
}

impl Assignment {
    pub open spec fn is_active(&self) -> bool {
        self.removed_at.is_none()
    }
}

impl Clone for Assignment {
    fn clone(&self) -> (r: Self)
        ensures
            r == *self,
    {
        Assignment {
            id: self.id.clone(),
            resource_id: self.resource_id.clone(),
            job_id: self.job_id.clone(),
            assigned_at: self.assigned_at,
            removed_at: self.removed_at,
            assigned_by: self.assigned_by.clone(),
            removed_by: clone_opt_string(&self.removed_by),
        }
    }
}

/// A note appended to a job.
#[derive(Debug)]
pub struct Comment {
    pub id: String,
    pub job_id: String,
    pub comment: String,
    pub created_at: i64,
    pub created_by: String,
}

impl Clone for Comment {
    fn clone(&self) -> (r: Self)
        ensures
            r == *self,
    {
        Comment {
            id: self.id.clone(),
            job_id: self.job_id.clone(),
            comment: self.comment.clone(),
            created_at: self.created_at,
            created_by: self.created_by.clone(),
        }
    }
}

/// A unit of dispatchable work. It is open while `closed_at` is unset. Its
/// comments are kept beside it, in order of addition.
#[derive(Debug)]
pub struct Job {
    pub id: String,
    pub synopsis: String,
    pub location: Option<String>,
    pub caller_name: Option<String>,
    pub caller_phone: Option<String>,
    pub created_at: i64,
    pub closed_at: Option<i64>,
    pub created_by: String,
    pub closed_by: Option<String>,
}

impl Job {
    pub open spec fn is_open(&self) -> bool {
        self.closed_at.is_none()
    }
}

impl Clone for Job {
    fn clone(&self) -> (r: Self)
        ensures
            r == *self,
    {
        Job {
            id: self.id.clone(),
            synopsis: self.synopsis.clone(),
            location: clone_opt_string(&self.location),
            caller_name: clone_opt_string(&self.caller_name),
            caller_phone: clone_opt_string(&self.caller_phone),
            created_at: self.created_at,
            closed_at: self.closed_at,
            created_by: self.created_by.clone(),
            closed_by: clone_opt_string(&self.closed_by),
        }
    }
}

/// One entry of a resource's location history.
#[derive(Debug)]
pub struct ResourceLocation {
    pub resource_id: String,
    pub at_time: i64,
    pub latitude: String,
    pub longitude: String,
}

impl Clone for ResourceLocation {
    fn clone(&self) -> (r: Self)
        ensures
            r == *self,
    {
        ResourceLocation {
            resource_id: self.resource_id.clone(),
            at_time: self.at_time,
            latitude: self.latitude.clone(),
            longitude: self.longitude.clone(),
        }
    }
}

/// A dispatchable unit. As stored on the board, `current_assignment` and
/// `location` are unset; a listing fills them in with the active assignment
/// and the latest known location.
#[derive(Debug)]
pub struct Resource {
    pub id: String,
    pub display_name: String,
    pub comment: Option<String>,
    pub in_service: bool,
    pub current_assignment: Option<Assignment>,
    pub location: Option<ResourceLocation>,
}

impl Clone for Resource {
    fn clone(&self) -> (r: Self)
        ensures
            r == *self,
    {
        Resource {
            id: self.id.clone(),
            display_name: self.display_name.clone(),
            comment: clone_opt_string(&self.comment),
            in_service: self.in_service,
            current_assignment: match &self.current_assignment {
                Some(a) => Some(a.clone()),
                None => None,
            },
            location: match &self.location {
                Some(l) => Some(l.clone()),
                None => None,
            },
        }
    }
}

/// A user account. `password` holds the password's bcrypt hash.
#[derive(Debug)]
pub struct User {
    pub id: String,
    pub email: String,
    pub display_name: String,
    pub phone: Option<String>,
    pub password: String,
    pub created_at: i64,
    pub admin: bool,
    pub enabled: bool,
}

} // verus!

//! The notifications that the board publishes: which job or which resource
//! changed.

use vstd::prelude::*;

verus! {

/// The JSON string literal, quotes included, that stands for the text `s`.
pub uninterp spec fn json_string(s: Seq<char>) -> Seq<char>;

/// Relies on `serde_json::to_string` on a `str`: it writes the text as one
/// JSON string literal, quotes and escapes included, and depends on the text
/// alone. Serialising a `str` into memory does not fail.
#[verifier::external_body]
fn quote_json(s: &str) -> (r: String)
    ensures
        r@ == json_string(s@),
{
    serde_json::to_string(s).unwrap_or_default()
}

/// A change notice: the id of a job or of a resource whose state changed.
#[derive(Debug, PartialEq, Eq)]
pub enum Event {
    Job(String),
    Resource(String),
}

impl Clone for Event {
    fn clone(&self) -> (r: Self)
        ensures
            r == *self,
    {
        match self {
            Event::Job(id) => Event::Job(id.clone()),
            Event::Resource(id) => Event::Resource(id.clone()),
        }
    }
}

impl Event {
    pub open spec fn id(&self) -> String {
        match self {
            Event::Job(id) => *id,
            Event::Resource(id) => *id,
        }
    }

    /// The text of the `type` field: `Job` or `Resource`.
    pub open spec fn kind_text(&self) -> Seq<char> {
        match self {
            Event::Job(_) => "Job"@,
            Event::Resource(_) => "Resource"@,
        }
    }

    /// The transport form of an event: `{"type":<kind>,"id":<id>}`.
    pub open spec fn json(&self) -> Seq<char> {
        "{\"type\":\""@ + self.kind_text() + "\",\"id\":"@ + json_string(self.id()@) + "}"@
    }

    /// Renders the event for the transport as `{"type":"Job"|"Resource","id":<id>}`.
    pub fn to_json(&self) -> (r: String)
        ensures
            r@ == self.json(),
    {
        let mut out = String::from_str("{\"type\":\"");
        let id = match self {
            Event::Job(id) => {
                out.append("Job");
                id
            },
            Event::Resource(id) => {
                out.append("Resource");
                id
            },
        };
        out.append("\",\"id\":");
        let quoted = quote_json(id.as_str());
        out.append(quoted.as_str());
        out.append("}");
        out
    }
}

} // verus!

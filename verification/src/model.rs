//! Domain model: the status lifecycle and the job and note records.

use vstd::prelude::*;
use vstd::string::StrSliceExecFns;

verus! {

/// The stage an application is currently in. Any status may move to any
/// other status; none is terminal.
#[derive(Debug, Clone, Copy, PartialEq, Eq, Structural)]
pub enum Status {
    Applied,
    Interviewing,
    Offer,
    Rejected,
}

/// The lowercase token a status serializes to.
pub open spec fn status_token(status: Status) -> Seq<char> {
    match status {
        Status::Applied => "applied"@,
        Status::Interviewing => "interviewing"@,
        Status::Offer => "offer"@,
        Status::Rejected => "rejected"@,
    }
}

/// The status a stored token denotes. The four lowercase tokens are
/// recognized case-sensitively; every other token falls back to `Applied`.
pub open spec fn status_of_token(s: Seq<char>) -> Status {
    if s == "interviewing"@ {
        Status::Interviewing
    } else if s == "offer"@ {
        Status::Offer
    } else if s == "rejected"@ {
        Status::Rejected
    } else {
        Status::Applied
    }
}

/// Serializes a status to its lowercase token.
pub fn status_to_str(status: Status) -> (r: &'static str)
    ensures
        r@ == status_token(status),
{
    match status {
        Status::Applied => "applied",
        Status::Interviewing => "interviewing",
        Status::Offer => "offer",
        Status::Rejected => "rejected",
    }
}

/// Character-by-character string equality.
fn str_eq(a: &str, b: &str) -> (r: bool)
    ensures
        r == (a@ == b@),
{
    let alen: usize = a.unicode_len();
    let blen: usize = b.unicode_len();
    if alen != blen {
        return false;
    }
    let mut i: usize = 0;
    while i < alen
        invariant
            i <= alen,
            alen == a@.len(),
            alen == b@.len(),
            forall|k: int| 0 <= k < i ==> a@[k] == b@[k],
        decreases alen - i,
    {
        if a.get_char(i) != b.get_char(i) {
            return false;
        }
        i = i + 1;
    }
    proof {
        assert(a@ =~= b@);
    }
    true
}

/// Deserializes a status token. An unrecognized token silently becomes
/// `Applied` — deliberate fidelity to the stored-data format, though it can
/// mask a corrupted status column; a stricter reading would reject it.
pub fn str_to_status(s: &str) -> (r: Status)
    ensures
        r == status_of_token(s@),
{
    if str_eq(s, "interviewing") {
        Status::Interviewing
    } else if str_eq(s, "offer") {
        Status::Offer
    } else if str_eq(s, "rejected") {
        Status::Rejected
    } else {
        Status::Applied
    }
}

/// A tracked application to a company for a role. Its id is unique and
/// never reused for the lifetime of a store; only `status` is mutable.
#[derive(Debug, Clone, PartialEq, Eq)]
pub struct Job {
    pub id: u64,
    pub company: String,
    pub role: String,
    pub url: Option<String>,
    pub status: Status,
}

/// A free-text annotation attached to exactly one job. It lives and dies
/// with the job that `job_id` references.
#[derive(Debug, Clone, PartialEq, Eq)]
pub struct Note {
    pub id: u64,
    pub job_id: u64,
    pub text: String,
    pub created_at: String,
}

/// The mathematical value of a `Job`.
pub ghost struct JobView {
    pub id: u64,
    pub company: Seq<char>,
    pub role: Seq<char>,
    pub url: Option<Seq<char>>,
    pub status: Status,
}

/// The mathematical value of a `Note`.
pub ghost struct NoteView {
    pub id: u64,
    pub job_id: u64,
    pub text: Seq<char>,
    pub created_at: Seq<char>,
}

/// The view of an optional string.
pub open spec fn opt_str_view(url: Option<String>) -> Option<Seq<char>> {
    match url {
        Some(u) => Some(u@),
        None => None,
    }
}

impl View for Job {
    type V = JobView;

    open spec fn view(&self) -> JobView {
        JobView {
            id: self.id,
            company: self.company@,
            role: self.role@,
            url: opt_str_view(self.url),
            status: self.status,
        }
    }
}

impl View for Note {
    type V = NoteView;

    open spec fn view(&self) -> NoteView {
        NoteView {
            id: self.id,
            job_id: self.job_id,
            text: self.text@,
            created_at: self.created_at@,
        }
    }
}

} // verus!

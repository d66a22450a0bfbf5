//! Store-level laws, proved once and for all from the operations'
//! contracts: they relate several operations and hold for every input the
//! contracts allow, not just the values a test happens to pick.

use vstd::prelude::*;

use crate::model::JobView;
use crate::model::Status;
use crate::store::StoreView;
use crate::store::add_job_post;
use crate::store::delete_job_ok;
use crate::store::has_job;
use crate::store::job_survives;
use crate::store::listed_jobs;
use crate::store::note_survives;
use crate::store::store_wf;
use crate::store::update_status_ok;
use crate::store::with_status;

verus! {

/// Ids assigned by successive job additions strictly increase within one
/// store lifetime. `add_job` assigns `next_job_id` and bumps it, and every
/// other operation's contract leaves `next_job_id` exactly unchanged, so
/// the middle hypothesis — the counter never went down between the two
/// additions — covers any sequence of operations between them.
pub proof fn lemma_job_ids_strictly_increase(
    pre1: StoreView,
    post1: StoreView,
    id1: u64,
    company1: Seq<char>,
    role1: Seq<char>,
    url1: Option<Seq<char>>,
    status1: Status,
    pre2: StoreView,
    post2: StoreView,
    id2: u64,
    company2: Seq<char>,
    role2: Seq<char>,
    url2: Option<Seq<char>>,
    status2: Status,
)
    requires
        add_job_post(pre1, post1, id1, company1, role1, url1, status1),
        post1.next_job_id <= pre2.next_job_id,
        add_job_post(pre2, post2, id2, company2, role2, url2, status2),
    ensures
        id1 < id2,
{
}

/// Deleting a job erases it and all of its notes at once: afterwards no
/// job and no note carries the deleted id, so `list_notes` on that id —
/// whose contract returns `NotFound` exactly when the job id is absent —
/// fails, however long the job had existed before.
pub proof fn lemma_delete_clears_job_and_notes(pre: StoreView, post: StoreView, id: u64)
    requires
        store_wf(pre),
        delete_job_ok(pre, post, id),
    ensures
        !has_job(post, id),
        forall|k: int| 0 <= k < post.notes.len() ==> (#[trigger] post.notes[k]).job_id != id,
{
    broadcast use vstd::seq_lib::group_filter_ensures;

    assert forall|k: int| 0 <= k < post.jobs.len() implies (#[trigger] post.jobs[k]).id != id by {
        assert((job_survives(id))(pre.jobs.filter(job_survives(id))[k]));
    }
    assert forall|k: int| 0 <= k < post.notes.len() implies (#[trigger] post.notes[k]).job_id
        != id by {
        assert((note_survives(id))(pre.notes.filter(note_survives(id))[k]));
    }
}

/// After a status update, the listing shows the job under its id with the
/// new status and every other field unchanged, and shows every other job
/// exactly as before, in the same newest-first positions.
pub proof fn lemma_update_status_shows_in_listing(
    pre: StoreView,
    post: StoreView,
    id: u64,
    status: Status,
)
    requires
        store_wf(pre),
        update_status_ok(pre, post, id, status),
    ensures
        listed_jobs(post).len() == listed_jobs(pre).len(),
        forall|k: int|
            0 <= k < listed_jobs(pre).len() && (#[trigger] listed_jobs(pre)[k]).id == id
                ==> listed_jobs(post)[k] == with_status(listed_jobs(pre)[k], status),
        forall|k: int|
            0 <= k < listed_jobs(pre).len() && (#[trigger] listed_jobs(pre)[k]).id != id
                ==> listed_jobs(post)[k] == listed_jobs(pre)[k],
        exists|k: int|
            0 <= k < listed_jobs(post).len() && (#[trigger] listed_jobs(post)[k]).id == id
                && listed_jobs(post)[k].status == status,
{
    let n = pre.jobs.len() as int;
    assert forall|k: int|
        0 <= k < n && (#[trigger] listed_jobs(pre)[k]).id == id implies listed_jobs(post)[k]
        == with_status(listed_jobs(pre)[k], status) by {
        assert(listed_jobs(pre)[k] == pre.jobs[n - 1 - k]);
        assert(listed_jobs(post)[k] == post.jobs[n - 1 - k]);
    }
    assert forall|k: int|
        0 <= k < n && (#[trigger] listed_jobs(pre)[k]).id != id implies listed_jobs(post)[k]
        == listed_jobs(pre)[k] by {
        assert(listed_jobs(pre)[k] == pre.jobs[n - 1 - k]);
        assert(listed_jobs(post)[k] == post.jobs[n - 1 - k]);
    }
    let w = choose|w: int| 0 <= w < pre.jobs.len() && (#[trigger] pre.jobs[w]).id == id;
    assert(listed_jobs(post)[n - 1 - w] == post.jobs[w]);
    assert(post.jobs[w] == with_status(pre.jobs[w], status));
}

/// Round trip: a job added with given company, role, url and status is
/// listed — first, since listing is newest first — with exactly those
/// field values, plus the assigned id.
pub proof fn lemma_added_job_listed_first(
    pre: StoreView,
    post: StoreView,
    id: u64,
    company: Seq<char>,
    role: Seq<char>,
    url: Option<Seq<char>>,
    status: Status,
)
    requires
        add_job_post(pre, post, id, company, role, url, status),
    ensures
        listed_jobs(post).len() == pre.jobs.len() + 1,
        listed_jobs(post)[0] == (JobView { id, company, role, url, status }),
{
    assert(listed_jobs(post)[0] == post.jobs[post.jobs.len() - 1]);
}

} // verus!

//! The store: owns every job and note and enforces the domain invariants —
//! unique monotonically assigned ids, existence checks before writes,
//! cascade deletion, and newest-first listing.

use vstd::prelude::*;

use crate::model::Job;
use crate::model::JobView;
use crate::model::Note;
use crate::model::NoteView;
use crate::model::Status;
use crate::model::opt_str_view;

verus! {

/// The one domain error: the referenced job id does not currently exist.
/// Infrastructure failures (storage unavailable, disk errors) are outside
/// the verified core and never take this form.
#[derive(Debug, Clone, Copy, PartialEq, Eq, Structural)]
pub enum DbError {
    NotFound(u64),
}

/// The mathematical value of a `Store`: the job and note records in
/// insertion order, and the two id counters.
pub ghost struct StoreView {
    pub jobs: Seq<JobView>,
    pub notes: Seq<NoteView>,
    pub next_job_id: u64,
    pub next_note_id: u64,
}

/// Whether a job with the given id currently exists in the store.
pub open spec fn has_job(s: StoreView, id: u64) -> bool {
    exists|i: int| 0 <= i < s.jobs.len() && (#[trigger] s.jobs[i]).id == id
}

/// The store's invariant: ids are at least 1, strictly increasing in
/// insertion order (hence unique), always below the matching counter, and
/// every note references an existing job.
pub open spec fn store_wf(s: StoreView) -> bool {
    &&& 1 <= s.next_job_id
    &&& 1 <= s.next_note_id
    &&& forall|i: int| 0 <= i < s.jobs.len() ==> 1 <= (#[trigger] s.jobs[i]).id < s.next_job_id
    &&& forall|i: int, j: int|
        0 <= i < j < s.jobs.len() ==> (#[trigger] s.jobs[i]).id < (#[trigger] s.jobs[j]).id
    &&& forall|i: int| 0 <= i < s.notes.len() ==> 1 <= (#[trigger] s.notes[i]).id < s.next_note_id
    &&& forall|i: int, j: int|
        0 <= i < j < s.notes.len() ==> (#[trigger] s.notes[i]).id < (#[trigger] s.notes[j]).id
    &&& forall|i: int| 0 <= i < s.notes.len() ==> has_job(s, (#[trigger] s.notes[i]).job_id)
}

/// The jobs in the order listing returns them: newest (highest id) first.
pub open spec fn listed_jobs(s: StoreView) -> Seq<JobView> {
    s.jobs.reverse()
}

/// Holds of the notes that belong to the given job.
pub open spec fn is_note_of(job_id: u64) -> spec_fn(NoteView) -> bool {
    |n: NoteView| n.job_id == job_id
}

/// Holds of the notes a cascade delete of the given job leaves behind.
pub open spec fn note_survives(id: u64) -> spec_fn(NoteView) -> bool {
    |n: NoteView| n.job_id != id
}

/// Holds of the jobs a delete of the given id leaves behind.
pub open spec fn job_survives(id: u64) -> spec_fn(JobView) -> bool {
    |j: JobView| j.id != id
}

/// The notes of one job in the order listing returns them: newest first.
pub open spec fn listed_notes(s: StoreView, job_id: u64) -> Seq<NoteView> {
    s.notes.filter(is_note_of(job_id)).reverse()
}

/// The given job with its status replaced and every other field kept.
pub open spec fn with_status(j: JobView, status: Status) -> JobView {
    JobView { id: j.id, company: j.company, role: j.role, url: j.url, status }
}

/// What adding a job does: the fresh id is the job counter, the record is
/// appended with exactly the given fields, and nothing else changes.
pub open spec fn add_job_post(
    pre: StoreView,
    post: StoreView,
    id: u64,
    company: Seq<char>,
    role: Seq<char>,
    url: Option<Seq<char>>,
    status: Status,
) -> bool {
    &&& id == pre.next_job_id
    &&& post.jobs == pre.jobs.push(JobView { id, company, role, url, status })
    &&& post.notes == pre.notes
    &&& post.next_job_id == id + 1
    &&& post.next_note_id == pre.next_note_id
}

/// What a successful status update does: the matching job gets the new
/// status, every other record and both counters stay untouched.
pub open spec fn update_status_ok(pre: StoreView, post: StoreView, id: u64, status: Status) -> bool {
    &&& has_job(pre, id)
    &&& post.jobs.len() == pre.jobs.len()
    &&& forall|i: int|
        0 <= i < pre.jobs.len() && (#[trigger] pre.jobs[i]).id == id
            ==> post.jobs[i] == with_status(pre.jobs[i], status)
    &&& forall|i: int|
        0 <= i < pre.jobs.len() && (#[trigger] pre.jobs[i]).id != id ==> post.jobs[i] == pre.jobs[i]
    &&& post.notes == pre.notes
    &&& post.next_job_id == pre.next_job_id
    &&& post.next_note_id == pre.next_note_id
}

/// What a successful delete does: the job disappears and, atomically, so
/// does every note referencing it; all other records and both counters
/// stay untouched (ids are never reused).
pub open spec fn delete_job_ok(pre: StoreView, post: StoreView, id: u64) -> bool {
    &&& has_job(pre, id)
    &&& post.jobs == pre.jobs.filter(job_survives(id))
    &&& post.notes == pre.notes.filter(note_survives(id))
    &&& post.next_job_id == pre.next_job_id
    &&& post.next_note_id == pre.next_note_id
}

/// What a successful note insertion does: the fresh id is the note
/// counter, the note is appended with exactly the given fields, and the
/// jobs and the job counter stay untouched.
pub open spec fn add_note_ok(
    pre: StoreView,
    post: StoreView,
    id: u64,
    job_id: u64,
    text: Seq<char>,
    created_at: Seq<char>,
) -> bool {
    &&& has_job(pre, job_id)
    &&& id == pre.next_note_id
    &&& post.notes == pre.notes.push(NoteView { id, job_id, text, created_at })
    &&& post.jobs == pre.jobs
    &&& post.next_note_id == id + 1
    &&& post.next_job_id == pre.next_job_id
}

/// The store. One logical owner holds it and calls the operations; every
/// result is returned by value.
pub struct Store {
    jobs: Vec<Job>,
    notes: Vec<Note>,
    next_job_id: u64,
    next_note_id: u64,
}

impl View for Store {
    type V = StoreView;

    closed spec fn view(&self) -> StoreView {
        StoreView {
            jobs: self.jobs@.map_values(|j: Job| j@),
            notes: self.notes@.map_values(|n: Note| n@),
            next_job_id: self.next_job_id,
            next_note_id: self.next_note_id,
        }
    }
}

impl Store {
    /// The store's invariant; every operation requires and preserves it.
    pub open spec fn wf(&self) -> bool {
        store_wf(self@)
    }

    /// An empty store: no records, both id counters start at 1.
    pub fn new() -> (s: Store)
        ensures
            s.wf(),
            s@.jobs == Seq::<JobView>::empty(),
            s@.notes == Seq::<NoteView>::empty(),
            s@.next_job_id == 1,
            s@.next_note_id == 1,
    {
        let s = Store { jobs: Vec::new(), notes: Vec::new(), next_job_id: 1, next_note_id: 1 };
        proof {
            assert(s@.jobs =~= Seq::<JobView>::empty());
            assert(s@.notes =~= Seq::<NoteView>::empty());
        }
        s
    }

    /// The id the next added job will get.
    pub fn next_job_id(&self) -> (r: u64)
        ensures
            r == self@.next_job_id,
    {
        self.next_job_id
    }

    /// The id the next added note will get.
    pub fn next_note_id(&self) -> (r: u64)
        ensures
            r == self@.next_note_id,
    {
        self.next_note_id
    }

    /// Adds a job with the given fields, assigning the next unused job id.
    /// The fresh id is strictly greater than the id of every job already
    /// in the store, deleted or not: ids are never reused. The strings are
    /// stored exactly as given: no validation is imposed on them, empty
    /// ones included, and adding always succeeds.
    pub fn add_job(
        &mut self,
        company: String,
        role: String,
        url: Option<String>,
        status: Status,
    ) -> (id: u64)
        requires
            old(self).wf(),
            old(self)@.next_job_id < u64::MAX,
        ensures
            final(self).wf(),
            add_job_post(old(self)@, final(self)@, id, company@, role@, opt_str_view(url), status),
            forall|i: int| 0 <= i < old(self)@.jobs.len() ==> (#[trigger] old(self)@.jobs[i]).id < id,
    {
        let ghost pre = self@;
        let id = self.next_job_id;
        let ghost jv = (JobView { id, company: company@, role: role@, url: opt_str_view(url), status });
        self.next_job_id = id + 1;
        self.jobs.push(Job { id, company, role, url, status });
        proof {
            assert(self@.jobs =~= pre.jobs.push(jv));
            assert(self@.notes =~= pre.notes);
            assert forall|n: int| 0 <= n < self@.notes.len() implies has_job(
                self@,
                (#[trigger] self@.notes[n]).job_id,
            ) by {
                let w = choose|w: int|
                    0 <= w < pre.jobs.len() && (#[trigger] pre.jobs[w]).id == pre.notes[n].job_id;
                assert(self@.jobs[w].id == self@.notes[n].job_id);
            }
        }
        id
    }

    /// Finds the position of the job with the given id, if any.
    fn find_job(&self, id: u64) -> (r: Option<usize>)
        ensures
            match r {
                Some(i) => i < self@.jobs.len() && self@.jobs[i as int].id == id,
                None => !has_job(self@, id),
            },
    {
        let mut i: usize = 0;
        while i < self.jobs.len()
            invariant
                i <= self@.jobs.len(),
                self@.jobs.len() == self.jobs@.len(),
                forall|k: int| 0 <= k < i ==> (#[trigger] self@.jobs[k]).id != id,
            decreases self@.jobs.len() - i,
        {
            if self.jobs[i].id == id {
                return Some(i);
            }
            i = i + 1;
        }
        None
    }

    /// Lists all jobs, newest first: the result is the stored sequence in
    /// reverse, so ids strictly decrease along it. An empty store yields
    /// an empty listing, not an error.
    pub fn list_jobs(&self) -> (out: Vec<Job>)
        requires
            self.wf(),
        ensures
            out@.map_values(|j: Job| j@) == listed_jobs(self@),
            out@.len() == self@.jobs.len(),
            forall|i: int| 0 <= i < out@.len() ==> (#[trigger] out@[i])@ == listed_jobs(self@)[i],
            forall|a: int, b: int|
                0 <= a < b < out@.len() ==> (#[trigger] out@[a])@.id > (#[trigger] out@[b])@.id,
    {
        let n = self.jobs.len();
        let mut out: Vec<Job> = Vec::new();
        let mut k: usize = 0;
        while k < n
            invariant
                k <= n,
                n == self@.jobs.len(),
                n == self.jobs@.len(),
                out@.len() == k,
                forall|a: int| 0 <= a < k ==> (#[trigger] out@[a])@ == self@.jobs[n - 1 - a],
            decreases n - k,
        {
            let j = &self.jobs[n - 1 - k];
            out.push(
                Job {
                    id: j.id,
                    company: j.company.clone(),
                    role: j.role.clone(),
                    url: clone_opt_string(&j.url),
                    status: j.status,
                },
            );
            k = k + 1;
        }
        proof {
            assert(out@.map_values(|j: Job| j@) =~= listed_jobs(self@));
        }
        out
    }

    /// Changes the status of the job with the given id in place, leaving
    /// every other field and every other record untouched. Fails with
    /// `NotFound` — mutating nothing — exactly when no such job exists.
    pub fn update_status(&mut self, id: u64, status: Status) -> (r: Result<(), DbError>)
        requires
            old(self).wf(),
        ensures
            final(self).wf(),
            (r is Ok) <==> has_job(old(self)@, id),
            r is Err ==> final(self)@ == old(self)@ && r == Err::<(), DbError>(
                DbError::NotFound(id),
            ),
            r is Ok ==> update_status_ok(old(self)@, final(self)@, id, status),
    {
        let ghost pre = self@;
        match self.find_job(id) {
            Some(i) => {
                let jb = self.jobs.remove(i);
                let nj = Job {
                    id: jb.id,
                    company: jb.company,
                    role: jb.role,
                    url: jb.url,
                    status,
                };
                self.jobs.insert(i, nj);
                proof {
                    assert(pre.jobs[i as int].id == id);
                    assert(has_job(pre, id));
                    assert(self@.jobs =~= pre.jobs.update(
                        i as int,
                        with_status(pre.jobs[i as int], status),
                    ));
                    assert forall|k: int| 0 <= k < pre.jobs.len() implies (#[trigger] self@.jobs[k]).id
                        == pre.jobs[k].id by {}
                    assert forall|k: int|
                        0 <= k < pre.jobs.len() && (#[trigger] pre.jobs[k]).id == id implies self@.jobs[k]
                        == with_status(pre.jobs[k], status) by {
                        if k < i {
                            assert(pre.jobs[k].id < pre.jobs[i as int].id);
                        } else if k > i {
                            assert(pre.jobs[i as int].id < pre.jobs[k].id);
                        }
                    }
                    assert forall|n: int| 0 <= n < self@.notes.len() implies has_job(
                        self@,
                        (#[trigger] self@.notes[n]).job_id,
                    ) by {
                        let w = choose|w: int|
                            0 <= w < pre.jobs.len() && (#[trigger] pre.jobs[w]).id
                                == pre.notes[n].job_id;
                        assert(self@.jobs[w].id == self@.notes[n].job_id);
                    }
                }
                Ok(())
            },
            None => Err(DbError::NotFound(id)),
        }
    }

    /// Removes the job with the given id and, atomically with it, every
    /// note that references it; all other records and both id counters
    /// stay untouched. Fails with `NotFound` — mutating nothing — exactly
    /// when no such job exists.
    pub fn delete_job(&mut self, id: u64) -> (r: Result<(), DbError>)
        requires
            old(self).wf(),
        ensures
            final(self).wf(),
            (r is Ok) <==> has_job(old(self)@, id),
            r is Err ==> final(self)@ == old(self)@ && r == Err::<(), DbError>(
                DbError::NotFound(id),
            ),
            r is Ok ==> delete_job_ok(old(self)@, final(self)@, id),
    {
        let ghost pre = self@;
        match self.find_job(id) {
            None => Err(DbError::NotFound(id)),
            Some(i) => {
                self.jobs.remove(i);
                proof {
                    assert(pre.jobs[i as int].id == id);
                    assert(has_job(pre, id));
                    assert(self@.jobs =~= pre.jobs.remove(i as int));
                    assert forall|k: int|
                        0 <= k < pre.jobs.len() && k != i implies (job_survives(id))(
                        #[trigger] pre.jobs[k],
                    ) by {
                        if k < i {
                            assert(pre.jobs[k].id < pre.jobs[i as int].id);
                        } else {
                            assert(pre.jobs[i as int].id < pre.jobs[k].id);
                        }
                    }
                    lemma_filter_removes_one(pre.jobs, job_survives(id), i as int);
                }
                let mut kept: Vec<Note> = Vec::new();
                let m = self.notes.len();
                let mut k: usize = 0;
                while k < m
                    invariant
                        k <= m,
                        m == self.notes@.len(),
                        pre.notes == self.notes@.map_values(|n: Note| n@),
                        kept@.map_values(|n: Note| n@) == pre.notes.subrange(0, k as int).filter(
                            note_survives(id),
                        ),
                    decreases m - k,
                {
                    let ghost kv = kept@.map_values(|n: Note| n@);
                    let ghost el = pre.notes[k as int];
                    let n = &self.notes[k];
                    if n.job_id != id {
                        kept.push(
                            Note {
                                id: n.id,
                                job_id: n.job_id,
                                text: n.text.clone(),
                                created_at: n.created_at.clone(),
                            },
                        );
                    }
                    k = k + 1;
                    proof {
                        let s01 = pre.notes.subrange(0, k - 1);
                        assert(pre.notes.subrange(0, k as int) =~= s01 + seq![el]);
                        Seq::filter_distributes_over_add(s01, seq![el], note_survives(id));
                        reveal_with_fuel(Seq::filter, 2);
                        assert(seq![el].drop_last() =~= Seq::<NoteView>::empty());
                        assert(seq![el].last() == el);
                        if el.job_id != id {
                            assert(seq![el].filter(note_survives(id)) =~= seq![el]);
                            assert(kept@.map_values(|n: Note| n@) =~= kv.push(el));
                        } else {
                            assert(seq![el].filter(note_survives(id)) =~= Seq::<NoteView>::empty());
                            assert(s01 + seq![el].filter(note_survives(id)) =~= s01);
                        }
                    }
                }
                self.notes = kept;
                proof {
                    assert(pre.notes.subrange(0, m as int) =~= pre.notes);
                    assert(self@.notes == pre.notes.filter(note_survives(id)));
                    assert(self@.jobs == pre.jobs.filter(job_survives(id)));
                    self.lemma_wf_after_delete(pre, id);
                }
                Ok(())
            },
        }
    }

    /// Attaches a note to the job with the given id, assigning the next
    /// unused note id (an independent namespace from job ids, also never
    /// reused). The caller supplies the timestamp: the clock is an outside
    /// collaborator. Fails with `NotFound` — mutating nothing — exactly
    /// when no such job exists; the check happens before the insertion, so
    /// failure never leaves an orphaned note behind.
    pub fn add_note(&mut self, job_id: u64, text: String, created_at: String) -> (r: Result<
        u64,
        DbError,
    >)
        requires
            old(self).wf(),
            old(self)@.next_note_id < u64::MAX,
        ensures
            final(self).wf(),
            (r is Ok) <==> has_job(old(self)@, job_id),
            r is Err ==> final(self)@ == old(self)@ && r == Err::<u64, DbError>(
                DbError::NotFound(job_id),
            ),
            (r matches Ok(id) ==> add_note_ok(
                old(self)@,
                final(self)@,
                id,
                job_id,
                text@,
                created_at@,
            )),
    {
        let ghost pre = self@;
        match self.find_job(job_id) {
            None => Err(DbError::NotFound(job_id)),
            Some(i) => {
                let id = self.next_note_id;
                let ghost nv = (NoteView { id, job_id, text: text@, created_at: created_at@ });
                self.next_note_id = id + 1;
                self.notes.push(Note { id, job_id, text, created_at });
                proof {
                    assert(pre.jobs[i as int].id == job_id);
                    assert(has_job(pre, job_id));
                    assert(self@.notes =~= pre.notes.push(nv));
                    assert(self@.jobs =~= pre.jobs);
                    assert forall|n: int| 0 <= n < self@.notes.len() implies has_job(
                        self@,
                        (#[trigger] self@.notes[n]).job_id,
                    ) by {
                        if n < pre.notes.len() {
                            let w = choose|w: int|
                                0 <= w < pre.jobs.len() && (#[trigger] pre.jobs[w]).id
                                    == pre.notes[n].job_id;
                            assert(self@.jobs[w].id == self@.notes[n].job_id);
                        } else {
                            assert(self@.jobs[i as int].id == self@.notes[n].job_id);
                        }
                    }
                }
                Ok(id)
            },
        }
    }

    /// Lists the notes of the job with the given id, newest first: the
    /// notes referencing it, in reverse insertion order, so ids strictly
    /// decrease along the result. Fails with `NotFound` exactly when no
    /// such job exists — a job with zero notes yields an empty listing,
    /// a missing job an error.
    pub fn list_notes(&self, job_id: u64) -> (r: Result<Vec<Note>, DbError>)
        requires
            self.wf(),
        ensures
            (r is Ok) <==> has_job(self@, job_id),
            r is Err ==> r == Err::<Vec<Note>, DbError>(DbError::NotFound(job_id)),
            (r matches Ok(out) ==> {
                &&& out@.map_values(|n: Note| n@) == listed_notes(self@, job_id)
                &&& out@.len() == listed_notes(self@, job_id).len()
                &&& forall|i: int|
                    0 <= i < out@.len() ==> (#[trigger] out@[i])@ == listed_notes(self@, job_id)[i]
                &&& forall|a: int, b: int|
                    0 <= a < b < out@.len() ==> (#[trigger] out@[a])@.id > (#[trigger] out@[b])@.id
            }),
    {
        match self.find_job(job_id) {
            None => Err(DbError::NotFound(job_id)),
            Some(i) => {
                proof {
                    assert(self@.jobs[i as int].id == job_id);
                }
                let mut asc: Vec<Note> = Vec::new();
                let m = self.notes.len();
                let mut k: usize = 0;
                while k < m
                    invariant
                        k <= m,
                        m == self.notes@.len(),
                        asc@.map_values(|n: Note| n@) == self@.notes.subrange(0, k as int).filter(
                            is_note_of(job_id),
                        ),
                    decreases m - k,
                {
                    let ghost av = asc@.map_values(|n: Note| n@);
                    let ghost el = self@.notes[k as int];
                    let n = &self.notes[k];
                    if n.job_id == job_id {
                        asc.push(
                            Note {
                                id: n.id,
                                job_id: n.job_id,
                                text: n.text.clone(),
                                created_at: n.created_at.clone(),
                            },
                        );
                    }
                    k = k + 1;
                    proof {
                        let s01 = self@.notes.subrange(0, k - 1);
                        assert(self@.notes.subrange(0, k as int) =~= s01 + seq![el]);
                        Seq::filter_distributes_over_add(s01, seq![el], is_note_of(job_id));
                        reveal_with_fuel(Seq::filter, 2);
                        assert(seq![el].drop_last() =~= Seq::<NoteView>::empty());
                        assert(seq![el].last() == el);
                        if el.job_id == job_id {
                            assert(seq![el].filter(is_note_of(job_id)) =~= seq![el]);
                            assert(asc@.map_values(|n: Note| n@) =~= av.push(el));
                        } else {
                            assert(seq![el].filter(is_note_of(job_id)) =~= Seq::<NoteView>::empty());
                            assert(s01 + seq![el].filter(is_note_of(job_id)) =~= s01);
                        }
                    }
                }
                proof {
                    assert(self@.notes.subrange(0, m as int) =~= self@.notes);
                    lemma_filter_preserves_increasing(
                        self@.notes,
                        is_note_of(job_id),
                        |n: NoteView| n.id,
                    );
                }
                let ghost f = self@.notes.filter(is_note_of(job_id));
                let t = asc.len();
                let mut out: Vec<Note> = Vec::new();
                let mut q: usize = 0;
                while q < t
                    invariant
                        q <= t,
                        t == asc@.len(),
                        asc@.map_values(|n: Note| n@) == f,
                        out@.len() == q,
                        forall|a: int| 0 <= a < q ==> (#[trigger] out@[a])@ == f[t - 1 - a],
                    decreases t - q,
                {
                    let n = &asc[t - 1 - q];
                    out.push(
                        Note {
                            id: n.id,
                            job_id: n.job_id,
                            text: n.text.clone(),
                            created_at: n.created_at.clone(),
                        },
                    );
                    q = q + 1;
                }
                proof {
                    assert(out@.map_values(|n: Note| n@) =~= listed_notes(self@, job_id));
                }
                Ok(out)
            },
        }
    }

    /// The invariant survives a cascade delete.
    proof fn lemma_wf_after_delete(&self, pre: StoreView, id: u64)
        requires
            store_wf(pre),
            self@.jobs == pre.jobs.filter(job_survives(id)),
            self@.notes == pre.notes.filter(note_survives(id)),
            self@.next_job_id == pre.next_job_id,
            self@.next_note_id == pre.next_note_id,
        ensures
            self.wf(),
    {
        broadcast use vstd::seq_lib::group_filter_ensures;

        let post = self@;
        lemma_filter_preserves_increasing(pre.jobs, job_survives(id), |j: JobView| j.id);
        lemma_filter_preserves_increasing(pre.notes, note_survives(id), |n: NoteView| n.id);
        assert forall|a: int| 0 <= a < post.jobs.len() implies 1 <= (#[trigger] post.jobs[a]).id
            < post.next_job_id by {
            lemma_filter_element_source(pre.jobs, job_survives(id), a);
            let w = choose|w: int| 0 <= w < pre.jobs.len() && #[trigger] pre.jobs[w] == post.jobs[a];
        }
        assert forall|a: int| 0 <= a < post.notes.len() implies 1 <= (#[trigger] post.notes[a]).id
            < post.next_note_id by {
            lemma_filter_element_source(pre.notes, note_survives(id), a);
            let w = choose|w: int|
                0 <= w < pre.notes.len() && #[trigger] pre.notes[w] == post.notes[a];
        }
        assert forall|n: int| 0 <= n < post.notes.len() implies has_job(
            post,
            (#[trigger] post.notes[n]).job_id,
        ) by {
            lemma_filter_element_source(pre.notes, note_survives(id), n);
            let src = choose|w: int|
                0 <= w < pre.notes.len() && #[trigger] pre.notes[w] == post.notes[n];
            assert(has_job(pre, pre.notes[src].job_id));
            let w = choose|w: int|
                0 <= w < pre.jobs.len() && (#[trigger] pre.jobs[w]).id == pre.notes[src].job_id;
            assert((job_survives(id))(pre.jobs[w]));
            assert(pre.jobs.filter(job_survives(id)).contains(pre.jobs[w]));
            let q = choose|q: int|
                0 <= q < post.jobs.len() && #[trigger] post.jobs[q] == pre.jobs[w];
            assert(post.jobs[q].id == post.notes[n].job_id);
        }
    }
}

/// Every element the filter keeps comes from the original sequence.
proof fn lemma_filter_element_source<A>(s: Seq<A>, pred: spec_fn(A) -> bool, k: int)
    requires
        0 <= k < s.filter(pred).len(),
    ensures
        exists|i: int| 0 <= i < s.len() && #[trigger] s[i] == s.filter(pred)[k],
    decreases s.len(),
{
    reveal(Seq::filter);
    if s.len() == 0 {
    } else {
        let dl = s.drop_last();
        if k < dl.filter(pred).len() {
            lemma_filter_element_source(dl, pred, k);
            let i = choose|i: int| 0 <= i < dl.len() && #[trigger] dl[i] == dl.filter(pred)[k];
            assert(s[i] == s.filter(pred)[k]);
        } else {
            assert(s[s.len() - 1] == s.filter(pred)[k]);
        }
    }
}

/// Filtering a sequence whose every element passes keeps it unchanged.
proof fn lemma_filter_keeps_all<A>(s: Seq<A>, pred: spec_fn(A) -> bool)
    requires
        forall|i: int| 0 <= i < s.len() ==> pred(#[trigger] s[i]),
    ensures
        s.filter(pred) == s,
    decreases s.len(),
{
    reveal(Seq::filter);
    if s.len() == 0 {
        assert(s.filter(pred) =~= s);
    } else {
        lemma_filter_keeps_all(s.drop_last(), pred);
        assert(pred(s.last()));
        assert(s.filter(pred) =~= s);
    }
}

/// Filtering a sequence that fails the predicate only at one position
/// removes exactly that element.
proof fn lemma_filter_removes_one<A>(s: Seq<A>, pred: spec_fn(A) -> bool, i: int)
    requires
        0 <= i < s.len(),
        !pred(s[i]),
        forall|k: int| 0 <= k < s.len() && k != i ==> pred(#[trigger] s[k]),
    ensures
        s.filter(pred) == s.remove(i),
{
    let a = s.subrange(0, i);
    let m = s.subrange(i, i + 1);
    let b = s.subrange(i + 1, s.len() as int);
    assert(s =~= a + m + b);
    Seq::filter_distributes_over_add(a + m, b, pred);
    Seq::filter_distributes_over_add(a, m, pred);
    lemma_filter_keeps_all(a, pred);
    lemma_filter_keeps_all(b, pred);
    reveal_with_fuel(Seq::filter, 2);
    assert(m.len() == 1 && m[0] == s[i]);
    assert(m.last() == s[i]);
    assert(m.drop_last() =~= Seq::<A>::empty());
    assert(m.filter(pred) =~= Seq::<A>::empty());
    assert(s.filter(pred) =~= a + b);
    assert(s.remove(i) =~= a + b);
}

/// Filtering preserves a strictly increasing key.
proof fn lemma_filter_preserves_increasing<A>(
    s: Seq<A>,
    pred: spec_fn(A) -> bool,
    key: spec_fn(A) -> u64,
)
    requires
        forall|i: int, j: int| 0 <= i < j < s.len() ==> key(#[trigger] s[i]) < key(#[trigger] s[j]),
    ensures
        forall|i: int, j: int|
            0 <= i < j < s.filter(pred).len() ==> key(#[trigger] s.filter(pred)[i]) < key(
                #[trigger] s.filter(pred)[j],
            ),
    decreases s.len(),
{
    reveal(Seq::filter);
    if s.len() == 0 {
    } else {
        let dl = s.drop_last();
        lemma_filter_preserves_increasing(dl, pred, key);
        let f = s.filter(pred);
        let fdl = dl.filter(pred);
        if pred(s.last()) {
            assert(f == fdl.push(s.last()));
            assert forall|i: int, j: int| 0 <= i < j < f.len() implies key(f[i]) < key(f[j]) by {
                if j < fdl.len() {
                    assert(f[i] == fdl[i] && f[j] == fdl[j]);
                } else {
                    assert(f[i] == fdl[i]);
                    lemma_filter_element_source(dl, pred, i);
                    let w = choose|w: int| 0 <= w < dl.len() && #[trigger] dl[w] == fdl[i];
                    assert(key(s[w]) < key(s[s.len() - 1]));
                }
            }
        } else {
            assert(f == fdl);
        }
    }
}

/// Copies an optional string.
fn clone_opt_string(u: &Option<String>) -> (r: Option<String>)
    ensures
        opt_str_view(r) == opt_str_view(*u),
{
    match u {
        Some(s) => Some(s.clone()),
        None => None,
    }
}

} // verus!

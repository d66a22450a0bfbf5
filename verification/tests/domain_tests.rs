use job_tracker::model::{Status, status_to_str, str_to_status};
use job_tracker::store::{DbError, Store};

#[test]
fn status_tokens_round_trip() {
    assert_eq!(status_to_str(Status::Applied), "applied");
    assert_eq!(status_to_str(Status::Interviewing), "interviewing");
    assert_eq!(status_to_str(Status::Offer), "offer");
    assert_eq!(status_to_str(Status::Rejected), "rejected");
    assert_eq!(str_to_status("applied"), Status::Applied);
    assert_eq!(str_to_status("interviewing"), Status::Interviewing);
    assert_eq!(str_to_status("offer"), Status::Offer);
    assert_eq!(str_to_status("rejected"), Status::Rejected);
}

#[test]
fn status_unrecognized_token_falls_back_to_applied() {
    assert_eq!(str_to_status("hired"), Status::Applied);
    assert_eq!(str_to_status("Offer"), Status::Applied);
    assert_eq!(str_to_status(""), Status::Applied);
}

#[test]
fn add_then_list_shows_all_fields() {
    let mut s = Store::new();
    let id = s.add_job(
        "Acme".into(),
        "Backend Engineer".into(),
        Some("https://acme.example/jobs/1".into()),
        Status::Rejected,
    );
    let jobs = s.list_jobs();
    assert_eq!(jobs.len(), 1);
    assert_eq!(jobs[0].id, id);
    assert_eq!(jobs[0].company, "Acme");
    assert_eq!(jobs[0].role, "Backend Engineer");
    assert_eq!(jobs[0].url.as_deref(), Some("https://acme.example/jobs/1"));
    assert_eq!(jobs[0].status, Status::Rejected);
}

#[test]
fn first_job_gets_id_one() {
    let mut s = Store::new();
    let id = s.add_job("Acme".into(), "Backend Engineer".into(), None, Status::Applied);
    assert_eq!(id, 1);
    let jobs = s.list_jobs();
    assert_eq!(jobs.len(), 1);
    assert_eq!(jobs[0].id, 1);
    assert_eq!(jobs[0].company, "Acme");
    assert_eq!(jobs[0].status, Status::Applied);
}

#[test]
fn update_status_shows_in_listing() {
    let mut s = Store::new();
    let id = s.add_job("Acme".into(), "Backend Engineer".into(), None, Status::Applied);
    assert_eq!(id, 1);
    assert_eq!(s.update_status(1, Status::Interviewing), Ok(()));
    let jobs = s.list_jobs();
    assert_eq!(jobs[0].status, Status::Interviewing);
    assert_eq!(jobs[0].company, "Acme");
    assert_eq!(jobs[0].role, "Backend Engineer");
    assert_eq!(jobs[0].url, None);
}

#[test]
fn notes_have_their_own_ids_and_die_with_the_job() {
    let mut s = Store::new();
    let id = s.add_job("Acme".into(), "Backend Engineer".into(), None, Status::Applied);
    assert_eq!(id, 1);
    assert_eq!(s.add_note(1, "note 1".into(), "t1".into()), Ok(1));
    assert_eq!(s.add_note(1, "note 2".into(), "t2".into()), Ok(2));
    assert_eq!(s.delete_job(1), Ok(()));
    assert_eq!(s.list_notes(1).unwrap_err(), DbError::NotFound(1));
}

#[test]
fn update_status_on_empty_store_is_not_found() {
    let mut s = Store::new();
    assert_eq!(s.update_status(999, Status::Offer), Err(DbError::NotFound(999)));
}

#[test]
fn missing_job_is_not_found_everywhere() {
    let mut s = Store::new();
    s.add_job("Acme".into(), "Backend".into(), None, Status::Applied);
    assert_eq!(s.add_note(5, "lost".into(), "t".into()), Err(DbError::NotFound(5)));
    assert_eq!(s.delete_job(5), Err(DbError::NotFound(5)));
    assert_eq!(s.update_status(5, Status::Offer), Err(DbError::NotFound(5)));
    assert_eq!(s.list_notes(5).unwrap_err(), DbError::NotFound(5));
}

#[test]
fn empty_store_lists_no_jobs() {
    let s = Store::new();
    assert!(s.list_jobs().is_empty());
}

#[test]
fn list_notes_is_scoped_and_newest_first() {
    let mut s = Store::new();
    let a = s.add_job("Acme".into(), "Backend".into(), None, Status::Applied);
    let b = s.add_job("Beta".into(), "Frontend".into(), None, Status::Applied);
    assert_eq!(s.add_note(a, "first on a".into(), "t1".into()), Ok(1));
    assert_eq!(s.add_note(b, "first on b".into(), "t2".into()), Ok(2));
    assert_eq!(s.add_note(a, "second on a".into(), "t3".into()), Ok(3));
    let notes = s.list_notes(a).unwrap();
    assert_eq!(notes.len(), 2);
    assert_eq!(notes[0].id, 3);
    assert_eq!(notes[0].text, "second on a");
    assert_eq!(notes[0].job_id, a);
    assert_eq!(notes[0].created_at, "t3");
    assert_eq!(notes[1].id, 1);
    assert_eq!(notes[1].text, "first on a");
    let b_notes = s.list_notes(b).unwrap();
    assert_eq!(b_notes.len(), 1);
    assert_eq!(b_notes[0].id, 2);
}

#[test]
fn job_with_no_notes_lists_empty_not_error() {
    let mut s = Store::new();
    let id = s.add_job("Acme".into(), "Backend".into(), None, Status::Applied);
    let notes = s.list_notes(id).unwrap();
    assert!(notes.is_empty());
}

#[test]
fn deleted_job_id_is_never_reused() {
    let mut s = Store::new();
    let a = s.add_job("Acme".into(), "Backend".into(), None, Status::Applied);
    assert_eq!(s.delete_job(a), Ok(()));
    let b = s.add_job("Beta".into(), "Frontend".into(), None, Status::Applied);
    assert!(b > a);
    assert_eq!(b, 2);
}

#[test]
fn delete_leaves_other_jobs_and_notes_alone() {
    let mut s = Store::new();
    let a = s.add_job("Acme".into(), "Backend".into(), None, Status::Applied);
    let b = s.add_job("Beta".into(), "Frontend".into(), None, Status::Offer);
    assert_eq!(s.add_note(a, "gone".into(), "t1".into()), Ok(1));
    assert_eq!(s.add_note(b, "kept".into(), "t2".into()), Ok(2));
    assert_eq!(s.delete_job(a), Ok(()));
    let jobs = s.list_jobs();
    assert_eq!(jobs.len(), 1);
    assert_eq!(jobs[0].id, b);
    assert_eq!(jobs[0].company, "Beta");
    let notes = s.list_notes(b).unwrap();
    assert_eq!(notes.len(), 1);
    assert_eq!(notes[0].text, "kept");
}

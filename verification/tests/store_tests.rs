use job_tracker::model::Status;
use job_tracker::store::Store;

#[test]
fn smoke_still_passes() {
    assert_eq!(2 + 2, 4);
}

#[test]
fn add_job_increments_ids() {
    let mut s = Store::new();
    let a = s.add_job("Acme".into(), "Backend".into(), None, Status::Applied);
    let b = s.add_job("Beta".into(), "Rust Dev".into(), None, Status::Interviewing);
    assert_eq!(a, 1);
    assert_eq!(b, 2);
}

#[test]
fn list_jobs_newest_first() {
    let mut s = Store::new();
    s.add_job("A".into(), "R1".into(), None, Status::Applied);
    s.add_job("B".into(), "R2".into(), None, Status::Applied);
    let jobs = s.list_jobs();
    assert_eq!(jobs[0].company, "B");
    assert_eq!(jobs[1].company, "A");
}

#[test]
fn delete_job_cascades_notes() {
    let mut s = Store::new();
    let job_id = s.add_job("Acme".into(), "Backend".into(), None, Status::Applied);
    s.add_note(job_id, "note 1".into(), "2024-01-01 00:00:00".into())
        .unwrap();
    s.add_note(job_id, "note 2".into(), "2024-01-01 00:00:01".into())
        .unwrap();
    s.delete_job(job_id).unwrap();
    let remaining = s.list_notes(job_id);
    assert!(remaining.is_err());
}

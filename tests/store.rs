use opxs_jobs::job::{JobError, JobStatus, JobType};
use opxs_jobs::store::JobStore;

fn store_with(id: &str, status: JobStatus) -> JobStore {
    let mut s = JobStore::new();
    s.create(id, JobType::ImageConvert, "{\"k\":1}", 10).unwrap();
    let steps = [JobStatus::Waiting, JobStatus::Processing, JobStatus::Completed];
    let mut cur = JobStatus::Preparing;
    for next in steps {
        if cur == status {
            break;
        }
        s.transition(id, cur, next, 20).unwrap();
        cur = next;
    }
    s
}

#[test]
fn create_starts_in_preparing() {
    let mut s = JobStore::new();
    let r = s.create("J1", JobType::EmailSend, "params", 5).unwrap();
    assert_eq!(r.id, "J1");
    assert_eq!(r.status, JobStatus::Preparing);
    assert_eq!(r.job_type, JobType::EmailSend);
    assert_eq!(r.param, "params");
    assert_eq!(r.created_at, 5);
    assert_eq!(r.updated_at, 5);
    let g = s.get("J1").unwrap();
    assert_eq!(g.status, JobStatus::Preparing);
}

#[test]
fn create_duplicate_id_already_exists() {
    let mut s = JobStore::new();
    s.create("J1", JobType::EmailSend, "a", 5).unwrap();
    let r = s.create("J1", JobType::ImageConvert, "b", 6);
    assert!(matches!(r, Err(JobError::AlreadyExists)));
    assert_eq!(s.get("J1").unwrap().param, "a");
}

#[test]
fn get_missing_is_not_found() {
    let s = JobStore::new();
    assert!(matches!(s.get("nope"), Err(JobError::NotFound)));
}

#[test]
fn forward_transitions_update_time() {
    let mut s = JobStore::new();
    s.create("J", JobType::ImageConvert, "", 1).unwrap();
    s.update_status_to_waiting("J", 2).unwrap();
    s.update_status_to_processing("J", 3).unwrap();
    s.update_status_to_completed("J", 4).unwrap();
    let g = s.get("J").unwrap();
    assert_eq!(g.status, JobStatus::Completed);
    assert_eq!(g.created_at, 1);
    assert_eq!(g.updated_at, 4);
}

#[test]
fn transition_with_wrong_expected_conflicts() {
    let mut s = store_with("J", JobStatus::Waiting);
    let r = s.transition("J", JobStatus::Processing, JobStatus::Completed, 99);
    assert_eq!(r, Err(JobError::TransitionConflict));
    let g = s.get("J").unwrap();
    assert_eq!(g.status, JobStatus::Waiting);
    assert_eq!(g.updated_at, 20);
}

#[test]
fn transition_of_missing_job_conflicts() {
    let mut s = JobStore::new();
    assert_eq!(
        s.transition("J", JobStatus::Waiting, JobStatus::Processing, 1),
        Err(JobError::TransitionConflict)
    );
}

#[test]
fn skipping_a_step_conflicts() {
    let mut s = store_with("J", JobStatus::Waiting);
    assert_eq!(
        s.transition("J", JobStatus::Waiting, JobStatus::Completed, 1),
        Err(JobError::TransitionConflict)
    );
    assert_eq!(s.get("J").unwrap().status, JobStatus::Waiting);
}

#[test]
fn backward_move_always_fails() {
    for st in [JobStatus::Preparing, JobStatus::Waiting, JobStatus::Processing, JobStatus::Completed] {
        let mut s = store_with("J", st);
        let r = s.transition("J", JobStatus::Completed, JobStatus::Processing, 77);
        assert_eq!(r, Err(JobError::TransitionConflict));
        assert_eq!(s.get("J").unwrap().status, st);
    }
}

#[test]
fn racing_claims_have_one_winner() {
    for n in 1..6 {
        let mut s = store_with("J", JobStatus::Waiting);
        let mut ok = 0;
        let mut conflicts = 0;
        for k in 0..n {
            match s.update_status_to_processing("J", 100 + k) {
                Ok(()) => ok += 1,
                Err(JobError::TransitionConflict) => conflicts += 1,
                Err(e) => panic!("unexpected {:?}", e),
            }
        }
        assert_eq!(ok, 1);
        assert_eq!(conflicts, n - 1);
        assert_eq!(s.get("J").unwrap().updated_at, 100);
    }
}

#[test]
fn can_advance_to_only_next() {
    assert!(JobStatus::Preparing.can_advance_to(JobStatus::Waiting));
    assert!(JobStatus::Waiting.can_advance_to(JobStatus::Processing));
    assert!(JobStatus::Processing.can_advance_to(JobStatus::Completed));
    assert!(!JobStatus::Completed.can_advance_to(JobStatus::Processing));
    assert!(!JobStatus::Waiting.can_advance_to(JobStatus::Waiting));
    assert!(!JobStatus::Preparing.can_advance_to(JobStatus::Processing));
}

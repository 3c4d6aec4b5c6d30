use opxs_jobs::executor::{batch_result, claim_item, execute, finish_item, run_item, ItemOutcome};
use opxs_jobs::processor::{ByJobType, LoggedProcessor, SideEffectProcessor};
use opxs_jobs::job::{JobError, JobRecord, JobStatus, JobType};
use opxs_jobs::store::JobStore;

struct Recorder {
    calls: Vec<String>,
    failing: Vec<String>,
}

impl SideEffectProcessor for Recorder {
    fn process(&mut self, job: &JobRecord) -> Result<(), String> {
        self.calls.push(job.id.clone());
        if self.failing.contains(&job.id) {
            Err(format!("send failed for {}", job.id))
        } else {
            Ok(())
        }
    }
}

fn waiting_store(ids: &[&str]) -> JobStore {
    let mut s = JobStore::new();
    for id in ids {
        s.create(id, JobType::EmailSend, "p", 1).unwrap();
        s.update_status_to_waiting(id, 2).unwrap();
    }
    s
}

fn ids(v: &[&str]) -> Vec<String> {
    v.iter().map(|s| s.to_string()).collect()
}

#[test]
fn replayed_batch_processes_each_job_once() {
    let mut s = waiting_store(&["A", "B", "C"]);
    let batch = ids(&["A", "B", "C"]);
    let mut p = LoggedProcessor::new(Recorder { calls: vec![], failing: vec![] });
    let first = execute(&mut s, &batch, &mut p, 10);
    let second = execute(&mut s, &batch, &mut p, 11);
    assert_eq!(p.processor().calls, ids(&["A", "B", "C"]));
    assert_eq!(first, vec![ItemOutcome::Completed; 3]);
    assert_eq!(second, vec![ItemOutcome::Skipped; 3]);
    assert_eq!(batch_result(&first), Ok(()));
    assert_eq!(batch_result(&second), Ok(()));
    for id in ["A", "B", "C"] {
        let g = s.get(id).unwrap();
        assert_eq!(g.status, JobStatus::Completed);
        assert_eq!(g.updated_at, 10);
    }
}

#[test]
fn duplicate_id_in_one_batch_processed_once() {
    let mut s = waiting_store(&["A"]);
    let mut p = LoggedProcessor::new(Recorder { calls: vec![], failing: vec![] });
    let outs = execute(&mut s, &ids(&["A", "A"]), &mut p, 3);
    assert_eq!(outs, vec![ItemOutcome::Completed, ItemOutcome::Skipped]);
    assert_eq!(p.processor().calls.len(), 1);
}

#[test]
fn failing_item_does_not_stop_the_batch() {
    let mut s = waiting_store(&["J1", "J2", "J3"]);
    let mut p = LoggedProcessor::new(Recorder { calls: vec![], failing: ids(&["J2"]) });
    let outs = execute(&mut s, &ids(&["J1", "J2", "J3"]), &mut p, 50);
    assert_eq!(p.processor().calls, ids(&["J1", "J2", "J3"]));
    assert_eq!(
        outs,
        vec![
            ItemOutcome::Completed,
            ItemOutcome::ProcessorFailed("send failed for J2".to_string()),
            ItemOutcome::Completed
        ]
    );
    assert_eq!(s.get("J1").unwrap().status, JobStatus::Completed);
    assert_eq!(s.get("J2").unwrap().status, JobStatus::Processing);
    assert_eq!(s.get("J3").unwrap().status, JobStatus::Completed);
    assert_eq!(
        batch_result(&outs),
        Err(JobError::ProcessorError("send failed for J2".to_string()))
    );
}

#[test]
fn failed_job_is_not_retried_by_redelivery() {
    let mut s = waiting_store(&["J"]);
    let mut p = LoggedProcessor::new(Recorder { calls: vec![], failing: ids(&["J"]) });
    let first = execute(&mut s, &ids(&["J"]), &mut p, 5);
    let second = execute(&mut s, &ids(&["J"]), &mut p, 6);
    assert_eq!(p.processor().calls.len(), 1);
    assert!(matches!(first[0], ItemOutcome::ProcessorFailed(_)));
    assert_eq!(second, vec![ItemOutcome::Skipped]);
    assert_eq!(s.get("J").unwrap().status, JobStatus::Processing);
}

#[test]
fn missing_job_reports_not_found() {
    let mut s = waiting_store(&["A"]);
    let mut p = LoggedProcessor::new(Recorder { calls: vec![], failing: vec![] });
    let outs = execute(&mut s, &ids(&["ghost", "A"]), &mut p, 5);
    assert_eq!(outs, vec![ItemOutcome::NotFound, ItemOutcome::Completed]);
    assert_eq!(batch_result(&outs), Err(JobError::NotFound));
    assert_eq!(p.processor().calls, ids(&["A"]));
}

#[test]
fn job_still_preparing_is_skipped() {
    let mut s = JobStore::new();
    s.create("P", JobType::ImageConvert, "", 1).unwrap();
    let mut p = LoggedProcessor::new(Recorder { calls: vec![], failing: vec![] });
    let o = run_item(&mut s, "P", &mut p, 2);
    assert_eq!(o, ItemOutcome::Skipped);
    assert!(p.processor().calls.is_empty());
    assert_eq!(s.get("P").unwrap().status, JobStatus::Preparing);
}

#[test]
fn first_failure_is_reported() {
    let outs = vec![
        ItemOutcome::Skipped,
        ItemOutcome::ProcessorFailed("x".to_string()),
        ItemOutcome::NotFound,
    ];
    assert_eq!(batch_result(&outs), Err(JobError::ProcessorError("x".to_string())));
    assert_eq!(batch_result(&vec![]), Ok(()));
}

#[test]
fn processor_chosen_by_job_type() {
    let mut s = JobStore::new();
    s.create("E", JobType::EmailSend, "", 1).unwrap();
    s.create("I", JobType::ImageConvert, "", 1).unwrap();
    s.update_status_to_waiting("E", 2).unwrap();
    s.update_status_to_waiting("I", 2).unwrap();
    let mut p = LoggedProcessor::new(ByJobType {
        email_send: Recorder { calls: vec![], failing: vec![] },
        image_convert: Recorder { calls: vec![], failing: vec![] },
    });
    let outs = execute(&mut s, &ids(&["I", "E"]), &mut p, 3);
    assert_eq!(outs, vec![ItemOutcome::Completed; 2]);
    assert_eq!(p.processor().email_send.calls, ids(&["E"]));
    assert_eq!(p.processor().image_convert.calls, ids(&["I"]));
}


#[test]
fn claim_item_outcomes() {
    let mut s = waiting_store(&["W"]);
    s.create("P", JobType::EmailSend, "", 1).unwrap();
    let rec = claim_item(&mut s, "W", 7).unwrap();
    assert_eq!(rec.status, JobStatus::Waiting);
    assert_eq!(s.get("W").unwrap().status, JobStatus::Processing);
    assert_eq!(claim_item(&mut s, "W", 8).err(), Some(ItemOutcome::Skipped));
    assert_eq!(claim_item(&mut s, "P", 8).err(), Some(ItemOutcome::Skipped));
    assert_eq!(claim_item(&mut s, "X", 8).err(), Some(ItemOutcome::NotFound));
    assert_eq!(s.get("W").unwrap().updated_at, 7);
}

#[test]
fn finish_item_outcomes() {
    let mut s = waiting_store(&["A", "B"]);
    claim_item(&mut s, "A", 3).unwrap();
    claim_item(&mut s, "B", 3).unwrap();
    assert_eq!(finish_item(&mut s, "A", Ok(()), 4), ItemOutcome::Completed);
    assert_eq!(s.get("A").unwrap().status, JobStatus::Completed);
    assert_eq!(finish_item(&mut s, "A", Ok(()), 5), ItemOutcome::Skipped);
    assert_eq!(
        finish_item(&mut s, "B", Err("boom".to_string()), 5),
        ItemOutcome::ProcessorFailed("boom".to_string())
    );
    assert_eq!(s.get("B").unwrap().status, JobStatus::Processing);
    assert_eq!(s.get("B").unwrap().updated_at, 3);
}

use vstd::prelude::*;

use crate::job::{is_next, rank, JobError, JobRecord, JobStatus, JobType};

verus! {

/// Whether the conditional update `expected -> new_status` on `id` changes the
/// table `m`: the job exists, its persisted status is exactly `expected`, and
/// `new_status` is the one step forward from it.
pub open spec fn transition_applies(
    m: Map<Seq<char>, JobRecord>,
    id: Seq<char>,
    expected: JobStatus,
    new_status: JobStatus,
) -> bool {
    &&& m.contains_key(id)
    &&& m[id].status == expected
    &&& is_next(expected, new_status)
}

/// The table after the conditional update; unchanged when it does not apply.
pub open spec fn transition_result(
    m: Map<Seq<char>, JobRecord>,
    id: Seq<char>,
    expected: JobStatus,
    new_status: JobStatus,
    now: i64,
) -> Map<Seq<char>, JobRecord> {
    if transition_applies(m, id, expected, new_status) {
        m.insert(id, m[id].advanced(new_status, now))
    } else {
        m
    }
}

/// Every job of the table is stored under its own id.
pub open spec fn keys_consistent(m: Map<Seq<char>, JobRecord>) -> bool {
    forall|k: Seq<char>| #[trigger] m.contains_key(k) ==> m[k].id@ == k
}

/// Outcomes of attempts at the same conditional update on `id`, made one
/// after another (the store serializes concurrent callers), the k-th caller
/// stamping the time `nows[k]`.
pub open spec fn attempt_outcomes(
    m: Map<Seq<char>, JobRecord>,
    id: Seq<char>,
    expected: JobStatus,
    new_status: JobStatus,
    nows: Seq<i64>,
) -> Seq<bool>
    decreases nows.len(),
{
    if nows.len() == 0 {
        Seq::empty()
    } else {
        seq![transition_applies(m, id, expected, new_status)] + attempt_outcomes(
            transition_result(m, id, expected, new_status, nows[0]),
            id,
            expected,
            new_status,
            nows.drop_first(),
        )
    }
}

/// Once an update does not apply, repeating it never applies either.
pub proof fn lemma_conflict_persists(
    m: Map<Seq<char>, JobRecord>,
    id: Seq<char>,
    expected: JobStatus,
    new_status: JobStatus,
    nows: Seq<i64>,
)
    requires
        !transition_applies(m, id, expected, new_status),
    ensures
        attempt_outcomes(m, id, expected, new_status, nows).len() == nows.len(),
        forall|k: int|
            0 <= k < nows.len() ==> !#[trigger] attempt_outcomes(m, id, expected, new_status, nows)[k],
    decreases nows.len(),
{
    if nows.len() > 0 {
        lemma_conflict_persists(m, id, expected, new_status, nows.drop_first());
        let rest = attempt_outcomes(m, id, expected, new_status, nows.drop_first());
        assert forall|k: int|
            0 <= k < nows.len() implies !#[trigger] attempt_outcomes(m, id, expected, new_status, nows)[k] by {
            if k > 0 {
                assert(attempt_outcomes(m, id, expected, new_status, nows)[k] == rest[k - 1]);
            }
        }
    }
}

/// Any number `n >= 1` of callers racing to make the same forward move of a
/// job whose persisted status is `expected`: exactly one succeeds (the first
/// to reach the store) and the other `n - 1` get a conflict.
pub proof fn lemma_single_winner(
    m: Map<Seq<char>, JobRecord>,
    id: Seq<char>,
    expected: JobStatus,
    new_status: JobStatus,
    nows: Seq<i64>,
)
    requires
        m.contains_key(id),
        m[id].status == expected,
        is_next(expected, new_status),
        nows.len() >= 1,
    ensures
        attempt_outcomes(m, id, expected, new_status, nows).len() == nows.len(),
        attempt_outcomes(m, id, expected, new_status, nows)[0],
        forall|k: int|
            1 <= k < nows.len() ==> !#[trigger] attempt_outcomes(m, id, expected, new_status, nows)[k],
{
    let m1 = transition_result(m, id, expected, new_status, nows[0]);
    assert(m1[id].status == new_status);
    lemma_conflict_persists(m1, id, expected, new_status, nows.drop_first());
    let rest = attempt_outcomes(m1, id, expected, new_status, nows.drop_first());
    assert forall|k: int|
        1 <= k < nows.len() implies !#[trigger] attempt_outcomes(m, id, expected, new_status, nows)[k] by {
        assert(attempt_outcomes(m, id, expected, new_status, nows)[k] == rest[k - 1]);
    }
}

/// A move that is not forward (to the same status or an earlier one, such as
/// `Completed -> Processing`) never applies, whatever the table holds.
pub proof fn lemma_backward_move_fails(
    m: Map<Seq<char>, JobRecord>,
    id: Seq<char>,
    from: JobStatus,
    to: JobStatus,
    now: i64,
)
    requires
        rank(to) <= rank(from),
    ensures
        !transition_applies(m, id, from, to),
        transition_result(m, id, from, to, now) == m,
{
}

/// Character-wise equality of two string slices.
pub fn str_eq(a: &str, b: &str) -> (r: bool)
    ensures
        r == (a@ == b@),
{
    let n = a.unicode_len();
    if n != b.unicode_len() {
        return false;
    }
    let mut i: usize = 0;
    while i < n
        invariant
            n == a@.len(),
            n == b@.len(),
            i <= n,
            a@.subrange(0, i as int) == b@.subrange(0, i as int),
        decreases n - i,
    {
        if a.get_char(i) != b.get_char(i) {
            return false;
        }
        assert(a@.subrange(0, i + 1) == a@.subrange(0, i as int).push(a@[i as int]));
        assert(b@.subrange(0, i + 1) == b@.subrange(0, i as int).push(b@[i as int]));
        i = i + 1;
    }
    assert(a@ == a@.subrange(0, n as int));
    assert(b@ == b@.subrange(0, n as int));
    true
}

/// The job table. Each id has exactly one record; all status changes go
/// through the conditional `transition`.
pub struct JobStore {
    records: Vec<JobRecord>,
    jobs: Ghost<Map<Seq<char>, JobRecord>>,
}

impl View for JobStore {
    type V = Map<Seq<char>, JobRecord>;

    closed spec fn view(&self) -> Map<Seq<char>, JobRecord> {
        self.jobs@
    }
}

impl JobStore {
    /// The records agree with the table: ids are unique and each record is
    /// stored under its own id.
    pub closed spec fn wf(&self) -> bool {
        &&& forall|i: int|
            0 <= i < self.records@.len() ==> {
                &&& #[trigger] self.jobs@.contains_key(self.records@[i].id@)
                &&& self.jobs@[self.records@[i].id@] == self.records@[i]
            }
        &&& forall|k: Seq<char>|
            #[trigger] self.jobs@.contains_key(k) ==> exists|i: int|
                0 <= i < self.records@.len() && self.records@[i].id@ == k
        &&& forall|i: int, j: int|
            0 <= i < self.records@.len() && 0 <= j < self.records@.len() && #[trigger] self.records@[i].id@
                == #[trigger] self.records@[j].id@ ==> i == j
    }

    /// A well-formed store holds each job under its own id.
    pub proof fn lemma_keys_consistent(&self)
        requires
            self.wf(),
        ensures
            keys_consistent(self@),
    {
        assert forall|k: Seq<char>| #[trigger] self@.contains_key(k) implies self@[k].id@ == k by {
            let i = choose|i: int| 0 <= i < self.records@.len() && self.records@[i].id@ == k;
            assert(self.jobs@.contains_key(self.records@[i].id@));
        }
    }

    /// An empty table.
    pub fn new() -> (r: JobStore)
        ensures
            r.wf(),
            r@ == Map::<Seq<char>, JobRecord>::empty(),
    {
        JobStore { records: Vec::new(), jobs: Ghost(Map::empty()) }
    }

    /// Index of the record with this id.
    fn find(&self, id: &str) -> (r: Option<usize>)
        requires
            self.wf(),
        ensures
            match r {
                Some(i) => {
                    &&& i < self.records@.len()
                    &&& self.records@[i as int].id@ == id@
                    &&& self@.contains_key(id@)
                    &&& self@[id@] == self.records@[i as int]
                },
                None => !self@.contains_key(id@),
            },
    {
        let mut i: usize = 0;
        while i < self.records.len()
            invariant
                self.wf(),
                i <= self.records@.len(),
                forall|j: int| 0 <= j < i ==> self.records@[j].id@ != id@,
            decreases self.records@.len() - i,
        {
            if str_eq(self.records[i].id.as_str(), id) {
                assert(self.jobs@.contains_key(self.records@[i as int].id@));
                return Some(i);
            }
            i = i + 1;
        }
        None
    }

    /// Inserts a new job in `Preparing`, created and updated at `now`.
    /// Fails with `AlreadyExists` when the id is taken.
    pub fn create(&mut self, id: &str, job_type: JobType, param: &str, now: i64) -> (r: Result<
        JobRecord,
        JobError,
    >)
        requires
            old(self).wf(),
        ensures
            final(self).wf(),
            match r {
                Ok(rec) => {
                    &&& !old(self)@.contains_key(id@)
                    &&& rec.id@ == id@
                    &&& rec.job_type == job_type
                    &&& rec.param@ == param@
                    &&& rec.status == JobStatus::Preparing
                    &&& rec.created_at == now
                    &&& rec.updated_at == now
                    &&& final(self)@ == old(self)@.insert(id@, rec)
                },
                Err(e) => {
                    &&& old(self)@.contains_key(id@)
                    &&& e == JobError::AlreadyExists
                    &&& final(self)@ == old(self)@
                },
            },
    {
        if let Some(_) = self.find(id) {
            return Err(JobError::AlreadyExists);
        }
        let rec = JobRecord {
            id: id.to_owned(),
            job_type,
            param: param.to_owned(),
            status: JobStatus::Preparing,
            created_at: now,
            updated_at: now,
        };
        let copy = rec.duplicate();
        let ghost old_records = self.records@;
        self.records.push(copy);
        self.jobs = Ghost(self.jobs@.insert(id@, rec));
        proof {
            let n = old_records.len() as int;
            assert forall|k: Seq<char>| #[trigger] self.jobs@.contains_key(k) implies exists|i: int|
                0 <= i < self.records@.len() && self.records@[i].id@ == k by {
                if k != id@ {
                    let i = choose|i: int| 0 <= i < old_records.len() && old_records[i].id@ == k;
                    assert(self.records@[i] == old_records[i]);
                } else {
                    assert(self.records@[n].id@ == k);
                }
            }
        }
        Ok(rec)
    }

    /// The job with this id, or `NotFound`.
    pub fn get(&self, id: &str) -> (r: Result<JobRecord, JobError>)
        requires
            self.wf(),
        ensures
            match r {
                Ok(rec) => self@.contains_key(id@) && rec == self@[id@],
                Err(e) => !self@.contains_key(id@) && e == JobError::NotFound,
            },
    {
        match self.find(id) {
            Some(i) => Ok(self.records[i].duplicate()),
            None => Err(JobError::NotFound),
        }
    }

    /// Atomically sets the status of `id` to `new_status` and its update time
    /// to `now`, only if the persisted status is exactly `expected` and
    /// `new_status` is its one step forward. Otherwise nothing changes and the
    /// result is `TransitionConflict`.
    pub fn transition(&mut self, id: &str, expected: JobStatus, new_status: JobStatus, now: i64) -> (r:
        Result<(), JobError>)
        requires
            old(self).wf(),
        ensures
            final(self).wf(),
            r is Ok <==> transition_applies(old(self)@, id@, expected, new_status),
            r is Err ==> r == Err::<(), JobError>(JobError::TransitionConflict),
            final(self)@ == transition_result(old(self)@, id@, expected, new_status, now),
    {
        let i = match self.find(id) {
            Some(i) => i,
            None => return Err(JobError::TransitionConflict),
        };
        if self.records[i].status != expected || !expected.can_advance_to(new_status) {
            return Err(JobError::TransitionConflict);
        }
        let mut rec = self.records[i].duplicate();
        rec.status = new_status;
        rec.updated_at = now;
        let ghost key = rec.id@;
        let ghost old_records = self.records@;
        let ghost new_rec = rec;
        self.records.set(i, rec);
        self.jobs = Ghost(self.jobs@.insert(key, new_rec));
        proof {
            assert forall|k: Seq<char>| #[trigger] self.jobs@.contains_key(k) implies exists|j: int|
                0 <= j < self.records@.len() && self.records@[j].id@ == k by {
                let j = choose|j: int| 0 <= j < old_records.len() && old_records[j].id@ == k;
                assert(self.records@[j].id@ == old_records[j].id@);
            }
            assert forall|a: int, b: int|
                0 <= a < self.records@.len() && 0 <= b < self.records@.len() && #[trigger] self.records@[a].id@
                    == #[trigger] self.records@[b].id@ implies a == b by {
                assert(self.records@[a].id@ == old_records[a].id@);
                assert(self.records@[b].id@ == old_records[b].id@);
            }
        }
        Ok(())
    }

    /// `Preparing -> Waiting`, once the job has been enqueued.
    pub fn update_status_to_waiting(&mut self, id: &str, now: i64) -> (r: Result<(), JobError>)
        requires
            old(self).wf(),
        ensures
            final(self).wf(),
            r is Ok <==> transition_applies(old(self)@, id@, JobStatus::Preparing, JobStatus::Waiting),
            r is Err ==> r == Err::<(), JobError>(JobError::TransitionConflict),
            final(self)@ == transition_result(old(self)@, id@, JobStatus::Preparing, JobStatus::Waiting, now),
    {
        self.transition(id, JobStatus::Preparing, JobStatus::Waiting, now)
    }

    /// `Waiting -> Processing`: the caller that succeeds owns the job.
    pub fn update_status_to_processing(&mut self, id: &str, now: i64) -> (r: Result<(), JobError>)
        requires
            old(self).wf(),
        ensures
            final(self).wf(),
            r is Ok <==> transition_applies(old(self)@, id@, JobStatus::Waiting, JobStatus::Processing),
            r is Err ==> r == Err::<(), JobError>(JobError::TransitionConflict),
            final(self)@ == transition_result(old(self)@, id@, JobStatus::Waiting, JobStatus::Processing, now),
    {
        self.transition(id, JobStatus::Waiting, JobStatus::Processing, now)
    }

    /// `Processing -> Completed`, once the side effect has succeeded.
    pub fn update_status_to_completed(&mut self, id: &str, now: i64) -> (r: Result<(), JobError>)
        requires
            old(self).wf(),
        ensures
            final(self).wf(),
            r is Ok <==> transition_applies(old(self)@, id@, JobStatus::Processing, JobStatus::Completed),
            r is Err ==> r == Err::<(), JobError>(JobError::TransitionConflict),
            final(self)@ == transition_result(old(self)@, id@, JobStatus::Processing, JobStatus::Completed, now),
    {
        self.transition(id, JobStatus::Processing, JobStatus::Completed, now)
    }
}

} // verus!

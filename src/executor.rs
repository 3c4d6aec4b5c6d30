use vstd::prelude::*;

use crate::job::{JobError, JobRecord, JobStatus};
use crate::processor::{LoggedProcessor, ProcessorCall, SideEffectProcessor};
use crate::store::{keys_consistent, transition_applies, transition_result, JobStore};

verus! {

/// What happened to one item of a batch.
#[derive(PartialEq, Eq, Clone, Debug)]
pub enum ItemOutcome {
    /// Claimed, processed and marked completed.
    Completed,
    /// Not waiting any more (already completed, or owned by another
    /// invocation): left alone without calling the processor.
    Skipped,
    /// No job has this id.
    NotFound,
    /// Claimed, but the processor failed; the job stays in `Processing`.
    ProcessorFailed(String),
}

/// The processor was called for this item (it was claimed).
pub open spec fn invokes(o: ItemOutcome) -> bool {
    o is Completed || o is ProcessorFailed
}

/// This item makes the whole invocation report failure.
pub open spec fn is_failure(o: ItemOutcome) -> bool {
    o is NotFound || o is ProcessorFailed
}

/// The error an item reports.
pub open spec fn failure_error(o: ItemOutcome) -> JobError {
    match o {
        ItemOutcome::ProcessorFailed(msg) => JobError::ProcessorError(msg),
        _ => JobError::NotFound,
    }
}

/// `o` is a possible outcome of the item `id` on the table `m`: a missing
/// job is `NotFound`, a job that is not `Waiting` is skipped, and a waiting
/// job is processed, with success or failure up to the processor.
pub open spec fn outcome_fits(m: Map<Seq<char>, JobRecord>, id: Seq<char>, o: ItemOutcome) -> bool {
    match o {
        ItemOutcome::NotFound => !m.contains_key(id),
        ItemOutcome::Skipped => m.contains_key(id) && m[id].status != JobStatus::Waiting,
        _ => m.contains_key(id) && m[id].status == JobStatus::Waiting,
    }
}

/// The table after the item `id` had outcome `o` at time `now`.
pub open spec fn item_step(m: Map<Seq<char>, JobRecord>, id: Seq<char>, o: ItemOutcome, now: i64) -> Map<
    Seq<char>,
    JobRecord,
> {
    match o {
        ItemOutcome::Completed => m.insert(id, m[id].advanced(JobStatus::Completed, now)),
        ItemOutcome::ProcessorFailed(_) => m.insert(id, m[id].advanced(JobStatus::Processing, now)),
        _ => m,
    }
}

/// The table after the items `ids` had the outcomes `outs`, in order.
pub open spec fn replay(
    m: Map<Seq<char>, JobRecord>,
    ids: Seq<String>,
    outs: Seq<ItemOutcome>,
    now: i64,
) -> Map<Seq<char>, JobRecord>
    decreases ids.len(),
{
    if ids.len() == 0 || outs.len() == 0 {
        m
    } else {
        item_step(replay(m, ids.drop_last(), outs.drop_last(), now), ids.last()@, outs.last(), now)
    }
}

/// `outs` is a possible run of the batch `ids` from the table `m`: one
/// outcome per item, each fitting the table left by the items before it.
pub open spec fn outcomes_fit(m: Map<Seq<char>, JobRecord>, ids: Seq<String>, outs: Seq<ItemOutcome>, now: i64) -> bool {
    &&& outs.len() == ids.len()
    &&& forall|i: int|
        0 <= i < ids.len() ==> outcome_fits(
            #[trigger] replay(m, ids.take(i), outs.take(i), now),
            ids[i]@,
            outs[i],
        )
}

/// What the processor returned for an item that it was called for.
pub open spec fn result_of(o: ItemOutcome) -> Result<(), String> {
    match o {
        ItemOutcome::ProcessorFailed(msg) => Err(msg),
        _ => Ok(()),
    }
}

/// The processor calls of a run: one for each claimed item, in order, with
/// the job as stored before its claim and the result that decided the item.
pub open spec fn calls_of(
    m: Map<Seq<char>, JobRecord>,
    ids: Seq<String>,
    outs: Seq<ItemOutcome>,
    now: i64,
) -> Seq<ProcessorCall>
    decreases ids.len(),
{
    if ids.len() == 0 || outs.len() == 0 {
        Seq::empty()
    } else {
        let prev = calls_of(m, ids.drop_last(), outs.drop_last(), now);
        if invokes(outs.last()) {
            prev.push(
                (replay(m, ids.drop_last(), outs.drop_last(), now)[ids.last()@], result_of(outs.last())),
            )
        } else {
            prev
        }
    }
}

/// The job `id` exists and has left `Waiting` for good.
pub open spec fn claimed(m: Map<Seq<char>, JobRecord>, id: Seq<char>) -> bool {
    m.contains_key(id) && m[id].status != JobStatus::Waiting
}

/// A run over a prefix of one more item is one more step.
proof fn lemma_prefix_extend(
    m: Map<Seq<char>, JobRecord>,
    ids: Seq<String>,
    outs: Seq<ItemOutcome>,
    now: i64,
    n: int,
)
    requires
        0 <= n < ids.len(),
        ids.len() == outs.len(),
    ensures
        replay(m, ids.take(n + 1), outs.take(n + 1), now) == item_step(
            replay(m, ids.take(n), outs.take(n), now),
            ids[n]@,
            outs[n],
            now,
        ),
        calls_of(m, ids.take(n + 1), outs.take(n + 1), now) == if invokes(outs[n]) {
            calls_of(m, ids.take(n), outs.take(n), now).push(
                (replay(m, ids.take(n), outs.take(n), now)[ids[n]@], result_of(outs[n])),
            )
        } else {
            calls_of(m, ids.take(n), outs.take(n), now)
        },
{
    assert(ids.take(n + 1).drop_last() =~= ids.take(n));
    assert(outs.take(n + 1).drop_last() =~= outs.take(n));
}

/// Over the first `n` items of a run: jobs claimed before stay claimed, each
/// processor call is for a job that was not claimed before the run and is
/// claimed after it, and no two calls are for the same job.
proof fn lemma_run_calls(
    m: Map<Seq<char>, JobRecord>,
    ids: Seq<String>,
    outs: Seq<ItemOutcome>,
    now: i64,
    n: int,
)
    requires
        keys_consistent(m),
        outcomes_fit(m, ids, outs, now),
        0 <= n <= ids.len(),
    ensures
        keys_consistent(replay(m, ids.take(n), outs.take(n), now)),
        forall|k: Seq<char>| claimed(m, k) ==> #[trigger] claimed(replay(m, ids.take(n), outs.take(n), now), k),
        forall|a: int|
            0 <= a < calls_of(m, ids.take(n), outs.take(n), now).len() ==> {
                let id = (#[trigger] calls_of(m, ids.take(n), outs.take(n), now)[a]).0.id@;
                claimed(replay(m, ids.take(n), outs.take(n), now), id) && !claimed(m, id)
            },
        forall|a: int, b: int|
            0 <= a < b < calls_of(m, ids.take(n), outs.take(n), now).len() ==> (#[trigger] calls_of(
                m,
                ids.take(n),
                outs.take(n),
                now,
            )[a]).0.id@ != (#[trigger] calls_of(m, ids.take(n), outs.take(n), now)[b]).0.id@,
    decreases n,
{
    if n == 0 {
        assert(ids.take(0) =~= Seq::<String>::empty());
    } else {
        let k = n - 1;
        lemma_run_calls(m, ids, outs, now, k);
        lemma_prefix_extend(m, ids, outs, now, k);
        let prev = replay(m, ids.take(k), outs.take(k), now);
        let next = replay(m, ids.take(n), outs.take(n), now);
        let pc = calls_of(m, ids.take(k), outs.take(k), now);
        let nc = calls_of(m, ids.take(n), outs.take(n), now);
        let id = ids[k]@;
        assert(outcome_fits(replay(m, ids.take(k), outs.take(k), now), id, outs[k]));
        assert forall|key: Seq<char>| #[trigger] next.contains_key(key) implies next[key].id@ == key by {
            assert(prev.contains_key(key));
        }
        assert forall|key: Seq<char>| claimed(m, key) implies #[trigger] claimed(next, key) by {
            assert(claimed(prev, key));
        }
        if invokes(outs[k]) {
            assert(prev[id].id@ == id);
            assert(!claimed(prev, id));
            assert forall|a: int| 0 <= a < nc.len() implies {
                let cid = (#[trigger] nc[a]).0.id@;
                claimed(next, cid) && !claimed(m, cid)
            } by {
                if a < pc.len() {
                    assert(nc[a] == pc[a]);
                    assert(claimed(prev, pc[a].0.id@));
                }
            }
            assert forall|a: int, b: int| 0 <= a < b < nc.len() implies (#[trigger] nc[a]).0.id@ != (
            #[trigger] nc[b]).0.id@ by {
                assert(nc[a] == pc[a]);
                if b < pc.len() {
                    assert(nc[b] == pc[b]);
                } else {
                    assert(claimed(prev, pc[a].0.id@));
                }
            }
        } else {
            assert forall|a: int| 0 <= a < nc.len() implies {
                let cid = (#[trigger] nc[a]).0.id@;
                claimed(next, cid) && !claimed(m, cid)
            } by {
                assert(claimed(prev, pc[a].0.id@));
            }
        }
    }
}

/// Delivering the same batch twice (at-least-once transport): over both
/// runs together, the processor is called at most once per job.
pub proof fn lemma_replay_calls_processor_once_per_job(
    m: Map<Seq<char>, JobRecord>,
    ids: Seq<String>,
    first: Seq<ItemOutcome>,
    second: Seq<ItemOutcome>,
    now1: i64,
    now2: i64,
)
    requires
        keys_consistent(m),
        outcomes_fit(m, ids, first, now1),
        outcomes_fit(replay(m, ids, first, now1), ids, second, now2),
    ensures
        ({
            let calls = calls_of(m, ids, first, now1) + calls_of(replay(m, ids, first, now1), ids, second, now2);
            forall|a: int, b: int| 0 <= a < b < calls.len() ==> (#[trigger] calls[a]).0.id@ != (#[trigger] calls[b]).0.id@
        }),
{
    let n = ids.len() as int;
    assert(ids.take(n) =~= ids);
    assert(first.take(n) =~= first);
    assert(second.take(n) =~= second);
    let m1 = replay(m, ids, first, now1);
    lemma_run_calls(m, ids, first, now1, n);
    lemma_run_calls(m1, ids, second, now2, n);
    let c1 = calls_of(m, ids, first, now1);
    let c2 = calls_of(m1, ids, second, now2);
    let calls = c1 + c2;
    assert forall|a: int, b: int| 0 <= a < b < calls.len() implies (#[trigger] calls[a]).0.id@ != (
    #[trigger] calls[b]).0.id@ by {
        if b < c1.len() {
            assert(calls[a] == c1[a] && calls[b] == c1[b]);
        } else if a >= c1.len() {
            assert(calls[a] == c2[a - c1.len()] && calls[b] == c2[b - c1.len()]);
        } else {
            assert(calls[a] == c1[a] && calls[b] == c2[b - c1.len()]);
            assert(claimed(m1, c1[a].0.id@));
        }
    }
}

/// Items with other ids leave a job's record as it was.
proof fn lemma_untouched(
    m: Map<Seq<char>, JobRecord>,
    ids: Seq<String>,
    outs: Seq<ItemOutcome>,
    now: i64,
    id: Seq<char>,
    k: int,
)
    requires
        0 <= k <= ids.len(),
        ids.len() == outs.len(),
        forall|j: int| 0 <= j < k ==> (#[trigger] ids[j])@ != id,
    ensures
        replay(m, ids.take(k), outs.take(k), now).contains_key(id) == m.contains_key(id),
        m.contains_key(id) ==> replay(m, ids.take(k), outs.take(k), now)[id] == m[id],
    decreases k,
{
    if k == 0 {
        assert(ids.take(0) =~= Seq::<String>::empty());
    } else {
        lemma_prefix_extend(m, ids, outs, now, k - 1);
        lemma_untouched(m, ids, outs, now, id, k - 1);
    }
}

/// Items after `k` with other ids leave the job's record as it was after `k`.
proof fn lemma_later_untouched(
    m: Map<Seq<char>, JobRecord>,
    ids: Seq<String>,
    outs: Seq<ItemOutcome>,
    now: i64,
    id: Seq<char>,
    k: int,
    n: int,
)
    requires
        0 <= k <= n <= ids.len(),
        ids.len() == outs.len(),
        forall|j: int| k <= j < n ==> (#[trigger] ids[j])@ != id,
        replay(m, ids.take(k), outs.take(k), now).contains_key(id),
    ensures
        replay(m, ids.take(n), outs.take(n), now).contains_key(id),
        replay(m, ids.take(n), outs.take(n), now)[id] == replay(m, ids.take(k), outs.take(k), now)[id],
    decreases n - k,
{
    if k < n {
        lemma_prefix_extend(m, ids, outs, now, k);
        lemma_later_untouched(m, ids, outs, now, id, k + 1, n);
    }
}

/// On a batch of distinct waiting jobs, the first `n` items call the
/// processor once each, in order, with the job as stored.
proof fn lemma_all_called(
    m: Map<Seq<char>, JobRecord>,
    ids: Seq<String>,
    outs: Seq<ItemOutcome>,
    now: i64,
    n: int,
)
    requires
        outcomes_fit(m, ids, outs, now),
        forall|i: int, j: int| 0 <= i < j < ids.len() ==> (#[trigger] ids[i])@ != (#[trigger] ids[j])@,
        forall|i: int|
            0 <= i < ids.len() ==> m.contains_key((#[trigger] ids[i])@) && m[ids[i]@].status
                == JobStatus::Waiting,
        0 <= n <= ids.len(),
    ensures
        calls_of(m, ids.take(n), outs.take(n), now).len() == n,
        forall|i: int|
            0 <= i < n ==> #[trigger] calls_of(m, ids.take(n), outs.take(n), now)[i] == (
                m[ids[i]@],
                result_of(outs[i]),
            ) && invokes(outs[i]),
    decreases n,
{
    if n == 0 {
        assert(ids.take(0) =~= Seq::<String>::empty());
    } else {
        let k = n - 1;
        lemma_all_called(m, ids, outs, now, k);
        lemma_prefix_extend(m, ids, outs, now, k);
        lemma_untouched(m, ids, outs, now, ids[k]@, k);
        assert(outcome_fits(replay(m, ids.take(k), outs.take(k), now), ids[k]@, outs[k]));
        let pc = calls_of(m, ids.take(k), outs.take(k), now);
        let nc = calls_of(m, ids.take(n), outs.take(n), now);
        assert forall|i: int| 0 <= i < n implies #[trigger] nc[i] == (m[ids[i]@], result_of(outs[i])) && invokes(
            outs[i],
        ) by {
            if i < k {
                assert(nc[i] == pc[i]);
            }
        }
    }
}

/// A batch of distinct waiting jobs (one processor failing among them does
/// not stop the others): the processor is called once for every item, in
/// order, with the job as stored; each item's outcome is what its call
/// returned; a job ends `Completed` when its call succeeded and stays
/// `Processing` when it failed; and the batch reports failure exactly when
/// some call failed.
pub proof fn lemma_batch_isolation(
    m: Map<Seq<char>, JobRecord>,
    ids: Seq<String>,
    outs: Seq<ItemOutcome>,
    now: i64,
)
    requires
        outcomes_fit(m, ids, outs, now),
        forall|i: int, j: int| 0 <= i < j < ids.len() ==> (#[trigger] ids[i])@ != (#[trigger] ids[j])@,
        forall|i: int|
            0 <= i < ids.len() ==> m.contains_key((#[trigger] ids[i])@) && m[ids[i]@].status
                == JobStatus::Waiting,
    ensures
        calls_of(m, ids, outs, now).len() == ids.len(),
        forall|i: int|
            0 <= i < ids.len() ==> (#[trigger] calls_of(m, ids, outs, now)[i]).0 == m[ids[i]@]
                && calls_of(m, ids, outs, now)[i].1 == result_of(outs[i]) && invokes(outs[i]),
        forall|i: int|
            0 <= i < ids.len() ==> replay(m, ids, outs, now).contains_key((#[trigger] ids[i])@) && replay(
                m,
                ids,
                outs,
                now,
            )[ids[i]@].status == if calls_of(m, ids, outs, now)[i].1 is Ok {
                JobStatus::Completed
            } else {
                JobStatus::Processing
            },
        (exists|i: int| 0 <= i < ids.len() && (#[trigger] calls_of(m, ids, outs, now)[i]).1 is Err) <==> (
        exists|i: int| 0 <= i < ids.len() && is_failure(#[trigger] outs[i])),
{
    let n = ids.len() as int;
    assert(ids.take(n) =~= ids);
    assert(outs.take(n) =~= outs);
    lemma_all_called(m, ids, outs, now, n);
    let calls = calls_of(m, ids, outs, now);
    assert forall|i: int| 0 <= i < ids.len() implies replay(m, ids, outs, now).contains_key(
        (#[trigger] ids[i])@,
    ) && replay(m, ids, outs, now)[ids[i]@].status == if calls[i].1 is Ok {
        JobStatus::Completed
    } else {
        JobStatus::Processing
    } by {
        let id = ids[i]@;
        assert(calls[i] == (m[ids[i]@], result_of(outs[i])) && invokes(outs[i]));
        lemma_untouched(m, ids, outs, now, id, i);
        lemma_prefix_extend(m, ids, outs, now, i);
        lemma_later_untouched(m, ids, outs, now, id, i + 1, n);
    }
    if exists|i: int| 0 <= i < ids.len() && (#[trigger] calls[i]).1 is Err {
        let i = choose|i: int| 0 <= i < ids.len() && (#[trigger] calls[i]).1 is Err;
        assert(calls[i] == (m[ids[i]@], result_of(outs[i])) && invokes(outs[i]));
        assert(is_failure(outs[i]));
    }
    if exists|i: int| 0 <= i < ids.len() && is_failure(#[trigger] outs[i]) {
        let i = choose|i: int| 0 <= i < ids.len() && is_failure(#[trigger] outs[i]);
        assert(calls[i] == (m[ids[i]@], result_of(outs[i])) && invokes(outs[i]));
        assert(calls[i].1 is Err);
    }
}

/// Claims one job for processing with `Waiting -> Processing`. Gives the job
/// as it was stored, or the outcome of an item that is not processed: a
/// missing job, or one that is not waiting (a silent skip).
pub fn claim_item(store: &mut JobStore, id: &str, now: i64) -> (r: Result<JobRecord, ItemOutcome>)
    requires
        old(store).wf(),
    ensures
        final(store).wf(),
        match r {
            Ok(rec) => {
                &&& old(store)@.contains_key(id@)
                &&& old(store)@[id@].status == JobStatus::Waiting
                &&& rec == old(store)@[id@]
                &&& final(store)@ == transition_result(
                    old(store)@,
                    id@,
                    JobStatus::Waiting,
                    JobStatus::Processing,
                    now,
                )
            },
            Err(o) => {
                &&& final(store)@ == old(store)@
                &&& (o is NotFound <==> !old(store)@.contains_key(id@))
                &&& (o is Skipped <==> old(store)@.contains_key(id@) && old(store)@[id@].status
                    != JobStatus::Waiting)
                &&& (o is NotFound || o is Skipped)
            },
        },
{
    let job = match store.get(id) {
        Ok(job) => job,
        Err(_) => return Err(ItemOutcome::NotFound),
    };
    match store.update_status_to_processing(id, now) {
        Ok(()) => Ok(job),
        Err(_) => Err(ItemOutcome::Skipped),
    }
}

/// Records what the processor returned for a claimed job: on success the job
/// moves `Processing -> Completed` (a lost move is a silent skip); on failure
/// the job is left as it is and the failure is the outcome.
pub fn finish_item(store: &mut JobStore, id: &str, processed: Result<(), String>, now: i64) -> (o: ItemOutcome)
    requires
        old(store).wf(),
    ensures
        final(store).wf(),
        match processed {
            Ok(()) => {
                &&& final(store)@ == transition_result(
                    old(store)@,
                    id@,
                    JobStatus::Processing,
                    JobStatus::Completed,
                    now,
                )
                &&& o == if transition_applies(
                    old(store)@,
                    id@,
                    JobStatus::Processing,
                    JobStatus::Completed,
                ) {
                    ItemOutcome::Completed
                } else {
                    ItemOutcome::Skipped
                }
            },
            Err(msg) => final(store)@ == old(store)@ && o == ItemOutcome::ProcessorFailed(msg),
        },
{
    match processed {
        Ok(()) => match store.update_status_to_completed(id, now) {
            Ok(()) => ItemOutcome::Completed,
            Err(_) => ItemOutcome::Skipped,
        },
        Err(msg) => ItemOutcome::ProcessorFailed(msg),
    }
}

/// Drives one job: claim it, call the processor only if the claim was won,
/// and record what it returned.
pub fn run_item<P: SideEffectProcessor>(
    store: &mut JobStore,
    id: &str,
    processor: &mut LoggedProcessor<P>,
    now: i64,
) -> (o: ItemOutcome)
    requires
        old(store).wf(),
    ensures
        final(store).wf(),
        outcome_fits(old(store)@, id@, o),
        final(store)@ == item_step(old(store)@, id@, o, now),
        invokes(o) ==> final(processor).calls() == old(processor).calls().push(
            (old(store)@[id@], result_of(o)),
        ),
        !invokes(o) ==> final(processor).calls() == old(processor).calls(),
{
    let ghost m = store@;
    match claim_item(store, id, now) {
        Err(o) => o,
        Ok(rec) => {
            let r = processor.process(&rec);
            let ghost returned = r;
            assert(transition_applies(store@, id@, JobStatus::Processing, JobStatus::Completed));
            let o = finish_item(store, id, r, now);
            proof {
                match returned {
                    Ok(u) => {
                        assert(o == ItemOutcome::Completed);
                        assert(returned == Ok::<(), String>(()));
                    },
                    Err(msg) => {
                        assert(o == ItemOutcome::ProcessorFailed(msg));
                    },
                }
            }
            assert(returned == result_of(o));
            assert(store@ =~= item_step(m, id@, o, now));
            o
        },
    }
}

/// Runs every item of a batch in order. Each item is attempted whatever
/// happened to the others; the processor is called once for each item whose
/// claim was won, and for no other.
pub fn execute<P: SideEffectProcessor>(
    store: &mut JobStore,
    ids: &Vec<String>,
    processor: &mut LoggedProcessor<P>,
    now: i64,
) -> (outs: Vec<ItemOutcome>)
    requires
        old(store).wf(),
    ensures
        final(store).wf(),
        outcomes_fit(old(store)@, ids@, outs@, now),
        final(store)@ == replay(old(store)@, ids@, outs@, now),
        final(processor).calls() == old(processor).calls() + calls_of(old(store)@, ids@, outs@, now),
{
    let ghost m0 = store@;
    let ghost c0 = processor.calls();
    let mut outs: Vec<ItemOutcome> = Vec::new();
    let mut i: usize = 0;
    while i < ids.len()
        invariant
            store.wf(),
            m0 == old(store)@,
            c0 == old(processor).calls(),
            i <= ids@.len(),
            outs@.len() == i,
            store@ == replay(m0, ids@.take(i as int), outs@, now),
            processor.calls() == c0 + calls_of(m0, ids@.take(i as int), outs@, now),
            forall|j: int|
                0 <= j < i ==> outcome_fits(
                    #[trigger] replay(m0, ids@.take(j), outs@.take(j), now),
                    ids@[j]@,
                    outs@[j],
                ),
        decreases ids@.len() - i,
    {
        let ghost before = outs@;
        let ghost calls_before = processor.calls();
        let ghost prev = calls_of(m0, ids@.take(i as int), before, now);
        assert(before.take(i as int) =~= before);
        let o = run_item(store, ids[i].as_str(), processor, now);
        outs.push(o);
        proof {
            let t = ids@.take(i + 1);
            assert(t.drop_last() =~= ids@.take(i as int));
            assert(outs@.drop_last() =~= before);
            assert(t.last() == ids@[i as int]);
            assert forall|j: int| 0 <= j <= i implies #[trigger] outs@.take(j) =~= before.take(j) by {}
            if invokes(o) {
                assert(c0 + prev.push((replay(m0, ids@.take(i as int), before, now)[ids@[i as int]@], result_of(o)))
                    =~= (c0 + prev).push((replay(m0, ids@.take(i as int), before, now)[ids@[i as int]@], result_of(o))));
            }
        }
        i = i + 1;
    }
    assert(ids@.take(ids@.len() as int) =~= ids@);
    assert(outs@.take(outs@.len() as int) =~= outs@);
    outs
}

/// The overall result of a batch: success when every item completed or was
/// skipped, otherwise the error of the first item that failed.
pub fn batch_result(outs: &Vec<ItemOutcome>) -> (r: Result<(), JobError>)
    ensures
        r is Ok <==> forall|i: int| 0 <= i < outs@.len() ==> !is_failure(#[trigger] outs@[i]),
        r matches Err(e) ==> exists|i: int|
            0 <= i < outs@.len() && is_failure(outs@[i]) && e == failure_error(outs@[i]) && forall|j: int|
                0 <= j < i ==> !is_failure(#[trigger] outs@[j]),
{
    let mut i: usize = 0;
    while i < outs.len()
        invariant
            i <= outs@.len(),
            forall|j: int| 0 <= j < i ==> !is_failure(#[trigger] outs@[j]),
        decreases outs@.len() - i,
    {
        match &outs[i] {
            ItemOutcome::NotFound => return Err(JobError::NotFound),
            ItemOutcome::ProcessorFailed(msg) => return Err(JobError::ProcessorError(msg.clone())),
            _ => {},
        }
        i = i + 1;
    }
    Ok(())
}

} // verus!

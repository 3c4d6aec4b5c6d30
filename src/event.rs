use vstd::prelude::*;

use crate::job::JobError;

verus! {

/// Every record of a batch envelope holds a body that decoded.
pub open spec fn all_decoded<M>(records: Seq<Result<M, String>>) -> bool {
    forall|i: int| 0 <= i < records.len() ==> records[i] is Ok
}

/// The decoded bodies, in record order.
pub open spec fn decoded<M>(records: Seq<Result<M, String>>) -> Seq<M> {
    records.map_values(|r: Result<M, String>| r->Ok_0)
}

/// `e` is the decoding error of the first record whose body did not decode.
pub open spec fn first_decode_error<M>(records: Seq<Result<M, String>>, e: String) -> bool {
    exists|i: int|
        0 <= i < records.len() && records[i] == Err::<M, String>(e) && forall|j: int|
            0 <= j < i ==> records[j] is Ok
}

/// Normalizes a trigger payload into the messages it carries.
///
/// `batch` is the outcome of reading the payload as a batch envelope: `None`
/// when it is not one, otherwise the decoding of each record's embedded body,
/// in record order. `direct` is the outcome of reading the payload as a single
/// message. A batch envelope gives all its messages in order, or
/// `MalformedEvent` with the first body's error; a direct message gives that
/// one message; a payload of neither shape gives `MalformedEvent` with the
/// direct reading's error.
pub fn parse_event<M>(batch: Option<Vec<Result<M, String>>>, direct: Result<M, String>) -> (r: Result<
    Vec<M>,
    JobError,
>)
    ensures
        match batch {
            Some(records) => {
                &&& all_decoded(records@) ==> (r matches Ok(ms) && ms@ == decoded(records@))
                &&& !all_decoded(records@) ==> (r matches Err(JobError::MalformedEvent(e))
                    && first_decode_error(records@, e))
            },
            None => match direct {
                Ok(m) => (r matches Ok(ms) && ms@ == seq![m]),
                Err(e) => r == Err::<Vec<M>, JobError>(JobError::MalformedEvent(e)),
            },
        },
{
    match batch {
        Some(records) => {
            let ghost all = records@;
            let mut rest = records;
            let mut out: Vec<M> = Vec::new();
            while rest.len() > 0
                invariant
                    batch matches Some(rs) && rs@ == all,
                    out@.len() + rest@.len() == all.len(),
                    rest@ == all.subrange(out@.len() as int, all.len() as int),
                    forall|j: int| 0 <= j < out@.len() ==> all[j] is Ok,
                    out@ == decoded(all.subrange(0, out@.len() as int)),
                decreases rest@.len(),
            {
                let ghost k = out@.len() as int;
                match rest.remove(0) {
                    Ok(m) => {
                        assert(all[k] == Ok::<M, String>(m));
                        assert(all.subrange(0, k + 1) == all.subrange(0, k).push(all[k]));
                        out.push(m);
                        assert(rest@ =~= all.subrange(k + 1, all.len() as int));
                    },
                    Err(e) => {
                        assert(all[k] == Err::<M, String>(e));
                        assert(first_decode_error(all, e));
                        assert(!(all[k] is Ok));
                        assert(!all_decoded(all));

                        return Err(JobError::MalformedEvent(e));
                    },
                }
            }
            assert(all.subrange(0, all.len() as int) == all);
            Ok(out)
        },
        None => match direct {
            Ok(m) => {
                let mut out: Vec<M> = Vec::new();
                out.push(m);
                Ok(out)
            },
            Err(e) => Err(JobError::MalformedEvent(e)),
        },
    }
}

} // verus!

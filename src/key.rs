use vstd::prelude::*;

use crate::event::{all_decoded, decoded, first_decode_error, parse_event};
use crate::job::JobError;

verus! {

/// Start of the `/`-free run of characters that ends at `end` in `k`.
pub open spec fn segment_start(k: Seq<char>, end: int) -> int
    decreases end,
{
    if end <= 0 {
        0
    } else if k[end - 1] == '/' {
        end
    } else {
        segment_start(k, end - 1)
    }
}

/// File-name component of `k.subrange(0, end)`, read as a `/`-separated
/// path: trailing `/` and `.` components are dropped, the last remaining
/// component is the name, and there is none when nothing remains or that
/// component is `..`.
pub open spec fn file_name_upto(k: Seq<char>, end: int) -> Option<Seq<char>>
    decreases end,
{
    if end <= 0 {
        None
    } else if k[end - 1] == '/' {
        file_name_upto(k, end - 1)
    } else if k.subrange(segment_start(k, end), end) == seq!['.'] {
        file_name_upto(k, end - 1)
    } else if k.subrange(segment_start(k, end), end) == seq!['.', '.'] {
        None
    } else {
        Some(k.subrange(segment_start(k, end), end))
    }
}

/// File-name component of the whole key (`"a/b/c/JOB123"` gives `"JOB123"`,
/// `"a/b/"` gives `"b"`, `"a/."` gives `"a"`, `"a/.."` gives none).
pub open spec fn file_name_of(k: Seq<char>) -> Option<Seq<char>> {
    file_name_upto(k, k.len() as int)
}

/// The job id that an object key names: its file-name component. A key
/// without `/` is its own id. `None` when the key has no such component.
pub fn job_id_from_key(key: &str) -> (r: Option<String>)
    ensures
        match r {
            Some(id) => file_name_of(key@) == Some(id@),
            None => file_name_of(key@) is None,
        },
{
    let ghost k = key@;
    let n = key.unicode_len();
    let mut end: usize = n;
    loop
        invariant
            k == key@,
            n == k.len(),
            end <= n,
            file_name_upto(k, end as int) == file_name_of(k),
        decreases end,
    {
        if end == 0 {
            return None;
        }
        if key.get_char(end - 1) == '/' {
            end = end - 1;
            continue;
        }
        let mut start: usize = end - 1;
        while start > 0 && key.get_char(start - 1) != '/'
            invariant
                k == key@,
                n == k.len(),
                0 < end <= n,
                start < end,
                k[end - 1] != '/',
                segment_start(k, end as int) == segment_start(k, start as int),
            decreases start,
        {
            start = start - 1;
        }
        assert(segment_start(k, start as int) == start as int);
        let len = end - start;
        if len == 1 && key.get_char(start) == '.' {
            assert(k.subrange(start as int, end as int) =~= seq!['.']);
            end = end - 1;
            continue;
        }
        if len == 2 && key.get_char(start) == '.' && key.get_char(start + 1) == '.' {
            assert(k.subrange(start as int, end as int) =~= seq!['.', '.']);
            return None;
        }
        let seg = key.substring_char(start, end);
        proof {
            let sub = k.subrange(start as int, end as int);
            let dot = seq!['.'];
            let dots = seq!['.', '.'];
            assert(sub.len() == len);
            if sub == dot {
                assert(sub[0] == dot[0]);
                assert(k[start as int] == '.');
            }
            if sub == dots {
                assert(sub[0] == dots[0]);
                assert(sub[1] == dots[1]);
                assert(k[start + 1] == '.');
            }
        }
        return Some(seg.to_owned());
    }
}

/// The object keys that the messages carry, in order.
pub open spec fn keys_of(msgs: Seq<Vec<String>>) -> Seq<String> {
    key_lists(msgs).flatten()
}

/// The key list of each message.
pub open spec fn key_lists(msgs: Seq<Vec<String>>) -> Seq<Seq<String>> {
    msgs.map_values(|v: Vec<String>| v@)
}

/// `r` is the outcome of deriving job ids from `keys`: the file-name
/// component of each key, in order, or `MalformedEvent` with the first key
/// that has none.
pub open spec fn ids_from_keys(keys: Seq<String>, r: Result<Vec<String>, JobError>) -> bool {
    match r {
        Ok(ids) => {
            &&& ids@.len() == keys.len()
            &&& forall|i: int| 0 <= i < keys.len() ==> file_name_of(keys[i]@) == Some((#[trigger] ids@[i])@)
        },
        Err(e) => exists|i: int|
            0 <= i < keys.len() && file_name_of(keys[i]@) is None && e == JobError::MalformedEvent(keys[i])
                && forall|j: int| 0 <= j < i ==> file_name_of((#[trigger] keys[j])@) is Some,
    }
}

/// The job ids that the keys name, or the first key that names none.
pub fn job_ids_from_keys(keys: &Vec<String>) -> (r: Result<Vec<String>, JobError>)
    ensures
        ids_from_keys(keys@, r),
{
    let mut ids: Vec<String> = Vec::new();
    let mut i: usize = 0;
    while i < keys.len()
        invariant
            i <= keys@.len(),
            ids@.len() == i,
            forall|j: int| 0 <= j < i ==> file_name_of(keys@[j]@) == Some((#[trigger] ids@[j])@),
            forall|j: int| 0 <= j < i ==> file_name_of((#[trigger] keys@[j])@) is Some,
        decreases keys@.len() - i,
    {
        match job_id_from_key(keys[i].as_str()) {
            Some(id) => ids.push(id),
            None => return Err(JobError::MalformedEvent(keys[i].clone())),
        }
        i = i + 1;
    }
    Ok(ids)
}

/// All keys of the messages, in order.
fn flatten_keys(msgs: &Vec<Vec<String>>) -> (keys: Vec<String>)
    ensures
        keys@ == keys_of(msgs@),
{
    let mut keys: Vec<String> = Vec::new();
    let mut i: usize = 0;
    while i < msgs.len()
        invariant
            i <= msgs@.len(),
            keys@ == keys_of(msgs@.take(i as int)),
        decreases msgs@.len() - i,
    {
        let ghost before = keys@;
        let msg = &msgs[i];
        let mut j: usize = 0;
        while j < msg.len()
            invariant
                j <= msg@.len(),
                keys@ == before + msg@.take(j as int),
            decreases msg@.len() - j,
        {
            keys.push(msg[j].clone());
            assert(msg@.take(j + 1) == msg@.take(j as int).push(msg@[j as int]));
            j = j + 1;
        }
        proof {
            let vs = key_lists(msgs@.take(i as int));
            assert(key_lists(msgs@.take(i + 1)) =~= vs.push(msg@));
            vs.lemma_flatten_push(msg@);
            assert(msg@.take(j as int) =~= msg@);
        }
        i = i + 1;
    }
    assert(msgs@.take(msgs@.len() as int) =~= msgs@);
    keys
}

/// Job ids of an image-conversion trigger payload.
///
/// `batch` is the reading of the payload as a batch envelope (`None` when it
/// is not one): for each record, the object keys of its embedded storage
/// notification, or the body's decoding error. `direct` is the key named by
/// the payload itself. The ids are the file-name components of the keys, in order.
pub fn image_job_ids(batch: Option<Vec<Result<Vec<String>, String>>>, direct: Result<String, String>) -> (r:
    Result<Vec<String>, JobError>)
    ensures
        match batch {
            Some(records) => {
                &&& all_decoded(records@) ==> ids_from_keys(keys_of(decoded(records@)), r)
                &&& !all_decoded(records@) ==> (r matches Err(JobError::MalformedEvent(e))
                    && first_decode_error(records@, e))
            },
            None => match direct {
                Ok(k) => ids_from_keys(seq![k], r),
                Err(e) => r == Err::<Vec<String>, JobError>(JobError::MalformedEvent(e)),
            },
        },
{
    let single = match direct {
        Ok(k) => {
            let mut v: Vec<String> = Vec::new();
            v.push(k);
            Ok(v)
        },
        Err(e) => Err(e),
    };
    let msgs = match parse_event(batch, single) {
        Ok(msgs) => msgs,
        Err(e) => return Err(e),
    };
    let keys = flatten_keys(&msgs);
    proof {
        if batch is None && direct is Ok {
            let v = msgs@[0]@;
            assert(key_lists(msgs@) =~= seq![v]);
            seq![v].lemma_flatten_singleton();
            assert(keys@ =~= seq![direct->Ok_0]);
        }
    }
    job_ids_from_keys(&keys)
}

} // verus!

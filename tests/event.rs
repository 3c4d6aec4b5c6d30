use opxs_jobs::event::parse_event;
use opxs_jobs::job::JobError;
use opxs_jobs::key::{image_job_ids, job_id_from_key, job_ids_from_keys};

#[test]
fn batch_of_three_keeps_order() {
    let batch = vec![Ok(3u32), Ok(1u32), Ok(2u32)];
    let r = parse_event(Some(batch), Err("ignored".to_string()));
    assert_eq!(r, Ok(vec![3, 1, 2]));
}

#[test]
fn empty_batch_gives_nothing() {
    let r = parse_event::<u32>(Some(vec![]), Ok(9));
    assert_eq!(r, Ok(vec![]));
}

#[test]
fn direct_message_gives_one() {
    let r = parse_event(None, Ok(7u32));
    assert_eq!(r, Ok(vec![7]));
}

#[test]
fn neither_shape_is_malformed() {
    let r = parse_event::<u32>(None, Err("expected value at line 1".to_string()));
    assert_eq!(r, Err(JobError::MalformedEvent("expected value at line 1".to_string())));
}

#[test]
fn bad_body_in_batch_is_malformed() {
    let batch = vec![Ok(1u32), Err("bad body 2".to_string()), Err("bad body 3".to_string())];
    let r = parse_event(Some(batch), Ok(5u32));
    assert_eq!(r, Err(JobError::MalformedEvent("bad body 2".to_string())));
}

#[test]
fn key_final_segment_is_job_id() {
    assert_eq!(job_id_from_key("a/b/c/JOB123"), Some("JOB123".to_string()));
}

#[test]
fn key_without_separator_is_job_id() {
    assert_eq!(job_id_from_key("JOB123"), Some("JOB123".to_string()));
}

#[test]
fn key_without_file_name() {
    assert_eq!(job_id_from_key(""), None);
    assert_eq!(job_id_from_key("/"), None);
    assert_eq!(job_id_from_key("."), None);
    assert_eq!(job_id_from_key(".."), None);
    assert_eq!(job_id_from_key("a/.."), None);
    assert_eq!(job_id_from_key("a/../"), None);
    assert_eq!(job_id_from_key("./."), None);
}

#[test]
fn key_trailing_separators_and_dots_dropped() {
    assert_eq!(job_id_from_key("a/b/"), Some("b".to_string()));
    assert_eq!(job_id_from_key("a/b//"), Some("b".to_string()));
    assert_eq!(job_id_from_key("a/."), Some("a".to_string()));
    assert_eq!(job_id_from_key("a/./b/./"), Some("b".to_string()));
    assert_eq!(job_id_from_key("./JOB"), Some("JOB".to_string()));
    assert_eq!(job_id_from_key("a/../b"), Some("b".to_string()));
    assert_eq!(job_id_from_key("a/.b"), Some(".b".to_string()));
    assert_eq!(job_id_from_key("a/..."), Some("...".to_string()));
}

#[test]
fn key_with_unicode_segment() {
    assert_eq!(job_id_from_key("in/é/ジョブ"), Some("ジョブ".to_string()));
}

#[test]
fn ids_from_keys_reports_first_bad_key() {
    let keys = vec!["x/A".to_string(), "y/..".to_string(), "".to_string()];
    assert_eq!(job_ids_from_keys(&keys), Err(JobError::MalformedEvent("y/..".to_string())));
}

#[test]
fn image_batch_flattens_keys_in_order() {
    let batch = vec![
        Ok(vec!["up/A1".to_string(), "up/A2".to_string()]),
        Ok(vec![]),
        Ok(vec!["B1".to_string()]),
    ];
    let r = image_job_ids(Some(batch), Err("no key".to_string()));
    assert_eq!(r, Ok(vec!["A1".to_string(), "A2".to_string(), "B1".to_string()]));
}

#[test]
fn image_direct_key() {
    let r = image_job_ids(None, Ok("a/b/c/JOB123".to_string()));
    assert_eq!(r, Ok(vec!["JOB123".to_string()]));
}

#[test]
fn image_neither_shape() {
    let r = image_job_ids(None, Err("key is not found".to_string()));
    assert_eq!(r, Err(JobError::MalformedEvent("key is not found".to_string())));
}

#[test]
fn image_key_without_name() {
    let r = image_job_ids(Some(vec![Ok(vec!["dir/..".to_string()])]), Err("x".to_string()));
    assert_eq!(r, Err(JobError::MalformedEvent("dir/..".to_string())));
}

#[test]
fn image_direct_key_without_file_name() {
    let r = image_job_ids(None, Ok("a/..".to_string()));
    assert_eq!(r, Err(JobError::MalformedEvent("a/..".to_string())));
}

#[test]
fn image_direct_key_with_trailing_separator() {
    let r = image_job_ids(None, Ok("a/b/".to_string()));
    assert_eq!(r, Ok(vec!["b".to_string()]));
}

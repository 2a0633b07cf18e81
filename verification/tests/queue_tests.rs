use nicodl::queue::{classify_content_length, plan_fetch, FetchDecision, WorkQueue};
use nicodl::Error;

fn urls(n: usize) -> Vec<Vec<u8>> {
    (0..n).map(|i| format!("https://cdn/seg{i}.cmfv").into_bytes()).collect()
}

#[test]
fn existing_file_skips_the_fetch() {
    assert_eq!(plan_fetch(true), FetchDecision::AlreadyDone);
    assert_eq!(plan_fetch(false), FetchDecision::Fetch);
}

#[test]
fn short_content_length_is_a_transient_failure() {
    assert_eq!(classify_content_length(Some(0)), Err(Error::Download));
    assert_eq!(classify_content_length(Some(99)), Err(Error::Download));
    assert_eq!(classify_content_length(Some(100)), Ok(()));
    assert_eq!(classify_content_length(Some(1_000_000)), Ok(()));
    assert_eq!(classify_content_length(None), Ok(()));
}

#[test]
fn failed_url_returns_to_the_queue_exactly_once() {
    let mut q = WorkQueue::new(urls(2));
    assert_eq!(q.pending_len(), 2);
    let a = q.take().unwrap();
    assert_eq!(q.pending_len(), 1);
    // The content-length check fails: the one URL goes back on the queue,
    // once, at the tail.
    assert_eq!(classify_content_length(Some(42)), Err(Error::Download));
    q.requeue(a);
    assert_eq!(q.pending_len(), 2);
    let b = q.take().unwrap();
    let a_again = q.take().unwrap();
    assert_eq!(q.pending_len(), 0);
    assert_ne!(b, a);
    assert_eq!(a_again, a);
    q.complete(b);
    q.complete(a_again);
    assert_eq!(q.take(), None);
}

#[test]
fn queue_is_first_in_first_out() {
    let mut q = WorkQueue::new(urls(3));
    assert_eq!(q.take(), Some(0));
    assert_eq!(q.take(), Some(1));
    assert_eq!(q.take(), Some(2));
    assert_eq!(q.take(), None);
}

#[test]
fn drained_queue_produced_one_token_per_url() {
    // Two workers over five URLs: every URL yields exactly one completion
    // token, and a URL is fetched twice only after a transient failure.
    let worker_count = 2;
    let mut q = WorkQueue::new(urls(5));
    let mut held: Vec<usize> = Vec::new();
    let mut fetch_log: Vec<usize> = Vec::new();
    let mut failed_once = false;
    loop {
        while held.len() < worker_count {
            match q.take() {
                Some(i) => {
                    fetch_log.push(i);
                    held.push(i);
                },
                None => break,
            }
        }
        if held.is_empty() {
            break;
        }
        let i = held.remove(0);
        if i == 3 && !failed_once {
            failed_once = true;
            q.requeue(i);
        } else {
            q.complete(i);
        }
    }
    assert_eq!(q.done_len(), 5);
    assert_eq!(q.pending_len(), 0);
    // URL 3 appears twice in the fetch log (one failure), all others once.
    for u in 0..5 {
        let n = fetch_log.iter().filter(|x| **x == u).count();
        assert_eq!(n, if u == 3 { 2 } else { 1 });
    }
}

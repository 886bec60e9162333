use netprobe::batch::{run_batch, Batch};
use netprobe::input::ip_targets;
use netprobe::output::{render_file, render_line};
use netprobe::probe::{resolve_outcome, url_outcome, verbosity_level, LogLevel};

fn bv(s: &str) -> Vec<u8> {
    s.as_bytes().to_vec()
}

#[test]
fn url_batch_keeps_only_successes() {
    let targets = vec![bv("http://ok.example"), bv("http://fail.example")];
    let table = vec![(bv("http://ok.example"), None)];
    let collected = run_batch(&targets, &table, 10);
    assert_eq!(collected.len(), 1);
    assert_eq!(collected[0].0, bv("http://ok.example"));
    assert_eq!(collected[0].1, None);
    let line = render_line(&collected[0].0, collected[0].1.as_ref());
    assert_eq!(line, bv("http://ok.example"));
    let file = render_file(&vec![line]);
    assert_eq!(file, bv("http://ok.example\r\n"));
}

#[test]
fn ip_batch_over_expanded_cidr() {
    let targets = ip_targets(b"10.0.0.0/30").unwrap();
    assert_eq!(targets, vec![bv("10.0.0.1"), bv("10.0.0.2")]);
    let table = vec![(bv("10.0.0.1"), Some(bv("host1")))];
    let collected = run_batch(&targets, &table, 10);
    assert_eq!(collected.len(), 1);
    let line = render_line(&collected[0].0, collected[0].1.as_ref());
    assert_eq!(line, bv("10.0.0.1 => host1"));
}

#[test]
fn running_twice_gives_the_same_results() {
    let targets = vec![bv("a"), bv("b"), bv("c"), bv("a")];
    let table = vec![(bv("a"), Some(bv("ha"))), (bv("c"), None)];
    let first = run_batch(&targets, &table, 3);
    let second = run_batch(&targets, &table, 3);
    assert_eq!(first, second);
}

#[test]
fn every_successful_probe_is_delivered_once() {
    let targets = vec![bv("a"), bv("a"), bv("b")];
    let table = vec![(bv("a"), Some(bv("ha")))];
    let collected = run_batch(&targets, &table, 1);
    assert_eq!(collected.len(), 2);
    assert_eq!(collected[0], (bv("a"), Some(bv("ha"))));
    assert_eq!(collected[1], (bv("a"), Some(bv("ha"))));
}

#[test]
fn pool_hands_out_no_more_than_its_limit() {
    let mut b = Batch::new(2);
    b.submit(bv("t1"));
    b.submit(bv("t2"));
    b.submit(bv("t3"));
    assert_eq!(b.start(), Some(bv("t1")));
    assert_eq!(b.start(), Some(bv("t2")));
    assert_eq!(b.start(), None);
    b.finish(None);
    assert_eq!(b.start(), Some(bv("t3")));
    assert!(!b.idle());
    b.finish(None);
    b.finish(Some((bv("t3"), None)));
    assert!(b.idle());
}

#[test]
fn url_probe_succeeds_on_2xx_and_3xx() {
    assert!(url_outcome(Some(200)));
    assert!(url_outcome(Some(299)));
    assert!(url_outcome(Some(301)));
    assert!(url_outcome(Some(399)));
    assert!(!url_outcome(Some(199)));
    assert!(!url_outcome(Some(400)));
    assert!(!url_outcome(Some(404)));
    assert!(!url_outcome(Some(500)));
    assert!(!url_outcome(None));
}

#[test]
fn reverse_lookup_echo_is_no_result() {
    assert_eq!(resolve_outcome(b"10.0.0.1", Some(bv("10.0.0.1"))), None);
    assert_eq!(resolve_outcome(b"10.0.0.1", Some(bv("host1"))), Some(bv("host1")));
    assert_eq!(resolve_outcome(b"10.0.0.1", None), None);
}

#[test]
fn verbosity_maps_to_levels() {
    assert_eq!(verbosity_level(0), LogLevel::Info);
    assert_eq!(verbosity_level(1), LogLevel::Info);
    assert_eq!(verbosity_level(2), LogLevel::Debug);
    assert_eq!(verbosity_level(3), LogLevel::Trace);
    assert_eq!(verbosity_level(9), LogLevel::Trace);
}

#[test]
fn file_image_is_crlf_terminated_lines() {
    let lines = vec![bv("one"), bv("two")];
    assert_eq!(render_file(&lines), bv("one\r\ntwo\r\n"));
    assert_eq!(render_file(&Vec::new()), Vec::<u8>::new());
}

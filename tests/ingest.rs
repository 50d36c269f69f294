use rrinlog_core::batch::{split_into_batches, IngestionBuffer};
use rrinlog_core::models::NewLog;
use rrinlog_core::parser::ParseError;
use rrinlog_core::persist::{filtered_out, prepare_batch, PersistReport};

const GOOD: &str = r#"127.0.0.1 - - [04/Nov/2017:13:05:35 -0500] "GET /js/embed.min.js HTTP/2.0" 200 20480 "https://nbsoftsolutions.com/blog/monitoring-windows-system-metrics-with-grafana" "Mozilla/5.0 (Windows NT 10.0; Win64; x64) AppleWebKit/537.36 (KHTML, like Gecko) Chrome/61.0.3163.100 Safari/537.36" "comments.nbsoftsolutions.com""#;
const SKIPPED: &str = r#"127.0.0.2 - - [04/Nov/2017:13:05:35 -0500] "GET /js/embed.min.js HTTP/2.0" 200 20480 "https://nbsoftsolutions.com/blog/monitoring-windows-system-metrics-with-grafana" "Mozilla/5.0 (Windows NT 10.0; Win64; x64) AppleWebKit/537.36 (KHTML, like Gecko) Chrome/61.0.3163.100 Safari/537.36" "comments.nbsoftsolutions.com""#;
const BAD: &str = "Cats are alright";

fn lines(v: &[&str]) -> Vec<String> {
    v.iter().map(|s| s.to_string()).collect()
}

/// Stands in for the storage engine: one transaction appends all records or none.
fn store(table: &mut Vec<NewLog>, records: &[NewLog], fail: bool) -> bool {
    if fail {
        return false;
    }
    table.extend(records.iter().cloned());
    true
}

fn persist(
    table: &mut Vec<NewLog>,
    batch: &[String],
    ips: &Vec<String>,
    fail: bool,
) -> (PersistReport, Vec<ParseError>) {
    let prepared = prepare_batch(batch, ips);
    let written = if prepared.needs_write() {
        store(table, &prepared.records, fail)
    } else {
        true
    };
    (prepared.report(written, 0), prepared.errors)
}

#[test]
fn buffer_yields_at_threshold() {
    let mut b = IngestionBuffer::new(3);
    assert_eq!(b.push("a".to_string()), None);
    assert_eq!(b.push("b".to_string()), None);
    assert_eq!(b.push("c".to_string()), Some(lines(&["a", "b", "c"])));
    assert_eq!(b.pending_len(), 0);
    assert_eq!(b.finish(), None);
    assert_eq!(b.threshold(), 3);
}

#[test]
fn buffer_flushes_partial_only_at_end() {
    let mut b = IngestionBuffer::new(3);
    let mut out = Vec::new();
    for l in ["a", "b", "c", "d", "e"] {
        if let Some(batch) = b.push(l.to_string()) {
            out.push(batch);
        }
    }
    assert_eq!(out, vec![lines(&["a", "b", "c"])]);
    assert_eq!(b.pending_len(), 2);
    assert_eq!(b.finish(), Some(lines(&["d", "e"])));
    assert_eq!(b.pending_len(), 0);
    assert_eq!(b.finish(), None);
}

#[test]
fn threshold_one_flushes_every_line() {
    let mut b = IngestionBuffer::new(1);
    assert_eq!(b.push("a".to_string()), Some(lines(&["a"])));
    assert_eq!(b.push("b".to_string()), Some(lines(&["b"])));
    assert_eq!(b.finish(), None);
}

#[test]
fn batches_of_an_input() {
    assert_eq!(split_into_batches(lines(&["a", "b", "c"]), 3), vec![lines(&["a", "b", "c"])]);
    assert_eq!(
        split_into_batches(lines(&["a", "b", "c", "d", "e"]), 3),
        vec![lines(&["a", "b", "c"]), lines(&["d", "e"])]
    );
    assert_eq!(split_into_batches(Vec::new(), 4), Vec::<Vec<String>>::new());
    assert_eq!(
        split_into_batches(lines(&["a", "b", "c"]), 1),
        vec![lines(&["a"]), lines(&["b"]), lines(&["c"])]
    );
    assert_eq!(split_into_batches(lines(&["a", "b"]), 10), vec![lines(&["a", "b"])]);
}

#[test]
fn bad_line_does_not_sink_its_batch() {
    let mut table = Vec::new();
    let ips = Vec::new();
    let (report, errors) = persist(&mut table, &lines(&[BAD, GOOD]), &ips, false);
    assert_eq!(report.attempted, 2);
    assert_eq!(report.succeeded, 1);
    assert_eq!(errors, vec![ParseError::NoMatch(BAD.to_string())]);
    assert_eq!(table.len(), 1);
    assert_eq!(table[0].remote_addr, Some("127.0.0.1".to_string()));
}

#[test]
fn filtered_address_is_not_stored() {
    let mut table = Vec::new();
    let ips = lines(&["127.0.0.2", "127.0.0.3"]);
    let prepared = prepare_batch(&lines(&[SKIPPED]), &ips);
    assert_eq!(prepared.attempted, 1);
    assert_eq!(prepared.filtered, 1);
    assert!(prepared.records.is_empty());
    assert!(!prepared.needs_write());
    let (report, errors) = persist(&mut table, &lines(&[SKIPPED, GOOD]), &ips, false);
    assert_eq!(report.attempted, 2);
    assert_eq!(report.succeeded, 1);
    assert!(errors.is_empty());
    assert_eq!(table.len(), 1);
    assert_eq!(table[0].remote_addr, Some("127.0.0.1".to_string()));
}

#[test]
fn filter_checks_the_address() {
    let ips = lines(&["127.0.0.2"]);
    let prepared = prepare_batch(&lines(&[GOOD, SKIPPED]), &Vec::new());
    assert!(!filtered_out(&ips, &prepared.records[0]));
    assert!(filtered_out(&ips, &prepared.records[1]));
}

#[test]
fn failed_transaction_loses_the_batch() {
    let mut table = Vec::new();
    let (report, _) = persist(&mut table, &lines(&[GOOD, GOOD]), &Vec::new(), true);
    assert_eq!(report, PersistReport { attempted: 2, succeeded: 0, duration_us: 0 });
    assert!(table.is_empty());
}

#[test]
fn lines_are_trimmed_before_parsing() {
    let raw = format!("  {}\r\n", GOOD);
    let prepared = prepare_batch(&[raw, format!("{}\n", BAD)], &Vec::new());
    assert_eq!(prepared.records.len(), 1);
    assert_eq!(prepared.records[0].host, "comments.nbsoftsolutions.com");
    assert_eq!(prepared.errors, vec![ParseError::NoMatch(BAD.to_string())]);
}

#[test]
fn three_lines_threshold_one_end_to_end() {
    let mut table = Vec::new();
    let ips = lines(&["127.0.0.2", "127.0.0.3"]);
    let mut buffer = IngestionBuffer::new(1);
    let mut log = Vec::new();
    let (mut no_match, mut inserted, mut filtered) = (0, 0, 0);
    for l in [BAD, GOOD, SKIPPED] {
        if let Some(batch) = buffer.push(format!("{}\n", l)) {
            let prepared = prepare_batch(&batch, &ips);
            filtered += prepared.filtered;
            let (report, errors) = persist(&mut table, &batch, &ips, false);
            no_match += errors.iter().filter(|e| matches!(e, ParseError::NoMatch(_))).count();
            inserted += report.succeeded;
            for e in errors {
                log.push(e.message());
            }
            log.push(format!("inserting {} out of {} records", report.succeeded, report.attempted));
        }
    }
    assert_eq!(buffer.finish(), None);
    assert_eq!((no_match, inserted, filtered), (1, 1, 1));
    assert_eq!(
        log,
        vec![
            "Text did not match regex `Cats are alright`".to_string(),
            "inserting 0 out of 1 records".to_string(),
            "inserting 1 out of 1 records".to_string(),
            "inserting 0 out of 1 records".to_string(),
        ]
    );
    assert_eq!(table.len(), 1);
}

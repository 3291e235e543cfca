use dirjump::clock::Timestamp;
use dirjump::history::{rank_records, HistoryError, HistoryLedger, VisitRecord, MAX_HISTORY};

fn at(secs: i64) -> Timestamp {
    Timestamp { secs, nanos: 0 }
}

fn record(path: &str, secs: i64, visit_count: u32) -> VisitRecord {
    VisitRecord { path: path.to_string(), last_visited: at(secs), visit_count }
}

fn paths(ledger: &HistoryLedger) -> Vec<String> {
    ledger.records().iter().map(|r| r.path.clone()).collect()
}

#[test]
fn day_number_is_the_floor_of_seconds_by_day() {
    assert_eq!(at(0).day_number(), 0);
    assert_eq!(at(86399).day_number(), 0);
    assert_eq!(at(86400).day_number(), 1);
    assert_eq!(at(1_700_000_000).day_number(), 19675);
    assert_eq!(at(-1).day_number(), -1);
    assert_eq!(at(-86400).day_number(), -1);
    assert_eq!(at(-86401).day_number(), -2);
    assert_eq!(at(i64::MAX).day_number(), 106751991167300);
    assert_eq!(at(i64::MIN).day_number(), -106751991167301);
}

#[test]
fn score_is_count_plus_day_number() {
    assert_eq!(record("/a", 86400 * 19000 + 5, 3).score(), 19003);
    assert_eq!(record("/a", 0, 1).score(), 1);
    assert_eq!(record("/a", -1, 1).score(), 0);
    assert_eq!(record("/a", 0, u32::MAX).score(), 4294967295);
}

#[test]
fn first_visit_inserts_a_record_with_one_visit() {
    let mut ledger = HistoryLedger::new();
    assert!(ledger.is_empty());
    ledger.record_visit_at("/home/u", at(100));
    assert_eq!(ledger.len(), 1);
    let rec = &ledger.records()[0];
    assert_eq!(rec.path, "/home/u");
    assert_eq!(rec.visit_count, 1);
    assert_eq!(rec.last_visited, at(100));
}

#[test]
fn revisit_in_other_case_updates_the_same_record() {
    let mut ledger = HistoryLedger::new();
    ledger.record_visit_at("/Home/U", at(100));
    ledger.record_visit_at("/other", at(150));
    ledger.record_visit_at("/home/u", Timestamp { secs: 200, nanos: 7 });
    assert_eq!(ledger.len(), 2);
    let rec = &ledger.records()[0];
    assert_eq!(rec.path, "/Home/U");
    assert_eq!(rec.visit_count, 2);
    assert_eq!(rec.last_visited, Timestamp { secs: 200, nanos: 7 });
    assert_eq!(ledger.records()[1].path, "/other");
    assert_eq!(ledger.records()[1].visit_count, 1);
}

#[test]
fn identity_folds_ascii_case_only() {
    let mut ledger = HistoryLedger::new();
    ledger.record_visit_at("/É", at(1));
    ledger.record_visit_at("/é", at(2));
    assert_eq!(ledger.len(), 2);
}

#[test]
fn find_reports_the_position() {
    let mut ledger = HistoryLedger::new();
    ledger.record_visit_at("/a", at(1));
    ledger.record_visit_at("/b", at(2));
    assert_eq!(ledger.find("/B"), Some(1));
    assert_eq!(ledger.find("/a"), Some(0));
    assert_eq!(ledger.find("/c"), None);
    assert!(ledger.can_record("/a"));
    assert!(ledger.can_record("/c"));
}

#[test]
fn a_full_count_cannot_be_recorded() {
    let ledger = HistoryLedger::from_records(vec![record("/a", 0, u32::MAX)]).unwrap();
    assert!(!ledger.can_record("/A"));
    assert!(ledger.can_record("/b"));
}

#[test]
fn record_visit_reads_the_clock() {
    let mut ledger = HistoryLedger::new();
    ledger.record_visit("/a");
    let rec = &ledger.records()[0];
    assert_eq!(rec.visit_count, 1);
    assert!(rec.last_visited.secs > 1_600_000_000);
    assert!(rec.last_visited.nanos < 2_000_000_000);
}

#[test]
fn ledger_of_1001_entries_drops_the_lowest_score() {
    let mut records = Vec::new();
    for i in 0..1001i64 {
        records.push(record(&format!("/d{}", i), 86400 * (i + 10), 1));
    }
    let ledger = HistoryLedger::from_records(records).unwrap();
    assert_eq!(ledger.len(), MAX_HISTORY);
    let kept = paths(&ledger);
    assert!(!kept.contains(&"/d0".to_string()));
    assert_eq!(kept[0], "/d1000");
    assert_eq!(kept[999], "/d1");
    for (k, path) in kept.iter().enumerate() {
        assert_eq!(path, &format!("/d{}", 1000 - k));
    }
}

#[test]
fn eviction_by_visit_keeps_the_top_1000() {
    let mut ledger = HistoryLedger::new();
    for i in 0..1000i64 {
        ledger.record_visit_at(&format!("/d{}", i), at(86400 * (i + 10)));
    }
    assert_eq!(ledger.len(), 1000);
    assert_eq!(paths(&ledger)[0], "/d0");
    // The newcomer scores 1 + 5: lower than every other record.
    ledger.record_visit_at("/late", at(86400 * 5));
    assert_eq!(ledger.len(), 1000);
    assert!(ledger.find("/late").is_none());
    assert_eq!(paths(&ledger)[0], "/d999");
    assert_eq!(paths(&ledger)[999], "/d0");
    // A newcomer that outscores them all pushes out the lowest.
    ledger.record_visit_at("/new", at(86400 * 5000));
    assert_eq!(ledger.len(), 1000);
    assert_eq!(paths(&ledger)[0], "/new");
    assert!(ledger.find("/d0").is_none());
    assert_eq!(paths(&ledger)[999], "/d1");
}

#[test]
fn visit_count_rarely_beats_recency() {
    // 500 visits on day 10 score 510; one visit on day 600 scores 601.
    let mut records = vec![record("/often", 86400 * 10, 500)];
    for i in 0..1000i64 {
        records.push(record(&format!("/d{}", i), 86400 * 600, 1));
    }
    let ledger = HistoryLedger::from_records(records).unwrap();
    assert_eq!(ledger.len(), 1000);
    assert!(ledger.find("/often").is_none());
}

#[test]
fn ranking_is_stable_for_equal_scores() {
    let records = vec![
        record("/c", 86400, 1),
        record("/a", 86400 * 5, 2),
        record("/b", 86400 * 6, 1),
        record("/d", 86400 * 6, 1),
        record("/e", 86400 * 9, 1),
    ];
    let ranked: Vec<String> = rank_records(&records).iter().map(|r| r.path.clone()).collect();
    assert_eq!(ranked, vec!["/e", "/a", "/b", "/d", "/c"]);
}

#[test]
fn capacity_check_leaves_a_fitting_ledger_alone() {
    let mut ledger = HistoryLedger::new();
    ledger.record_visit_at("/old", at(0));
    ledger.record_visit_at("/new", at(86400 * 100));
    ledger.enforce_capacity();
    assert_eq!(paths(&ledger), vec!["/old", "/new"]);
}

#[test]
fn from_records_refuses_broken_records() {
    assert!(HistoryLedger::from_records(vec![record("/a", 0, 1), record("/A", 0, 1)]).is_none());
    assert!(HistoryLedger::from_records(vec![record("/a", 0, 0)]).is_none());
    let ok = HistoryLedger::from_records(vec![record("/a", 0, 1), record("/b", 0, 4)]).unwrap();
    assert_eq!(paths(&ok), vec!["/a", "/b"]);
    assert_eq!(ok.records()[1].visit_count, 4);
    assert!(HistoryLedger::from_records(Vec::new()).unwrap().is_empty());
}

#[test]
fn remove_matches_up_to_case_and_reports() {
    let mut ledger = HistoryLedger::new();
    ledger.record_visit_at("/a", at(1));
    ledger.record_visit_at("/b", at(2));
    ledger.record_visit_at("/c", at(3));
    assert!(ledger.remove("/B"));
    assert_eq!(paths(&ledger), vec!["/a", "/c"]);
    assert!(!ledger.remove("/b"));
    assert_eq!(paths(&ledger), vec!["/a", "/c"]);
}

#[test]
fn clear_empties_the_ledger() {
    let mut ledger = HistoryLedger::new();
    ledger.record_visit_at("/a", at(1));
    ledger.clear();
    assert!(ledger.is_empty());
    assert_eq!(ledger.len(), 0);
}

#[test]
fn nth_most_recent_counts_from_the_newest_end() {
    let mut ledger = HistoryLedger::new();
    ledger.record_visit_at("/a", at(1));
    ledger.record_visit_at("/b", at(2));
    ledger.record_visit_at("/c", at(3));
    assert_eq!(ledger.nth_most_recent(1).unwrap().path, "/c");
    assert_eq!(ledger.nth_most_recent(2).unwrap().path, "/b");
    assert_eq!(ledger.nth_most_recent(3).unwrap().path, "/a");
    assert_eq!(
        ledger.nth_most_recent(4).unwrap_err(),
        HistoryError::NoSuchEntry { index: 4, size: 3 }
    );
    assert_eq!(
        ledger.nth_most_recent(0).unwrap_err(),
        HistoryError::NoSuchEntry { index: 0, size: 3 }
    );
}

#[test]
fn last_is_the_newest_record() {
    let mut ledger = HistoryLedger::new();
    assert_eq!(ledger.last().unwrap_err(), HistoryError::EmptyHistory);
    ledger.record_visit_at("/a", at(1));
    ledger.record_visit_at("/b", at(2));
    ledger.record_visit_at("/A", at(3));
    assert_eq!(ledger.last().unwrap().path, "/b");
}

#[test]
fn list_ranks_the_most_recent_first() {
    let mut ledger = HistoryLedger::new();
    ledger.record_visit_at("/a", at(1));
    ledger.record_visit_at("/b", at(2));
    ledger.record_visit_at("/c", at(3));
    let two: Vec<(usize, String)> =
        ledger.list(2).into_iter().map(|(rank, r)| (rank, r.path)).collect();
    assert_eq!(two, vec![(1, "/c".to_string()), (2, "/b".to_string())]);
    let all: Vec<(usize, String)> =
        ledger.list(20).into_iter().map(|(rank, r)| (rank, r.path)).collect();
    assert_eq!(
        all,
        vec![(1, "/c".to_string()), (2, "/b".to_string()), (3, "/a".to_string())]
    );
    assert!(ledger.list(0).is_empty());
}

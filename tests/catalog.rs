use hsr_alert_bot::catalog::RedeemCode;
use hsr_alert_bot::config::Config;

fn batch(items: &[&str]) -> Vec<(String, bool)> {
    items.iter().map(|s| (s.to_string(), false)).collect()
}

fn snapshot(cfg: &Config) -> Vec<(u64, String, bool)> {
    cfg.codes()
        .iter()
        .map(|c| (c.uid, c.code.clone(), c.valid))
        .collect()
}

#[test]
fn ingest_then_shrink_invalidates_missing() {
    let mut cfg = Config::new();
    let created = cfg.ingest(&batch(&["ABC123", "XYZ789"]));
    assert_eq!(created, 2);
    assert_eq!(
        snapshot(&cfg),
        vec![
            (1, "ABC123".to_string(), true),
            (2, "XYZ789".to_string(), true)
        ]
    );
    let created = cfg.ingest(&batch(&["ABC123"]));
    assert_eq!(created, 0);
    assert_eq!(
        snapshot(&cfg),
        vec![
            (1, "ABC123".to_string(), true),
            (2, "XYZ789".to_string(), false)
        ]
    );
}

#[test]
fn ingesting_twice_equals_once() {
    let mut once = Config::new();
    once.ingest(&batch(&["A1", "B2"]));
    once.ingest(&batch(&["B2", "C3", "C3"]));
    let mut twice = Config::new();
    twice.ingest(&batch(&["A1", "B2"]));
    twice.ingest(&batch(&["B2", "C3", "C3"]));
    let again = twice.ingest(&batch(&["B2", "C3", "C3"]));
    assert_eq!(again, 0);
    assert_eq!(snapshot(&once), snapshot(&twice));
    assert_eq!(snapshot(&twice).len(), 3);
}

#[test]
fn invalidated_code_stays_invalid_on_return() {
    let mut cfg = Config::new();
    cfg.ingest(&batch(&["A", "B"]));
    cfg.ingest(&batch(&["A"]));
    let created = cfg.ingest(&batch(&["A", "B"]));
    assert_eq!(created, 0);
    assert_eq!(
        snapshot(&cfg),
        vec![(1, "A".to_string(), true), (2, "B".to_string(), false)]
    );
}

#[test]
fn empty_batch_invalidates_everything() {
    let mut cfg = Config::new();
    cfg.ingest(&batch(&["A", "B"]));
    cfg.ingest(&batch(&[]));
    assert!(cfg.codes().iter().all(|c| !c.valid));
    assert_eq!(cfg.codes().len(), 2);
}

#[test]
fn upsert_reports_identifier_and_creation() {
    let mut cfg = Config::new();
    assert_eq!(cfg.upsert(&"X".to_string(), false), Ok((1, true)));
    assert_eq!(cfg.upsert(&"Y".to_string(), false), Ok((2, true)));
    assert_eq!(cfg.upsert(&"X".to_string(), false), Ok((1, false)));
    assert_eq!(cfg.codes().len(), 2);
}

#[test]
fn invalidate_missing_keeps_present_codes() {
    let mut cfg = Config::new();
    cfg.ingest(&batch(&["A", "B", "C"]));
    cfg.invalidate_missing(&vec!["B".to_string(), "Z".to_string()]);
    let valid: Vec<bool> = cfg.codes().iter().map(|c| c.valid).collect();
    assert_eq!(valid, vec![false, true, false]);
}

#[test]
fn codes_from_returns_valid_codes_past_cursor() {
    let mut cfg = Config::new();
    cfg.ingest(&batch(&["A", "B", "C", "D"]));
    cfg.ingest(&batch(&["A", "C", "D"]));
    let after0: Vec<u64> = Config::codes_from(cfg.codes(), 0).iter().map(|c| c.uid).collect();
    assert_eq!(after0, vec![1, 3, 4]);
    let after1: Vec<u64> = Config::codes_from(cfg.codes(), 1).iter().map(|c| c.uid).collect();
    assert_eq!(after1, vec![3, 4]);
    let after3: Vec<String> = Config::codes_from(cfg.codes(), 3)
        .iter()
        .map(|c| c.code.clone())
        .collect();
    assert_eq!(after3, vec!["D".to_string()]);
    assert!(Config::codes_from(cfg.codes(), 4).is_empty());
    assert!(Config::codes_from(cfg.codes(), 100).is_empty());
}

#[test]
fn codes_from_is_empty_when_all_invalid() {
    let mut cfg = Config::new();
    cfg.ingest(&batch(&["A", "B"]));
    cfg.ingest(&batch(&["C"]));
    let ids: Vec<u64> = Config::codes_from(cfg.codes(), 0).iter().map(|c| c.uid).collect();
    assert_eq!(ids, vec![3]);
    cfg.ingest(&batch(&[]));
    assert!(Config::codes_from(cfg.codes(), 0).is_empty());
}

#[test]
fn last_code_is_highest_identifier_or_zero() {
    let mut cfg = Config::new();
    assert_eq!(Config::last_code(cfg.codes()), 0);
    cfg.ingest(&batch(&["A", "B", "C"]));
    assert_eq!(Config::last_code(cfg.codes()), 3);
    let tail = Config::codes_from(cfg.codes(), 1);
    assert_eq!(Config::last_code(&tail), 3);
    assert_eq!(Config::last_code(&Vec::new()), 0);
}

#[test]
fn codes_after_with_and_without_invalid_codes() {
    let mut cfg = Config::new();
    cfg.ingest(&batch(&["A", "B", "C"]));
    cfg.ingest(&batch(&["A", "C"]));
    let all: Vec<u64> = cfg.codes_after(1, false).iter().map(|c| c.uid).collect();
    assert_eq!(all, vec![2, 3]);
    let valid: Vec<u64> = cfg.codes_after(1, true).iter().map(|c| c.uid).collect();
    assert_eq!(valid, vec![3]);
    assert!(cfg.codes_after(3, false).is_empty());
}

#[test]
fn codes_from_sorts_any_list_by_identifier() {
    let code = |uid: u64, text: &str, valid: bool| RedeemCode {
        uid,
        code: text.to_string(),
        valid,
        is_version_code: false,
    };
    let list = vec![
        code(2, "B", true),
        code(5, "E", false),
        code(1, "A", true),
        code(4, "D", true),
        code(3, "C", true),
    ];
    let ids: Vec<u64> = Config::codes_from(&list, 0).iter().map(|c| c.uid).collect();
    assert_eq!(ids, vec![1, 2, 3, 4]);
    let ids: Vec<u64> = Config::codes_from(&list, 2).iter().map(|c| c.uid).collect();
    assert_eq!(ids, vec![3, 4]);
}

#[test]
fn kind_is_recorded_on_creation_only() {
    let mut cfg = Config::new();
    cfg.ingest(&vec![("LIMITED".to_string(), true), ("PLAIN".to_string(), false)]);
    let kinds: Vec<bool> = cfg.codes().iter().map(|c| c.is_version_code).collect();
    assert_eq!(kinds, vec![true, false]);
    cfg.ingest(&vec![("LIMITED".to_string(), false), ("PLAIN".to_string(), true)]);
    let kinds: Vec<bool> = cfg.codes().iter().map(|c| c.is_version_code).collect();
    assert_eq!(kinds, vec![true, false]);
}

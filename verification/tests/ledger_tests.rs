use process_tracker::config::{parse_polling_interval, Config};
use process_tracker::errors::TrackerError;
use process_tracker::ledger::{get_new_running_time, parse_ledger_timestamp, Ledger};
use process_tracker::model::{AggregatedProcess, LedgerEntry};

fn agg(identity: &str, path: &str, count: u32, max_run: u64) -> AggregatedProcess {
    AggregatedProcess {
        identity: identity.to_string(),
        display_name: identity.to_string(),
        path: path.to_string(),
        instance_count: count,
        max_observed_run_time: max_run,
    }
}

#[test]
fn first_observation_creates_entry_with_zero() {
    let mut ledger = Ledger::new();
    let r = ledger.accrue(&agg("chrome.exe", "C:\\Apps\\chrome.exe", 1, 100), 5000, 10);
    assert_eq!(r, 0);
    let entries = ledger.entries();
    assert_eq!(entries.len(), 1);
    assert_eq!(entries[0].identity, "chrome.exe");
    assert_eq!(entries[0].cumulative_run_time_seconds, 0);
    assert_eq!(entries[0].last_updated_at, 5000);
}

#[test]
fn reappearance_within_window_accrues_full_elapsed() {
    let mut ledger = Ledger::new();
    let a = agg("chrome.exe", "C:\\Apps\\chrome.exe", 1, 100);
    ledger.accrue(&a, 5000, 10);
    let r = ledger.accrue(&a, 5013, 10);
    assert_eq!(r, 13);
    assert_eq!(ledger.get_cumulative("chrome.exe"), Some(13));
}

#[test]
fn gap_beyond_twice_interval_accrues_exactly_one_interval() {
    let mut ledger = Ledger::new();
    let a = agg("chrome.exe", "C:\\Apps\\chrome.exe", 1, 100);
    ledger.accrue(&a, 5000, 10);
    let r = ledger.accrue(&a, 90000, 10);
    assert_eq!(r, 10);
    let r = ledger.accrue(&a, 900000, 10);
    assert_eq!(r, 20);
}

#[test]
fn gap_of_exactly_twice_interval_accrues_in_full() {
    let mut ledger = Ledger::new();
    let a = agg("chrome.exe", "C:\\Apps\\chrome.exe", 1, 100);
    ledger.accrue(&a, 5000, 10);
    let r = ledger.accrue(&a, 5020, 10);
    assert_eq!(r, 20);
}

#[test]
fn cumulative_never_decreases_across_accruals() {
    let mut ledger = Ledger::new();
    let a = agg("chrome.exe", "C:\\Apps\\chrome.exe", 1, 100);
    let mut prev: u64 = 0;
    let times: [u64; 5] = [100, 105, 300, 301, 5000];
    for now in times {
        let r = ledger.accrue(&a, now, 10);
        assert!(r >= prev);
        prev = r;
    }
}

#[test]
fn update_folds_a_whole_snapshot() {
    let mut ledger = Ledger::new();
    let snapshot = vec![
        agg("a.exe", "C:\\Apps\\a.exe", 2, 50),
        agg("b.exe", "C:\\Apps\\b.exe", 1, 7),
    ];
    ledger.update(&snapshot, 1000, 10);
    assert_eq!(ledger.entries().len(), 2);
    assert_eq!(ledger.get_cumulative("a.exe"), Some(0));
    assert_eq!(ledger.get_cumulative("b.exe"), Some(0));
    let second = vec![agg("b.exe", "C:\\Apps\\b.exe", 1, 17)];
    ledger.update(&second, 1012, 10);
    assert_eq!(ledger.get_cumulative("a.exe"), Some(0));
    assert_eq!(ledger.get_cumulative("b.exe"), Some(12));
}

#[test]
fn from_entries_rejects_duplicate_identities() {
    let e = |id: &str, cum: u64| LedgerEntry {
        identity: id.to_string(),
        path: format!("C:\\Apps\\{}", id),
        cumulative_run_time_seconds: cum,
        last_updated_at: 1000,
    };
    let ok = Ledger::from_entries(vec![e("a.exe", 1), e("b.exe", 2)]);
    assert!(ok.is_ok());
    let dup = Ledger::from_entries(vec![e("a.exe", 1), e("a.exe", 2)]);
    assert!(matches!(dup, Err(TrackerError::LedgerCorruption)));
}

#[test]
fn parse_ledger_timestamp_reads_the_format() {
    assert_eq!(parse_ledger_timestamp("2024-01-01 00:00:00"), Ok(1704067200));
    assert_eq!(parse_ledger_timestamp("1970-01-01 00:00:01"), Ok(1));
}

#[test]
fn parse_ledger_timestamp_rejects_garbage() {
    assert_eq!(
        parse_ledger_timestamp("not a timestamp"),
        Err(TrackerError::LedgerCorruption)
    );
    assert_eq!(
        parse_ledger_timestamp("2024-13-40 99:99:99"),
        Err(TrackerError::LedgerCorruption)
    );
    assert_eq!(
        parse_ledger_timestamp("1969-12-31 23:59:59"),
        Err(TrackerError::LedgerCorruption)
    );
}

#[test]
fn get_new_running_time_adds_elapsed_or_interval() {
    let within = get_new_running_time("1970-01-01 00:00:00", 100, 15, 10);
    assert_eq!(within, Ok(115));
    let capped = get_new_running_time("1970-01-01 00:00:00", 100, 4000, 10);
    assert_eq!(capped, Ok(110));
    let corrupt = get_new_running_time("yesterday", 100, 15, 10);
    assert_eq!(corrupt, Err(TrackerError::LedgerCorruption));
}

#[test]
fn parse_polling_interval_validates_bounds() {
    assert_eq!(parse_polling_interval("10s"), Ok(10));
    assert_eq!(parse_polling_interval("1h"), Ok(3600));
    assert_eq!(parse_polling_interval("2m 30s"), Ok(150));
    assert_eq!(
        parse_polling_interval("0s"),
        Err(TrackerError::ConfigurationInvalid)
    );
    assert_eq!(
        parse_polling_interval("2h"),
        Err(TrackerError::ConfigurationInvalid)
    );
    assert_eq!(
        parse_polling_interval("soon"),
        Err(TrackerError::ConfigurationInvalid)
    );
}

#[test]
fn parse_polling_interval_rejects_overlong_text() {
    assert_eq!(
        parse_polling_interval("18446744073709551615s1000ms"),
        Err(TrackerError::ConfigurationInvalid)
    );
    assert_eq!(
        parse_polling_interval("5124095576030431h15s1000ms"),
        Err(TrackerError::ConfigurationInvalid)
    );
    assert_eq!(
        parse_polling_interval("9999999999999999999s 999ns"),
        Err(TrackerError::ConfigurationInvalid)
    );
    assert_eq!(parse_polling_interval("0h 0m 0s 0ms 0us 2m 30s"), Ok(150));
}

#[test]
fn config_rejects_out_of_bounds_interval() {
    assert!(Config::new(10, Vec::new(), Vec::new()).is_ok());
    assert!(matches!(
        Config::new(0, Vec::new(), Vec::new()),
        Err(TrackerError::ConfigurationInvalid)
    ));
    assert!(matches!(
        Config::new(3601, Vec::new(), Vec::new()),
        Err(TrackerError::ConfigurationInvalid)
    ));
}

#[test]
fn storage_unavailable_is_its_own_kind() {
    assert_ne!(TrackerError::StorageUnavailable, TrackerError::LedgerCorruption);
    assert_eq!(TrackerError::StorageUnavailable, TrackerError::StorageUnavailable);
}

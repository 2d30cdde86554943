use process_tracker::aggregate::aggregate;
use process_tracker::config::Config;
use process_tracker::cycle::run_cycle;
use process_tracker::errors::TrackerError;
use process_tracker::filter::{filter_observations, is_relevant_process};
use process_tracker::ledger::Ledger;
use process_tracker::model::RawObservation;
use process_tracker::provider::{dedup_windows, WindowRecord};

fn obs(identity: &str, path: &str, is_running: bool, run_time_seconds: u64) -> RawObservation {
    RawObservation {
        identity: identity.to_string(),
        path: path.to_string(),
        is_running,
        run_time_seconds,
    }
}

fn blocked_names() -> Vec<String> {
    vec!["mbamtray.exe".to_string(), "NVIDIA Share.exe".to_string()]
}

fn blocked_prefixes() -> Vec<String> {
    vec!["C:\\Windows".to_string()]
}

#[test]
fn filter_drops_irrelevant_records() {
    let names = blocked_names();
    let prefixes = blocked_prefixes();
    let running = obs("chrome.exe", "C:\\Apps\\chrome.exe", true, 5);
    let stopped = obs("chrome.exe", "C:\\Apps\\chrome.exe", false, 5);
    let empty_path = obs("chrome.exe", "", true, 5);
    let blocked_name = obs("mbamtray.exe", "C:\\Apps\\mbamtray.exe", true, 5);
    let blocked_path = obs("svchost.exe", "C:\\Windows\\System32\\svchost.exe", true, 5);
    assert!(is_relevant_process(&running, &names, &prefixes));
    assert!(!is_relevant_process(&stopped, &names, &prefixes));
    assert!(!is_relevant_process(&empty_path, &names, &prefixes));
    assert!(!is_relevant_process(&blocked_name, &names, &prefixes));
    assert!(!is_relevant_process(&blocked_path, &names, &prefixes));
}

#[test]
fn filter_is_idempotent_on_a_sample() {
    let names = blocked_names();
    let prefixes = blocked_prefixes();
    let snapshot = vec![
        obs("chrome.exe", "C:\\Apps\\chrome.exe", true, 5),
        obs("svchost.exe", "C:\\Windows\\System32\\svchost.exe", true, 5),
        obs("code.exe", "C:\\Apps\\code.exe", false, 9),
        obs("spotify.exe", "C:\\Apps\\spotify.exe", true, 2),
    ];
    let once = filter_observations(&snapshot, &names, &prefixes);
    let twice = filter_observations(&once, &names, &prefixes);
    assert_eq!(once.len(), 2);
    assert_eq!(twice.len(), once.len());
    for (a, b) in once.iter().zip(twice.iter()) {
        assert_eq!(a.identity, b.identity);
        assert_eq!(a.path, b.path);
        assert_eq!(a.run_time_seconds, b.run_time_seconds);
    }
}

#[test]
fn aggregate_merges_duplicates_and_counts() {
    let snapshot = vec![
        obs("chrome.exe", "C:\\Apps\\chrome.exe", true, 100),
        obs("code.exe", "C:\\Apps\\code.exe", true, 30),
        obs("chrome.exe", "C:\\Apps\\chrome.exe", true, 150),
    ];
    let merged = aggregate(&snapshot);
    assert_eq!(merged.len(), 2);
    let chrome = merged.iter().find(|p| p.identity == "chrome.exe").unwrap();
    assert_eq!(chrome.instance_count, 2);
    assert_eq!(chrome.max_observed_run_time, 150);
    assert_eq!(chrome.display_name, "Chrome");
    assert_eq!(chrome.path, "C:\\Apps\\chrome.exe");
    let code = merged.iter().find(|p| p.identity == "code.exe").unwrap();
    assert_eq!(code.instance_count, 1);
    assert_eq!(code.max_observed_run_time, 30);
}

#[test]
fn aggregate_counts_sum_to_input_length() {
    let snapshot = vec![
        obs("a.exe", "C:\\Apps\\a.exe", true, 1),
        obs("b.exe", "C:\\Apps\\b.exe", true, 2),
        obs("a.exe", "C:\\Apps\\a.exe", true, 3),
        obs("c.exe", "C:\\Apps\\c.exe", true, 4),
        obs("a.exe", "C:\\Apps\\a.exe", true, 5),
    ];
    let merged = aggregate(&snapshot);
    let total: u32 = merged.iter().map(|p| p.instance_count).sum();
    assert_eq!(total as usize, snapshot.len());
}

#[test]
fn aggregate_keeps_first_seen_path() {
    let snapshot = vec![
        obs("tool.exe", "C:\\One\\tool.exe", true, 1),
        obs("tool.exe", "C:\\Two\\tool.exe", true, 2),
    ];
    let merged = aggregate(&snapshot);
    assert_eq!(merged.len(), 1);
    assert_eq!(merged[0].path, "C:\\One\\tool.exe");
}

#[test]
fn dedup_windows_keeps_first_window_per_path() {
    let w = |title: &str, path: &str| WindowRecord {
        title: title.to_string(),
        path: path.to_string(),
    };
    let list = vec![
        w("Jay3 - Twitch - Google Chrome", "C:\\Apps\\chrome.exe"),
        w("Docs - Google Chrome", "C:\\Apps\\chrome.exe"),
        w("ShareX", "C:\\Apps\\ShareX.exe"),
    ];
    let out = dedup_windows(&list);
    assert_eq!(out.len(), 2);
    assert_eq!(out[0].name, "Jay3 - Twitch - Google Chrome");
    assert_eq!(out[0].pretty_name, "Google Chrome");
    assert_eq!(out[0].path, "C:\\Apps\\chrome.exe");
    assert_eq!(out[1].pretty_name, "ShareX");
}

#[test]
fn cycle_without_snapshot_is_provider_unavailable() {
    let config = Config::new(10, blocked_names(), blocked_prefixes()).unwrap();
    let mut ledger = Ledger::new();
    let r = run_cycle(&mut ledger, None, 1000, &config);
    assert!(matches!(r, Err(TrackerError::ProviderUnavailable)));
    assert_eq!(ledger.entries().len(), 0);
}

#[test]
fn end_to_end_two_cycles_accrue_ten_seconds() {
    let config = Config::new(10, blocked_names(), blocked_prefixes()).unwrap();
    let mut ledger = Ledger::new();
    let first = vec![
        obs("chrome.exe", "C:\\Apps\\chrome.exe", true, 100),
        obs("chrome.exe", "C:\\Apps\\chrome.exe", true, 150),
    ];
    let merged = run_cycle(&mut ledger, Some(first), 1000, &config).unwrap();
    assert_eq!(merged.len(), 1);
    assert_eq!(merged[0].instance_count, 2);
    assert_eq!(merged[0].max_observed_run_time, 150);
    assert_eq!(ledger.get_cumulative("chrome.exe"), Some(0));
    let second = vec![obs("chrome.exe", "C:\\Apps\\chrome.exe", true, 160)];
    run_cycle(&mut ledger, Some(second), 1010, &config).unwrap();
    assert_eq!(ledger.get_cumulative("chrome.exe"), Some(10));
}

#[test]
fn cycle_leaves_absent_identities_untouched() {
    let config = Config::new(10, blocked_names(), blocked_prefixes()).unwrap();
    let mut ledger = Ledger::new();
    let first = vec![
        obs("a.exe", "C:\\Apps\\a.exe", true, 1),
        obs("b.exe", "C:\\Apps\\b.exe", true, 1),
    ];
    run_cycle(&mut ledger, Some(first), 1000, &config).unwrap();
    let second = vec![obs("a.exe", "C:\\Apps\\a.exe", true, 2)];
    run_cycle(&mut ledger, Some(second), 1010, &config).unwrap();
    assert_eq!(ledger.get_cumulative("a.exe"), Some(10));
    assert_eq!(ledger.get_cumulative("b.exe"), Some(0));
    let entry_b = ledger
        .entries()
        .iter()
        .find(|e| e.identity == "b.exe")
        .unwrap();
    assert_eq!(entry_b.last_updated_at, 1000);
}

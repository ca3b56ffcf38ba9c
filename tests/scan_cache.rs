use feral_setupd::scan_cache::{
    select_ssids, ssids_from_scan_output, CacheStep, ScanCache, MAX_SSIDS, SSID_CACHE_TTL_MS,
};

fn strings(v: &[&str]) -> Vec<String> {
    v.iter().map(|s| s.to_string()).collect()
}

#[test]
fn cold_cache_burst_starts_one_refresh() {
    let mut cache = ScanCache::new();
    let mut refreshes = 0;
    for t in 0..50u64 {
        match cache.poll(t) {
            CacheStep::Refresh => refreshes += 1,
            CacheStep::Wait => {}
            CacheStep::Fresh(_) => panic!("cold cache handed out a list"),
        }
    }
    assert_eq!(refreshes, 1);
    cache.finish_refresh(Some(strings(&["A", "B"])), 100);
    for t in 100..150u64 {
        match cache.poll(t) {
            CacheStep::Fresh(l) => assert_eq!(l, strings(&["A", "B"])),
            other => panic!("unexpected {:?}", other),
        }
    }
}

#[test]
fn expired_cache_refreshes_once() {
    let mut cache = ScanCache::new();
    assert!(matches!(cache.poll(0), CacheStep::Refresh));
    cache.finish_refresh(Some(strings(&["A"])), 1_000);
    let expiry = 1_000 + SSID_CACHE_TTL_MS;
    assert!(matches!(cache.poll(expiry - 1), CacheStep::Fresh(_)));
    assert!(matches!(cache.poll(expiry), CacheStep::Refresh));
    assert!(matches!(cache.poll(expiry + 1), CacheStep::Wait));
}

#[test]
fn failed_refresh_keeps_entry_and_expiry() {
    let mut cache = ScanCache::new();
    assert!(matches!(cache.poll(0), CacheStep::Refresh));
    cache.finish_refresh(Some(strings(&["A"])), 0);
    assert!(matches!(cache.poll(SSID_CACHE_TTL_MS), CacheStep::Refresh));
    cache.finish_refresh(None, SSID_CACHE_TTL_MS + 5);
    assert!(matches!(cache.poll(SSID_CACHE_TTL_MS + 6), CacheStep::Refresh));
}

#[test]
fn failed_first_refresh_leaves_cache_cold() {
    let mut cache = ScanCache::new();
    assert!(matches!(cache.poll(0), CacheStep::Refresh));
    cache.finish_refresh(None, 10);
    assert!(matches!(cache.poll(11), CacheStep::Refresh));
}

#[test]
fn select_dedups_and_skips_empty() {
    let got = select_ssids(&strings(&["Home", "", "Cafe", "Home", "Lab", "Cafe"]));
    assert_eq!(got, strings(&["Home", "Cafe", "Lab"]));
}

#[test]
fn select_caps_at_max() {
    let lines: Vec<String> = (0..20).map(|i| format!("net{}", i)).collect();
    let got = select_ssids(&lines);
    assert_eq!(got.len(), MAX_SSIDS);
    assert_eq!(got[8], "net8");
}

#[test]
fn scan_output_parsed() {
    let got = ssids_from_scan_output("Home\nCafe\r\n\nHome\nLab");
    assert_eq!(got, strings(&["Home", "Cafe", "Lab"]));
    assert_eq!(ssids_from_scan_output(""), Vec::<String>::new());
    assert_eq!(ssids_from_scan_output("\n\n"), Vec::<String>::new());
}

use py_manager::cache::VersionCache;
use py_manager::snapshot::{PackageEntry, PackageSnapshot, PanelState, panel_state};

fn entry(name: &str, version: &str) -> PackageEntry {
    PackageEntry::new(name.to_string(), version.to_string())
}

fn listed(items: &[(&str, &str)]) -> PackageSnapshot {
    PackageSnapshot::Listed(items.iter().map(|(n, v)| entry(n, v)).collect())
}

fn names(s: &PackageSnapshot) -> Vec<(String, String)> {
    match s {
        PackageSnapshot::Listed(v) => v.iter().map(|e| (e.name.clone(), e.version.clone())).collect(),
        PackageSnapshot::Failed(d) => vec![("failed".to_string(), d.clone())],
    }
}

#[test]
fn empty_cache_has_nothing() {
    let c = VersionCache::new();
    assert!(c.get(&"3.9.1".to_string()).is_none());
    assert!(!c.is_pending(&"3.9.1".to_string()));
}

#[test]
fn read_after_write_returns_snapshot() {
    let mut c = VersionCache::new();
    let k = "3.9.1".to_string();
    c.put(&k, listed(&[("numpy", "1.26.0"), ("pip", "23.0")]));
    let got = c.get(&k).expect("stored");
    assert_eq!(
        names(got),
        vec![
            ("numpy".to_string(), "1.26.0".to_string()),
            ("pip".to_string(), "23.0".to_string())
        ]
    );
}

#[test]
fn last_write_wins() {
    let mut c = VersionCache::new();
    let k = "3.11.4".to_string();
    c.put(&k, listed(&[("numpy", "1.25.0"), ("scipy", "1.11.0")]));
    c.put(&k, listed(&[("numpy", "1.26.0")]));
    assert_eq!(names(c.get(&k).unwrap()), vec![("numpy".to_string(), "1.26.0".to_string())]);
}

#[test]
fn other_key_untouched_by_put() {
    let mut c = VersionCache::new();
    let a = "3.9.1".to_string();
    let b = "3.11.4".to_string();
    c.put(&b, listed(&[("requests", "2.31.0")]));
    assert!(c.begin(&b));
    c.put(&a, listed(&[("numpy", "1.26.0")]));
    c.finish(&a, PackageSnapshot::Failed("boom".to_string()));
    assert_eq!(names(c.get(&b).unwrap()), vec![("requests".to_string(), "2.31.0".to_string())]);
    assert!(c.is_pending(&b));
    assert!(!c.is_pending(&a));
}

#[test]
fn second_request_while_in_flight_is_suppressed() {
    let mut c = VersionCache::new();
    let k = "3.9.1".to_string();
    let mut fetches = 0;
    if c.begin(&k) {
        fetches += 1;
    }
    if c.begin(&k) {
        fetches += 1;
    }
    assert_eq!(fetches, 1);
    assert!(c.is_pending(&k));
    c.finish(&k, listed(&[]));
    assert!(!c.is_pending(&k));
    if c.begin(&k) {
        fetches += 1;
    }
    assert_eq!(fetches, 2);
}

#[test]
fn put_keeps_in_flight_marker() {
    let mut c = VersionCache::new();
    let k = "3.10.0".to_string();
    assert!(c.begin(&k));
    c.put(&k, listed(&[("wheel", "0.41.0")]));
    assert!(c.is_pending(&k));
    assert!(!c.begin(&k));
}

#[test]
fn panel_states() {
    assert_eq!(panel_state(None), PanelState::Loading);
    assert_eq!(panel_state(Some(&listed(&[]))), PanelState::Empty);
    assert_eq!(panel_state(Some(&listed(&[("numpy", "1.26.0")]))), PanelState::Listed);
    assert_eq!(panel_state(Some(&PackageSnapshot::Failed("x".to_string()))), PanelState::Failed);
}

#[test]
fn from_fetch_keeps_outcome() {
    let ok = PackageSnapshot::from_fetch(Ok(vec![entry("numpy", "1.26.0")]));
    assert_eq!(names(&ok), vec![("numpy".to_string(), "1.26.0".to_string())]);
    let err = PackageSnapshot::from_fetch(Err("pip missing".to_string()));
    assert_eq!(names(&err), vec![("failed".to_string(), "pip missing".to_string())]);
}

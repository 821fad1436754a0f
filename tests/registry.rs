use bughouse_server::registry::Registry;
use bughouse_server::SessionId;

fn sid(s: &str) -> SessionId {
    SessionId::from_string(s.to_string())
}

#[test]
fn registry_insert_get_remove() {
    let mut r: Registry<u32> = Registry::new();
    assert_eq!(r.len(), 0);
    assert!(r.insert(sid("ab12"), 7));
    assert!(r.insert(sid("cd34"), 9));
    assert!(!r.insert(sid("ab12"), 11));
    assert_eq!(r.len(), 2);
    assert_eq!(r.get(&sid("ab12")), Some(&7));
    assert_eq!(r.get(&sid("cd34")), Some(&9));
    assert_eq!(r.get(&sid("zz99")), None);
    let ids: Vec<String> = r.session_ids().iter().map(|s| s.as_str().to_string()).collect();
    assert_eq!(ids, vec!["ab12".to_string(), "cd34".to_string()]);
    assert_eq!(r.remove(&sid("ab12")), Some(7));
    assert_eq!(r.remove(&sid("ab12")), None);
    assert_eq!(r.get(&sid("ab12")), None);
    assert_eq!(r.len(), 1);
}

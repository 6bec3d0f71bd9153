use glote::{Response, StrMap};

#[test]
fn strmap_insert_get_remove() {
    let mut m = StrMap::new();
    assert_eq!(m.len(), 0);
    m.insert("a", "1");
    m.insert("b", "2");
    m.insert("a", "3");
    assert_eq!(m.len(), 2);
    assert_eq!(m.get("a").unwrap(), "3");
    assert_eq!(m.get("b").unwrap(), "2");
    assert!(m.contains_key("a"));
    m.remove("a");
    assert!(!m.contains_key("a"));
    assert_eq!(m.len(), 1);
    m.remove("missing");
    assert_eq!(m.len(), 1);
}

#[test]
fn strmap_pair_at_walks_entries() {
    let mut m = StrMap::new();
    m.insert("x", "1");
    m.insert("y", "2");
    let mut seen = Vec::new();
    for i in 0..m.len() {
        let (k, v) = m.pair_at(i);
        seen.push((k.clone(), v.clone()));
    }
    assert_eq!(seen, vec![("x".to_string(), "1".to_string()), ("y".to_string(), "2".to_string())]);
}

#[test]
fn strmap_duplicate_is_equal_and_independent() {
    let mut m = StrMap::new();
    m.insert("k", "v");
    let mut copy = m.duplicate();
    assert_eq!(copy.get("k").unwrap(), "v");
    copy.insert("k", "other");
    assert_eq!(m.get("k").unwrap(), "v");
}

#[test]
fn response_status_code_tracks_setter() {
    let mut res = Response::new();
    assert_eq!(res.status_code(), 200);
    res.status(503);
    assert_eq!(res.status_code(), 503);
}

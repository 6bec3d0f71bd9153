use std::sync::Arc;

use glote::Glote;

#[test]
fn test_server_instantiation() {
    let server = Arc::new(Glote::new());
    assert!(Arc::strong_count(&server) >= 1);
}

#[test]
fn main_test_test_server_instantiation() {
    let server = Arc::new(Glote::new());
    assert!(Arc::strong_count(&server) >= 1);
}

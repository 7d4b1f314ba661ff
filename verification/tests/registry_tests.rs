use ollie::registry::CancellationRegistry;

#[test]
fn register_then_cancel_then_unregister() {
    let mut reg = CancellationRegistry::new();
    let id = "pull-1".to_string();
    assert!(reg.register(&id));
    assert!(reg.contains(&id));
    assert!(!reg.is_cancelled(&id));
    assert!(reg.request_cancel(&id));
    assert!(reg.is_cancelled(&id));
    reg.unregister(&id);
    assert!(!reg.contains(&id));
    assert!(!reg.is_cancelled(&id));
}

#[test]
fn duplicate_registration_is_refused() {
    let mut reg = CancellationRegistry::new();
    let id = "same".to_string();
    assert!(reg.register(&id));
    assert!(!reg.register(&id));
    // The original, unset flag is untouched by the refused registration.
    assert!(!reg.is_cancelled(&id));
}

#[test]
fn cancel_of_unknown_identifier_reports_not_found() {
    let mut reg = CancellationRegistry::new();
    let id = "nobody".to_string();
    assert!(!reg.request_cancel(&id));
    assert!(!reg.contains(&id));
}

#[test]
fn entries_are_independent() {
    let mut reg = CancellationRegistry::new();
    let a = "a".to_string();
    let b = "b".to_string();
    assert!(reg.register(&a));
    assert!(reg.register(&b));
    assert!(reg.request_cancel(&a));
    assert!(reg.is_cancelled(&a));
    assert!(!reg.is_cancelled(&b));
    reg.unregister(&a);
    assert!(!reg.contains(&a));
    assert!(reg.contains(&b));
}

#[test]
fn unregister_of_unknown_identifier_changes_nothing() {
    let mut reg = CancellationRegistry::new();
    let a = "a".to_string();
    let ghost_id = "ghostly".to_string();
    assert!(reg.register(&a));
    reg.unregister(&ghost_id);
    assert!(reg.contains(&a));
}

#[test]
fn identifier_can_be_reused_after_unregister() {
    let mut reg = CancellationRegistry::new();
    let id = "recycled".to_string();
    assert!(reg.register(&id));
    assert!(reg.request_cancel(&id));
    reg.unregister(&id);
    // A later pull may reuse the identifier; the stale request is gone.
    assert!(reg.register(&id));
    assert!(!reg.is_cancelled(&id));
}

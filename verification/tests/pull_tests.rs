use ollie::models::{format_http_error, http_status_is_success, pull_endpoint};
use ollie::pull::{cancel_pull, resolve_pull_id, resolve_server_url, Notification, ProgressPayload,
    PullSession};
use ollie::registry::CancellationRegistry;

fn progress_text(n: &Notification) -> (String, bool) {
    match n {
        Notification::Progress { progress, .. } => match progress {
            ProgressPayload::Parsed(s) => (s.clone(), true),
            ProgressPayload::ParseError(s) => (s.clone(), false),
        },
        _ => panic!("expected a progress notification"),
    }
}

#[test]
fn successful_pull_publishes_progress_then_complete() {
    let mut reg = CancellationRegistry::new();
    let (mut session, start) =
        PullSession::begin(&mut reg, resolve_pull_id(None), "llama3".to_string()).unwrap();
    match &start {
        Notification::Start { name, .. } => assert_eq!(name, "llama3"),
        _ => panic!("expected a start notification"),
    }
    assert!(session.on_response_status(&mut reg, 200, "OK").is_none());

    let notes = session.on_chunk(
        b"{\"status\":\"downloading\",\"completed\":10,\"total\":100}\n{\"status\":\"success\"}\n",
    );
    assert_eq!(notes.len(), 2);
    let (first, first_parsed) = progress_text(&notes[0]);
    let (second, second_parsed) = progress_text(&notes[1]);
    assert_eq!(first, "{\"status\":\"downloading\",\"completed\":10,\"total\":100}");
    assert!(first_parsed);
    assert_eq!(second, "{\"status\":\"success\"}");
    assert!(second_parsed);

    let (end_notes, response) = session.on_stream_end(&mut reg);
    assert_eq!(end_notes.len(), 1);
    assert!(matches!(end_notes[0], Notification::Complete { .. }));
    assert!(response.success);
    assert!(response.error.is_none());
}

#[test]
fn http_failure_reports_the_status_code() {
    let mut reg = CancellationRegistry::new();
    let id = "failing".to_string();
    let (mut session, _) =
        PullSession::begin(&mut reg, id.clone(), "llama3".to_string()).unwrap();
    let (note, response) =
        session.on_response_status(&mut reg, 500, "Internal Server Error").unwrap();
    match note {
        Notification::Error { error, .. } => {
            assert_eq!(error, "HTTP error: 500 Internal Server Error")
        }
        _ => panic!("expected an error notification"),
    }
    assert!(!response.success);
    assert!(response.error.unwrap().contains("500"));
    // The registry entry did not outlive the failed pull.
    assert!(!reg.contains(&id));
}

#[test]
fn cancellation_after_first_chunk() {
    let mut reg = CancellationRegistry::new();
    let id = "cancel-me".to_string();
    let (mut session, _) =
        PullSession::begin(&mut reg, id.clone(), "llama3".to_string()).unwrap();
    assert!(session.on_response_status(&mut reg, 200, "OK").is_none());

    let notes = session.on_chunk(b"{\"status\":\"downloading\"}\n");
    assert_eq!(notes.len(), 1);

    // The cancellation request arrives between chunk receipts.
    let cancel_response = cancel_pull(&mut reg, &id);
    assert!(cancel_response.success);
    assert!(cancel_response.error.is_none());
    assert!(reg.is_cancelled(&id));

    // The loop observes the flag before consuming the next chunk; the two
    // remaining chunks are never fed.
    let (note, response) = session.on_cancelled(&mut reg);
    assert!(matches!(note, Notification::Cancelled { .. }));
    assert!(!response.success);
    assert_eq!(response.error.unwrap(), "Cancelled by user");
    assert!(!reg.contains(&id));
}

#[test]
fn cancel_of_unknown_pull_reports_not_found() {
    let mut reg = CancellationRegistry::new();
    let response = cancel_pull(&mut reg, &"missing".to_string());
    assert!(!response.success);
    assert_eq!(response.error.unwrap(), "Pull ID not found");
}

#[test]
fn unparseable_line_is_wrapped_not_dropped() {
    let mut reg = CancellationRegistry::new();
    let (mut session, _) =
        PullSession::begin(&mut reg, "p".to_string(), "m".to_string()).unwrap();
    assert!(session.on_response_status(&mut reg, 200, "OK").is_none());
    let notes = session.on_chunk(b"not valid json\n");
    assert_eq!(notes.len(), 1);
    let (text, parsed) = progress_text(&notes[0]);
    assert_eq!(text, "not valid json");
    assert!(!parsed);
}

#[test]
fn transport_error_fails_the_pull() {
    let mut reg = CancellationRegistry::new();
    let id = "broken".to_string();
    let (mut session, _) =
        PullSession::begin(&mut reg, id.clone(), "m".to_string()).unwrap();
    assert!(session.on_response_status(&mut reg, 200, "OK").is_none());
    let (note, response) =
        session.on_transport_error(&mut reg, "connection reset by peer".to_string());
    match note {
        Notification::Error { error, .. } => assert_eq!(error, "connection reset by peer"),
        _ => panic!("expected an error notification"),
    }
    assert!(!response.success);
    assert_eq!(response.error.unwrap(), "connection reset by peer");
    assert!(!reg.contains(&id));
}

#[test]
fn trailing_record_without_newline_is_flushed() {
    let mut reg = CancellationRegistry::new();
    let (mut session, _) =
        PullSession::begin(&mut reg, "p".to_string(), "m".to_string()).unwrap();
    assert!(session.on_response_status(&mut reg, 200, "OK").is_none());
    let notes = session.on_chunk(b"{\"status\":\"success\"}");
    assert!(notes.is_empty());
    let (end_notes, response) = session.on_stream_end(&mut reg);
    assert_eq!(end_notes.len(), 2);
    let (text, parsed) = progress_text(&end_notes[0]);
    assert_eq!(text, "{\"status\":\"success\"}");
    assert!(parsed);
    assert!(matches!(end_notes[1], Notification::Complete { .. }));
    assert!(response.success);
}

#[test]
fn duplicate_identifier_cannot_start_twice() {
    let mut reg = CancellationRegistry::new();
    let id = "shared".to_string();
    assert!(PullSession::begin(&mut reg, id.clone(), "m".to_string()).is_ok());
    let second = PullSession::begin(&mut reg, id.clone(), "m".to_string());
    let response = second.err().unwrap();
    assert!(!response.success);
    assert_eq!(response.error.unwrap(), "Pull ID already active");
    // The first pull's flag is still present and untouched.
    assert!(reg.contains(&id));
    assert!(!reg.is_cancelled(&id));
}

#[test]
fn generated_identifiers_are_distinct() {
    let mut ids = Vec::new();
    for _ in 0..16 {
        ids.push(resolve_pull_id(None));
    }
    for i in 0..ids.len() {
        assert_eq!(ids[i].len(), 36);
        for j in 0..i {
            assert_ne!(ids[i], ids[j]);
        }
    }
}

#[test]
fn supplied_identifier_and_url_are_kept() {
    assert_eq!(resolve_pull_id(Some("given".to_string())), "given");
    assert_eq!(
        resolve_server_url(Some("http://other:1".to_string()), "http://cfg:2".to_string()),
        "http://other:1"
    );
    assert_eq!(
        resolve_server_url(None, "http://cfg:2".to_string()),
        "http://cfg:2"
    );
}

#[test]
fn status_code_helpers() {
    assert!(http_status_is_success(200));
    assert!(http_status_is_success(299));
    assert!(!http_status_is_success(199));
    assert!(!http_status_is_success(300));
    assert!(!http_status_is_success(500));
    assert_eq!(format_http_error(404, "Not Found"), "HTTP error: 404 Not Found");
    assert_eq!(
        format_http_error(599, "<unknown status code>"),
        "HTTP error: 599 <unknown status code>"
    );
    assert_eq!(format_http_error(0, ""), "HTTP error: 0 ");
}

#[test]
fn invalid_bytes_decode_to_placeholders() {
    let mut reg = CancellationRegistry::new();
    let (mut session, _) =
        PullSession::begin(&mut reg, "p".to_string(), "m".to_string()).unwrap();
    assert!(session.on_response_status(&mut reg, 200, "OK").is_none());
    let notes = session.on_chunk(&[0xFF, 0xFE, b'\n']);
    assert_eq!(notes.len(), 1);
    let (text, parsed) = progress_text(&notes[0]);
    assert_eq!(text, "\u{FFFD}\u{FFFD}");
    assert!(!parsed);
}

#[test]
fn endpoint_is_base_url_plus_pull_path() {
    assert_eq!(pull_endpoint("http://localhost:11434"), "http://localhost:11434/api/pull");
}

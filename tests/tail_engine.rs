use lambda_deploy::{
    LogEvent, QueryError, QueryRequest, QueryResponse, TailAction, TailEngine, PAGE_LIMIT,
    SAFETY_MARGIN_MS,
};

fn event(id: &str, message: &str) -> LogEvent {
    LogEvent { event_id: id.to_string(), timestamp: 1000, message: message.to_string() }
}

fn page(events: Vec<LogEvent>, token: Option<&str>) -> Result<QueryResponse, QueryError> {
    Ok(QueryResponse { events, next_token: token.map(|t| t.to_string()) })
}

fn emitted(action: TailAction) -> Vec<String> {
    match action {
        TailAction::Emit(lines) => lines,
        TailAction::Stop(e) => panic!("unexpected stop: {}", e.detail),
    }
}

fn request(engine: &TailEngine) -> QueryRequest {
    engine.next_request().expect("engine should ask for a query")
}

#[test]
fn first_request_uses_since_and_group() {
    let engine = TailEngine::new("MyFunc", 5_000_000);
    let q = request(&engine);
    assert_eq!(q.group, "/aws/lambda/MyFunc");
    assert_eq!(q.start_time, Some(5_000_000));
    assert_eq!(q.next_token, None);
    assert_eq!(q.limit, PAGE_LIMIT);
    assert_eq!(PAGE_LIMIT, 10000);
}

#[test]
fn scenario_duplicate_across_pages_emitted_once() {
    let mut engine = TailEngine::new("f", 0);
    let a = emitted(engine.on_result(page(vec![event("42", "hello\n")], Some("T1")), 10));
    let b = emitted(engine.on_result(page(vec![event("42", "hello\n")], Some("T2")), 20));
    let all: Vec<String> = a.into_iter().chain(b).collect();
    assert_eq!(all, vec!["hello\n".to_string()]);
}

#[test]
fn scenario_exhausted_token_resets_window() {
    let now: i64 = 1_700_000_000_000;
    let mut engine = TailEngine::new("f", 0);
    let out = emitted(engine.on_result(page(vec![event("1", "one")], None), now));
    assert_eq!(out, vec!["one".to_string()]);
    let q = request(&engine);
    assert_eq!(q.start_time, Some(now - SAFETY_MARGIN_MS));
    assert_eq!(q.next_token, None);
    // the dedup set is empty again: the same event is new to the fresh epoch
    let again = emitted(engine.on_result(page(vec![event("1", "one")], Some("T")), now + 3000));
    assert_eq!(again, vec!["one".to_string()]);
}

#[test]
fn scenario_error_on_third_call_stops() {
    let mut engine = TailEngine::new("f", 0);
    let mut responses = vec![
        page(vec![event("1", "a")], Some("T1")),
        page(vec![event("2", "b")], Some("T2")),
        Err(QueryError { detail: "throttled".to_string() }),
        page(vec![event("3", "c")], None),
    ]
    .into_iter();
    let mut calls = 0;
    let mut output: Vec<String> = Vec::new();
    let mut failure: Option<QueryError> = None;
    while let Some(_q) = engine.next_request() {
        calls += 1;
        let result = responses.next().expect("no more responses");
        match engine.on_result(result, calls * 3000) {
            TailAction::Emit(lines) => output.extend(lines),
            TailAction::Stop(e) => {
                failure = Some(e);
                break;
            }
        }
    }
    assert_eq!(calls, 3);
    assert_eq!(output, vec!["a".to_string(), "b".to_string()]);
    assert_eq!(failure.map(|e| e.detail), Some("throttled".to_string()));
    assert!(engine.next_request().is_none());
}

#[test]
fn no_duplicates_within_epoch_over_overlapping_pages() {
    let mut engine = TailEngine::new("f", 0);
    let a = emitted(engine.on_result(
        page(vec![event("1", "a"), event("2", "b"), event("3", "c")], Some("T1")),
        0,
    ));
    let b = emitted(engine.on_result(
        page(vec![event("2", "b"), event("3", "c"), event("4", "d")], Some("T2")),
        0,
    ));
    let c = emitted(engine.on_result(page(vec![event("1", "a"), event("4", "d")], Some("T3")), 0));
    assert_eq!(a, vec!["a", "b", "c"]);
    assert_eq!(b, vec!["d"]);
    assert!(c.is_empty());
}

#[test]
fn duplicate_inside_one_page_emitted_once() {
    let mut engine = TailEngine::new("f", 0);
    let out = emitted(engine.on_result(
        page(vec![event("9", "x"), event("8", "y"), event("9", "x")], Some("T")),
        0,
    ));
    assert_eq!(out, vec!["x", "y"]);
}

#[test]
fn page_order_is_kept() {
    let mut engine = TailEngine::new("f", 0);
    let out = emitted(engine.on_result(
        page(vec![event("c", "third"), event("a", "first"), event("b", "second")], Some("T")),
        0,
    ));
    assert_eq!(out, vec!["third", "first", "second"]);
}

#[test]
fn token_is_carried_and_start_time_kept() {
    let mut engine = TailEngine::new("f", 777);
    emitted(engine.on_result(page(vec![event("1", "a")], Some("TOKEN-1")), 999_999_999));
    let q = request(&engine);
    assert_eq!(q.next_token, Some("TOKEN-1".to_string()));
    assert_eq!(q.start_time, Some(777));
}

#[test]
fn token_present_keeps_seen_set() {
    let mut engine = TailEngine::new("f", 0);
    emitted(engine.on_result(page(vec![event("1", "a")], Some("T1")), 0));
    let out = emitted(engine.on_result(page(vec![event("1", "a")], None), 600_000));
    assert!(out.is_empty());
    let q = request(&engine);
    assert_eq!(q.start_time, Some(300_000));
}

#[test]
fn error_stops_polling() {
    let mut engine = TailEngine::new("f", 0);
    let action = engine.on_result(Err(QueryError { detail: "denied".to_string() }), 0);
    match action {
        TailAction::Stop(e) => assert_eq!(e.detail, "denied"),
        TailAction::Emit(_) => panic!("expected stop"),
    }
    assert!(engine.next_request().is_none());
}

#[test]
fn window_start_saturates() {
    assert_eq!(lambda_deploy::epoch_start(i64::MIN + 5), i64::MIN);
    assert_eq!(lambda_deploy::epoch_start(300_000), 0);
    assert_eq!(lambda_deploy::epoch_start(1_000_000), 700_000);
    assert_eq!(SAFETY_MARGIN_MS, 300_000);
}

#[test]
fn empty_page_emits_nothing() {
    let mut engine = TailEngine::new("f", 5);
    let out = emitted(engine.on_result(page(vec![], Some("T")), 0));
    assert!(out.is_empty());
    assert_eq!(request(&engine).next_token, Some("T".to_string()));
}

#[test]
fn same_id_in_next_epoch_is_emitted_again() {
    let mut engine = TailEngine::new("f", 0);
    let first = emitted(engine.on_result(page(vec![event("7", "seven"), event("8", "eight")], None), 400_000));
    let second = emitted(engine.on_result(
        page(vec![event("8", "eight"), event("7", "seven"), event("8", "eight")], Some("T")),
        403_000,
    ));
    assert_eq!(first, vec!["seven", "eight"]);
    assert_eq!(second, vec!["eight", "seven"]);
    assert_eq!(request(&engine).start_time, Some(100_000));
}

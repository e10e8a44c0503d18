use dust::app::{App, BlockSpec, BlockType};
use dust::policy::{ErrorKind, RetryPolicy};
use dust::run::{Action, Run, Status};
use dust::task::Event;
use serde_json::Value;
use std::cell::RefCell;
use std::collections::HashMap;

fn json(text: &str) -> Value {
    serde_json::from_str(text).unwrap()
}

fn block(name: &str, variant: BlockType, config: &str, depends_on: &[&str]) -> BlockSpec {
    BlockSpec {
        name: name.to_string(),
        variant,
        config: json(config),
        depends_on: depends_on.iter().map(|d| d.to_string()).collect(),
    }
}

fn policy(max_attempts: u32) -> RetryPolicy {
    RetryPolicy { max_attempts, base_delay_ms: 100, max_delay_ms: 1000 }
}

fn double(inputs: &[Value]) -> Result<Value, ErrorKind> {
    match inputs.first().and_then(|v| v.as_i64()) {
        Some(x) => Ok(Value::from(x * 2)),
        None => Err(ErrorKind::InvalidRequest),
    }
}

fn sum(inputs: &[Value]) -> Result<Value, ErrorKind> {
    Ok(Value::from(inputs.iter().filter_map(|v| v.as_i64()).sum::<i64>()))
}

/// Drives a run to its end, one action at a time, without a cache that
/// lasts; returns the delays of the attempts it made.
fn drive(run: &mut Run, provider: &dyn Fn(&[Value]) -> Result<Value, ErrorKind>) -> Vec<u64> {
    let mut cache: HashMap<String, Value> = HashMap::new();
    let mut delays = Vec::new();
    loop {
        match run.next_action() {
            Action::Lookup { task, key } => match cache.get(&key) {
                Some(value) => run.handle(Event::CacheHit { task, value: value.clone() }),
                None => run.handle(Event::CacheMiss { task }),
            },
            Action::Execute { task, inputs, delay_ms, .. } => {
                delays.push(delay_ms);
                match provider(&inputs) {
                    Ok(value) => run.handle(Event::Executed { task, value }),
                    Err(kind) => run.handle(Event::ExecutionFailed { task, kind }),
                }
            }
            Action::Store { key, value, .. } => {
                cache.insert(key, value);
            }
            Action::Wait => panic!("nothing is under way"),
            Action::Finished => return delays,
        }
    }
}

fn one_model() -> App {
    App::new(vec![
        block("INPUT", BlockType::Input, "null", &[]),
        block("MODEL", BlockType::LLM, "{}", &["INPUT"]),
    ])
    .unwrap()
}

fn map_reduce() -> App {
    App::new(vec![
        block("INPUT", BlockType::Input, "null", &[]),
        block("EACH", BlockType::MapEach, "\"items\"", &["INPUT"]),
        block("MODEL", BlockType::LLM, "{}", &["EACH"]),
        block("ALL", BlockType::Reduce, "null", &[]),
    ])
    .unwrap()
}

#[test]
fn blocks_get_the_outputs_they_depend_on() {
    let app = App::new(vec![
        block("INPUT", BlockType::Input, "null", &[]),
        block("TABLE", BlockType::Data, "[5,6]", &[]),
        block("TWICE", BlockType::Code, "1", &["INPUT"]),
        block("BOTH", BlockType::Code, "2", &["TWICE", "INPUT"]),
    ])
    .unwrap();
    let mut run = Run::new(app, json("21"), policy(1), 1);
    assert_eq!(run.position(), 2);
    assert_eq!(run.status(), Status::Running);
    let mut seen = Vec::new();
    let delays = drive(&mut run, &|inputs: &[Value]| {
        if inputs.len() == 1 {
            double(inputs)
        } else {
            sum(inputs)
        }
    });
    seen.push(delays.len());
    assert_eq!(seen, vec![2]);
    assert_eq!(run.status(), Status::Finished);
    assert_eq!(run.position(), 4);
    assert_eq!(run.output(0), Some(vec![json("21")]));
    assert_eq!(run.output(1), Some(vec![json("[5,6]")]));
    assert_eq!(run.output(2), Some(vec![json("42")]));
    assert_eq!(run.output(3), Some(vec![json("63")]));
    assert_eq!(run.app().find("BOTH"), Some(3));
}

#[test]
fn a_pipeline_without_blocks_is_finished_at_once() {
    let mut run = Run::new(App::new(Vec::new()).unwrap(), json("{}"), policy(1), 1);
    assert_eq!(run.status(), Status::Finished);
    assert!(matches!(run.next_action(), Action::Finished));
    assert_eq!(run.output(0), None);
    assert_eq!(run.meta(0), None);
}

#[test]
fn transient_failures_are_tried_again_with_growing_delays() {
    let calls = RefCell::new(0);
    let mut run = Run::new(one_model(), json("4"), policy(4), 1);
    let delays = drive(&mut run, &|inputs: &[Value]| {
        *calls.borrow_mut() += 1;
        match *calls.borrow() {
            1 => Err(ErrorKind::Timeout),
            2 => Err(ErrorKind::RateLimited),
            3 => Err(ErrorKind::ProviderUnavailable),
            _ => double(inputs),
        }
    });
    assert_eq!(delays, vec![0, 100, 200, 400]);
    assert_eq!(run.status(), Status::Finished);
    assert_eq!(run.output(1), Some(vec![json("8")]));
    let meta = run.meta(1).unwrap();
    assert_eq!((meta.hits, meta.misses, meta.retries), (0, 1, 3));
}

#[test]
fn a_failure_that_lasts_fails_the_run_when_the_attempts_are_used_up() {
    let mut run = Run::new(one_model(), json("4"), policy(3), 1);
    let delays = drive(&mut run, &|_: &[Value]| Err(ErrorKind::Timeout));
    assert_eq!(delays, vec![0, 100, 200]);
    assert_eq!(run.status(), Status::Failed { block: 1, branch: 0, kind: ErrorKind::Timeout });
    assert_eq!(run.meta(1).unwrap().retries, 2);
    assert_eq!(run.output(0), Some(vec![json("4")]));
    assert_eq!(run.output(1), None);
    assert!(matches!(run.next_action(), Action::Finished));
}

#[test]
fn a_refused_request_is_not_tried_again() {
    let mut run = Run::new(one_model(), json("4"), policy(5), 1);
    let delays = drive(&mut run, &|_: &[Value]| Err(ErrorKind::InvalidRequest));
    assert_eq!(delays, vec![0]);
    assert_eq!(
        run.status(),
        Status::Failed { block: 1, branch: 0, kind: ErrorKind::InvalidRequest }
    );
    let mut run = Run::new(one_model(), json("4"), policy(5), 1);
    let delays = drive(&mut run, &|_: &[Value]| Err(ErrorKind::Execution));
    assert_eq!(delays, vec![0]);
    assert_eq!(run.status(), Status::Failed { block: 1, branch: 0, kind: ErrorKind::Execution });
}

#[test]
fn no_attempt_is_made_again_where_none_is_allowed() {
    let mut run = Run::new(one_model(), json("4"), policy(0), 1);
    let delays = drive(&mut run, &|_: &[Value]| Err(ErrorKind::Timeout));
    assert_eq!(delays, vec![0]);
    assert_eq!(run.status(), Status::Failed { block: 1, branch: 0, kind: ErrorKind::Timeout });
}

#[test]
fn nested_scopes_fold_from_the_inside() {
    let app = App::new(vec![
        block("INPUT", BlockType::Input, "null", &[]),
        block("ROWS", BlockType::MapEach, "\"rows\"", &["INPUT"]),
        block("CELLS", BlockType::MapEach, "null", &["ROWS"]),
        block("MODEL", BlockType::LLM, "{}", &["CELLS"]),
        block("ROW", BlockType::Reduce, "null", &[]),
        block("TABLE", BlockType::Reduce, "null", &[]),
    ])
    .unwrap();
    let mut run = Run::new(app, json("{\"rows\":[[1,2],[],[3]]}"), policy(1), 2);
    let delays = drive(&mut run, &double);
    assert_eq!(delays.len(), 3);
    assert_eq!(run.status(), Status::Finished);
    assert_eq!(run.output(5), Some(vec![json("[[2,4],[],[6]]")]));
    assert_eq!(run.output(4), Some(vec![json("[[2,4],[],[6]]")]));
    assert_eq!(run.output(3), Some(vec![json("[[2,4],[],[6]]")]));
    assert_eq!(run.output(2), Some(vec![json("[[1,2],[],[3]]")]));
    assert_eq!(run.output(1), Some(vec![json("[[1,2],[],[3]]")]));
}

#[test]
fn outputs_are_per_branch_while_a_scope_is_open() {
    let app = App::new(vec![
        block("INPUT", BlockType::Input, "null", &[]),
        block("EACH", BlockType::MapEach, "null", &["INPUT"]),
        block("MODEL", BlockType::LLM, "{}", &["EACH"]),
    ])
    .unwrap();
    let mut run = Run::new(app, json("[1,2,3]"), policy(1), 1);
    assert_eq!(run.output(1), Some(vec![json("1"), json("2"), json("3")]));
    drive(&mut run, &double);
    assert_eq!(run.status(), Status::Finished);
    assert_eq!(run.output(2), Some(vec![json("2"), json("4"), json("6")]));
    assert_eq!(run.output(0), Some(vec![json("[1,2,3]"), json("[1,2,3]"), json("[1,2,3]")]));
}

#[test]
fn an_empty_collection_reduces_to_an_empty_array() {
    let mut run = Run::new(map_reduce(), json("{\"items\":[]}"), policy(1), 1);
    assert!(drive(&mut run, &double).is_empty());
    assert_eq!(run.status(), Status::Finished);
    assert_eq!(run.output(3), Some(vec![json("[]")]));
}

#[test]
fn a_map_over_what_is_no_array_fails_the_run() {
    let run = Run::new(map_reduce(), json("{\"items\":7}"), policy(1), 1);
    assert_eq!(run.status(), Status::Failed { block: 1, branch: 0, kind: ErrorKind::Execution });
    let run = Run::new(map_reduce(), json("{\"other\":[1]}"), policy(1), 1);
    assert_eq!(run.status(), Status::Failed { block: 1, branch: 0, kind: ErrorKind::Execution });
    let app = App::new(vec![block("EACH", BlockType::MapEach, "null", &[])]).unwrap();
    let run = Run::new(app, json("[1]"), policy(1), 1);
    assert_eq!(run.status(), Status::Failed { block: 0, branch: 0, kind: ErrorKind::Execution });
}

#[test]
fn no_more_is_under_way_than_there_are_workers() {
    let mut run = Run::new(map_reduce(), json("{\"items\":[1,2,3]}"), policy(1), 2);
    assert!(matches!(run.next_action(), Action::Lookup { task: 0, .. }));
    assert!(matches!(run.next_action(), Action::Lookup { task: 1, .. }));
    assert!(matches!(run.next_action(), Action::Wait));
    run.handle(Event::CacheMiss { task: 1 });
    assert!(matches!(run.next_action(), Action::Execute { task: 1, .. }));
    assert!(matches!(run.next_action(), Action::Wait));
    run.handle(Event::CacheHit { task: 0, value: json("2") });
    assert!(matches!(run.next_action(), Action::Lookup { task: 2, .. }));
    assert!(matches!(run.next_action(), Action::Wait));

    let mut run = Run::new(map_reduce(), json("{\"items\":[1,2,3]}"), policy(1), 0);
    assert!(matches!(run.next_action(), Action::Lookup { task: 0, .. }));
    assert!(matches!(run.next_action(), Action::Wait));
}

#[test]
fn a_failed_branch_stops_the_run_once_its_siblings_are_back() {
    let mut run = Run::new(map_reduce(), json("{\"items\":[1,2,3]}"), policy(1), 3);
    for _ in 0..3 {
        assert!(matches!(run.next_action(), Action::Lookup { .. }));
    }
    for task in 0..3 {
        run.handle(Event::CacheMiss { task });
    }
    for _ in 0..3 {
        assert!(matches!(run.next_action(), Action::Execute { .. }));
    }
    run.handle(Event::ExecutionFailed { task: 2, kind: ErrorKind::InvalidRequest });
    assert!(matches!(run.next_action(), Action::Wait));
    run.handle(Event::Executed { task: 0, value: json("2") });
    assert!(matches!(run.next_action(), Action::Store { task: 0, .. }));
    assert!(matches!(run.next_action(), Action::Wait));
    run.handle(Event::ExecutionFailed { task: 1, kind: ErrorKind::Timeout });
    assert!(matches!(run.next_action(), Action::Finished));
    assert_eq!(
        run.status(),
        Status::Failed { block: 2, branch: 1, kind: ErrorKind::Timeout }
    );
    assert_eq!(run.position(), 2);
    assert_eq!(run.output(3), None);
    assert_eq!(run.output(1), Some(vec![json("1"), json("2"), json("3")]));
    run.handle(Event::Executed { task: 1, value: json("4") });
    assert!(matches!(run.next_action(), Action::Finished));
    assert_eq!(run.position(), 2);
}

#[test]
fn events_that_fit_nothing_are_ignored() {
    let mut run = Run::new(one_model(), json("4"), policy(2), 1);
    run.handle(Event::CacheHit { task: 0, value: json("0") });
    run.handle(Event::Executed { task: 0, value: json("0") });
    run.handle(Event::CacheMiss { task: 9 });
    assert!(matches!(run.next_action(), Action::Lookup { task: 0, .. }));
    run.handle(Event::Executed { task: 0, value: json("0") });
    run.handle(Event::ExecutionFailed { task: 0, kind: ErrorKind::Timeout });
    assert!(matches!(run.next_action(), Action::Wait));
    run.handle(Event::CacheHit { task: 0, value: json("8") });
    run.handle(Event::CacheMiss { task: 0 });
    assert!(matches!(run.next_action(), Action::Finished));
    assert_eq!(run.output(1), Some(vec![json("8")]));
    let meta = run.meta(1).unwrap();
    assert_eq!((meta.hits, meta.misses, meta.retries, meta.store_failures), (1, 0, 0, 0));
}

#[test]
fn a_cache_that_fails_costs_the_run_nothing_but_is_counted() {
    let mut run = Run::new(one_model(), json("4"), policy(2), 1);
    assert!(matches!(run.next_action(), Action::Lookup { .. }));
    run.handle(Event::LookupFailed { task: 0 });
    match run.next_action() {
        Action::Execute { task, block, failures, delay_ms, inputs } => {
            assert_eq!((task, block, failures, delay_ms), (0, 1, 0, 0));
            assert_eq!(inputs, vec![json("4")]);
        }
        other => panic!("unexpected {:?}", other),
    }
    run.handle(Event::Executed { task: 0, value: json("8") });
    match run.next_action() {
        Action::Store { task, key, value } => {
            assert_eq!(task, 0);
            assert_eq!(key, dust::cache::cache_key(BlockType::LLM, &json("{}"), &vec![json("4")]));
            assert_eq!(value, json("8"));
        }
        other => panic!("unexpected {:?}", other),
    }
    run.handle(Event::StoreFailed { block: 1 });
    run.handle(Event::StoreFailed { block: 7 });
    assert!(matches!(run.next_action(), Action::Finished));
    assert_eq!(run.status(), Status::Finished);
    assert_eq!(run.output(1), Some(vec![json("8")]));
    let meta = run.meta(1).unwrap();
    assert_eq!((meta.hits, meta.misses, meta.retries, meta.store_failures), (0, 1, 0, 2));
}

#[test]
fn reported_times_add_up_for_each_block() {
    let mut run = Run::new(one_model(), json("4"), policy(2), 1);
    assert_eq!(run.meta(1).unwrap().latency_ms, 0);
    run.handle(Event::Timed { block: 1, elapsed_ms: 40 });
    run.handle(Event::Timed { block: 1, elapsed_ms: 2 });
    run.handle(Event::Timed { block: 0, elapsed_ms: 5 });
    run.handle(Event::Timed { block: 9, elapsed_ms: 5 });
    assert_eq!(run.meta(1).unwrap().latency_ms, 42);
    assert_eq!(run.meta(0).unwrap().latency_ms, 5);
    run.handle(Event::Timed { block: 1, elapsed_ms: u64::MAX - 10 });
    assert_eq!(run.meta(1).unwrap().latency_ms, u64::MAX);
    assert!(matches!(run.next_action(), Action::Lookup { task: 0, .. }));
    assert_eq!(run.meta(1).unwrap().hits, 0);
}

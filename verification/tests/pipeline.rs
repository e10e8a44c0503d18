use dust::app::{App, AppError, BlockSpec, BlockType};
use dust::cache::cache_key;
use dust::policy::{backoff_delay, is_retryable, ErrorKind, RetryPolicy};
use dust::run::{Action, Run, Status};
use dust::task::Event;
use serde_json::Value;
use std::collections::HashMap;

fn json(text: &str) -> Value {
    serde_json::from_str(text).unwrap()
}

fn block(name: &str, variant: BlockType, config: &str, depends_on: &[&str]) -> BlockSpec {
    BlockSpec {
        name: name.to_string(),
        variant,
        config: json(config),
        depends_on: depends_on.iter().map(|d| d.to_string()).collect(),
    }
}

fn policy(max_attempts: u32) -> RetryPolicy {
    RetryPolicy { max_attempts, base_delay_ms: 100, max_delay_ms: 1000 }
}

/// Doubles a number: the provider of these tests.
fn double(inputs: &[Value]) -> Result<Value, ErrorKind> {
    match inputs.first().and_then(|v| v.as_i64()) {
        Some(x) => Ok(Value::from(x * 2)),
        None => Err(ErrorKind::InvalidRequest),
    }
}

/// Drives a run to its end, one action at a time; returns how often a
/// block was run.
fn drive(
    run: &mut Run,
    cache: &mut HashMap<String, Value>,
    provider: &dyn Fn(&[Value]) -> Result<Value, ErrorKind>,
) -> usize {
    let mut executions = 0;
    loop {
        match run.next_action() {
            Action::Lookup { task, key } => match cache.get(&key) {
                Some(value) => run.handle(Event::CacheHit { task, value: value.clone() }),
                None => run.handle(Event::CacheMiss { task }),
            },
            Action::Execute { task, inputs, .. } => {
                executions += 1;
                match provider(&inputs) {
                    Ok(value) => run.handle(Event::Executed { task, value }),
                    Err(kind) => run.handle(Event::ExecutionFailed { task, kind }),
                }
            }
            Action::Store { key, value, .. } => {
                cache.insert(key, value);
            }
            Action::Wait => panic!("nothing is under way"),
            Action::Finished => return executions,
        }
    }
}

fn map_reduce_app() -> App {
    App::new(vec![
        block("INPUT", BlockType::Input, "null", &[]),
        block("EACH", BlockType::MapEach, "\"items\"", &["INPUT"]),
        block("MODEL", BlockType::LLM, "{\"model\":\"stub\"}", &["EACH"]),
        block("ALL", BlockType::Reduce, "null", &[]),
    ])
    .unwrap()
}

#[test]
fn a_pipeline_in_order_is_accepted() {
    let app = map_reduce_app();
    assert_eq!(app.len(), 4);
    assert_eq!(app.find("MODEL"), Some(2));
    assert_eq!(app.find("NONE"), None);
    assert_eq!(app.block(1).name, "EACH");
    assert_eq!(app.dependencies(2), &vec![1]);
    assert!(App::new(Vec::new()).is_ok());
}

#[test]
fn a_name_that_is_not_declared_yet_is_refused() {
    let r = App::new(vec![
        block("A", BlockType::Input, "null", &[]),
        block("B", BlockType::Code, "null", &["A", "C"]),
        block("C", BlockType::Code, "null", &["A"]),
    ]);
    assert_eq!(
        r.unwrap_err(),
        AppError::Cycle { block: 1, name: "B".to_string(), dependency: "C".to_string() }
    );
    let r = App::new(vec![block("A", BlockType::Code, "null", &["A"])]);
    assert_eq!(
        r.unwrap_err(),
        AppError::Cycle { block: 0, name: "A".to_string(), dependency: "A".to_string() }
    );
    let r = App::new(vec![
        block("A", BlockType::Input, "null", &[]),
        block("B", BlockType::Code, "null", &["A", "X"]),
    ]);
    assert_eq!(
        r.unwrap_err(),
        AppError::UnresolvedDependency {
            block: 1,
            name: "B".to_string(),
            dependency: "X".to_string()
        }
    );
}

#[test]
fn a_reduce_without_an_open_map_is_refused() {
    let r = App::new(vec![
        block("A", BlockType::Input, "null", &[]),
        block("R", BlockType::Reduce, "null", &[]),
    ]);
    assert_eq!(r.unwrap_err(), AppError::UnmatchedReduce { block: 1, name: "R".to_string() });
    let r = App::new(vec![
        block("A", BlockType::Input, "null", &[]),
        block("M", BlockType::MapEach, "null", &["A"]),
        block("R", BlockType::Reduce, "null", &[]),
        block("S", BlockType::Reduce, "null", &[]),
    ]);
    assert_eq!(r.unwrap_err(), AppError::UnmatchedReduce { block: 3, name: "S".to_string() });
}

#[test]
fn the_first_faulty_block_is_reported() {
    let r = App::new(vec![
        block("R", BlockType::Reduce, "null", &["Z"]),
        block("B", BlockType::Code, "null", &["Q"]),
    ]);
    assert_eq!(
        r.unwrap_err(),
        AppError::UnresolvedDependency {
            block: 0,
            name: "R".to_string(),
            dependency: "Z".to_string()
        }
    );
}

#[test]
fn a_name_stands_for_the_last_block_before() {
    let app = App::new(vec![
        block("A", BlockType::Input, "null", &[]),
        block("A", BlockType::Data, "[1]", &[]),
        block("B", BlockType::Code, "null", &["A"]),
        block("A", BlockType::Data, "[2]", &[]),
    ])
    .unwrap();
    assert_eq!(app.dependencies(2), &vec![1]);
    assert_eq!(app.find("A"), Some(3));
}

#[test]
fn keys_depend_on_kind_configuration_and_inputs() {
    let config = json("{\"model\":\"m\"}");
    let inputs = vec![json("1"), json("[2]")];
    let key = cache_key(BlockType::LLM, &config, &inputs);
    assert_eq!(key.len(), 64);
    assert!(key.chars().all(|c| "0123456789abcdef".contains(c)));
    assert_eq!(key, cache_key(BlockType::LLM, &json(" { \"model\" : \"m\" } "), &inputs));
    assert_ne!(key, cache_key(BlockType::Code, &config, &inputs));
    assert_ne!(key, cache_key(BlockType::LLM, &json("{}"), &inputs));
    assert_ne!(key, cache_key(BlockType::LLM, &config, &vec![json("1")]));
    assert_ne!(key, cache_key(BlockType::LLM, &config, &vec![json("[2]"), json("1")]));
    assert_ne!(
        cache_key(BlockType::LLM, &config, &vec![json("1"), json("2")]),
        cache_key(BlockType::LLM, &config, &vec![json("12")])
    );
}

#[test]
fn a_key_is_the_hash_of_the_framed_parts() {
    let mut material: Vec<u8> = vec![0x01, 3];
    for part in ["{\"m\":1}", "\"in\"", "7"] {
        material.extend_from_slice(&(part.len() as u64).to_le_bytes());
        material.extend_from_slice(part.as_bytes());
    }
    let key = cache_key(BlockType::LLM, &json("{\"m\":1}"), &vec![json("\"in\""), json("7")]);
    assert_eq!(key, blake3::hash(&material).to_hex().to_string());
    let none = cache_key(BlockType::Input, &json("null"), &Vec::new());
    let mut material: Vec<u8> = vec![0x01, 0];
    material.extend_from_slice(&4u64.to_le_bytes());
    material.extend_from_slice(b"null");
    assert_eq!(none, blake3::hash(&material).to_hex().to_string());
}

#[test]
fn delays_double_up_to_the_longest() {
    let p = RetryPolicy { max_attempts: 9, base_delay_ms: 100, max_delay_ms: 1000 };
    let delays: Vec<u64> = (0..7).map(|failures| backoff_delay(&p, failures)).collect();
    assert_eq!(delays, vec![0, 100, 200, 400, 800, 1000, 1000]);
    let p = RetryPolicy { max_attempts: 9, base_delay_ms: 5000, max_delay_ms: 1000 };
    assert_eq!(backoff_delay(&p, 1), 1000);
    assert_eq!(backoff_delay(&p, 4_000_000_000), 1000);
    let p = RetryPolicy { max_attempts: 9, base_delay_ms: 0, max_delay_ms: 1000 };
    assert_eq!(backoff_delay(&p, 4_000_000_000), 0);
    let p = RetryPolicy { max_attempts: 9, base_delay_ms: 1, max_delay_ms: u64::MAX };
    assert_eq!(backoff_delay(&p, 64), 1 << 63);
    assert_eq!(backoff_delay(&p, 65), u64::MAX);
}

#[test]
fn transient_failures_are_the_ones_tried_again() {
    assert!(is_retryable(ErrorKind::RateLimited));
    assert!(is_retryable(ErrorKind::ProviderUnavailable));
    assert!(is_retryable(ErrorKind::Timeout));
    assert!(!is_retryable(ErrorKind::InvalidRequest));
    assert!(!is_retryable(ErrorKind::Execution));
}

#[test]
fn map_then_model_then_reduce_doubles_each_item() {
    let mut cache = HashMap::new();
    let mut run = Run::new(map_reduce_app(), json("{\"items\":[1,2,3]}"), policy(3), 1);
    assert_eq!(drive(&mut run, &mut cache, &double), 3);
    assert_eq!(run.status(), Status::Finished);
    assert_eq!(run.output(3), Some(vec![json("[2,4,6]")]));
    assert_eq!(run.output(2), Some(vec![json("[2,4,6]")]));
    assert_eq!(run.output(1), Some(vec![json("[1,2,3]")]));
    assert_eq!(run.output(0), Some(vec![json("{\"items\":[1,2,3]}")]));
    assert_eq!(run.output(4), None);
    let meta = run.meta(2).unwrap();
    assert_eq!((meta.hits, meta.misses, meta.retries, meta.store_failures), (0, 3, 0, 0));
    assert_eq!(cache.len(), 3);

    let mut again = Run::new(map_reduce_app(), json("{\"items\":[1,2,3]}"), policy(3), 1);
    assert_eq!(drive(&mut again, &mut cache, &double), 0);
    assert_eq!(again.status(), Status::Finished);
    assert_eq!(again.output(3), Some(vec![json("[2,4,6]")]));
    let meta = again.meta(2).unwrap();
    assert_eq!((meta.hits, meta.misses), (3, 0));
}

#[test]
fn reduce_keeps_the_order_of_the_items_whatever_finishes_first() {
    let mut run = Run::new(map_reduce_app(), json("{\"items\":[10,20,30]}"), policy(1), 3);
    let mut lookups = Vec::new();
    loop {
        match run.next_action() {
            Action::Lookup { task, .. } => lookups.push(task),
            Action::Wait => break,
            other => panic!("unexpected {:?}", other),
        }
    }
    assert_eq!(lookups, vec![0, 1, 2]);
    for task in [2, 0, 1] {
        run.handle(Event::CacheMiss { task });
    }
    let mut started = Vec::new();
    loop {
        match run.next_action() {
            Action::Execute { task, block, inputs, failures, delay_ms } => {
                assert_eq!((block, failures, delay_ms), (2, 0, 0));
                started.push((task, inputs));
            }
            Action::Wait => break,
            other => panic!("unexpected {:?}", other),
        }
    }
    assert_eq!(started.len(), 3);
    for at in [2, 0, 1] {
        let (task, inputs) = &started[at];
        run.handle(Event::Executed { task: *task, value: double(inputs).unwrap() });
    }
    let mut stored = 0;
    loop {
        match run.next_action() {
            Action::Store { .. } => stored += 1,
            Action::Finished => break,
            other => panic!("unexpected {:?}", other),
        }
    }
    assert_eq!(stored, 3);
    assert_eq!(run.output(3), Some(vec![json("[20,40,60]")]));
}

use tox::dictionary::Dictionary;
use tox::environments::{Environment, InternalInvariantViolation};
use tox::expr::LiteralValue;
use tox::number::Number;

fn number(v: f64) -> LiteralValue {
    LiteralValue::Number(Number::new(v.to_bits(), v.to_string()))
}

fn shown(v: Result<Option<LiteralValue>, InternalInvariantViolation>) -> String {
    match v {
        Ok(Some(v)) => v.to_string(),
        Ok(None) => "undefined".to_string(),
        Err(_) => "violation".to_string(),
    }
}

#[test]
fn try_init() {
    let _env = Environment::new();
}

#[test]
fn new_environment_has_the_global_frame_alone() {
    let env = Environment::new();
    assert_eq!(env.len(), 1);
    assert_eq!(shown(env.get(0, "a", None)), "undefined");
    assert_eq!(shown(env.get(0, "a", Some(0))), "undefined");
    assert_eq!(shown(env.get(0, "a", Some(1))), "violation");
    assert_eq!(shown(env.get(1, "a", Some(0))), "violation");
    assert_eq!(shown(env.get(0, "clock", None)), "<fn clock>/0");
    assert_eq!(shown(env.get(0, "clock", Some(0))), "<fn clock>/0");
}

#[test]
fn define_binds_in_the_given_frame_only() {
    let mut env = Environment::new();
    let inner = env.enter(0).unwrap();
    assert_eq!(inner, 1);
    assert!(env.define(inner, "a".to_string(), number(1.0)));
    assert_eq!(shown(env.get(inner, "a", Some(0))), "1");
    assert_eq!(shown(env.get(inner, "a", Some(1))), "undefined");
    assert_eq!(shown(env.get(inner, "a", None)), "undefined");
    assert!(env.define(inner, "a".to_string(), number(2.0)));
    assert_eq!(shown(env.get(inner, "a", Some(0))), "2");
    assert!(!env.define(7, "a".to_string(), number(3.0)));
    assert_eq!(env.len(), 2);
}

#[test]
fn enter_needs_an_enclosing_frame() {
    let mut env = Environment::new();
    assert_eq!(env.enter(1), None);
    assert_eq!(env.len(), 1);
    assert_eq!(env.enter(0), Some(1));
    assert_eq!(env.enter(1), Some(2));
    assert_eq!(env.enter(0), Some(3));
    assert_eq!(env.len(), 4);
}

#[test]
fn get_walks_exactly_the_distance() {
    let mut env = Environment::new();
    let a = env.enter(0).unwrap();
    let b = env.enter(a).unwrap();
    let c = env.enter(b).unwrap();
    env.define(0, "x".to_string(), number(0.0));
    env.define(a, "x".to_string(), number(1.0));
    env.define(b, "x".to_string(), number(2.0));
    assert_eq!(shown(env.get(c, "x", Some(0))), "undefined");
    assert_eq!(shown(env.get(c, "x", Some(1))), "2");
    assert_eq!(shown(env.get(c, "x", Some(2))), "1");
    assert_eq!(shown(env.get(c, "x", Some(3))), "0");
    assert_eq!(shown(env.get(c, "x", Some(4))), "violation");
    assert_eq!(shown(env.get(c, "x", None)), "0");
    assert_eq!(shown(env.get(b, "x", Some(0))), "2");
}

#[test]
fn assign_with_a_distance_needs_the_name() {
    let mut env = Environment::new();
    let a = env.enter(0).unwrap();
    let b = env.enter(a).unwrap();
    env.define(a, "x".to_string(), number(1.0));
    assert_eq!(env.assign(b, "x", number(5.0), Some(0)), Ok(false));
    assert_eq!(shown(env.get(b, "x", Some(0))), "undefined");
    assert_eq!(env.assign(b, "x", number(5.0), Some(1)), Ok(true));
    assert_eq!(shown(env.get(a, "x", Some(0))), "5");
    assert_eq!(env.assign(b, "x", number(6.0), Some(2)), Ok(false));
    assert_eq!(env.assign(b, "x", number(6.0), Some(3)), Err(InternalInvariantViolation));
    assert_eq!(shown(env.get(a, "x", Some(0))), "5");
    assert_eq!(shown(env.get(0, "x", None)), "undefined");
}

#[test]
fn assign_without_a_distance_writes_the_global_frame() {
    let mut env = Environment::new();
    let a = env.enter(0).unwrap();
    assert_eq!(env.assign(a, "made", number(1.0), None), Ok(true));
    assert_eq!(shown(env.get(0, "made", Some(0))), "1");
    assert_eq!(shown(env.get(a, "made", Some(0))), "undefined");
    assert_eq!(env.assign(a, "made", number(2.0), None), Ok(true));
    assert_eq!(shown(env.get(a, "made", None)), "2");
}

#[test]
fn a_write_through_one_frame_is_seen_through_another() {
    let mut env = Environment::new();
    let shared = env.enter(0).unwrap();
    let left = env.enter(shared).unwrap();
    let right = env.enter(shared).unwrap();
    let below = env.enter(right).unwrap();
    env.define(shared, "n".to_string(), number(1.0));
    assert_eq!(env.assign(left, "n", number(2.0), Some(1)), Ok(true));
    assert_eq!(shown(env.get(right, "n", Some(1))), "2");
    assert_eq!(shown(env.get(below, "n", Some(2))), "2");
    assert_eq!(shown(env.get(shared, "n", Some(0))), "2");
}

#[test]
fn dictionary_keeps_the_last_value_of_a_name() {
    let mut d: Dictionary<u32> = Dictionary::new();
    assert!(!d.contains(&"a".to_string()));
    assert_eq!(d.get(&"a".to_string()), None);
    d.insert("a".to_string(), 1);
    d.insert("b".to_string(), 2);
    d.insert("a".to_string(), 3);
    assert_eq!(d.get(&"a".to_string()), Some(&3));
    assert_eq!(d.get(&"b".to_string()), Some(&2));
    assert_eq!(d.get(&"".to_string()), None);
    assert!(d.contains(&"b".to_string()));
    d.insert("".to_string(), 9);
    assert_eq!(d.get(&"".to_string()), Some(&9));
}

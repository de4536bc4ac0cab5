use alexdb::env::{Environment, Frame};
use alexdb::num::Num;
use alexdb::types::Val;

fn num(x: f64) -> Val {
    Val::NumVal(Num(x.to_bits()))
}

fn as_num(v: Option<&Val>) -> f64 {
    match v {
        Some(Val::NumVal(n)) => f64::from_bits(n.0),
        _ => panic!("not a number"),
    }
}

#[test]
fn env_read_after_write() {
    let mut env = Environment::new();
    env.push("x".to_string(), num(1.0));
    assert_eq!(as_num(env.get(&"x".to_string())), 1.0);
    env.push("y".to_string(), num(2.0));
    assert_eq!(as_num(env.get(&"x".to_string())), 1.0);
    assert_eq!(as_num(env.get(&"y".to_string())), 2.0);
    // A second binding in the same frame does not replace the first.
    env.push("x".to_string(), num(3.0));
    assert_eq!(as_num(env.get(&"x".to_string())), 1.0);
    assert!(env.get(&"z".to_string()).is_none());
}

#[test]
fn env_frames_shadow_and_restore() {
    let mut env = Environment::new();
    env.push("x".to_string(), num(30.0));
    env.new_frame();
    assert_eq!(as_num(env.get(&"x".to_string())), 30.0);
    env.push("x".to_string(), num(50.0));
    assert_eq!(as_num(env.get(&"x".to_string())), 50.0);
    env.pop_frame();
    assert_eq!(as_num(env.get(&"x".to_string())), 30.0);
}

#[test]
fn env_compress_keeps_innermost_binding() {
    let mut env = Environment::new();
    env.push("a".to_string(), num(1.0));
    env.new_frame();
    env.push("a".to_string(), num(2.0));
    env.push("b".to_string(), num(3.0));
    let f = env.compress();
    assert_eq!(f.data().len(), 2);
    assert_eq!(as_num(f.get(&"a".to_string())), 2.0);
    assert_eq!(as_num(env.get(&"a".to_string())), 2.0);
    assert_eq!(as_num(f.get(&"b".to_string())), 3.0);
    assert!(f.contains(&"b".to_string()));
    assert!(!f.contains(&"c".to_string()));
}

#[test]
fn env_push_frame() {
    let mut frame = Frame::new();
    frame.push("k".to_string(), Val::BoolVal(true));
    let mut env = Environment::new();
    env.push_frame(frame);
    match env.get(&"k".to_string()) {
        Some(Val::BoolVal(b)) => assert!(*b),
        _ => assert!(false),
    }
}

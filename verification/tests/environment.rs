use rlox::environment::Environment;
use rlox::error::LoxError;

fn undefined(message: &str) -> LoxError {
    LoxError::Runtime {
        message: String::from(message),
    }
}

#[test]
fn get_after_define() {
    let mut env: Environment<i64> = Environment::new();
    assert_eq!(env.get("a"), Err(undefined("undefined variable: a")));
    env.define(String::from("a"), 1);
    env.define(String::from("b"), 2);
    assert_eq!(env.get("a"), Ok(&1));
    assert_eq!(env.get("b"), Ok(&2));
    env.define(String::from("a"), 3);
    assert_eq!(env.get("a"), Ok(&3));
    assert_eq!(env.get("b"), Ok(&2));
}

#[test]
fn assign_needs_a_definition() {
    let mut env: Environment<i64> = Environment::new();
    assert_eq!(env.assign("a", 1), Err(undefined("undefined variable: 'a'")));
    assert_eq!(env.get("a"), Err(undefined("undefined variable: a")));
    env.define(String::from("a"), 1);
    assert_eq!(env.assign("a", 5), Ok(()));
    assert_eq!(env.get("a"), Ok(&5));
}

#[test]
fn scopes_shadow_and_reach_out() {
    let mut outer: Environment<&str> = Environment::new();
    outer.define(String::from("x"), "outer x");
    outer.define(String::from("y"), "outer y");
    let mut inner = Environment::new_enclosed(outer.clone());
    assert_eq!(inner.get("x"), Ok(&"outer x"));
    inner.define(String::from("x"), "inner x");
    assert_eq!(inner.get("x"), Ok(&"inner x"));
    assert_eq!(inner.assign("y", "changed y"), Ok(()));
    assert_eq!(inner.get("y"), Ok(&"changed y"));
    // The copy that the inner scope encloses changed; the environment it was
    // copied from did not.
    assert_eq!(outer.get("x"), Ok(&"outer x"));
    assert_eq!(outer.get("y"), Ok(&"outer y"));
    assert_eq!(
        inner.assign("z", "nowhere"),
        Err(undefined("undefined variable: 'z'"))
    );
}

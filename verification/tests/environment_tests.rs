use ferrugem::environment::Environment;
use ferrugem::table::Table;
use ferrugem::value::Value;
use std::collections::HashMap;

fn number(v: &Option<Value>) -> Option<u64> {
    match v {
        Some(Value::Number(n)) => Some(*n),
        Some(other) => panic!("{:?}", other),
        None => None,
    }
}

fn name(s: &str) -> String {
    s.to_string()
}

#[test]
fn table_puts_and_finds() {
    let mut table: Table<u64> = Table::new();
    assert_eq!(table.find(&name("a")), None);
    assert!(!table.contains(&name("a")));
    table.insert(name("a"), 1);
    table.insert(name("b"), 2);
    assert_eq!(table.find(&name("a")), Some(0));
    assert_eq!(table.find(&name("b")), Some(1));
    assert_eq!(table.find(&name("c")), None);
    assert!(table.contains(&name("b")));
}

#[test]
fn table_keeps_one_value_for_a_name() {
    let mut table: Table<u64> = Table::new();
    table.insert(name("a"), 1);
    table.insert(name("b"), 2);
    table.insert(name("a"), 3);
    assert_eq!(table.keys.len(), 2);
    assert_eq!(table.values[table.find(&name("a")).unwrap()], 3);
    assert_eq!(table.values[table.find(&name("b")).unwrap()], 2);
}

#[test]
fn new_environment_is_the_outermost_scope() {
    let env = Environment::new(HashMap::new());
    assert_eq!(env.scopes.len(), 1);
    assert_eq!(env.current, 0);
    assert!(env.scopes[0].enclosing.is_none());
    assert!(env.get(&name("a")).is_none());
}

#[test]
fn define_then_get() {
    let mut env = Environment::new(HashMap::new());
    env.define(name("a"), Value::Number(1));
    assert_eq!(number(&env.get(&name("a"))), Some(1));
    assert_eq!(number(&env.get_at(0, &name("a"))), Some(1));
    assert_eq!(number(&env.get_global(&name("a"))), Some(1));
    assert!(env.get(&name("b")).is_none());
}

#[test]
fn define_again_in_the_same_scope() {
    let mut env = Environment::new(HashMap::new());
    env.define(name("a"), Value::Number(1));
    env.define(name("a"), Value::Number(2));
    assert_eq!(number(&env.get(&name("a"))), Some(2));
    assert_eq!(env.scopes[0].values.keys.len(), 1);
}

#[test]
fn enclose_makes_an_empty_scope_within_the_current_one() {
    let mut env = Environment::new(HashMap::new());
    env.define(name("a"), Value::Number(1));
    let inner = env.enclose();
    assert_eq!(inner, 1);
    assert_eq!(env.current, 0);
    assert_eq!(env.scopes[inner].enclosing, Some(0));
    assert_eq!(env.scopes[inner].values.keys.len(), 0);
    env.current = inner;
    assert_eq!(number(&env.get(&name("a"))), Some(1));
    assert!(env.get_at(0, &name("a")).is_none());
    assert_eq!(number(&env.get_at(1, &name("a"))), Some(1));
    assert!(env.get_at(2, &name("a")).is_none());
}

#[test]
fn inner_binding_hides_the_outer_one() {
    let mut env = Environment::new(HashMap::new());
    env.define(name("a"), Value::Number(1));
    let inner = env.enclose();
    env.current = inner;
    env.define(name("a"), Value::Number(2));
    assert_eq!(number(&env.get(&name("a"))), Some(2));
    assert_eq!(number(&env.get_at(1, &name("a"))), Some(1));
    assert_eq!(number(&env.get_global(&name("a"))), Some(1));
    env.current = 0;
    assert_eq!(number(&env.get(&name("a"))), Some(1));
}

#[test]
fn assign_finds_the_nearest_scope_that_binds() {
    let mut env = Environment::new(HashMap::new());
    env.define(name("a"), Value::Number(1));
    env.define(name("b"), Value::Number(1));
    let inner = env.enclose();
    env.current = inner;
    env.define(name("b"), Value::Number(2));
    assert!(env.assign(&name("a"), Value::Number(10)));
    assert!(env.assign(&name("b"), Value::Number(20)));
    assert!(!env.assign(&name("c"), Value::Number(30)));
    assert_eq!(number(&env.get_at(1, &name("a"))), Some(10));
    assert_eq!(number(&env.get_at(0, &name("b"))), Some(20));
    assert_eq!(number(&env.get_at(1, &name("b"))), Some(1));
    assert!(env.get(&name("c")).is_none());
}

#[test]
fn assign_at_binds_only_where_the_name_is_bound() {
    let mut env = Environment::new(HashMap::new());
    env.define(name("a"), Value::Number(1));
    let inner = env.enclose();
    env.current = inner;
    assert!(!env.assign_at(0, &name("a"), Value::Number(5)));
    assert!(env.assign_at(1, &name("a"), Value::Number(5)));
    assert!(!env.assign_at(2, &name("a"), Value::Number(6)));
    assert_eq!(number(&env.get(&name("a"))), Some(5));
}

#[test]
fn assign_global_binds_in_the_outermost_scope() {
    let mut env = Environment::new(HashMap::new());
    env.define(name("a"), Value::Number(1));
    let inner = env.enclose();
    env.current = inner;
    env.define(name("a"), Value::Number(2));
    env.define(name("b"), Value::Number(2));
    assert!(env.assign_global(&name("a"), Value::Number(9)));
    assert!(!env.assign_global(&name("b"), Value::Number(9)));
    assert_eq!(number(&env.get(&name("a"))), Some(2));
    assert_eq!(number(&env.get_global(&name("a"))), Some(9));
    assert_eq!(number(&env.get(&name("b"))), Some(2));
}

#[test]
fn a_scope_outlives_the_block_that_made_it() {
    let mut env = Environment::new(HashMap::new());
    let block = env.enclose();
    env.current = block;
    env.define(name("x"), Value::Number(0));
    // The block ends: the outer scope is current again.
    env.current = 0;
    assert!(env.get(&name("x")).is_none());
    // Other scopes are made meanwhile.
    let other = env.enclose();
    env.current = other;
    env.define(name("x"), Value::Number(100));
    // A call of a function that closed over the block's scope.
    let call = env.enclose_in(block);
    env.current = call;
    assert_eq!(number(&env.get_at(1, &name("x"))), Some(0));
    assert!(env.assign_at(1, &name("x"), Value::Number(1)));
    // Another call sees what the first one wrote.
    let again = env.enclose_in(block);
    env.current = again;
    assert_eq!(number(&env.get_at(1, &name("x"))), Some(1));
    env.current = other;
    assert_eq!(number(&env.get(&name("x"))), Some(100));
}

#[test]
fn scope_at_and_scope_of() {
    let mut env = Environment::new(HashMap::new());
    env.define(name("g"), Value::Nil);
    let a = env.enclose();
    env.current = a;
    let b = env.enclose();
    env.current = b;
    assert_eq!(env.scope_at(0), Some(b));
    assert_eq!(env.scope_at(1), Some(a));
    assert_eq!(env.scope_at(2), Some(0));
    assert_eq!(env.scope_at(3), None);
    assert_eq!(env.scope_of(&name("g")), Some(0));
    assert_eq!(env.scope_of(&name("h")), None);
}

#[test]
fn resolve_takes_the_hop_counts() {
    let mut env = Environment::new(HashMap::new());
    let mut locals = HashMap::new();
    locals.insert(3usize, 1usize);
    env.resolve(locals);
    assert_eq!(env.locals.get(&3), Some(&1));
    assert_eq!(env.locals.len(), 1);
}

use spwn_lang::environment::{Environment, Reaction, Value};
use spwn_lang::error::{CompileError, ErrorKind};
use spwn_lang::native::PropertyValue;

fn text(s: &str) -> String {
    s.to_string()
}

#[test]
fn fresh_environment_has_one_scope() {
    let env = Environment::new();
    assert_eq!(env.depth(), 1);
    assert_eq!(env.reaction_count(), 0);
}

#[test]
fn define_then_resolve() {
    let mut env = Environment::new();
    env.define(text("x"), Value::Bool(true));
    assert_eq!(env.resolve(&text("x")), Ok(Value::Bool(true)));
}

#[test]
fn redefinition_replaces_the_binding() {
    let mut env = Environment::new();
    env.define(text("x"), Value::Bool(true));
    env.define(text("x"), Value::Bool(false));
    assert_eq!(env.resolve(&text("x")), Ok(Value::Bool(false)));
}

#[test]
fn inner_scope_shadows_and_restores() {
    let mut env = Environment::new();
    env.define(text("x"), Value::Bool(true));
    env.enter_scope();
    assert_eq!(env.depth(), 2);
    assert_eq!(env.resolve(&text("x")), Ok(Value::Bool(true)));
    env.define(text("x"), Value::Bool(false));
    env.define(text("y"), Value::Bool(false));
    assert_eq!(env.resolve(&text("x")), Ok(Value::Bool(false)));
    env.exit_scope();
    assert_eq!(env.depth(), 1);
    assert_eq!(env.resolve(&text("x")), Ok(Value::Bool(true)));
    assert_eq!(
        env.resolve(&text("y")),
        Err(CompileError { kind: ErrorKind::UnboundSymbol, symbol: text("y"), scope: 1 })
    );
}

#[test]
fn outermost_scope_is_never_closed() {
    let mut env = Environment::new();
    env.define(text("x"), Value::Bool(true));
    env.exit_scope();
    assert_eq!(env.depth(), 1);
    assert_eq!(env.resolve(&text("x")), Ok(Value::Bool(true)));
}

#[test]
fn allocation_starts_at_one_in_each_namespace() {
    let mut env = Environment::new();
    assert_eq!(env.allocate(&text("group")), Ok(1));
    assert_eq!(env.allocate(&text("group")), Ok(2));
    assert_eq!(env.allocate(&text("color")), Ok(1));
    assert_eq!(env.allocate(&text("group")), Ok(3));
}

#[test]
fn allocation_skips_reserved_numbers() {
    let mut env = Environment::new();
    env.reserve_explicit(&text("group"), 1);
    env.reserve_explicit(&text("group"), 2);
    env.reserve_explicit(&text("group"), 4);
    assert_eq!(env.allocate(&text("group")), Ok(3));
    assert_eq!(env.allocate(&text("group")), Ok(5));
    assert_eq!(env.allocate(&text("item")), Ok(1));
}

#[test]
fn reserving_twice_is_reserving_once() {
    let mut env = Environment::new();
    env.reserve_explicit(&text("group"), 1);
    env.reserve_explicit(&text("group"), 1);
    assert_eq!(env.allocate(&text("group")), Ok(2));
}

#[test]
fn reserving_an_allocated_number_changes_nothing() {
    let mut env = Environment::new();
    assert_eq!(env.allocate(&text("group")), Ok(1));
    assert_eq!(env.allocate(&text("group")), Ok(2));
    env.reserve_explicit(&text("group"), 1);
    assert_eq!(env.allocate(&text("group")), Ok(3));
}

#[test]
fn reserving_zero_leaves_one_free() {
    let mut env = Environment::new();
    env.reserve_explicit(&text("group"), 0);
    assert_eq!(env.allocate(&text("group")), Ok(1));
}

#[test]
fn namespace_runs_out_after_its_last_number() {
    let mut env = Environment::new();
    env.enter_scope();
    for expected in 1..=65535u16 {
        assert_eq!(env.allocate(&text("group")), Ok(expected));
    }
    assert_eq!(
        env.allocate(&text("group")),
        Err(CompileError { kind: ErrorKind::NamespaceExhausted, symbol: text("group"), scope: 2 })
    );
    assert_eq!(env.allocate(&text("color")), Ok(1));
}

#[test]
fn reactions_are_numbered_from_zero() {
    let mut env = Environment::new();
    let first = env.register(Reaction { symbol: text("touch"), pattern: vec![] });
    let second =
        env.register(Reaction { symbol: text("count"), pattern: vec![PropertyValue::Id(4)] });
    assert_eq!((first, second), (0, 1));
    assert_eq!(env.reaction_count(), 2);
}

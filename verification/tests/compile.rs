use spwn_lang::ast::{
    Call, CompoundStatement, Definition, Event, Native, Statement, ValueLiteral, Variable, ID,
};
use spwn_lang::compiler::{compile, compile_block, MAX_DEPTH};
use spwn_lang::environment::Environment;
use spwn_lang::error::{CompileError, ErrorKind};
use spwn_lang::native::{Property, PropertyValue, Trigger, TriggerKind};
use spwn_lang::number::Number;

fn number(text: &str) -> Number {
    Number::parse(text).unwrap()
}

fn plain(value: ValueLiteral) -> Variable {
    Variable { value, symbols: vec![] }
}

fn name(symbol: &str) -> Variable {
    plain(ValueLiteral::Symbol(symbol.to_string()))
}

fn num(text: &str) -> Variable {
    plain(ValueLiteral::Number(number(text)))
}

fn id(n: u16, class_name: &str) -> Variable {
    plain(ValueLiteral::ID(ID { number: n, unspecified: false, class_name: class_name.to_string() }))
}

fn fresh_id(class_name: &str) -> Variable {
    plain(ValueLiteral::ID(ID { number: 0, unspecified: true, class_name: class_name.to_string() }))
}

fn block(statements: Vec<Statement>) -> CompoundStatement {
    CompoundStatement { statements }
}

fn define(symbol: &str, value: Variable) -> Statement {
    Statement::Definition(Definition { symbol: symbol.to_string(), value })
}

fn native(function: &str, args: Vec<Variable>) -> Statement {
    Statement::Native(Native { function: name(function), args })
}

fn call(function: Variable) -> Statement {
    Statement::Call(Call { function })
}

fn event(symbol: &str, args: Vec<Variable>, body: Vec<Statement>) -> Statement {
    Statement::Event(Event { symbol: symbol.to_string(), args, cmp_stmt: block(body) })
}

fn stop(target: u64, owner: Option<u64>) -> Trigger {
    Trigger {
        kind: TriggerKind::Stop,
        properties: vec![Property { key: 51, value: PropertyValue::Id(target) }],
        owner,
    }
}

fn failure(kind: ErrorKind, symbol: &str, scope: usize) -> CompileError {
    CompileError { kind, symbol: symbol.to_string(), scope }
}

#[test]
fn empty_program_makes_no_trigger() {
    assert_eq!(compile(&block(vec![])), Ok(vec![]));
}

#[test]
fn end_of_input_makes_no_trigger() {
    let program = block(vec![Statement::EOI, native("stop", vec![id(4, "g")]), Statement::EOI]);
    assert_eq!(compile(&program), Ok(vec![stop(4, None)]));
}

#[test]
fn defined_number_reaches_the_trigger() {
    let program = block(vec![
        define("x", num("5")),
        native("spawn", vec![id(3, "g"), name("x")]),
    ]);
    let expected = Trigger {
        kind: TriggerKind::Spawn,
        properties: vec![
            Property { key: 51, value: PropertyValue::Id(3) },
            Property { key: 63, value: PropertyValue::Number(number("5")) },
        ],
        owner: None,
    };
    assert_eq!(compile(&program), Ok(vec![expected]));
}

#[test]
fn fresh_identifiers_count_up_and_an_explicit_one_may_alias() {
    let program = block(vec![
        define("a", fresh_id("group")),
        define("b", fresh_id("group")),
        define("c", id(1, "group")),
        define("d", fresh_id("group")),
        native("stop", vec![name("a")]),
        native("stop", vec![name("b")]),
        native("stop", vec![name("c")]),
        native("stop", vec![name("d")]),
    ]);
    assert_eq!(
        compile(&program),
        Ok(vec![stop(1, None), stop(2, None), stop(1, None), stop(3, None)])
    );
}

#[test]
fn explicit_identifier_is_skipped_by_later_allocation() {
    let program = block(vec![
        native("stop", vec![id(1, "group")]),
        native("stop", vec![id(2, "group")]),
        native("stop", vec![fresh_id("group")]),
        native("stop", vec![fresh_id("color")]),
    ]);
    assert_eq!(
        compile(&program),
        Ok(vec![stop(1, None), stop(2, None), stop(3, None), stop(1, None)])
    );
}

#[test]
fn same_explicit_identifier_twice_is_no_failure() {
    let program = block(vec![
        native("stop", vec![id(7, "group")]),
        native("stop", vec![id(7, "group")]),
    ]);
    assert_eq!(compile(&program), Ok(vec![stop(7, None), stop(7, None)]));
}

#[test]
fn event_body_is_fired_by_the_event_and_a_call_where_it_stands() {
    let body = vec![native("stop", vec![id(1, "g")])];
    let bound = block(vec![event("touch", vec![], body.clone())]);
    let wiring = Trigger {
        kind: TriggerKind::Touch,
        properties: vec![Property { key: 51, value: PropertyValue::Id(0) }],
        owner: None,
    };
    assert_eq!(compile(&bound), Ok(vec![wiring, stop(1, Some(0))]));

    let called = block(vec![call(plain(ValueLiteral::CmpStmt(block(body))))]);
    assert_eq!(compile(&called), Ok(vec![stop(1, None)]));
}

#[test]
fn events_are_numbered_in_the_order_of_the_program() {
    let program = block(vec![
        event(
            "collision",
            vec![id(1, "block"), id(2, "block")],
            vec![
                native("stop", vec![id(5, "g")]),
                event("touch", vec![], vec![native("stop", vec![id(6, "g")])]),
            ],
        ),
        native("stop", vec![id(7, "g")]),
    ]);
    let collision = Trigger {
        kind: TriggerKind::Collision,
        properties: vec![
            Property { key: 80, value: PropertyValue::Id(1) },
            Property { key: 95, value: PropertyValue::Id(2) },
            Property { key: 51, value: PropertyValue::Id(0) },
        ],
        owner: None,
    };
    let touch = Trigger {
        kind: TriggerKind::Touch,
        properties: vec![Property { key: 51, value: PropertyValue::Id(1) }],
        owner: Some(0),
    };
    assert_eq!(
        compile(&program),
        Ok(vec![collision, stop(5, Some(0)), touch, stop(6, Some(1)), stop(7, None)])
    );
}

#[test]
fn property_of_a_number_is_an_invalid_access() {
    let program = block(vec![
        define("f", num("1")),
        native(
            "stop",
            vec![Variable {
                value: ValueLiteral::Symbol("f".to_string()),
                symbols: vec!["g".to_string()],
            }],
        ),
    ]);
    assert_eq!(compile(&program), Err(failure(ErrorKind::InvalidPropertyAccess, "g", 2)));
}

#[test]
fn property_that_a_block_lacks_is_an_invalid_access() {
    let program = block(vec![
        define("f", plain(ValueLiteral::CmpStmt(block(vec![define("h", num("1"))])))),
        define(
            "x",
            Variable {
                value: ValueLiteral::Symbol("f".to_string()),
                symbols: vec!["g".to_string()],
            },
        ),
    ]);
    assert_eq!(compile(&program), Err(failure(ErrorKind::InvalidPropertyAccess, "g", 2)));
}

#[test]
fn property_of_a_block_is_its_last_definition() {
    let object = block(vec![
        define("target", id(8, "g")),
        define("target", id(9, "g")),
        define("other", id(3, "g")),
    ]);
    let program = block(vec![
        define("o", plain(ValueLiteral::CmpStmt(object))),
        native(
            "stop",
            vec![Variable {
                value: ValueLiteral::Symbol("o".to_string()),
                symbols: vec!["target".to_string()],
            }],
        ),
    ]);
    assert_eq!(compile(&program), Ok(vec![stop(9, None)]));
}

#[test]
fn call_expands_the_block_in_place() {
    let program = block(vec![
        define("f", plain(ValueLiteral::CmpStmt(block(vec![
            native("stop", vec![id(2, "g")]),
            native("stop", vec![id(3, "g")]),
        ])))),
        native("stop", vec![id(1, "g")]),
        call(name("f")),
        native("stop", vec![id(4, "g")]),
        call(name("f")),
    ]);
    assert_eq!(
        compile(&program),
        Ok(vec![
            stop(1, None),
            stop(2, None),
            stop(3, None),
            stop(4, None),
            stop(2, None),
            stop(3, None)
        ])
    );
}

#[test]
fn definition_in_a_block_is_not_seen_outside() {
    let program = block(vec![
        call(plain(ValueLiteral::CmpStmt(block(vec![define("x", id(1, "g"))])))),
        native("stop", vec![name("x")]),
    ]);
    assert_eq!(compile(&program), Err(failure(ErrorKind::UnboundSymbol, "x", 2)));
}

#[test]
fn inner_definition_shadows_the_outer_one() {
    let program = block(vec![
        define("x", id(1, "g")),
        call(plain(ValueLiteral::CmpStmt(block(vec![
            define("x", id(2, "g")),
            native("stop", vec![name("x")]),
        ])))),
        native("stop", vec![name("x")]),
    ]);
    assert_eq!(compile(&program), Ok(vec![stop(2, None), stop(1, None)]));
}

#[test]
fn unbound_name_fails() {
    let program = block(vec![define("x", name("y"))]);
    assert_eq!(compile(&program), Err(failure(ErrorKind::UnboundSymbol, "y", 2)));
}

#[test]
fn calling_a_number_fails() {
    let program = block(vec![define("x", num("3")), call(name("x"))]);
    assert_eq!(compile(&program), Err(failure(ErrorKind::NotCallable, "x", 2)));
}

#[test]
fn unknown_operation_fails() {
    let program = block(vec![native("explode", vec![])]);
    assert_eq!(compile(&program), Err(failure(ErrorKind::UnknownNativeOperation, "explode", 2)));
}

#[test]
fn invoking_a_number_fails() {
    let program = block(vec![define("x", num("3")), native("x", vec![])]);
    assert_eq!(compile(&program), Err(failure(ErrorKind::UnknownNativeOperation, "x", 2)));
}

#[test]
fn unknown_event_fails() {
    let program = block(vec![event("earthquake", vec![], vec![])]);
    assert_eq!(
        compile(&program),
        Err(failure(ErrorKind::UnknownNativeOperation, "earthquake", 2))
    );
}

#[test]
fn wrong_number_of_arguments_fails() {
    let program = block(vec![native("stop", vec![id(1, "g"), id(2, "g")])]);
    assert_eq!(compile(&program), Err(failure(ErrorKind::ArityMismatch, "stop", 2)));
}

#[test]
fn block_as_an_argument_fails() {
    let program = block(vec![native("stop", vec![plain(ValueLiteral::CmpStmt(block(vec![])))])]);
    assert_eq!(compile(&program), Err(failure(ErrorKind::InvalidArgument, "stop", 2)));
}

#[test]
fn block_that_calls_itself_fails() {
    let program = block(vec![
        define("f", plain(ValueLiteral::CmpStmt(block(vec![call(name("f"))])))),
        call(name("f")),
    ]);
    assert_eq!(
        compile(&program),
        Err(failure(ErrorKind::DepthExceeded, "f", MAX_DEPTH + 2))
    );
}

#[test]
fn operation_can_be_bound_to_another_name() {
    let program = block(vec![define("halt", name("stop")), native("halt", vec![id(1, "g")])]);
    assert_eq!(compile(&program), Ok(vec![stop(1, None)]));
}

#[test]
fn failure_discards_the_triggers_before_it() {
    let program = block(vec![native("stop", vec![id(1, "g")]), call(name("nothing"))]);
    assert_eq!(compile(&program), Err(failure(ErrorKind::UnboundSymbol, "nothing", 2)));
}

#[test]
fn compiling_twice_gives_the_same_triggers() {
    let program = block(vec![
        define("a", fresh_id("g")),
        native("move", vec![name("a"), num("10"), num("-2.5"), num("0.5")]),
        event("count", vec![fresh_id("item"), num("3")], vec![native("stop", vec![name("a")])]),
    ]);
    let first = compile(&program);
    let second = compile(&program);
    assert!(first.is_ok());
    assert_eq!(first, second);
}

#[test]
fn program_without_identifiers_takes_no_number() {
    let program = block(vec![
        define("x", num("5")),
        define("f", plain(ValueLiteral::CmpStmt(block(vec![define("y", name("x"))])))),
        call(name("f")),
    ]);
    let mut env = Environment::new();
    assert_eq!(compile_block(&program, &mut env, None, MAX_DEPTH), Ok(vec![]));
    assert_eq!(env.allocate(&"group".to_string()), Ok(1));
}

#[test]
fn block_leaves_the_scopes_as_they_were() {
    let program = block(vec![define("x", num("5")), call(name("missing"))]);
    let mut env = Environment::new();
    assert!(compile_block(&program, &mut env, None, MAX_DEPTH).is_err());
    assert_eq!(env.depth(), 1);
    assert!(env.resolve(&"x".to_string()).is_err());
}

#[test]
fn property_that_asks_for_itself_fails() {
    let asks = Variable {
        value: ValueLiteral::Symbol("o".to_string()),
        symbols: vec!["g".to_string()],
    };
    let program = block(vec![
        define("o", plain(ValueLiteral::CmpStmt(block(vec![define("g", asks.clone())])))),
        define("x", asks),
    ]);
    assert_eq!(
        compile(&program),
        Err(failure(ErrorKind::DepthExceeded, "g", MAX_DEPTH + 2))
    );
}

#[test]
fn blocks_may_nest_as_deep_as_the_limit() {
    let mut body = vec![native("stop", vec![id(1, "g")])];
    for _ in 0..MAX_DEPTH {
        body = vec![call(plain(ValueLiteral::CmpStmt(block(body))))];
    }
    assert_eq!(compile(&block(body.clone())), Ok(vec![stop(1, None)]));
    let deeper = vec![call(plain(ValueLiteral::CmpStmt(block(body))))];
    assert_eq!(
        compile(&block(deeper)),
        Err(failure(ErrorKind::DepthExceeded, "", MAX_DEPTH + 2))
    );
}

#[test]
fn event_with_wrong_arguments_fails() {
    let too_few = block(vec![event("collision", vec![id(1, "b")], vec![])]);
    assert_eq!(compile(&too_few), Err(failure(ErrorKind::ArityMismatch, "collision", 2)));
    let no_value = block(vec![event(
        "count",
        vec![id(1, "i"), plain(ValueLiteral::CmpStmt(block(vec![])))],
        vec![],
    )]);
    assert_eq!(compile(&no_value), Err(failure(ErrorKind::InvalidArgument, "count", 2)));
}

#[test]
fn event_is_not_an_operation() {
    let program = block(vec![native("touch", vec![])]);
    assert_eq!(compile(&program), Err(failure(ErrorKind::UnknownNativeOperation, "touch", 2)));
}

#[test]
fn arguments_are_evaluated_before_the_event_is_looked_up() {
    let program = block(vec![event("earthquake", vec![name("nothing")], vec![])]);
    assert_eq!(compile(&program), Err(failure(ErrorKind::UnboundSymbol, "nothing", 2)));
}

#[test]
fn failure_inside_a_block_names_the_depth_of_its_scope() {
    let program = block(vec![call(plain(ValueLiteral::CmpStmt(block(vec![event(
        "touch",
        vec![],
        vec![call(name("nothing"))],
    )]))))]);
    assert_eq!(compile(&program), Err(failure(ErrorKind::UnboundSymbol, "nothing", 4)));
}

#[test]
fn every_operation_makes_its_trigger() {
    let program = block(vec![
        native("move", vec![id(1, "g"), num("10"), num("20"), num("0.5")]),
        native("stop", vec![id(2, "g")]),
        native("toggle", vec![id(3, "g"), plain(ValueLiteral::Bool(true))]),
        native("spawn", vec![id(4, "g"), num("0")]),
        native("alpha", vec![id(5, "g"), num("0.25"), num("1")]),
        native("pickup", vec![id(6, "i"), num("-1")]),
    ]);
    let triggers = compile(&program).unwrap();
    let kinds: Vec<TriggerKind> = triggers.iter().map(|t| t.kind).collect();
    assert_eq!(
        kinds,
        vec![
            TriggerKind::Move,
            TriggerKind::Stop,
            TriggerKind::Toggle,
            TriggerKind::Spawn,
            TriggerKind::Alpha,
            TriggerKind::Pickup
        ]
    );
    let keys: Vec<Vec<u16>> =
        triggers.iter().map(|t| t.properties.iter().map(|p| p.key).collect()).collect();
    assert_eq!(
        keys,
        vec![vec![51, 28, 29, 10], vec![51], vec![51, 56], vec![51, 63], vec![51, 35, 10], vec![
            80, 77
        ]]
    );
    assert_eq!(
        triggers[4].properties[1].value,
        PropertyValue::Number(number("0.25"))
    );
}

use spwn_lang::ast::{
    Call, CompoundStatement, Definition, Event, Native, Statement, ValueLiteral, Variable, ID,
};
use spwn_lang::number::Number;
use spwn_lang::parser::{
    parse_statement, parse_statements, parse_value, parse_variable, SPWNParser, SyntaxError,
};
use spwn_lang::tree::{Pair, Rule};

fn leaf(rule: Rule, text: &str) -> Pair {
    Pair { rule, text: text.to_string(), inner: vec![] }
}

fn node(rule: Rule, inner: Vec<Pair>) -> Pair {
    Pair { rule, text: String::new(), inner }
}

fn variable(value: Pair, symbols: &[&str]) -> Pair {
    let mut inner = vec![node(Rule::Other, vec![value])];
    for symbol in symbols {
        inner.push(leaf(Rule::Symbol, symbol));
    }
    node(Rule::Other, inner)
}

fn plain(value: ValueLiteral) -> Variable {
    Variable { value, symbols: vec![] }
}

fn number(text: &str) -> ValueLiteral {
    ValueLiteral::Number(Number::parse(text).unwrap())
}

#[test]
fn number_literal() {
    assert_eq!(parse_value(&leaf(Rule::Number, "12.5")), Ok(number("12.5")));
    assert_eq!(parse_value(&leaf(Rule::Number, "twelve")), Err(SyntaxError::InvalidNumber));
}

#[test]
fn truth_literal_is_true_only_for_true() {
    assert_eq!(parse_value(&leaf(Rule::Bool, "true")), Ok(ValueLiteral::Bool(true)));
    assert_eq!(parse_value(&leaf(Rule::Bool, "false")), Ok(ValueLiteral::Bool(false)));
    assert_eq!(parse_value(&leaf(Rule::Bool, "True")), Ok(ValueLiteral::Bool(false)));
}

#[test]
fn symbol_literal() {
    assert_eq!(parse_value(&leaf(Rule::Symbol, "x")), Ok(ValueLiteral::Symbol("x".to_string())));
}

#[test]
fn identifier_with_a_number() {
    let pair = node(Rule::Id, vec![leaf(Rule::Number, "12"), leaf(Rule::Other, "g")]);
    assert_eq!(
        parse_value(&pair),
        Ok(ValueLiteral::ID(ID { number: 12, unspecified: false, class_name: "g".to_string() }))
    );
}

#[test]
fn identifier_without_a_number() {
    let pair = node(Rule::Id, vec![leaf(Rule::Other, "c")]);
    assert_eq!(
        parse_value(&pair),
        Ok(ValueLiteral::ID(ID { number: 0, unspecified: true, class_name: "c".to_string() }))
    );
}

#[test]
fn identifier_that_is_malformed() {
    assert_eq!(parse_value(&node(Rule::Id, vec![])), Err(SyntaxError::MissingPart(Rule::Id)));
    assert_eq!(
        parse_value(&node(Rule::Id, vec![leaf(Rule::Number, "12")])),
        Err(SyntaxError::MissingPart(Rule::Id))
    );
    assert_eq!(
        parse_value(&node(Rule::Id, vec![leaf(Rule::Number, "70000"), leaf(Rule::Other, "g")])),
        Err(SyntaxError::InvalidNumber)
    );
    assert_eq!(
        parse_value(&node(Rule::Id, vec![leaf(Rule::Number, "70000")])),
        Err(SyntaxError::InvalidNumber)
    );
}

#[test]
fn value_literal_is_what_is_inside_it() {
    let pair = node(Rule::ValueLiteral, vec![node(Rule::ValueLiteral, vec![leaf(Rule::Bool, "true")])]);
    assert_eq!(parse_value(&pair), Ok(ValueLiteral::Bool(true)));
    assert_eq!(
        parse_value(&node(Rule::ValueLiteral, vec![])),
        Err(SyntaxError::MissingPart(Rule::ValueLiteral))
    );
}

#[test]
fn unknown_rule_stands_for_zero() {
    assert_eq!(parse_value(&leaf(Rule::Other, "??")), Ok(ValueLiteral::Number(Number::zero())));
    assert_eq!(parse_value(&leaf(Rule::Def, "")), Ok(ValueLiteral::Number(Number::zero())));
}

#[test]
fn block_literal() {
    let pair = node(
        Rule::CmpStmt,
        vec![node(Rule::Call, vec![variable(leaf(Rule::Symbol, "f"), &[])]), leaf(Rule::EOI, "")],
    );
    assert_eq!(
        parse_value(&pair),
        Ok(ValueLiteral::CmpStmt(CompoundStatement {
            statements: vec![
                Statement::Call(Call { function: plain(ValueLiteral::Symbol("f".to_string())) }),
                Statement::EOI
            ]
        }))
    );
}

#[test]
fn variable_with_a_property_chain() {
    let pair = variable(leaf(Rule::Symbol, "a"), &["b", "c"]);
    assert_eq!(
        parse_variable(&pair),
        Ok(Variable {
            value: ValueLiteral::Symbol("a".to_string()),
            symbols: vec!["b".to_string(), "c".to_string()]
        })
    );
}

#[test]
fn variable_that_is_malformed() {
    assert_eq!(
        parse_variable(&node(Rule::Other, vec![])),
        Err(SyntaxError::MissingPart(Rule::Other))
    );
    assert_eq!(
        parse_variable(&node(Rule::Other, vec![node(Rule::ValueLiteral, vec![])])),
        Err(SyntaxError::MissingPart(Rule::ValueLiteral))
    );
}

#[test]
fn definition_statement() {
    let pair = node(Rule::Def, vec![leaf(Rule::Symbol, "x"), variable(leaf(Rule::Number, "5"), &[])]);
    assert_eq!(
        parse_statement(&pair),
        Ok(Statement::Definition(Definition { symbol: "x".to_string(), value: plain(number("5")) }))
    );
    assert_eq!(
        parse_statement(&node(Rule::Def, vec![leaf(Rule::Symbol, "x")])),
        Err(SyntaxError::MissingPart(Rule::Def))
    );
}

#[test]
fn event_statement() {
    let pair = node(
        Rule::Event,
        vec![
            leaf(Rule::Symbol, "touch"),
            node(Rule::Other, vec![variable(leaf(Rule::Bool, "true"), &[])]),
            node(Rule::CmpStmt, vec![leaf(Rule::EOI, "")]),
        ],
    );
    assert_eq!(
        parse_statement(&pair),
        Ok(Statement::Event(Event {
            symbol: "touch".to_string(),
            args: vec![plain(ValueLiteral::Bool(true))],
            cmp_stmt: CompoundStatement { statements: vec![Statement::EOI] }
        }))
    );
    assert_eq!(
        parse_statement(&node(Rule::Event, vec![leaf(Rule::Symbol, "touch"), node(Rule::Other, vec![])])),
        Err(SyntaxError::MissingPart(Rule::Event))
    );
}

#[test]
fn native_statement() {
    let pair = node(
        Rule::Native,
        vec![
            variable(leaf(Rule::Symbol, "stop"), &[]),
            node(
                Rule::Other,
                vec![
                    variable(node(Rule::Id, vec![leaf(Rule::Number, "1"), leaf(Rule::Other, "g")]), &[]),
                    variable(leaf(Rule::Symbol, "x"), &["y"]),
                ],
            ),
        ],
    );
    assert_eq!(
        parse_statement(&pair),
        Ok(Statement::Native(Native {
            function: plain(ValueLiteral::Symbol("stop".to_string())),
            args: vec![
                plain(ValueLiteral::ID(ID {
                    number: 1,
                    unspecified: false,
                    class_name: "g".to_string()
                })),
                Variable {
                    value: ValueLiteral::Symbol("x".to_string()),
                    symbols: vec!["y".to_string()]
                }
            ]
        }))
    );
    assert_eq!(
        parse_statement(&node(Rule::Native, vec![variable(leaf(Rule::Symbol, "stop"), &[])])),
        Err(SyntaxError::MissingPart(Rule::Native))
    );
}

#[test]
fn call_statement_that_is_malformed() {
    assert_eq!(parse_statement(&node(Rule::Call, vec![])), Err(SyntaxError::MissingPart(Rule::Call)));
}

#[test]
fn unknown_statement_stands_for_the_end_of_input() {
    assert_eq!(parse_statement(&leaf(Rule::Other, "??")), Ok(Statement::EOI));
    assert_eq!(parse_statement(&leaf(Rule::Number, "5")), Ok(Statement::EOI));
    assert_eq!(parse_statement(&leaf(Rule::EOI, "")), Ok(Statement::EOI));
}

#[test]
fn statements_keep_their_order_and_the_first_error_wins() {
    let good = node(Rule::Call, vec![variable(leaf(Rule::Symbol, "f"), &[])]);
    let bad_number = node(Rule::Call, vec![variable(leaf(Rule::Number, "x"), &[])]);
    let bad_shape = node(Rule::Call, vec![]);
    assert_eq!(
        parse_statements(&vec![
            node(Rule::Call, vec![variable(leaf(Rule::Symbol, "f"), &[])]),
            leaf(Rule::EOI, ""),
            node(Rule::Call, vec![variable(leaf(Rule::Symbol, "g"), &[])]),
        ]),
        Ok(vec![
            Statement::Call(Call { function: plain(ValueLiteral::Symbol("f".to_string())) }),
            Statement::EOI,
            Statement::Call(Call { function: plain(ValueLiteral::Symbol("g".to_string())) }),
        ])
    );
    assert_eq!(parse_statements(&vec![]), Ok(vec![]));
    assert_eq!(
        parse_statements(&vec![good, bad_number, bad_shape]),
        Err(SyntaxError::InvalidNumber)
    );
}

#[test]
fn program_is_the_statements_under_the_root() {
    let tree = node(
        Rule::Spwn,
        vec![
            node(Rule::Def, vec![leaf(Rule::Symbol, "x"), variable(leaf(Rule::Number, "5"), &[])]),
            leaf(Rule::EOI, ""),
        ],
    );
    assert_eq!(
        SPWNParser::parse(Rule::Spwn, &tree),
        Ok(CompoundStatement {
            statements: vec![
                Statement::Definition(Definition {
                    symbol: "x".to_string(),
                    value: plain(number("5"))
                }),
                Statement::EOI
            ]
        })
    );
    assert_eq!(SPWNParser::parse(Rule::CmpStmt, &tree), Err(SyntaxError::UnexpectedRule(Rule::Spwn)));
}

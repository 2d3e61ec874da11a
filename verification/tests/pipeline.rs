use spwn_lang::ast::{CompoundStatement, Native, Statement, ValueLiteral, Variable, ID};
use spwn_lang::compiler::compile;
use spwn_lang::error::{CompileError, ErrorKind};
use spwn_lang::pipeline::compile_to_level_string;
use spwn_lang::levelstring::serialize;
use spwn_lang::parser::SPWNParser;
use spwn_lang::tree::{Pair, Rule};

fn leaf(rule: Rule, text: &str) -> Pair {
    Pair { rule, text: text.to_string(), inner: vec![] }
}

fn node(rule: Rule, inner: Vec<Pair>) -> Pair {
    Pair { rule, text: String::new(), inner }
}

fn variable(value: Pair) -> Pair {
    node(Rule::Other, vec![node(Rule::Other, vec![value])])
}

fn id(number: &str, class_name: &str) -> Pair {
    variable(node(Rule::Id, vec![leaf(Rule::Number, number), leaf(Rule::Other, class_name)]))
}

fn fresh(class_name: &str) -> Pair {
    variable(node(Rule::Id, vec![leaf(Rule::Other, class_name)]))
}

fn symbol(name: &str) -> Pair {
    variable(leaf(Rule::Symbol, name))
}

fn number(text: &str) -> Pair {
    variable(leaf(Rule::Number, text))
}

#[test]
fn from_parse_tree_to_level_string() {
    let tree = node(
        Rule::Spwn,
        vec![
            node(Rule::Def, vec![leaf(Rule::Symbol, "door"), fresh("g")]),
            node(
                Rule::Def,
                vec![
                    leaf(Rule::Symbol, "open"),
                    variable(node(
                        Rule::CmpStmt,
                        vec![node(
                            Rule::Native,
                            vec![
                                symbol("move"),
                                node(
                                    Rule::Other,
                                    vec![symbol("door"), number("0"), number("30"), number("0.50")],
                                ),
                            ],
                        )],
                    )),
                ],
            ),
            node(
                Rule::Event,
                vec![
                    leaf(Rule::Symbol, "collision"),
                    node(Rule::Other, vec![id("1", "b"), fresh("b")]),
                    node(
                        Rule::CmpStmt,
                        vec![
                            node(Rule::Call, vec![symbol("open")]),
                            node(
                                Rule::Native,
                                vec![
                                    symbol("toggle"),
                                    node(Rule::Other, vec![id("9", "g"), variable(leaf(Rule::Bool, "false"))]),
                                ],
                            ),
                        ],
                    ),
                ],
            ),
            node(Rule::Call, vec![symbol("open")]),
            leaf(Rule::EOI, ""),
        ],
    );
    let program = SPWNParser::parse(Rule::Spwn, &tree).unwrap();
    let triggers = compile(&program).unwrap();
    assert_eq!(triggers.len(), 4);
    assert_eq!(
        serialize(&triggers),
        Ok(concat_all(&[
            "1,1815,51,0,80,1,95,2;",
            "1,901,10,0.5,28,0,29,30,51,1,57,0,62,1;",
            "1,1049,51,9,56,0,57,0,62,1;",
            "1,901,10,0.5,28,0,29,30,51,1;",
        ]))
    );
}

fn concat_all(parts: &[&str]) -> String {
    let mut out = String::new();
    for part in parts {
        out.push_str(part);
    }
    out
}

#[test]
fn program_to_level_string_in_one_step() {
    let target = Variable {
        value: ValueLiteral::ID(ID { number: 0, unspecified: true, class_name: "g".to_string() }),
        symbols: vec![],
    };
    let stop = |name: &str| {
        Statement::Native(Native {
            function: Variable { value: ValueLiteral::Symbol(name.to_string()), symbols: vec![] },
            args: vec![target.clone()],
        })
    };
    let program = CompoundStatement { statements: vec![stop("stop"), stop("stop")] };
    assert_eq!(compile_to_level_string(&program), Ok("1,1616,51,1;1,1616,51,2;".to_string()));
    assert_eq!(
        compile_to_level_string(&CompoundStatement { statements: vec![] }),
        Ok(String::new())
    );
    let broken = CompoundStatement { statements: vec![stop("stop"), stop("halt")] };
    assert_eq!(
        compile_to_level_string(&broken),
        Err(CompileError {
            kind: ErrorKind::UnknownNativeOperation,
            symbol: "halt".to_string(),
            scope: 2
        })
    );
}

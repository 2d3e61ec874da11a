//! From a parse tree to the syntax tree.

use vstd::prelude::*;
use vstd::string::*;
use crate::ast::{
    lemma_block_view, lemma_literal_view, lemma_statement_view, lemma_statements_view,
    lemma_variables_view, statements_view, strings_view, variables_view, Call,
    CompoundStatement, Definition, Event, IdView, Native, Statement, StatementView,
    ValueLiteral, ValueLiteralView, Variable, VariableView, ID,
};
use crate::number::{number_of_text, zero_view, Number};
use crate::text::{parse_u16, u16_of_text};
use crate::tree::{lemma_pair_view, lemma_pairs_view, pairs_view, Pair, PairView, Rule};

verus! {

broadcast use {
    lemma_pairs_view,
    lemma_pair_view,
    lemma_variables_view,
    lemma_statements_view,
    lemma_literal_view,
    lemma_block_view,
    lemma_statement_view,
};

/// Why a parse tree is not the tree of a program.
#[derive(Clone, Copy, Debug, PartialEq, Eq, Structural)]
pub enum SyntaxError {
    /// The root of the tree is of this rule, and another was asked for.
    UnexpectedRule(Rule),
    /// A node of this rule lacks a part that the rule always has.
    MissingPart(Rule),
    /// The text of a number, or of the number of an identifier, does
    /// not write one.
    InvalidNumber,
}

/// The texts of the nodes of `pairs` from position `from` on.
pub open spec fn texts_from(pairs: Seq<PairView>, from: int) -> Seq<Seq<char>> {
    Seq::new((pairs.len() - from) as nat, |i: int| pairs[from + i].text)
}

/// The literal that a node writes.
///
/// A node of a rule that writes no literal stands for the number zero.
pub open spec fn value_of(p: PairView) -> Result<ValueLiteralView, SyntaxError>
    decreases p,
{
    match p.rule {
        Rule::Id => {
            if p.inner.len() == 0 {
                Err(SyntaxError::MissingPart(Rule::Id))
            } else if p.inner[0].rule == Rule::Number {
                match u16_of_text(p.inner[0].text) {
                    None => Err(SyntaxError::InvalidNumber),
                    Some(number) => if p.inner.len() < 2 {
                        Err(SyntaxError::MissingPart(Rule::Id))
                    } else {
                        Ok(
                            ValueLiteralView::ID(
                                IdView { number, unspecified: false, class_name: p.inner[1].text },
                            ),
                        )
                    },
                }
            } else {
                Ok(
                    ValueLiteralView::ID(
                        IdView { number: 0, unspecified: true, class_name: p.inner[0].text },
                    ),
                )
            }
        },
        Rule::Number => match number_of_text(p.text) {
            None => Err(SyntaxError::InvalidNumber),
            Some(n) => Ok(ValueLiteralView::Number(n)),
        },
        Rule::Bool => Ok(ValueLiteralView::Bool(p.text == seq!['t', 'r', 'u', 'e'])),
        Rule::CmpStmt => match statements_of(p.inner) {
            Err(e) => Err(e),
            Ok(statements) => Ok(ValueLiteralView::CmpStmt(statements)),
        },
        Rule::ValueLiteral => {
            if p.inner.len() == 0 {
                Err(SyntaxError::MissingPart(Rule::ValueLiteral))
            } else {
                value_of(p.inner[0])
            }
        },
        Rule::Symbol => Ok(ValueLiteralView::Symbol(p.text)),
        _ => Ok(ValueLiteralView::Number(zero_view())),
    }
}

/// The variable that a node writes: its first part holds the literal,
/// the parts after it are the names of the property chain.
pub open spec fn variable_of(p: PairView) -> Result<VariableView, SyntaxError>
    decreases p,
{
    if p.inner.len() == 0 {
        Err(SyntaxError::MissingPart(p.rule))
    } else if p.inner[0].inner.len() == 0 {
        Err(SyntaxError::MissingPart(p.inner[0].rule))
    } else {
        match value_of(p.inner[0].inner[0]) {
            Err(e) => Err(e),
            Ok(value) => Ok(VariableView { value, symbols: texts_from(p.inner, 1) }),
        }
    }
}

/// The variables that a list of nodes writes; the first node that
/// writes none decides the error.
pub open spec fn arguments_of(pairs: Seq<PairView>) -> Result<Seq<VariableView>, SyntaxError>
    decreases pairs,
{
    if pairs.len() == 0 {
        Ok(Seq::empty())
    } else {
        match arguments_of(pairs.drop_last()) {
            Err(e) => Err(e),
            Ok(front) => match variable_of(pairs.last()) {
                Err(e) => Err(e),
                Ok(v) => Ok(front.push(v)),
            },
        }
    }
}

/// The statement that a node writes.
///
/// A node of a rule that writes no statement stands for the end of
/// input.
pub open spec fn statement_of(p: PairView) -> Result<StatementView, SyntaxError>
    decreases p,
{
    match p.rule {
        Rule::Def => {
            if p.inner.len() < 2 {
                Err(SyntaxError::MissingPart(Rule::Def))
            } else {
                match variable_of(p.inner[1]) {
                    Err(e) => Err(e),
                    Ok(value) => Ok(StatementView::Definition { symbol: p.inner[0].text, value }),
                }
            }
        },
        Rule::Event => {
            if p.inner.len() < 3 {
                Err(SyntaxError::MissingPart(Rule::Event))
            } else {
                match arguments_of(p.inner[1].inner) {
                    Err(e) => Err(e),
                    Ok(args) => match statements_of(p.inner[2].inner) {
                        Err(e) => Err(e),
                        Ok(body) => Ok(
                            StatementView::Event { symbol: p.inner[0].text, args, body },
                        ),
                    },
                }
            }
        },
        Rule::Call => {
            if p.inner.len() == 0 {
                Err(SyntaxError::MissingPart(Rule::Call))
            } else {
                match variable_of(p.inner[0]) {
                    Err(e) => Err(e),
                    Ok(function) => Ok(StatementView::Call { function }),
                }
            }
        },
        Rule::Native => {
            if p.inner.len() < 2 {
                Err(SyntaxError::MissingPart(Rule::Native))
            } else {
                match variable_of(p.inner[0]) {
                    Err(e) => Err(e),
                    Ok(function) => match arguments_of(p.inner[1].inner) {
                        Err(e) => Err(e),
                        Ok(args) => Ok(StatementView::Native { function, args }),
                    },
                }
            }
        },
        _ => Ok(StatementView::EOI),
    }
}

/// The statements that a list of nodes writes, in the order of the
/// nodes; the first node that writes none decides the error.
pub open spec fn statements_of(pairs: Seq<PairView>) -> Result<Seq<StatementView>, SyntaxError>
    decreases pairs,
{
    if pairs.len() == 0 {
        Ok(Seq::empty())
    } else {
        match statements_of(pairs.drop_last()) {
            Err(e) => Err(e),
            Ok(front) => match statement_of(pairs.last()) {
                Err(e) => Err(e),
                Ok(s) => Ok(front.push(s)),
            },
        }
    }
}

/// The program that a tree writes, where its root is of the rule
/// `rule`: the statements of the root's parts.
pub open spec fn program_of(rule: Rule, tree: PairView) -> Result<Seq<StatementView>, SyntaxError> {
    if tree.rule != rule {
        Err(SyntaxError::UnexpectedRule(tree.rule))
    } else {
        statements_of(tree.inner)
    }
}

/// An error among the first `k` nodes is the error of the whole list.
proof fn lemma_statements_error(pairs: Seq<PairView>, k: int)
    requires
        0 <= k <= pairs.len(),
        statements_of(pairs.take(k)) is Err,
    ensures
        statements_of(pairs) == statements_of(pairs.take(k)),
    decreases pairs.len() - k,
{
    if k == pairs.len() {
        assert(pairs.take(k) =~= pairs);
    } else {
        assert(pairs.take(k + 1).drop_last() =~= pairs.take(k));
        lemma_statements_error(pairs, k + 1);
    }
}

/// An error among the first `k` nodes is the error of the whole list.
proof fn lemma_arguments_error(pairs: Seq<PairView>, k: int)
    requires
        0 <= k <= pairs.len(),
        arguments_of(pairs.take(k)) is Err,
    ensures
        arguments_of(pairs) == arguments_of(pairs.take(k)),
    decreases pairs.len() - k,
{
    if k == pairs.len() {
        assert(pairs.take(k) =~= pairs);
    } else {
        assert(pairs.take(k + 1).drop_last() =~= pairs.take(k));
        lemma_arguments_error(pairs, k + 1);
    }
}

/// Builds the literal that a node writes.
pub fn parse_value(pair: &Pair) -> (r: Result<ValueLiteral, SyntaxError>)
    ensures
        match r {
            Ok(v) => value_of(pair@) == Ok::<ValueLiteralView, SyntaxError>(v@),
            Err(e) => value_of(pair@) == Err::<ValueLiteralView, SyntaxError>(e),
        },
    decreases pair,
{
    match pair.rule {
        Rule::Id => {
            if pair.inner.len() == 0 {
                return Err(SyntaxError::MissingPart(Rule::Id));
            }
            let first = &pair.inner[0];
            if first.rule == Rule::Number {
                match parse_u16(first.text.as_str()) {
                    None => Err(SyntaxError::InvalidNumber),
                    Some(number) => {
                        if pair.inner.len() < 2 {
                            return Err(SyntaxError::MissingPart(Rule::Id));
                        }
                        Ok(
                            ValueLiteral::ID(
                                ID {
                                    number,
                                    unspecified: false,
                                    class_name: pair.inner[1].text.clone(),
                                },
                            ),
                        )
                    },
                }
            } else {
                Ok(
                    ValueLiteral::ID(
                        ID { number: 0, unspecified: true, class_name: first.text.clone() },
                    ),
                )
            }
        },
        Rule::Number => match Number::parse(pair.text.as_str()) {
            None => Err(SyntaxError::InvalidNumber),
            Some(n) => Ok(ValueLiteral::Number(n)),
        },
        Rule::Bool => {
            proof {
                reveal_strlit("true");
            }
            let yes = String::from_str("true");
            assert(yes@ =~= seq!['t', 'r', 'u', 'e']);
            Ok(ValueLiteral::Bool(pair.text == yes))
        },
        Rule::CmpStmt => match parse_statements(&pair.inner) {
            Err(e) => Err(e),
            Ok(statements) => Ok(ValueLiteral::CmpStmt(CompoundStatement { statements })),
        },
        Rule::ValueLiteral => {
            if pair.inner.len() == 0 {
                return Err(SyntaxError::MissingPart(Rule::ValueLiteral));
            }
            parse_value(&pair.inner[0])
        },
        Rule::Symbol => Ok(ValueLiteral::Symbol(pair.text.clone())),
        _ => Ok(ValueLiteral::Number(Number::zero())),
    }
}

/// Builds the variable that a node writes.
#[verifier::loop_isolation(false)]
pub fn parse_variable(pair: &Pair) -> (r: Result<Variable, SyntaxError>)
    ensures
        match r {
            Ok(v) => variable_of(pair@) == Ok::<VariableView, SyntaxError>(v@),
            Err(e) => variable_of(pair@) == Err::<VariableView, SyntaxError>(e),
        },
    decreases pair,
{
    if pair.inner.len() == 0 {
        return Err(SyntaxError::MissingPart(pair.rule));
    }
    let head = &pair.inner[0];
    if head.inner.len() == 0 {
        return Err(SyntaxError::MissingPart(head.rule));
    }
    let value = match parse_value(&head.inner[0]) {
        Err(e) => {
            return Err(e);
        },
        Ok(value) => value,
    };
    let mut symbols: Vec<String> = Vec::new();
    let mut i: usize = 1;
    while i < pair.inner.len()
        invariant
            1 <= i <= pair.inner.len(),
            symbols.len() == i - 1,
            forall|j: int| 0 <= j < i - 1 ==> symbols[j]@ == pair.inner[j + 1].text@,
        decreases pair.inner.len() - i,
    {
        symbols.push(pair.inner[i].text.clone());
        i = i + 1;
    }
    assert(strings_view(symbols@) =~= texts_from(pair@.inner, 1));
    Ok(Variable { value, symbols })
}

/// Builds the variables that a list of nodes writes.
#[verifier::loop_isolation(false)]
pub fn parse_arguments(pairs: &Vec<Pair>) -> (r: Result<Vec<Variable>, SyntaxError>)
    ensures
        match r {
            Ok(v) => arguments_of(pairs_view(pairs@)) == Ok::<Seq<VariableView>, SyntaxError>(
                variables_view(v@),
            ),
            Err(e) => arguments_of(pairs_view(pairs@)) == Err::<Seq<VariableView>, SyntaxError>(e),
        },
    decreases pairs,
{
    let ghost views = pairs_view(pairs@);
    let mut out: Vec<Variable> = Vec::new();
    let mut i: usize = 0;
    assert(variables_view(out@) =~= Seq::<VariableView>::empty());
    assert(views.take(0) =~= Seq::<PairView>::empty());
    while i < pairs.len()
        invariant
            i <= pairs.len(),
            views == pairs_view(pairs@),
            arguments_of(views.take(i as int)) == Ok::<Seq<VariableView>, SyntaxError>(
                variables_view(out@),
            ),
        decreases pairs.len() - i,
    {
        proof {
            assert(views.take(i + 1).drop_last() =~= views.take(i as int));
            assert(views.take(i + 1).last() == pairs[i as int]@);
        }
        match parse_variable(&pairs[i]) {
            Err(e) => {
                proof {
                    lemma_arguments_error(views, i + 1);
                }
                return Err(e);
            },
            Ok(v) => {
                let ghost before = variables_view(out@);
                out.push(v);
                assert(variables_view(out@) =~= before.push(v@));
            },
        }
        i = i + 1;
    }
    assert(views.take(i as int) =~= views);
    Ok(out)
}

/// Builds the statement that a node writes.
pub fn parse_statement(pair: &Pair) -> (r: Result<Statement, SyntaxError>)
    ensures
        match r {
            Ok(s) => statement_of(pair@) == Ok::<StatementView, SyntaxError>(s@),
            Err(e) => statement_of(pair@) == Err::<StatementView, SyntaxError>(e),
        },
    decreases pair,
{
    match pair.rule {
        Rule::Def => {
            if pair.inner.len() < 2 {
                return Err(SyntaxError::MissingPart(Rule::Def));
            }
            let symbol = pair.inner[0].text.clone();
            match parse_variable(&pair.inner[1]) {
                Err(e) => Err(e),
                Ok(value) => Ok(Statement::Definition(Definition { symbol, value })),
            }
        },
        Rule::Event => {
            if pair.inner.len() < 3 {
                return Err(SyntaxError::MissingPart(Rule::Event));
            }
            let symbol = pair.inner[0].text.clone();
            let args = match parse_arguments(&pair.inner[1].inner) {
                Err(e) => {
                    return Err(e);
                },
                Ok(args) => args,
            };
            match parse_statements(&pair.inner[2].inner) {
                Err(e) => Err(e),
                Ok(statements) => Ok(
                    Statement::Event(
                        Event { symbol, args, cmp_stmt: CompoundStatement { statements } },
                    ),
                ),
            }
        },
        Rule::Call => {
            if pair.inner.len() == 0 {
                return Err(SyntaxError::MissingPart(Rule::Call));
            }
            match parse_variable(&pair.inner[0]) {
                Err(e) => Err(e),
                Ok(function) => Ok(Statement::Call(Call { function })),
            }
        },
        Rule::Native => {
            if pair.inner.len() < 2 {
                return Err(SyntaxError::MissingPart(Rule::Native));
            }
            let function = match parse_variable(&pair.inner[0]) {
                Err(e) => {
                    return Err(e);
                },
                Ok(function) => function,
            };
            match parse_arguments(&pair.inner[1].inner) {
                Err(e) => Err(e),
                Ok(args) => Ok(Statement::Native(Native { function, args })),
            }
        },
        _ => Ok(Statement::EOI),
    }
}

/// Builds the statements that a list of nodes writes.
#[verifier::loop_isolation(false)]
pub fn parse_statements(statements: &Vec<Pair>) -> (r: Result<Vec<Statement>, SyntaxError>)
    ensures
        match r {
            Ok(v) => statements_of(pairs_view(statements@)) == Ok::<
                Seq<StatementView>,
                SyntaxError,
            >(statements_view(v@)),
            Err(e) => statements_of(pairs_view(statements@)) == Err::<
                Seq<StatementView>,
                SyntaxError,
            >(e),
        },
    decreases statements,
{
    let ghost views = pairs_view(statements@);
    let mut stmts: Vec<Statement> = Vec::new();
    let mut i: usize = 0;
    assert(statements_view(stmts@) =~= Seq::<StatementView>::empty());
    assert(views.take(0) =~= Seq::<PairView>::empty());
    while i < statements.len()
        invariant
            i <= statements.len(),
            views == pairs_view(statements@),
            statements_of(views.take(i as int)) == Ok::<Seq<StatementView>, SyntaxError>(
                statements_view(stmts@),
            ),
        decreases statements.len() - i,
    {
        proof {
            assert(views.take(i + 1).drop_last() =~= views.take(i as int));
            assert(views.take(i + 1).last() == statements[i as int]@);
        }
        match parse_statement(&statements[i]) {
            Err(e) => {
                proof {
                    lemma_statements_error(views, i + 1);
                }
                return Err(e);
            },
            Ok(s) => {
                let ghost before = statements_view(stmts@);
                stmts.push(s);
                assert(statements_view(stmts@) =~= before.push(s@));
            },
        }
        i = i + 1;
    }
    assert(views.take(i as int) =~= views);
    Ok(stmts)
}

/// The front end of the compiler: it takes the parse tree of a source
/// text and builds the program.
pub struct SPWNParser;

impl SPWNParser {
    /// Builds the program that `tree` writes, where the root of `tree`
    /// is of the rule `rule`.
    pub fn parse(rule: Rule, tree: &Pair) -> (r: Result<CompoundStatement, SyntaxError>)
        ensures
            match r {
                Ok(program) => program_of(rule, tree@) == Ok::<Seq<StatementView>, SyntaxError>(
                    program@,
                ),
                Err(e) => program_of(rule, tree@) == Err::<Seq<StatementView>, SyntaxError>(e),
            },
    {
        if tree.rule != rule {
            return Err(SyntaxError::UnexpectedRule(tree.rule));
        }
        match parse_statements(&tree.inner) {
            Err(e) => Err(e),
            Ok(statements) => Ok(CompoundStatement { statements }),
        }
    }
}

} // verus!

//! The syntax tree of a program, and the mathematical content of each
//! of its nodes.

use vstd::prelude::*;
use crate::number::{Number, NumberView};

verus! {

/// An identifier literal: a number in one of the namespaces, or a
/// request for a fresh number of that namespace.
#[derive(Debug, PartialEq, Eq)]
pub struct ID {
    pub number: u16,
    pub unspecified: bool,
    pub class_name: String,
}

/// The literal at the base of a variable.
#[derive(Debug, PartialEq, Eq)]
pub enum ValueLiteral {
    Number(Number),
    Bool(bool),
    Symbol(String),
    ID(ID),
    CmpStmt(CompoundStatement),
}

/// A literal followed by a chain of property names.
#[derive(Debug, PartialEq, Eq)]
pub struct Variable {
    pub value: ValueLiteral,
    pub symbols: Vec<String>,
}

/// A block: statements in order, with a scope of their own.
#[derive(Debug, PartialEq, Eq)]
pub struct CompoundStatement {
    pub statements: Vec<Statement>,
}

/// Binds a name to a value in the current scope.
#[derive(Debug, PartialEq, Eq)]
pub struct Definition {
    pub symbol: String,
    pub value: Variable,
}

/// Binds a block to an event of the level.
#[derive(Debug, PartialEq, Eq)]
pub struct Event {
    pub symbol: String,
    pub args: Vec<Variable>,
    pub cmp_stmt: CompoundStatement,
}

impl Event {
    /// The mathematical content of the block that is bound to the event.
    pub open spec fn body_view(&self) -> Seq<StatementView> {
        self.cmp_stmt@
    }

    /// The block that is bound to the event.
    pub fn body(&self) -> (block: &CompoundStatement)
        ensures
            *block == self.cmp_stmt,
            block@ == self.body_view(),
    {
        &self.cmp_stmt
    }
}

/// Expands a block in place.
#[derive(Debug, PartialEq, Eq)]
pub struct Call {
    pub function: Variable,
}

/// Invokes a built-in operation.
#[derive(Debug, PartialEq, Eq)]
pub struct Native {
    pub function: Variable,
    pub args: Vec<Variable>,
}

/// One statement of a program.
#[derive(Debug, PartialEq, Eq)]
pub enum Statement {
    Definition(Definition),
    Event(Event),
    Call(Call),
    Native(Native),
    EOI,
}

/// The mathematical content of an [`ID`].
pub ghost struct IdView {
    pub number: u16,
    pub unspecified: bool,
    pub class_name: Seq<char>,
}

/// The mathematical content of a [`ValueLiteral`].
pub ghost enum ValueLiteralView {
    Number(NumberView),
    Bool(bool),
    Symbol(Seq<char>),
    ID(IdView),
    CmpStmt(Seq<StatementView>),
}

/// The mathematical content of a [`Variable`].
pub ghost struct VariableView {
    pub value: ValueLiteralView,
    pub symbols: Seq<Seq<char>>,
}

/// The mathematical content of a [`Statement`].
pub ghost enum StatementView {
    Definition { symbol: Seq<char>, value: VariableView },
    Event { symbol: Seq<char>, args: Seq<VariableView>, body: Seq<StatementView> },
    Call { function: VariableView },
    Native { function: VariableView, args: Seq<VariableView> },
    EOI,
}

/// The character sequences of a sequence of strings.
pub open spec fn strings_view(s: Seq<String>) -> Seq<Seq<char>> {
    Seq::new(s.len(), |i: int| s[i]@)
}

/// The views of a sequence of variables.
pub open spec fn variables_view(s: Seq<Variable>) -> Seq<VariableView>
    decreases s,
{
    Seq::new(
        s.len(),
        |i: int|
            if 0 <= i < s.len() {
                s[i]@
            } else {
                arbitrary()
            },
    )
}

/// The views of a sequence of statements.
pub open spec fn statements_view(s: Seq<Statement>) -> Seq<StatementView>
    decreases s,
{
    Seq::new(
        s.len(),
        |i: int|
            if 0 <= i < s.len() {
                s[i]@
            } else {
                arbitrary()
            },
    )
}

/// A view of a list of variables has the length of the list and holds
/// the view of each variable at the variable's place.
pub broadcast proof fn lemma_variables_view(s: Seq<Variable>)
    ensures
        (#[trigger] variables_view(s)).len() == s.len(),
        forall|i: int| 0 <= i < s.len() ==> (#[trigger] variables_view(s)[i]) == s[i]@,
{
    reveal_with_fuel(variables_view, 2);
}

/// A view of a list of statements has the length of the list and holds
/// the view of each statement at the statement's place.
pub broadcast proof fn lemma_statements_view(s: Seq<Statement>)
    ensures
        (#[trigger] statements_view(s)).len() == s.len(),
        forall|i: int| 0 <= i < s.len() ==> (#[trigger] statements_view(s)[i]) == s[i]@,
{
    reveal_with_fuel(statements_view, 2);
}

/// The view of a literal, variant by variant.
pub broadcast proof fn lemma_literal_view(v: ValueLiteral)
    ensures
        #[trigger] v@ == match v {
            ValueLiteral::Number(n) => ValueLiteralView::Number(n@),
            ValueLiteral::Bool(b) => ValueLiteralView::Bool(b),
            ValueLiteral::Symbol(s) => ValueLiteralView::Symbol(s@),
            ValueLiteral::ID(id) => ValueLiteralView::ID(id@),
            ValueLiteral::CmpStmt(c) => ValueLiteralView::CmpStmt(statements_view(c.statements@)),
        },
{

}

/// The view of a block is the views of its statements.
pub broadcast proof fn lemma_block_view(c: CompoundStatement)
    ensures
        #[trigger] c@ == statements_view(c.statements@),
{
}

/// The view of a statement, variant by variant.
pub broadcast proof fn lemma_statement_view(s: Statement)
    ensures
        #[trigger] s@ == match s {
            Statement::Definition(d) => StatementView::Definition {
                symbol: d.symbol@,
                value: d.value@,
            },
            Statement::Event(e) => StatementView::Event {
                symbol: e.symbol@,
                args: variables_view(e.args@),
                body: statements_view(e.cmp_stmt.statements@),
            },
            Statement::Call(c) => StatementView::Call { function: c.function@ },
            Statement::Native(n) => StatementView::Native {
                function: n.function@,
                args: variables_view(n.args@),
            },
            Statement::EOI => StatementView::EOI,
        },
{

}

impl View for ID {
    type V = IdView;

    open spec fn view(&self) -> IdView {
        IdView {
            number: self.number,
            unspecified: self.unspecified,
            class_name: self.class_name@,
        }
    }
}

impl View for ValueLiteral {
    type V = ValueLiteralView;

    open spec fn view(&self) -> ValueLiteralView
        decreases self,
    {
        match self {
            ValueLiteral::Number(n) => ValueLiteralView::Number(n@),
            ValueLiteral::Bool(b) => ValueLiteralView::Bool(*b),
            ValueLiteral::Symbol(s) => ValueLiteralView::Symbol(s@),
            ValueLiteral::ID(id) => ValueLiteralView::ID(id@),
            ValueLiteral::CmpStmt(c) => ValueLiteralView::CmpStmt(c@),
        }
    }
}

impl View for Variable {
    type V = VariableView;

    open spec fn view(&self) -> VariableView
        decreases self,
    {
        VariableView { value: self.value@, symbols: strings_view(self.symbols@) }
    }
}

impl View for CompoundStatement {
    type V = Seq<StatementView>;

    open spec fn view(&self) -> Seq<StatementView>
        decreases self,
    {
        statements_view(self.statements@)
    }
}

impl View for Statement {
    type V = StatementView;

    open spec fn view(&self) -> StatementView
        decreases self,
    {
        match self {
            Statement::Definition(d) => StatementView::Definition {
                symbol: d.symbol@,
                value: d.value@,
            },
            Statement::Event(e) => StatementView::Event {
                symbol: e.symbol@,
                args: variables_view(e.args@),
                body: e.cmp_stmt@,
            },
            Statement::Call(c) => StatementView::Call { function: c.function@ },
            Statement::Native(n) => StatementView::Native {
                function: n.function@,
                args: variables_view(n.args@),
            },
            Statement::EOI => StatementView::EOI,
        }
    }
}

/// A copy of a list of strings.
fn clone_strings(v: &Vec<String>) -> (r: Vec<String>)
    ensures
        strings_view(r@) == strings_view(v@),
{
    let mut out: Vec<String> = Vec::new();
    let mut i: usize = 0;
    while i < v.len()
        invariant
            i <= v.len(),
            out.len() == i,
            forall|j: int| 0 <= j < i ==> out[j]@ == v[j]@,
        decreases v.len() - i,
    {
        out.push(v[i].clone());
        i = i + 1;
    }
    assert(strings_view(out@) =~= strings_view(v@));
    out
}

/// A copy of a list of variables.
#[verifier::loop_isolation(false)]
fn clone_variables(v: &Vec<Variable>) -> (r: Vec<Variable>)
    ensures
        variables_view(r@) == variables_view(v@),
    decreases v,
{
    let mut out: Vec<Variable> = Vec::new();
    let mut i: usize = 0;
    while i < v.len()
        invariant
            i <= v.len(),
            out.len() == i,
            forall|j: int| 0 <= j < i ==> out[j]@ == v[j]@,
        decreases v.len() - i,
    {
        out.push(v[i].clone());
        i = i + 1;
    }
    assert(variables_view(out@) =~= variables_view(v@));
    out
}

/// A copy of a list of statements.
#[verifier::loop_isolation(false)]
fn clone_statements(v: &Vec<Statement>) -> (r: Vec<Statement>)
    ensures
        statements_view(r@) == statements_view(v@),
    decreases v,
{
    let mut out: Vec<Statement> = Vec::new();
    let mut i: usize = 0;
    while i < v.len()
        invariant
            i <= v.len(),
            out.len() == i,
            forall|j: int| 0 <= j < i ==> out[j]@ == v[j]@,
        decreases v.len() - i,
    {
        out.push(v[i].clone());
        i = i + 1;
    }
    assert(statements_view(out@) =~= statements_view(v@));
    out
}

impl Clone for ID {
    fn clone(&self) -> (r: ID)
        ensures
            r@ == self@,
    {
        ID {
            number: self.number,
            unspecified: self.unspecified,
            class_name: self.class_name.clone(),
        }
    }
}

impl Clone for ValueLiteral {
    fn clone(&self) -> (r: ValueLiteral)
        ensures
            r@ == self@,
        decreases self,
    {
        match self {
            ValueLiteral::Number(n) => ValueLiteral::Number(n.clone()),
            ValueLiteral::Bool(b) => ValueLiteral::Bool(*b),
            ValueLiteral::Symbol(s) => ValueLiteral::Symbol(s.clone()),
            ValueLiteral::ID(id) => ValueLiteral::ID(id.clone()),
            ValueLiteral::CmpStmt(c) => ValueLiteral::CmpStmt(c.clone()),
        }
    }
}

impl Clone for Variable {
    fn clone(&self) -> (r: Variable)
        ensures
            r@ == self@,
        decreases self,
    {
        Variable { value: self.value.clone(), symbols: clone_strings(&self.symbols) }
    }
}

impl Clone for CompoundStatement {
    fn clone(&self) -> (r: CompoundStatement)
        ensures
            r@ == self@,
        decreases self,
    {
        CompoundStatement { statements: clone_statements(&self.statements) }
    }
}

impl Clone for Statement {
    fn clone(&self) -> (r: Statement)
        ensures
            r@ == self@,
        decreases self,
    {
        match self {
            Statement::Definition(d) => Statement::Definition(
                Definition { symbol: d.symbol.clone(), value: d.value.clone() },
            ),
            Statement::Event(e) => Statement::Event(
                Event {
                    symbol: e.symbol.clone(),
                    args: clone_variables(&e.args),
                    cmp_stmt: e.cmp_stmt.clone(),
                },
            ),
            Statement::Call(c) => Statement::Call(Call { function: c.function.clone() }),
            Statement::Native(n) => Statement::Native(
                Native { function: n.function.clone(), args: clone_variables(&n.args) },
            ),
            Statement::EOI => Statement::EOI,
        }
    }
}

} // verus!

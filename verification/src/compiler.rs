//! The compiler: from a program to the triggers that it makes, in the
//! order in which the program makes them.

use vstd::prelude::*;
use crate::ast::{
    lemma_block_view, lemma_literal_view, lemma_statement_view, lemma_statements_view,
    lemma_variables_view, statements_view, variables_view, Call, CompoundStatement, Definition,
    Event, Native, Statement, StatementView, ValueLiteral, ValueLiteralView, Variable,
    VariableView,
};
use crate::environment::{
    value_views, Environment, EnvironmentView, Reaction, ReactionView, Value, ValueView,
};
use crate::error::{failure, CompileError, CompileErrorView, ErrorKind};
use crate::native::{
    action_named, event_named, find_action, find_event, is_event, kind_is_event, kind_name,
    kind_parameters, name_of,
    owner_view, parameters, properties_of, triggers_view, values_view, Property, PropertyValue,
    PropertyValueView, PropertyView, Trigger, TriggerKind, TriggerView, TARGET,
};
use crate::theorems::lemma_block_restores_scopes;

verus! {

broadcast use {
    lemma_variables_view,
    lemma_statements_view,
    lemma_literal_view,
    lemma_block_view,
    lemma_statement_view,
};

/// How deeply a compilation follows blocks into blocks.
pub const MAX_DEPTH: usize = 128;

/// What evaluating a variable comes to: the environment after it, and
/// the value or the failure.
pub ghost struct Evaluated {
    pub env: EnvironmentView,
    pub result: Result<ValueView, CompileErrorView>,
}

/// What evaluating a list of variables comes to.
pub ghost struct EvaluatedAll {
    pub env: EnvironmentView,
    pub result: Result<Seq<ValueView>, CompileErrorView>,
}

/// What compiling statements comes to: the environment after it, and
/// the triggers or the failure.
pub ghost struct Compiled {
    pub env: EnvironmentView,
    pub result: Result<Seq<TriggerView>, CompileErrorView>,
}

/// The name that a variable is known by: the name at its base, where
/// it has one.
pub open spec fn variable_name(var: VariableView) -> Seq<char> {
    match var.value {
        ValueLiteralView::Symbol(s) => s,
        _ => Seq::empty(),
    }
}

/// Whether a variable is a name and nothing else.
pub open spec fn is_plain_name(var: VariableView) -> bool {
    var.value is Symbol && var.symbols.len() == 0
}

/// The value of a literal.
///
/// A name stands for what it is bound to, or else for the built-in
/// operation of that name. An identifier without a number takes the
/// next free number of its namespace; one with a number marks that
/// number as taken. A block stands for itself.
pub open spec fn eval_literal(lit: ValueLiteralView, env: EnvironmentView) -> Evaluated {
    match lit {
        ValueLiteralView::Number(n) => Evaluated { env, result: Ok(ValueView::Number(n)) },
        ValueLiteralView::Bool(b) => Evaluated { env, result: Ok(ValueView::Bool(b)) },
        ValueLiteralView::Symbol(s) => Evaluated {
            env,
            result: match env.resolve(s) {
                Some(v) => Ok(v),
                None => match action_named(s) {
                    Some(kind) => Ok(ValueView::Native(kind)),
                    None => Err(failure(ErrorKind::UnboundSymbol, s, env.scopes.len())),
                },
            },
        },
        ValueLiteralView::ID(id) => if id.unspecified {
            Evaluated {
                env: env.after_allocate(id.class_name),
                result: match env.allocated(id.class_name) {
                    Some(number) => Ok(ValueView::Id { class_name: id.class_name, number }),
                    None => Err(
                        failure(ErrorKind::NamespaceExhausted, id.class_name, env.scopes.len()),
                    ),
                },
            }
        } else {
            Evaluated {
                env: env.reserve(id.class_name, id.number as nat),
                result: Ok(ValueView::Id { class_name: id.class_name, number: id.number }),
            }
        },
        ValueLiteralView::CmpStmt(body) => Evaluated { env, result: Ok(ValueView::Block(body)) },
    }
}

/// The variable that the last definition of `name` among the
/// statements of a block binds it to.
pub open spec fn find_definition(body: Seq<StatementView>, name: Seq<char>) -> Option<
    VariableView,
>
    decreases body.len(),
{
    if body.len() == 0 {
        None
    } else {
        match body.last() {
            StatementView::Definition { symbol, value } => if symbol == name {
                Some(value)
            } else {
                find_definition(body.drop_last(), name)
            },
            _ => find_definition(body.drop_last(), name),
        }
    }
}

/// The value of a variable: the value of its literal, and then, name by
/// name, the property of that name of the value before.
pub open spec fn eval_variable(var: VariableView, env: EnvironmentView, fuel: nat) -> Evaluated
    decreases fuel, var, var.symbols.len() + 1,
{
    let base = eval_literal(var.value, env);
    match base.result {
        Err(_) => base,
        Ok(value) => eval_chain(var, 0, value, base.env, fuel),
    }
}

/// The value at the end of the property chain of `var`, where `value`
/// is the value before the name at place `i`.
///
/// Only a block has properties: the names that its own statements
/// define. A property is evaluated in a scope of its own, one block
/// deeper.
pub open spec fn eval_chain(
    var: VariableView,
    i: int,
    value: ValueView,
    env: EnvironmentView,
    fuel: nat,
) -> Evaluated
    decreases fuel, var, var.symbols.len() - i,
{
    if i < 0 || i >= var.symbols.len() {
        Evaluated { env, result: Ok(value) }
    } else {
        let name = var.symbols[i];
        let missing = Evaluated {
            env,
            result: Err(failure(ErrorKind::InvalidPropertyAccess, name, env.scopes.len())),
        };
        match value {
            ValueView::Block(body) => match find_definition(body, name) {
                None => missing,
                Some(definition) => if fuel == 0 {
                    Evaluated {
                        env,
                        result: Err(failure(ErrorKind::DepthExceeded, name, env.scopes.len())),
                    }
                } else {
                    let inner = eval_variable(definition, env.enter_scope(), (fuel - 1) as nat);
                    let after = inner.env.exit_scope();
                    match inner.result {
                        Err(e) => Evaluated { env: after, result: Err(e) },
                        Ok(v) => eval_chain(var, i + 1, v, after, fuel),
                    }
                },
            },
            _ => missing,
        }
    }
}

/// The values of a list of variables, evaluated from the first to the
/// last; the first that fails decides the failure.
pub open spec fn eval_arguments(args: Seq<VariableView>, env: EnvironmentView, fuel: nat)
    -> EvaluatedAll
    decreases args.len(),
{
    if args.len() == 0 {
        EvaluatedAll { env, result: Ok(Seq::empty()) }
    } else {
        let front = eval_arguments(args.drop_last(), env, fuel);
        match front.result {
            Err(_) => front,
            Ok(values) => {
                let last = eval_variable(args.last(), front.env, fuel);
                EvaluatedAll {
                    env: last.env,
                    result: match last.result {
                        Err(e) => Err(e),
                        Ok(v) => Ok(values.push(v)),
                    },
                }
            },
        }
    }
}

/// A value as a trigger holds it; a block or an operation is held by
/// none.
pub open spec fn encode(value: ValueView) -> Option<PropertyValueView> {
    match value {
        ValueView::Number(n) => Some(PropertyValueView::Number(n)),
        ValueView::Bool(b) => Some(PropertyValueView::Bool(b)),
        ValueView::Id { class_name, number } => Some(PropertyValueView::Id(number as nat)),
        _ => None,
    }
}

/// The values as a trigger holds them, where it can hold each.
pub open spec fn encode_all(values: Seq<ValueView>) -> Option<Seq<PropertyValueView>> {
    if forall|i: int| 0 <= i < values.len() ==> (#[trigger] encode(values[i])) is Some {
        Some(Seq::new(values.len(), |i: int| encode(values[i])->0))
    } else {
        None
    }
}

/// The trigger that the operation `kind` makes of `values`, or why it
/// makes none.
pub open spec fn invoke(
    kind: TriggerKind,
    values: Seq<ValueView>,
    owner: Option<nat>,
    scope: nat,
) -> Result<TriggerView, CompileErrorView> {
    if values.len() != parameters(kind).len() {
        Err(failure(ErrorKind::ArityMismatch, name_of(kind), scope))
    } else {
        match encode_all(values) {
            None => Err(failure(ErrorKind::InvalidArgument, name_of(kind), scope)),
            Some(encoded) => Ok(
                TriggerView { kind, properties: properties_of(parameters(kind), encoded), owner },
            ),
        }
    }
}

/// The failure of a statement, with the environment that it leaves.
pub open spec fn failed(env: EnvironmentView, e: CompileErrorView) -> Compiled {
    Compiled { env, result: Err(e) }
}

/// What a definition comes to: the name is bound to the value of the
/// variable, and no trigger is made.
pub open spec fn run_definition(
    symbol: Seq<char>,
    value: VariableView,
    env: EnvironmentView,
    fuel: nat,
) -> Compiled {
    let v = eval_variable(value, env, fuel);
    match v.result {
        Err(e) => failed(v.env, e),
        Ok(x) => Compiled { env: v.env.define(symbol, x), result: Ok(Seq::empty()) },
    }
}

/// The trigger that wires a reaction to its event: the trigger of the
/// event, with the place of the reaction as what it acts on.
pub open spec fn wiring_of(bare: TriggerView, place: nat) -> TriggerView {
    TriggerView {
        properties: bare.properties.push(
            PropertyView { key: TARGET, value: PropertyValueView::Id(place) },
        ),
        ..bare
    }
}

/// What binding a block to an event comes to: the reaction is
/// registered, one trigger wires it to the event, and the triggers of
/// the block follow, fired by the reaction.
pub open spec fn run_event(
    symbol: Seq<char>,
    args: Seq<VariableView>,
    body: Seq<StatementView>,
    env: EnvironmentView,
    owner: Option<nat>,
    fuel: nat,
) -> Compiled
    decreases fuel, body, 1nat,
{
    let a = eval_arguments(args, env, fuel);
    let scope = a.env.scopes.len();
    match a.result {
        Err(e) => failed(a.env, e),
        Ok(values) => match event_named(symbol) {
            None => failed(a.env, failure(ErrorKind::UnknownNativeOperation, symbol, scope)),
            Some(kind) => match invoke(kind, values, owner, scope) {
                Err(e) => failed(a.env, e),
                Ok(bare) => if fuel == 0 {
                    failed(a.env, failure(ErrorKind::DepthExceeded, symbol, scope))
                } else {
                    let place = a.env.reactions.len();
                    let registered = a.env.register(
                        ReactionView { symbol, pattern: encode_all(values)->0 },
                    );
                    let inner = run_statements(
                        body,
                        registered.enter_scope(),
                        Some(place),
                        (fuel - 1) as nat,
                    );
                    Compiled {
                        env: inner.env.exit_scope(),
                        result: match inner.result {
                            Err(e) => Err(e),
                            Ok(triggers) => Ok(seq![wiring_of(bare, place)] + triggers),
                        },
                    }
                },
            },
        },
    }
}

/// What a call comes to: the triggers of the block that is called, in
/// a scope of their own, where the call stands.
pub open spec fn run_call(
    function: VariableView,
    env: EnvironmentView,
    owner: Option<nat>,
    fuel: nat,
) -> Compiled
    decreases fuel, function, 1nat,
{
    let f = eval_variable(function, env, fuel);
    let scope = f.env.scopes.len();
    match f.result {
        Err(e) => failed(f.env, e),
        Ok(ValueView::Block(body)) => if fuel == 0 {
            failed(f.env, failure(ErrorKind::DepthExceeded, variable_name(function), scope))
        } else {
            let inner = run_statements(body, f.env.enter_scope(), owner, (fuel - 1) as nat);
            Compiled { env: inner.env.exit_scope(), result: inner.result }
        },
        Ok(_) => failed(f.env, failure(ErrorKind::NotCallable, variable_name(function), scope)),
    }
}

/// The operation that a value is, if it is one that a program can
/// invoke.
pub open spec fn operation_of(value: ValueView) -> Option<TriggerKind> {
    match value {
        ValueView::Native(kind) => if is_event(kind) {
            None
        } else {
            Some(kind)
        },
        _ => None,
    }
}

/// What invoking a built-in operation comes to: the one trigger that
/// the operation makes of its arguments.
pub open spec fn run_native(
    function: VariableView,
    args: Seq<VariableView>,
    env: EnvironmentView,
    owner: Option<nat>,
    fuel: nat,
) -> Compiled {
    let f = eval_variable(function, env, fuel);
    let unknown = failure(
        ErrorKind::UnknownNativeOperation,
        variable_name(function),
        f.env.scopes.len(),
    );
    match f.result {
        Err(e) => if is_plain_name(function) {
            failed(f.env, unknown)
        } else {
            failed(f.env, e)
        },
        Ok(callee) => {
            let a = eval_arguments(args, f.env, fuel);
            let scope = a.env.scopes.len();
            match a.result {
                Err(e) => failed(a.env, e),
                Ok(values) => match operation_of(callee) {
                    Some(kind) => match invoke(kind, values, owner, scope) {
                        Err(e) => failed(a.env, e),
                        Ok(trigger) => Compiled { env: a.env, result: Ok(seq![trigger]) },
                    },
                    None => failed(
                        a.env,
                        failure(
                            ErrorKind::UnknownNativeOperation,
                            variable_name(function),
                            scope,
                        ),
                    ),
                },
            }
        },
    }
}

/// What a statement comes to, in `env`, for triggers that the reaction
/// `owner` fires, with `fuel` blocks still to be entered.
pub open spec fn run_statement(
    stmt: StatementView,
    env: EnvironmentView,
    owner: Option<nat>,
    fuel: nat,
) -> Compiled
    decreases fuel, stmt, 0nat,
{
    match stmt {
        StatementView::Definition { symbol, value } => run_definition(symbol, value, env, fuel),
        StatementView::Event { symbol, args, body } => run_event(
            symbol,
            args,
            body,
            env,
            owner,
            fuel,
        ),
        StatementView::Call { function } => run_call(function, env, owner, fuel),
        StatementView::Native { function, args } => run_native(function, args, env, owner, fuel),
        StatementView::EOI => Compiled { env, result: Ok(Seq::empty()) },
    }
}

/// What statements come to, one after the other: the triggers of each,
/// in the order of the statements. The first statement that fails
/// decides the failure, and nothing after it is looked at.
pub open spec fn run_statements(
    stmts: Seq<StatementView>,
    env: EnvironmentView,
    owner: Option<nat>,
    fuel: nat,
) -> Compiled
    decreases fuel, stmts, 0nat,
{
    if stmts.len() == 0 {
        Compiled { env, result: Ok(Seq::empty()) }
    } else {
        let front = run_statements(stmts.drop_last(), env, owner, fuel);
        match front.result {
            Err(_) => front,
            Ok(triggers) => {
                let last = run_statement(stmts.last(), front.env, owner, fuel);
                Compiled {
                    env: last.env,
                    result: match last.result {
                        Err(e) => Err(e),
                        Ok(more) => Ok(triggers + more),
                    },
                }
            },
        }
    }
}

/// What a block comes to: its statements, in a scope of their own.
pub open spec fn run_block(
    block: Seq<StatementView>,
    env: EnvironmentView,
    owner: Option<nat>,
    fuel: nat,
) -> Compiled {
    let inner = run_statements(block, env.enter_scope(), owner, fuel);
    Compiled { env: inner.env.exit_scope(), result: inner.result }
}

/// What a program comes to: its block, in the environment that a
/// compilation starts with, fired by no reaction.
pub open spec fn compiled(program: Seq<StatementView>) -> Compiled {
    run_block(program, EnvironmentView::fresh(), None, MAX_DEPTH as nat)
}

/// The mathematical content of a result of evaluating a variable.
pub open spec fn value_result(r: Result<Value, CompileError>) -> Result<
    ValueView,
    CompileErrorView,
> {
    match r {
        Ok(v) => Ok(v@),
        Err(e) => Err(e@),
    }
}

/// The mathematical content of a result of evaluating a list of
/// variables.
pub open spec fn values_result(r: Result<Vec<Value>, CompileError>) -> Result<
    Seq<ValueView>,
    CompileErrorView,
> {
    match r {
        Ok(v) => Ok(value_views(v@)),
        Err(e) => Err(e@),
    }
}

/// The mathematical content of a result of compiling.
pub open spec fn triggers_result(r: Result<Vec<Trigger>, CompileError>) -> Result<
    Seq<TriggerView>,
    CompileErrorView,
> {
    match r {
        Ok(v) => Ok(triggers_view(v@)),
        Err(e) => Err(e@),
    }
}

/// A failure among the first `k` variables is the failure of the whole
/// list.
proof fn lemma_arguments_failure(
    args: Seq<VariableView>,
    env: EnvironmentView,
    fuel: nat,
    k: int,
)
    requires
        0 <= k <= args.len(),
        eval_arguments(args.take(k), env, fuel).result is Err,
    ensures
        eval_arguments(args, env, fuel) == eval_arguments(args.take(k), env, fuel),
    decreases args.len() - k,
{
    if k == args.len() {
        assert(args.take(k) =~= args);
    } else {
        assert(args.take(k + 1).drop_last() =~= args.take(k));
        lemma_arguments_failure(args, env, fuel, k + 1);
    }
}

/// A failure among the first `k` statements is the failure of the
/// whole list.
proof fn lemma_statements_failure(
    stmts: Seq<StatementView>,
    env: EnvironmentView,
    owner: Option<nat>,
    fuel: nat,
    k: int,
)
    requires
        0 <= k <= stmts.len(),
        run_statements(stmts.take(k), env, owner, fuel).result is Err,
    ensures
        run_statements(stmts, env, owner, fuel) == run_statements(stmts.take(k), env, owner, fuel),
    decreases stmts.len() - k,
{
    if k == stmts.len() {
        assert(stmts.take(k) =~= stmts);
    } else {
        assert(stmts.take(k + 1).drop_last() =~= stmts.take(k));
        lemma_statements_failure(stmts, env, owner, fuel, k + 1);
    }
}

/// Evaluates a literal.
pub fn evaluate_literal(lit: &ValueLiteral, env: &mut Environment) -> (r: Result<
    Value,
    CompileError,
>)
    ensures
        value_result(r) == eval_literal(lit@, old(env)@).result,
        final(env)@ == eval_literal(lit@, old(env)@).env,
{
    match lit {
        ValueLiteral::Number(n) => Ok(Value::Number(n.clone())),
        ValueLiteral::Bool(b) => Ok(Value::Bool(*b)),
        ValueLiteral::Symbol(s) => match env.resolve(s) {
            Ok(v) => Ok(v),
            Err(e) => match find_action(s) {
                Some(kind) => Ok(Value::Native(kind)),
                None => Err(e),
            },
        },
        ValueLiteral::ID(id) => if id.unspecified {
            match env.allocate(&id.class_name) {
                Ok(number) => Ok(Value::Id { class_name: id.class_name.clone(), number }),
                Err(e) => Err(e),
            }
        } else {
            env.reserve_explicit(&id.class_name, id.number);
            Ok(Value::Id { class_name: id.class_name.clone(), number: id.number })
        },
        ValueLiteral::CmpStmt(c) => Ok(Value::Block(c.clone())),
    }
}

/// Looks up the last definition of `name` among the statements of a
/// block.
pub fn lookup_definition<'a>(body: &'a CompoundStatement, name: &String) -> (r: Option<
    &'a Variable,
>)
    ensures
        match r {
            Some(v) => find_definition(body@, name@) == Some(v@),
            None => find_definition(body@, name@).is_none(),
        },
{
    let ghost views = body@;
    let mut k: usize = body.statements.len();
    assert(views.take(k as int) =~= views);
    while k > 0
        invariant
            k <= body.statements.len(),
            views == body@,
            find_definition(views.take(k as int), name@) == find_definition(views, name@),
        decreases k,
    {
        k = k - 1;
        assert(views.take(k + 1).drop_last() =~= views.take(k as int));
        assert(views.take(k + 1).last() == body.statements[k as int]@);
        match &body.statements[k] {
            Statement::Definition(d) => {
                if d.symbol == *name {
                    return Some(&d.value);
                }
            },
            _ => {},
        }
    }
    None
}

/// Evaluates a variable, entering at most `fuel` blocks one inside the
/// other.
#[verifier::loop_isolation(false)]
pub fn evaluate_variable(var: &Variable, env: &mut Environment, fuel: usize) -> (r: Result<
    Value,
    CompileError,
>)
    ensures
        value_result(r) == eval_variable(var@, old(env)@, fuel as nat).result,
        final(env)@ == eval_variable(var@, old(env)@, fuel as nat).env,
    decreases fuel,
{
    let ghost goal = eval_variable(var@, env@, fuel as nat);
    let mut value = match evaluate_literal(&var.value, env) {
        Err(e) => {
            return Err(e);
        },
        Ok(value) => value,
    };
    let mut i: usize = 0;
    while i < var.symbols.len()
        invariant
            i <= var.symbols.len(),
            eval_chain(var@, i as int, value@, env@, fuel as nat) == goal,
        decreases var.symbols.len() - i,
    {
        let name = &var.symbols[i];
        assert(var@.symbols[i as int] == name@);
        let next = match &value {
            Value::Block(body) => match lookup_definition(body, name) {
                None => {
                    return Err(
                        CompileError::new(ErrorKind::InvalidPropertyAccess, name, env.depth()),
                    );
                },
                Some(definition) => {
                    if fuel == 0 {
                        return Err(CompileError::new(ErrorKind::DepthExceeded, name, env.depth()));
                    }
                    env.enter_scope();
                    let inner = evaluate_variable(definition, env, fuel - 1);
                    env.exit_scope();
                    match inner {
                        Err(e) => {
                            return Err(e);
                        },
                        Ok(v) => v,
                    }
                },
            },
            _ => {
                return Err(CompileError::new(ErrorKind::InvalidPropertyAccess, name, env.depth()));
            },
        };
        value = next;
        i = i + 1;
    }
    Ok(value)
}

/// Evaluates a list of variables, from the first to the last.
#[verifier::loop_isolation(false)]
pub fn evaluate_arguments(args: &Vec<Variable>, env: &mut Environment, fuel: usize) -> (r: Result<
    Vec<Value>,
    CompileError,
>)
    ensures
        values_result(r) == eval_arguments(variables_view(args@), old(env)@, fuel as nat).result,
        final(env)@ == eval_arguments(variables_view(args@), old(env)@, fuel as nat).env,
{
    let ghost views = variables_view(args@);
    let ghost start = env@;
    let mut out: Vec<Value> = Vec::new();
    let mut i: usize = 0;
    assert(value_views(out@) =~= Seq::<ValueView>::empty());
    assert(views.take(0) =~= Seq::<VariableView>::empty());
    while i < args.len()
        invariant
            i <= args.len(),
            eval_arguments(views.take(i as int), start, fuel as nat) == (EvaluatedAll {
                env: env@,
                result: Ok(value_views(out@)),
            }),
        decreases args.len() - i,
    {
        proof {
            assert(views.take(i + 1).drop_last() =~= views.take(i as int));
            assert(views.take(i + 1).last() == args[i as int]@);
        }
        match evaluate_variable(&args[i], env, fuel) {
            Err(e) => {
                proof {
                    lemma_arguments_failure(views, start, fuel as nat, i + 1);
                }
                return Err(e);
            },
            Ok(v) => {
                let ghost before = value_views(out@);
                out.push(v);
                assert(value_views(out@) =~= before.push(v@));
            },
        }
        i = i + 1;
    }
    assert(views.take(i as int) =~= views);
    Ok(out)
}

/// Turns the arguments of the operation `kind` into the values that
/// its trigger holds, or says why they are not its arguments.
pub fn encode_arguments(kind: TriggerKind, values: &Vec<Value>, scope: usize) -> (r: Result<
    Vec<PropertyValue>,
    CompileError,
>)
    ensures
        match r {
            Ok(encoded) => {
                &&& values.len() == parameters(kind).len()
                &&& encoded.len() == parameters(kind).len()
                &&& encode_all(value_views(values@)) == Some(values_view(encoded@))
            },
            Err(e) => {
                &&& values.len() != parameters(kind).len() || encode_all(
                    value_views(values@),
                ).is_none()
                &&& forall|owner: Option<nat>|
                    invoke(kind, value_views(values@), owner, scope as nat) == Err::<
                        TriggerView,
                        CompileErrorView,
                    >(e@)
            },
        },
{
    let keys = kind_parameters(kind);
    if values.len() != keys.len() {
        return Err(CompileError::new(ErrorKind::ArityMismatch, &kind_name(kind), scope));
    }
    let ghost views = value_views(values@);
    let mut out: Vec<PropertyValue> = Vec::new();
    let mut i: usize = 0;
    while i < values.len()
        invariant
            i <= values.len(),
            views == value_views(values@),
            values.len() == parameters(kind).len(),
            out.len() == i,
            forall|j: int| 0 <= j < i ==> (#[trigger] encode(views[j])) == Some(out[j]@),
        decreases values.len() - i,
    {
        let encoded = match &values[i] {
            Value::Number(n) => PropertyValue::Number(n.clone()),
            Value::Bool(b) => PropertyValue::Bool(*b),
            Value::Id { class_name, number } => PropertyValue::Id(*number as u64),
            _ => {
                assert(!(encode(views[i as int]) is Some));
                assert(encode_all(views).is_none());
                return Err(CompileError::new(ErrorKind::InvalidArgument, &kind_name(kind), scope));
            },
        };
        out.push(encoded);
        i = i + 1;
    }
    assert(values_view(out@) =~= encode_all(views)->0);
    Ok(out)
}

/// Makes the trigger of the operation `kind` that holds `encoded`, each
/// value under the key of its place.
fn make_trigger(kind: TriggerKind, encoded: &Vec<PropertyValue>, owner: Option<u64>) -> (t:
    Trigger)
    requires
        encoded.len() == parameters(kind).len(),
    ensures
        t@ == (TriggerView {
            kind,
            properties: properties_of(parameters(kind), values_view(encoded@)),
            owner: owner_view(owner),
        }),
{
    let keys = kind_parameters(kind);
    let mut properties: Vec<Property> = Vec::new();
    let mut i: usize = 0;
    while i < encoded.len()
        invariant
            i <= encoded.len(),
            encoded.len() == keys.len(),
            properties.len() == i,
            forall|j: int|
                0 <= j < i ==> (#[trigger] properties[j]@) == (PropertyView {
                    key: keys[j],
                    value: encoded[j]@,
                }),
        decreases encoded.len() - i,
    {
        properties.push(Property { key: keys[i], value: encoded[i].clone() });
        i = i + 1;
    }
    let t = Trigger { kind, properties, owner };
    assert(t@.properties =~= properties_of(parameters(kind), values_view(encoded@)));
    t
}

/// Compiles a definition.
pub fn compile_definition(d: &Definition, env: &mut Environment, fuel: usize) -> (r: Result<
    Vec<Trigger>,
    CompileError,
>)
    ensures
        triggers_result(r) == run_definition(d.symbol@, d.value@, old(env)@, fuel as nat).result,
        final(env)@ == run_definition(d.symbol@, d.value@, old(env)@, fuel as nat).env,
{
    let value = match evaluate_variable(&d.value, env, fuel) {
        Err(e) => {
            return Err(e);
        },
        Ok(value) => value,
    };
    env.define(d.symbol.clone(), value);
    let out: Vec<Trigger> = Vec::new();
    assert(triggers_view(out@) =~= Seq::<TriggerView>::empty());
    Ok(out)
}

/// Compiles the binding of a block to an event.
pub fn compile_event(e: &Event, env: &mut Environment, owner: Option<u64>, fuel: usize) -> (r:
    Result<Vec<Trigger>, CompileError>)
    ensures
        triggers_result(r) == run_event(
            e.symbol@,
            variables_view(e.args@),
            e.body_view(),
            old(env)@,
            owner_view(owner),
            fuel as nat,
        ).result,
        final(env)@ == run_event(
            e.symbol@,
            variables_view(e.args@),
            e.body_view(),
            old(env)@,
            owner_view(owner),
            fuel as nat,
        ).env,
    decreases fuel, 1nat,
{
    let values = match evaluate_arguments(&e.args, env, fuel) {
        Err(e) => {
            return Err(e);
        },
        Ok(values) => values,
    };
    let scope = env.depth();
    let kind = match find_event(&e.symbol) {
        None => {
            return Err(CompileError::new(ErrorKind::UnknownNativeOperation, &e.symbol, scope));
        },
        Some(kind) => kind,
    };
    let pattern = match encode_arguments(kind, &values, scope) {
        Err(e) => {
            return Err(e);
        },
        Ok(pattern) => pattern,
    };
    if fuel == 0 {
        return Err(CompileError::new(ErrorKind::DepthExceeded, &e.symbol, scope));
    }
    let place = env.reaction_count();
    let mut wiring = make_trigger(kind, &pattern, owner);
    let ghost bare = wiring@;
    wiring.properties.push(Property { key: TARGET, value: PropertyValue::Id(place as u64) });
    assert(wiring@.properties =~= wiring_of(bare, place as nat).properties);
    env.register(Reaction { symbol: e.symbol.clone(), pattern });
    env.enter_scope();
    let inner = compile_statements(&e.body().statements, env, Some(place as u64), fuel - 1);
    env.exit_scope();
    match inner {
        Err(e) => Err(e),
        Ok(mut triggers) => {
            let ghost body = triggers_view(triggers@);
            triggers.insert(0, wiring);
            assert(triggers_view(triggers@) =~= seq![wiring@] + body);
            Ok(triggers)
        },
    }
}

/// Compiles a call.
pub fn compile_call(c: &Call, env: &mut Environment, owner: Option<u64>, fuel: usize) -> (r: Result<
    Vec<Trigger>,
    CompileError,
>)
    ensures
        triggers_result(r) == run_call(
            c.function@,
            old(env)@,
            owner_view(owner),
            fuel as nat,
        ).result,
        final(env)@ == run_call(c.function@, old(env)@, owner_view(owner), fuel as nat).env,
    decreases fuel, 1nat,
{
    let target = match evaluate_variable(&c.function, env, fuel) {
        Err(e) => {
            return Err(e);
        },
        Ok(target) => target,
    };
    let scope = env.depth();
    match target {
        Value::Block(body) => {
            if fuel == 0 {
                return Err(
                    CompileError::new(
                        ErrorKind::DepthExceeded,
                        &name_of_variable(&c.function),
                        scope,
                    ),
                );
            }
            env.enter_scope();
            let inner = compile_statements(&body.statements, env, owner, fuel - 1);
            env.exit_scope();
            inner
        },
        _ => Err(CompileError::new(ErrorKind::NotCallable, &name_of_variable(&c.function), scope)),
    }
}

/// Compiles the invocation of a built-in operation.
pub fn compile_native(n: &Native, env: &mut Environment, owner: Option<u64>, fuel: usize) -> (r:
    Result<Vec<Trigger>, CompileError>)
    ensures
        triggers_result(r) == run_native(
            n.function@,
            variables_view(n.args@),
            old(env)@,
            owner_view(owner),
            fuel as nat,
        ).result,
        final(env)@ == run_native(
            n.function@,
            variables_view(n.args@),
            old(env)@,
            owner_view(owner),
            fuel as nat,
        ).env,
{
    let callee = match evaluate_variable(&n.function, env, fuel) {
        Err(e) => {
            if plain_name(&n.function) {
                return Err(
                    CompileError::new(
                        ErrorKind::UnknownNativeOperation,
                        &name_of_variable(&n.function),
                        env.depth(),
                    ),
                );
            }
            return Err(e);
        },
        Ok(callee) => callee,
    };
    let values = match evaluate_arguments(&n.args, env, fuel) {
        Err(e) => {
            return Err(e);
        },
        Ok(values) => values,
    };
    let scope = env.depth();
    let kind = match callee {
        Value::Native(kind) => kind,
        _ => {
            return Err(
                CompileError::new(
                    ErrorKind::UnknownNativeOperation,
                    &name_of_variable(&n.function),
                    scope,
                ),
            );
        },
    };
    if kind_is_event(kind) {
        return Err(
            CompileError::new(
                ErrorKind::UnknownNativeOperation,
                &name_of_variable(&n.function),
                scope,
            ),
        );
    }
    let encoded = match encode_arguments(kind, &values, scope) {
        Err(e) => {
            return Err(e);
        },
        Ok(encoded) => encoded,
    };
    let mut out: Vec<Trigger> = Vec::new();
    let trigger = make_trigger(kind, &encoded, owner);
    out.push(trigger);
    assert(triggers_view(out@) =~= seq![trigger@]);
    Ok(out)
}

/// Compiles one statement, entering at most `fuel` blocks one inside
/// the other; the triggers that it makes are fired by `owner`.
pub fn compile_statement(
    stmt: &Statement,
    env: &mut Environment,
    owner: Option<u64>,
    fuel: usize,
) -> (r: Result<Vec<Trigger>, CompileError>)
    ensures
        triggers_result(r) == run_statement(
            stmt@,
            old(env)@,
            owner_view(owner),
            fuel as nat,
        ).result,
        final(env)@ == run_statement(stmt@, old(env)@, owner_view(owner), fuel as nat).env,
    decreases fuel, 2nat,
{
    match stmt {
        Statement::Definition(d) => compile_definition(d, env, fuel),
        Statement::Event(e) => compile_event(e, env, owner, fuel),
        Statement::Call(c) => compile_call(c, env, owner, fuel),
        Statement::Native(n) => compile_native(n, env, owner, fuel),
        Statement::EOI => {
            let out: Vec<Trigger> = Vec::new();
            assert(triggers_view(out@) =~= Seq::<TriggerView>::empty());
            Ok(out)
        },
    }
}

/// The name that a variable is known by.
pub fn name_of_variable(var: &Variable) -> (name: String)
    ensures
        name@ == variable_name(var@),
{
    match &var.value {
        ValueLiteral::Symbol(s) => s.clone(),
        _ => String::new(),
    }
}

/// Whether a variable is a name and nothing else.
pub fn plain_name(var: &Variable) -> (r: bool)
    ensures
        r == is_plain_name(var@),
{
    match &var.value {
        ValueLiteral::Symbol(_) => var.symbols.len() == 0,
        _ => false,
    }
}

/// Compiles statements one after the other.
#[verifier::loop_isolation(false)]
pub fn compile_statements(
    stmts: &Vec<Statement>,
    env: &mut Environment,
    owner: Option<u64>,
    fuel: usize,
) -> (r: Result<Vec<Trigger>, CompileError>)
    ensures
        triggers_result(r) == run_statements(
            statements_view(stmts@),
            old(env)@,
            owner_view(owner),
            fuel as nat,
        ).result,
        final(env)@ == run_statements(
            statements_view(stmts@),
            old(env)@,
            owner_view(owner),
            fuel as nat,
        ).env,
    decreases fuel, 3nat,
{
    let ghost views = statements_view(stmts@);
    let ghost start = env@;
    let mut out: Vec<Trigger> = Vec::new();
    let mut i: usize = 0;
    assert(triggers_view(out@) =~= Seq::<TriggerView>::empty());
    assert(views.take(0) =~= Seq::<StatementView>::empty());
    while i < stmts.len()
        invariant
            i <= stmts.len(),
            run_statements(views.take(i as int), start, owner_view(owner), fuel as nat)
                == (Compiled { env: env@, result: Ok(triggers_view(out@)) }),
        decreases stmts.len() - i,
    {
        proof {
            assert(views.take(i + 1).drop_last() =~= views.take(i as int));
            assert(views.take(i + 1).last() == stmts[i as int]@);
        }
        match compile_statement(&stmts[i], env, owner, fuel) {
            Err(e) => {
                proof {
                    lemma_statements_failure(views, start, owner_view(owner), fuel as nat, i + 1);
                }
                return Err(e);
            },
            Ok(mut more) => {
                let ghost before = triggers_view(out@);
                let ghost added = triggers_view(more@);
                out.append(&mut more);
                assert(triggers_view(out@) =~= before + added);
            },
        }
        i = i + 1;
    }
    assert(views.take(i as int) =~= views);
    Ok(out)
}

/// Compiles a block in `env`: its statements, in a scope of their own.
/// The scope is left again whether the block compiles or fails, so the
/// scopes are after the block what they were before it.
pub fn compile_block(
    block: &CompoundStatement,
    env: &mut Environment,
    owner: Option<u64>,
    fuel: usize,
) -> (r: Result<Vec<Trigger>, CompileError>)
    ensures
        triggers_result(r) == run_block(block@, old(env)@, owner_view(owner), fuel as nat).result,
        final(env)@ == run_block(block@, old(env)@, owner_view(owner), fuel as nat).env,
        old(env)@.scopes.len() >= 1 ==> final(env)@.scopes == old(env)@.scopes,
{
    proof {
        if env@.scopes.len() >= 1 {
            lemma_block_restores_scopes(block@, env@, owner_view(owner), fuel as nat);
        }
    }
    env.enter_scope();
    let r = compile_statements(&block.statements, env, owner, fuel);
    env.exit_scope();
    r
}

/// Compiles a program: the triggers that it makes, in the order in
/// which it makes them, or the failure that stopped it.
pub fn compile(program: &CompoundStatement) -> (r: Result<Vec<Trigger>, CompileError>)
    ensures
        triggers_result(r) == compiled(program@).result,
{
    let mut env = Environment::new();
    compile_block(program, &mut env, None, MAX_DEPTH)
}

} // verus!

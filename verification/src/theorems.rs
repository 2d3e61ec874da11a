//! What holds of every compilation.

use vstd::prelude::*;
use crate::ast::{IdView, StatementView, ValueLiteralView, VariableView};
use crate::compiler::{
    compiled, encode_all, eval_arguments, eval_chain, eval_literal, eval_variable,
    find_definition, invoke, operation_of, run_block, run_call, run_event, run_statement,
    run_statements, triggers_result, wiring_of, Compiled, MAX_DEPTH,
};
use crate::environment::{
    first_free, lemma_first_free_is_smallest, lemma_fresh_allocates_one, lemma_reserve_twice,
    resolve_in, EnvironmentView, ReactionView, ValueView,
};
use crate::error::CompileError;
use crate::levelstring::{fields_text, find_property, level_text, trigger_text};
use crate::native::{
    event_named, is_event, key_order, parameters, PropertyView, Trigger, TriggerKind,
    TriggerView, TARGET,
};

verus! {

/// What statements come to after what came before them: nothing, where
/// that failed; else their triggers after the triggers before.
pub open spec fn run_after(
    before: Compiled,
    stmts: Seq<StatementView>,
    owner: Option<nat>,
    fuel: nat,
) -> Compiled {
    match before.result {
        Err(_) => before,
        Ok(triggers) => {
            let rest = run_statements(stmts, before.env, owner, fuel);
            Compiled {
                env: rest.env,
                result: match rest.result {
                    Err(e) => Err(e),
                    Ok(more) => Ok(triggers + more),
                },
            }
        },
    }
}

/// The triggers of a program come in the order of its statements: the
/// triggers of the statements `front` followed by `back` are those of
/// `front`, then those of `back` in the environment that `front`
/// leaves.
pub proof fn lemma_statements_in_order(
    front: Seq<StatementView>,
    back: Seq<StatementView>,
    env: EnvironmentView,
    owner: Option<nat>,
    fuel: nat,
)
    ensures
        run_statements(front + back, env, owner, fuel) == run_after(
            run_statements(front, env, owner, fuel),
            back,
            owner,
            fuel,
        ),
    decreases back.len(),
{
    let first = run_statements(front, env, owner, fuel);
    if back.len() == 0 {
        assert(front + back =~= front);
        if first.result is Ok {
            assert(first.result->Ok_0 + Seq::<TriggerView>::empty() =~= first.result->Ok_0);
        }
    } else {
        assert((front + back).drop_last() =~= front + back.drop_last());
        assert((front + back).last() == back.last());
        lemma_statements_in_order(front, back.drop_last(), env, owner, fuel);
        if first.result is Ok {
            let middle = run_statements(back.drop_last(), first.env, owner, fuel);
            if middle.result is Ok {
                let last = run_statement(back.last(), middle.env, owner, fuel);
                if last.result is Ok {
                    let a = first.result->Ok_0;
                    let b = middle.result->Ok_0;
                    let c = last.result->Ok_0;
                    assert((a + b) + c =~= a + (b + c));
                }
            }
        }
    }
}

/// Where the triggers of a statement stand among those of its program:
/// after all the triggers of the statements before it, in the order in
/// which the statement made them, and before all those of the
/// statements after it.
pub proof fn lemma_trigger_position(
    front: Seq<StatementView>,
    stmt: StatementView,
    back: Seq<StatementView>,
    env: EnvironmentView,
    owner: Option<nat>,
    fuel: nat,
)
    requires
        run_statements(front + seq![stmt] + back, env, owner, fuel).result is Ok,
    ensures
        run_statements(front, env, owner, fuel).result is Ok,
        run_statement(stmt, run_statements(front, env, owner, fuel).env, owner, fuel).result is Ok,
        ({
            let all = run_statements(front + seq![stmt] + back, env, owner, fuel).result->Ok_0;
            let before = run_statements(front, env, owner, fuel);
            let own = run_statement(stmt, before.env, owner, fuel).result->Ok_0;
            &&& before.result->Ok_0.len() + own.len() <= all.len()
            &&& forall|k: int|
                0 <= k < before.result->Ok_0.len() ==> all[k] == before.result->Ok_0[k]
            &&& forall|k: int|
                0 <= k < own.len() ==> all[before.result->Ok_0.len() + k] == own[k]
        }),
{
    lemma_statements_in_order(front + seq![stmt], back, env, owner, fuel);
    lemma_statements_in_order(front, seq![stmt], env, owner, fuel);
    let before = run_statements(front, env, owner, fuel);
    lemma_single_statement(stmt, before.env, owner, fuel);
}

/// One statement alone comes to what the statement comes to.
pub proof fn lemma_single_statement(
    stmt: StatementView,
    env: EnvironmentView,
    owner: Option<nat>,
    fuel: nat,
)
    ensures
        run_statements(seq![stmt], env, owner, fuel) == run_statement(stmt, env, owner, fuel),
{
    let stmts = seq![stmt];
    assert(stmts.drop_last() =~= Seq::<StatementView>::empty());
    assert(stmts.last() == stmt);
    let front = run_statements(stmts.drop_last(), env, owner, fuel);
    assert(front == Compiled { env, result: Ok(Seq::empty()) });
    let last = run_statement(stmt, env, owner, fuel);
    if last.result is Ok {
        assert(Seq::<TriggerView>::empty() + last.result->Ok_0 =~= last.result->Ok_0);
    }
}

/// A built-in operation makes exactly one trigger, a definition and
/// the end of input make none.
pub proof fn lemma_triggers_per_statement(
    stmt: StatementView,
    env: EnvironmentView,
    owner: Option<nat>,
    fuel: nat,
)
    requires
        run_statement(stmt, env, owner, fuel).result is Ok,
    ensures
        stmt is Native ==> run_statement(stmt, env, owner, fuel).result->Ok_0.len() == 1,
        stmt is Definition ==> run_statement(stmt, env, owner, fuel).result->Ok_0.len() == 0,
        stmt is EOI ==> run_statement(stmt, env, owner, fuel) == (Compiled {
            env,
            result: Ok(Seq::empty()),
        }),
{
}

/// The end of input changes nothing: a program with it, wherever it
/// stands, comes to what the program without it comes to.
pub proof fn lemma_end_of_input_is_ignored(
    front: Seq<StatementView>,
    back: Seq<StatementView>,
    env: EnvironmentView,
    owner: Option<nat>,
    fuel: nat,
)
    ensures
        run_statements(front + seq![StatementView::EOI] + back, env, owner, fuel)
            == run_statements(front + back, env, owner, fuel),
{
    let eoi = seq![StatementView::EOI];
    lemma_statements_in_order(front + eoi, back, env, owner, fuel);
    lemma_statements_in_order(front, eoi, env, owner, fuel);
    lemma_statements_in_order(front, back, env, owner, fuel);
    let first = run_statements(front, env, owner, fuel);
    if first.result is Ok {
        lemma_single_statement(StatementView::EOI, first.env, owner, fuel);
        assert(first.result->Ok_0 + Seq::<TriggerView>::empty() =~= first.result->Ok_0);
    }
}

/// An identifier with a number never fails, however often the same
/// number comes: the second time leaves the environment as the first
/// left it, and gives the same value.
pub proof fn lemma_explicit_identifier_twice(id: IdView, env: EnvironmentView)
    requires
        !id.unspecified,
    ensures
        eval_literal(ValueLiteralView::ID(id), env).result is Ok,
        eval_literal(ValueLiteralView::ID(id), eval_literal(ValueLiteralView::ID(id), env).env)
            == eval_literal(ValueLiteralView::ID(id), env),
{
    lemma_reserve_twice(env, id.class_name, id.number as nat);
}

/// An identifier with a number leaves the numbers that a namespace
/// gives out where they were, unless it is the very number that was
/// next: a number that was given out before is not given out again.
pub proof fn lemma_explicit_identifier_keeps_the_count(id: IdView, env: EnvironmentView)
    requires
        !id.unspecified,
    ensures
        eval_literal(ValueLiteralView::ID(id), env).env.next_free(id.class_name) >= env.next_free(
            id.class_name,
        ),
        id.number as nat != env.next_free(id.class_name) ==> eval_literal(
            ValueLiteralView::ID(id),
            env,
        ).env.next_free(id.class_name) == env.next_free(id.class_name),
{
    let before = env.taken_in(id.class_name);
    let after = eval_literal(ValueLiteralView::ID(id), env).env.taken_in(id.class_name);
    assert(after =~= before.insert(id.number as nat));
    lemma_first_free_is_smallest(before, 1);
    lemma_first_free_is_smallest(after, 1);
    let n = env.next_free(id.class_name);
    let m = first_free(after, 1);
    if m < n {
        assert(before.contains(m));
        assert(after.contains(m));
    }
    if id.number as nat != n && n < m {
        assert(after.contains(n));
    }
}

/// Compiling is a function of the program: two compilations of
/// programs that are the same tree give the same triggers, or the same
/// failure.
pub proof fn lemma_compile_is_repeatable(
    first: Seq<StatementView>,
    second: Seq<StatementView>,
    r1: Result<Vec<Trigger>, CompileError>,
    r2: Result<Vec<Trigger>, CompileError>,
)
    requires
        first == second,
        triggers_result(r1) == compiled(first).result,
        triggers_result(r2) == compiled(second).result,
    ensures
        triggers_result(r1) == triggers_result(r2),
        run_block(first, EnvironmentView::fresh(), None, MAX_DEPTH as nat) == run_block(
            second,
            EnvironmentView::fresh(),
            None,
            MAX_DEPTH as nat,
        ),
{
}

/// Whether a literal holds no identifier, however deep inside it.
pub open spec fn literal_id_free(lit: ValueLiteralView) -> bool
    decreases lit,
{
    match lit {
        ValueLiteralView::ID(_) => false,
        ValueLiteralView::CmpStmt(body) => statements_id_free(body),
        _ => true,
    }
}

/// Whether a variable holds no identifier.
pub open spec fn variable_id_free(var: VariableView) -> bool
    decreases var,
{
    literal_id_free(var.value)
}

/// Whether no variable of a list holds an identifier.
pub open spec fn variables_id_free(vars: Seq<VariableView>) -> bool
    decreases vars,
{
    forall|i: int| 0 <= i < vars.len() ==> variable_id_free(#[trigger] vars[i])
}

/// Whether a statement holds no identifier.
pub open spec fn statement_id_free(stmt: StatementView) -> bool
    decreases stmt,
{
    match stmt {
        StatementView::Definition { symbol, value } => variable_id_free(value),
        StatementView::Event { symbol, args, body } => variables_id_free(args)
            && statements_id_free(body),
        StatementView::Call { function } => variable_id_free(function),
        StatementView::Native { function, args } => variable_id_free(function)
            && variables_id_free(args),
        StatementView::EOI => true,
    }
}

/// Whether no statement of a list holds an identifier.
pub open spec fn statements_id_free(stmts: Seq<StatementView>) -> bool
    decreases stmts,
{
    forall|i: int| 0 <= i < stmts.len() ==> statement_id_free(#[trigger] stmts[i])
}

/// Whether a value holds no identifier literal: only a block can.
pub open spec fn value_id_free(value: ValueView) -> bool {
    match value {
        ValueView::Block(body) => statements_id_free(body),
        _ => true,
    }
}

/// Whether no value that is bound in `scopes` holds an identifier
/// literal.
pub open spec fn scopes_id_free(scopes: Seq<Map<Seq<char>, ValueView>>) -> bool {
    forall|i: int, name: Seq<char>|
        0 <= i < scopes.len() && (#[trigger] scopes[i].dom().contains(name)) ==> value_id_free(
            scopes[i][name],
        )
}

/// What a name resolves to holds no identifier, where no bound value
/// holds one.
proof fn lemma_resolve_id_free(scopes: Seq<Map<Seq<char>, ValueView>>, name: Seq<char>)
    requires
        scopes_id_free(scopes),
        resolve_in(scopes, name) is Some,
    ensures
        value_id_free(resolve_in(scopes, name)->0),
    decreases scopes.len(),
{
    if scopes.len() > 0 {
        if scopes.last().dom().contains(name) {
            assert(scopes[scopes.len() - 1].dom().contains(name));
        } else {
            let rest = scopes.drop_last();
            assert forall|i: int, n: Seq<char>|
                0 <= i < rest.len() && (#[trigger] rest[i].dom().contains(
                    n,
                )) implies value_id_free(rest[i][n]) by {
                assert(scopes[i].dom().contains(n));
            }
            lemma_resolve_id_free(rest, name);
        }
    }
}

/// What a block without identifiers defines a name as holds none.
proof fn lemma_definition_id_free(body: Seq<StatementView>, name: Seq<char>)
    requires
        statements_id_free(body),
        find_definition(body, name) is Some,
    ensures
        variable_id_free(find_definition(body, name)->0),
    decreases body.len(),
{
    if body.len() > 0 {
        let last = body[body.len() - 1];
        assert(statement_id_free(last));
        let rest = body.drop_last();
        assert forall|i: int| 0 <= i < rest.len() implies statement_id_free(
            #[trigger] rest[i],
        ) by {
            assert(statement_id_free(body[i]));
        }
        match last {
            StatementView::Definition { symbol, value } => {
                if symbol != name {
                    lemma_definition_id_free(rest, name);
                }
            },
            _ => {
                lemma_definition_id_free(rest, name);
            },
        }
    }
}

/// Opening a scope and closing one keep the bound values free of
/// identifiers.
proof fn lemma_scopes_stay_id_free(env: EnvironmentView)
    requires
        scopes_id_free(env.scopes),
    ensures
        scopes_id_free(env.enter_scope().scopes),
        scopes_id_free(env.exit_scope().scopes),
{
    let entered = env.enter_scope().scopes;
    assert forall|i: int, n: Seq<char>|
        0 <= i < entered.len() && (#[trigger] entered[i].dom().contains(n)) implies value_id_free(
        entered[i][n],
    ) by {
        if i < env.scopes.len() {
            assert(env.scopes[i].dom().contains(n));
        }
    }
    let left = env.exit_scope().scopes;
    assert forall|i: int, n: Seq<char>|
        0 <= i < left.len() && (#[trigger] left[i].dom().contains(n)) implies value_id_free(
        left[i][n],
    ) by {
        assert(env.scopes[i].dom().contains(n));
    }
}

/// Binding a value that holds no identifier keeps the bound values
/// free of identifiers.
proof fn lemma_define_stays_id_free(env: EnvironmentView, name: Seq<char>, value: ValueView)
    requires
        scopes_id_free(env.scopes),
        value_id_free(value),
    ensures
        scopes_id_free(env.define(name, value).scopes),
{
    let defined = env.define(name, value).scopes;
    assert forall|i: int, n: Seq<char>|
        0 <= i < defined.len() && (#[trigger] defined[i].dom().contains(n)) implies value_id_free(
        defined[i][n],
    ) by {
        if env.scopes.len() > 0 && !(i == env.scopes.len() - 1 && n == name) {
            assert(env.scopes[i].dom().contains(n));
        }
    }
}

/// Evaluating a variable that holds no identifier, where no bound
/// value holds one, takes no number and binds no value that holds one.
pub proof fn lemma_variable_takes_no_number(var: VariableView, env: EnvironmentView, fuel: nat)
    requires
        variable_id_free(var),
        scopes_id_free(env.scopes),
    ensures
        eval_variable(var, env, fuel).env.taken == env.taken,
        scopes_id_free(eval_variable(var, env, fuel).env.scopes),
        eval_variable(var, env, fuel).result is Ok ==> value_id_free(
            eval_variable(var, env, fuel).result->Ok_0,
        ),
    decreases fuel, var, var.symbols.len() + 1,
{
    let base = eval_literal(var.value, env);
    if base.result is Ok {
        match var.value {
            ValueLiteralView::Symbol(s) => {
                if env.resolve(s) is Some {
                    lemma_resolve_id_free(env.scopes, s);
                }
            },
            _ => {},
        }
        lemma_chain_takes_no_number(var, 0, base.result->Ok_0, base.env, fuel);
    }
}

/// The same of the property chain of a variable.
pub proof fn lemma_chain_takes_no_number(
    var: VariableView,
    i: int,
    value: ValueView,
    env: EnvironmentView,
    fuel: nat,
)
    requires
        value_id_free(value),
        scopes_id_free(env.scopes),
    ensures
        eval_chain(var, i, value, env, fuel).env.taken == env.taken,
        scopes_id_free(eval_chain(var, i, value, env, fuel).env.scopes),
        eval_chain(var, i, value, env, fuel).result is Ok ==> value_id_free(
            eval_chain(var, i, value, env, fuel).result->Ok_0,
        ),
    decreases fuel, var, var.symbols.len() - i,
{
    if 0 <= i < var.symbols.len() {
        let name = var.symbols[i];
        match value {
            ValueView::Block(body) => {
                if find_definition(body, name) is Some && fuel > 0 {
                    let definition = find_definition(body, name)->0;
                    lemma_definition_id_free(body, name);
                    lemma_scopes_stay_id_free(env);
                    let inner = eval_variable(definition, env.enter_scope(), (fuel - 1) as nat);
                    lemma_variable_takes_no_number(
                        definition,
                        env.enter_scope(),
                        (fuel - 1) as nat,
                    );
                    lemma_scopes_stay_id_free(inner.env);
                    if inner.result is Ok {
                        lemma_chain_takes_no_number(
                            var,
                            i + 1,
                            inner.result->Ok_0,
                            inner.env.exit_scope(),
                            fuel,
                        );
                    }
                }
            },
            _ => {},
        }
    }
}

/// The same of a list of variables.
pub proof fn lemma_arguments_take_no_number(
    args: Seq<VariableView>,
    env: EnvironmentView,
    fuel: nat,
)
    requires
        variables_id_free(args),
        scopes_id_free(env.scopes),
    ensures
        eval_arguments(args, env, fuel).env.taken == env.taken,
        eval_arguments(args, env, fuel).env.reactions == env.reactions,
        scopes_id_free(eval_arguments(args, env, fuel).env.scopes),
    decreases args.len(),
{
    if args.len() > 0 {
        let rest = args.drop_last();
        assert forall|i: int| 0 <= i < rest.len() implies variable_id_free(#[trigger] rest[i]) by {
            assert(variable_id_free(args[i]));
        }
        lemma_arguments_take_no_number(rest, env, fuel);
        let front = eval_arguments(rest, env, fuel);
        if front.result is Ok {
            assert(variable_id_free(args[args.len() - 1]));
            lemma_variable_takes_no_number(args.last(), front.env, fuel);
            lemma_variable_keeps_reactions(args.last(), front.env, fuel);
        }
    }
}

/// Evaluating a variable registers no reaction.
pub proof fn lemma_variable_keeps_reactions(var: VariableView, env: EnvironmentView, fuel: nat)
    ensures
        eval_variable(var, env, fuel).env.reactions == env.reactions,
    decreases fuel, var, var.symbols.len() + 1,
{
    let base = eval_literal(var.value, env);
    if base.result is Ok {
        lemma_chain_keeps_reactions(var, 0, base.result->Ok_0, base.env, fuel);
    }
}

/// The same of the property chain of a variable.
pub proof fn lemma_chain_keeps_reactions(
    var: VariableView,
    i: int,
    value: ValueView,
    env: EnvironmentView,
    fuel: nat,
)
    ensures
        eval_chain(var, i, value, env, fuel).env.reactions == env.reactions,
    decreases fuel, var, var.symbols.len() - i,
{
    if 0 <= i < var.symbols.len() {
        let name = var.symbols[i];
        match value {
            ValueView::Block(body) => {
                if find_definition(body, name) is Some && fuel > 0 {
                    let definition = find_definition(body, name)->0;
                    let inner = eval_variable(definition, env.enter_scope(), (fuel - 1) as nat);
                    lemma_variable_keeps_reactions(
                        definition,
                        env.enter_scope(),
                        (fuel - 1) as nat,
                    );
                    if inner.result is Ok {
                        lemma_chain_keeps_reactions(
                            var,
                            i + 1,
                            inner.result->Ok_0,
                            inner.env.exit_scope(),
                            fuel,
                        );
                    }
                }
            },
            _ => {},
        }
    }
}

/// Compiling a statement that holds no identifier, where no bound
/// value holds one, takes no number and binds no value that holds one.
pub proof fn lemma_statement_takes_no_number(
    stmt: StatementView,
    env: EnvironmentView,
    owner: Option<nat>,
    fuel: nat,
)
    requires
        statement_id_free(stmt),
        scopes_id_free(env.scopes),
    ensures
        run_statement(stmt, env, owner, fuel).env.taken == env.taken,
        scopes_id_free(run_statement(stmt, env, owner, fuel).env.scopes),
    decreases fuel, stmt, 0nat,
{
    match stmt {
        StatementView::Definition { symbol, value } => {
            lemma_variable_takes_no_number(value, env, fuel);
            let v = eval_variable(value, env, fuel);
            if v.result is Ok {
                lemma_define_stays_id_free(v.env, symbol, v.result->Ok_0);
            }
        },
        StatementView::Event { symbol, args, body } => {
            lemma_arguments_take_no_number(args, env, fuel);
            let a = eval_arguments(args, env, fuel);
            let out = run_event(symbol, args, body, env, owner, fuel);
            if out.env != a.env {
                let place = a.env.reactions.len();
                let pattern = encode_all(a.result->Ok_0)->0;
                let registered = a.env.register(
                    ReactionView { symbol, pattern },
                );
                lemma_scopes_stay_id_free(registered);
                lemma_statements_take_no_number(
                    body,
                    registered.enter_scope(),
                    Some(place),
                    (fuel - 1) as nat,
                );
                let inner = run_statements(
                    body,
                    registered.enter_scope(),
                    Some(place),
                    (fuel - 1) as nat,
                );
                lemma_scopes_stay_id_free(inner.env);
            }
        },
        StatementView::Call { function } => {
            lemma_variable_takes_no_number(function, env, fuel);
            let f = eval_variable(function, env, fuel);
            let out = run_call(function, env, owner, fuel);
            if out.env != f.env {
                let body = f.result->Ok_0->Block_0;
                lemma_scopes_stay_id_free(f.env);
                lemma_statements_take_no_number(
                    body,
                    f.env.enter_scope(),
                    owner,
                    (fuel - 1) as nat,
                );
                let inner = run_statements(body, f.env.enter_scope(), owner, (fuel - 1) as nat);
                lemma_scopes_stay_id_free(inner.env);
            }
        },
        StatementView::Native { function, args } => {
            lemma_variable_takes_no_number(function, env, fuel);
            let f = eval_variable(function, env, fuel);
            if f.result is Ok {
                lemma_arguments_take_no_number(args, f.env, fuel);
            }
        },
        StatementView::EOI => {},
    }
}

/// The same of statements one after the other.
pub proof fn lemma_statements_take_no_number(
    stmts: Seq<StatementView>,
    env: EnvironmentView,
    owner: Option<nat>,
    fuel: nat,
)
    requires
        statements_id_free(stmts),
        scopes_id_free(env.scopes),
    ensures
        run_statements(stmts, env, owner, fuel).env.taken == env.taken,
        scopes_id_free(run_statements(stmts, env, owner, fuel).env.scopes),
    decreases fuel, stmts, 0nat,
{
    if stmts.len() > 0 {
        let rest = stmts.drop_last();
        assert forall|i: int| 0 <= i < rest.len() implies statement_id_free(
            #[trigger] rest[i],
        ) by {
            assert(statement_id_free(stmts[i]));
        }
        lemma_statements_take_no_number(rest, env, owner, fuel);
        let front = run_statements(rest, env, owner, fuel);
        if front.result is Ok {
            assert(statement_id_free(stmts[stmts.len() - 1]));
            lemma_statement_takes_no_number(stmts.last(), front.env, owner, fuel);
        }
    }
}

/// A program without identifiers takes no number: after it, no number
/// of any namespace is taken, whether it compiles or fails.
pub proof fn lemma_program_without_identifiers(program: Seq<StatementView>)
    requires
        statements_id_free(program),
    ensures
        compiled(program).env.taken == Map::<Seq<char>, Set<nat>>::empty(),
        forall|class_name: Seq<char>| #[trigger]
            compiled(program).env.allocated(class_name) == Some(1u16),
{
    let fresh = EnvironmentView::fresh();
    assert(scopes_id_free(fresh.scopes));
    lemma_scopes_stay_id_free(fresh);
    lemma_statements_take_no_number(program, fresh.enter_scope(), None, MAX_DEPTH as nat);
    assert forall|class_name: Seq<char>| #[trigger]
        compiled(program).env.allocated(class_name) == Some(1u16) by {
        lemma_fresh_allocates_one(class_name);
        assert(compiled(program).env.taken_in(class_name) == fresh.taken_in(class_name));
    }
}

/// Evaluating a variable leaves the scopes exactly as they were.
pub proof fn lemma_variable_keeps_scopes(var: VariableView, env: EnvironmentView, fuel: nat)
    requires
        env.scopes.len() >= 1,
    ensures
        eval_variable(var, env, fuel).env.scopes == env.scopes,
    decreases fuel, var, var.symbols.len() + 1,
{
    let base = eval_literal(var.value, env);
    if base.result is Ok {
        lemma_chain_keeps_scopes(var, 0, base.result->Ok_0, base.env, fuel);
    }
}

/// The same of the property chain of a variable.
pub proof fn lemma_chain_keeps_scopes(
    var: VariableView,
    i: int,
    value: ValueView,
    env: EnvironmentView,
    fuel: nat,
)
    requires
        env.scopes.len() >= 1,
    ensures
        eval_chain(var, i, value, env, fuel).env.scopes == env.scopes,
    decreases fuel, var, var.symbols.len() - i,
{
    if 0 <= i < var.symbols.len() {
        let name = var.symbols[i];
        match value {
            ValueView::Block(body) => {
                if find_definition(body, name) is Some && fuel > 0 {
                    let definition = find_definition(body, name)->0;
                    let inner = eval_variable(definition, env.enter_scope(), (fuel - 1) as nat);
                    lemma_variable_keeps_scopes(definition, env.enter_scope(), (fuel - 1) as nat);
                    assert(inner.env.exit_scope().scopes =~= env.scopes);
                    if inner.result is Ok {
                        lemma_chain_keeps_scopes(
                            var,
                            i + 1,
                            inner.result->Ok_0,
                            inner.env.exit_scope(),
                            fuel,
                        );
                    }
                }
            },
            _ => {},
        }
    }
}

/// The same of a list of variables.
pub proof fn lemma_arguments_keep_scopes(args: Seq<VariableView>, env: EnvironmentView, fuel: nat)
    requires
        env.scopes.len() >= 1,
    ensures
        eval_arguments(args, env, fuel).env.scopes == env.scopes,
    decreases args.len(),
{
    if args.len() > 0 {
        lemma_arguments_keep_scopes(args.drop_last(), env, fuel);
        let front = eval_arguments(args.drop_last(), env, fuel);
        if front.result is Ok {
            lemma_variable_keeps_scopes(args.last(), front.env, fuel);
        }
    }
}

/// A statement changes the innermost scope at most: as many scopes are
/// open after it as before, and all but the innermost are as they
/// were. This holds of a statement that fails, too.
pub proof fn lemma_statement_keeps_outer_scopes(
    stmt: StatementView,
    env: EnvironmentView,
    owner: Option<nat>,
    fuel: nat,
)
    requires
        env.scopes.len() >= 1,
    ensures
        run_statement(stmt, env, owner, fuel).env.scopes.len() == env.scopes.len(),
        run_statement(stmt, env, owner, fuel).env.scopes.drop_last() == env.scopes.drop_last(),
        !(stmt is Definition) ==> run_statement(stmt, env, owner, fuel).env.scopes == env.scopes,
    decreases fuel, stmt, 0nat,
{
    match stmt {
        StatementView::Definition { symbol, value } => {
            lemma_variable_keeps_scopes(value, env, fuel);
            let v = eval_variable(value, env, fuel);
            if v.result is Ok {
                assert(v.env.define(symbol, v.result->Ok_0).scopes.drop_last()
                    =~= env.scopes.drop_last());
            }
        },
        StatementView::Event { symbol, args, body } => {
            lemma_arguments_keep_scopes(args, env, fuel);
            let a = eval_arguments(args, env, fuel);
            let out = run_event(symbol, args, body, env, owner, fuel);
            if out.env != a.env {
                let place = a.env.reactions.len();
                let pattern = encode_all(a.result->Ok_0)->0;
                let registered = a.env.register(
                    ReactionView { symbol, pattern },
                );
                lemma_statements_keep_outer_scopes(
                    body,
                    registered.enter_scope(),
                    Some(place),
                    (fuel - 1) as nat,
                );
                assert(registered.enter_scope().scopes.drop_last() =~= env.scopes);
            }
        },
        StatementView::Call { function } => {
            lemma_variable_keeps_scopes(function, env, fuel);
            let f = eval_variable(function, env, fuel);
            let out = run_call(function, env, owner, fuel);
            if out.env != f.env {
                let body = f.result->Ok_0->Block_0;
                lemma_statements_keep_outer_scopes(
                    body,
                    f.env.enter_scope(),
                    owner,
                    (fuel - 1) as nat,
                );
                assert(f.env.enter_scope().scopes.drop_last() =~= env.scopes);
            }
        },
        StatementView::Native { function, args } => {
            lemma_variable_keeps_scopes(function, env, fuel);
            let f = eval_variable(function, env, fuel);
            if f.result is Ok {
                lemma_arguments_keep_scopes(args, f.env, fuel);
            }
        },
        StatementView::EOI => {},
    }
}

/// The same of statements one after the other.
pub proof fn lemma_statements_keep_outer_scopes(
    stmts: Seq<StatementView>,
    env: EnvironmentView,
    owner: Option<nat>,
    fuel: nat,
)
    requires
        env.scopes.len() >= 1,
    ensures
        run_statements(stmts, env, owner, fuel).env.scopes.len() == env.scopes.len(),
        run_statements(stmts, env, owner, fuel).env.scopes.drop_last() == env.scopes.drop_last(),
    decreases fuel, stmts, 0nat,
{
    if stmts.len() > 0 {
        lemma_statements_keep_outer_scopes(stmts.drop_last(), env, owner, fuel);
        let front = run_statements(stmts.drop_last(), env, owner, fuel);
        if front.result is Ok {
            lemma_statement_keeps_outer_scopes(stmts.last(), front.env, owner, fuel);
        }
    }
}

/// Leaving a block restores the scopes exactly: after a block, whether
/// it compiled or failed, the scopes are what they were before it.
pub proof fn lemma_block_restores_scopes(
    block: Seq<StatementView>,
    env: EnvironmentView,
    owner: Option<nat>,
    fuel: nat,
)
    requires
        env.scopes.len() >= 1,
    ensures
        run_block(block, env, owner, fuel).env.scopes == env.scopes,
{
    lemma_statements_keep_outer_scopes(block, env.enter_scope(), owner, fuel);
    assert(env.enter_scope().scopes.drop_last() =~= env.scopes);
}

/// What a block defines is not seen after it: a name resolves after
/// the block to what it resolved to before.
pub proof fn lemma_block_definitions_are_local(
    block: Seq<StatementView>,
    env: EnvironmentView,
    owner: Option<nat>,
    fuel: nat,
    name: Seq<char>,
)
    requires
        env.scopes.len() >= 1,
    ensures
        run_block(block, env, owner, fuel).env.resolve(name) == env.resolve(name),
{
    lemma_block_restores_scopes(block, env, owner, fuel);
}

/// A definition is seen in its scope and shadows what was bound
/// before: right after a name is defined, it resolves to the value.
pub proof fn lemma_define_then_resolve(env: EnvironmentView, name: Seq<char>, value: ValueView)
    ensures
        env.define(name, value).resolve(name) == Some(value),
{
    let defined = env.define(name, value);
    assert(defined.scopes.last().dom().contains(name));
}

/// A definition is seen in the scopes that are opened after it, until
/// one of them binds the name anew.
pub proof fn lemma_definition_is_seen_inside(
    env: EnvironmentView,
    name: Seq<char>,
    value: ValueView,
)
    ensures
        env.define(name, value).enter_scope().resolve(name) == Some(value),
{
    let defined = env.define(name, value);
    lemma_define_then_resolve(env, name, value);
    assert(defined.enter_scope().scopes.drop_last() =~= defined.scopes);
}

/// A definition in an inner scope leaves the outer scopes as they
/// were: once the inner scope is left, the name resolves as before.
pub proof fn lemma_define_is_undone_by_exit(
    env: EnvironmentView,
    name: Seq<char>,
    value: ValueView,
    other: Seq<char>,
)
    requires
        env.scopes.len() >= 1,
    ensures
        env.enter_scope().define(name, value).exit_scope() == env,
        env.enter_scope().define(name, value).exit_scope().resolve(other) == env.resolve(other),
{
    let after = env.enter_scope().define(name, value).exit_scope();
    assert(after.scopes =~= env.scopes);
}

/// Whether a trigger has a property for every key that its kind is
/// written with.
pub open spec fn is_complete(t: TriggerView) -> bool {
    forall|j: int|
        0 <= j < key_order(t.kind).len() ==> (#[trigger] find_property(
            t.properties,
            key_order(t.kind)[j],
            0,
        )) is Some
}

/// Whether every trigger of a list is complete.
pub open spec fn all_complete(triggers: Seq<TriggerView>) -> bool {
    forall|i: int| 0 <= i < triggers.len() ==> is_complete(#[trigger] triggers[i])
}

/// Where every key has a property, the properties can be written.
proof fn lemma_fields_are_written(props: Seq<PropertyView>, keys: Seq<u16>)
    requires
        forall|j: int|
            0 <= j < keys.len() ==> (#[trigger] find_property(props, keys[j], 0)) is Some,
    ensures
        fields_text(props, keys) is Ok,
    decreases keys.len(),
{
    if keys.len() > 0 {
        let rest = keys.drop_last();
        assert forall|j: int| 0 <= j < rest.len() implies (#[trigger] find_property(
            props,
            rest[j],
            0,
        )) is Some by {
            assert(find_property(props, keys[j], 0) is Some);
        }
        lemma_fields_are_written(props, rest);
        assert(find_property(props, keys[keys.len() - 1], 0) is Some);
    }
}

/// A complete trigger can be written out.
pub proof fn lemma_complete_is_written(t: TriggerView)
    requires
        is_complete(t),
    ensures
        trigger_text(t) is Ok,
{
    lemma_fields_are_written(t.properties, key_order(t.kind));
}

/// Complete triggers can be written out, one after the other.
pub proof fn lemma_all_complete_are_written(triggers: Seq<TriggerView>)
    requires
        all_complete(triggers),
    ensures
        level_text(triggers) is Ok,
    decreases triggers.len(),
{
    if triggers.len() > 0 {
        let rest = triggers.drop_last();
        assert forall|i: int| 0 <= i < rest.len() implies is_complete(#[trigger] rest[i]) by {
            assert(is_complete(triggers[i]));
        }
        lemma_all_complete_are_written(rest);
        assert(is_complete(triggers[triggers.len() - 1]));
        lemma_complete_is_written(triggers.last());
    }
}

/// The trigger that an operation makes of its arguments is complete.
pub proof fn lemma_operation_trigger_is_complete(
    kind: TriggerKind,
    values: Seq<ValueView>,
    owner: Option<nat>,
    scope: nat,
)
    requires
        !is_event(kind),
        invoke(kind, values, owner, scope) is Ok,
    ensures
        is_complete(invoke(kind, values, owner, scope)->Ok_0),
{
    reveal_with_fuel(find_property, 5);
    let t = invoke(kind, values, owner, scope)->Ok_0;
    let keys = parameters(kind);
    assert forall|i: int| 0 <= i < keys.len() implies (#[trigger] t.properties[i]).key
        == keys[i] by {}
}

/// The trigger that wires a reaction to its event is complete.
pub proof fn lemma_wiring_is_complete(
    kind: TriggerKind,
    values: Seq<ValueView>,
    owner: Option<nat>,
    scope: nat,
    place: nat,
)
    requires
        is_event(kind),
        invoke(kind, values, owner, scope) is Ok,
    ensures
        is_complete(wiring_of(invoke(kind, values, owner, scope)->Ok_0, place)),
{
    reveal_with_fuel(find_property, 5);
    let bare = invoke(kind, values, owner, scope)->Ok_0;
    let t = wiring_of(bare, place);
    let keys = parameters(kind);
    assert(t.properties.len() == keys.len() + 1);
    assert(t.properties[keys.len() as int].key == TARGET);
    assert forall|i: int| 0 <= i < keys.len() implies (#[trigger] t.properties[i]).key
        == keys[i] by {}
}

/// What a statement makes is complete.
pub proof fn lemma_statement_makes_complete(
    stmt: StatementView,
    env: EnvironmentView,
    owner: Option<nat>,
    fuel: nat,
)
    requires
        run_statement(stmt, env, owner, fuel).result is Ok,
    ensures
        all_complete(run_statement(stmt, env, owner, fuel).result->Ok_0),
    decreases fuel, stmt, 0nat,
{
    match stmt {
        StatementView::Event { symbol, args, body } => {
            let a = eval_arguments(args, env, fuel);
            let values = a.result->Ok_0;
            let kind = event_named(symbol)->0;
            let scope = a.env.scopes.len();
            let place = a.env.reactions.len();
            lemma_wiring_is_complete(kind, values, owner, scope, place);
            let registered = a.env.register(
                ReactionView { symbol, pattern: encode_all(values)->0 },
            );
            lemma_statements_make_complete(
                body,
                registered.enter_scope(),
                Some(place),
                (fuel - 1) as nat,
            );
        },
        StatementView::Call { function } => {
            let f = eval_variable(function, env, fuel);
            let body = f.result->Ok_0->Block_0;
            lemma_statements_make_complete(body, f.env.enter_scope(), owner, (fuel - 1) as nat);
        },
        StatementView::Native { function, args } => {
            let f = eval_variable(function, env, fuel);
            let a = eval_arguments(args, f.env, fuel);
            let kind = operation_of(f.result->Ok_0)->0;
            lemma_operation_trigger_is_complete(kind, a.result->Ok_0, owner, a.env.scopes.len());
        },
        _ => {},
    }
}

/// What statements make, one after the other, is complete.
pub proof fn lemma_statements_make_complete(
    stmts: Seq<StatementView>,
    env: EnvironmentView,
    owner: Option<nat>,
    fuel: nat,
)
    requires
        run_statements(stmts, env, owner, fuel).result is Ok,
    ensures
        all_complete(run_statements(stmts, env, owner, fuel).result->Ok_0),
    decreases fuel, stmts, 0nat,
{
    if stmts.len() > 0 {
        lemma_statements_make_complete(stmts.drop_last(), env, owner, fuel);
        let front = run_statements(stmts.drop_last(), env, owner, fuel);
        lemma_statement_makes_complete(stmts.last(), front.env, owner, fuel);
    }
}

/// What a program compiles to can always be written out: the compiler
/// makes no trigger that lacks a property of its kind.
pub proof fn lemma_compiled_is_written(program: Seq<StatementView>)
    requires
        compiled(program).result is Ok,
    ensures
        all_complete(compiled(program).result->Ok_0),
        level_text(compiled(program).result->Ok_0) is Ok,
{
    lemma_statements_make_complete(
        program,
        EnvironmentView::fresh().enter_scope(),
        None,
        MAX_DEPTH as nat,
    );
    lemma_all_complete_are_written(compiled(program).result->Ok_0);
}

} // verus!

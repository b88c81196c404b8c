use vstd::prelude::*;
use crate::expr::ExprView;
use crate::model::{Oracle, Store};
use crate::scanner::{TokenType, TokenView};
use crate::semantics::{
    Outcome,
    arguments,
    assign,
    assign_expr,
    at_most,
    binary,
    binary_expr,
    bind_all,
    block,
    call,
    call_expr,
    call_function,
    callable,
    class,
    conditional,
    eval,
    execute,
    get_expr,
    interpret,
    literal,
    logical,
    logical_expr,
    make_methods,
    property,
    ready_to_run,
    repeat,
    set_expr,
    super_method,
    text,
    unary_expr,
};
use crate::stmt::StmtView;
use crate::value::ValueView;

verus! {

/// What holds of a state and any state that a program makes of it: no
/// scope is taken away or moved to another place in its chain, no name
/// that a scope binds is unbound, the scope that is current and the hop
/// counts are the same, no function, command
/// or class is taken away or changed, no instance is taken away or
/// changes its class, and what was written stays written.
pub open spec fn grows(before: Store, after: Store) -> bool {
    &&& before.scopes.len() <= after.scopes.len()
    &&& forall|i: int|
        0 <= i < before.scopes.len() ==> (#[trigger] after.scopes[i]).enclosing
            == before.scopes[i].enclosing
    &&& forall|i: int, name: Seq<char>|
        0 <= i < before.scopes.len() && before.scopes[i].values.contains_key(name)
            ==> #[trigger] after.scopes[i].values.contains_key(name)
    &&& after.current == before.current
    &&& after.locals == before.locals
    &&& before.functions.len() <= after.functions.len()
    &&& forall|i: int|
        0 <= i < before.functions.len() ==> #[trigger] after.functions[i] == before.functions[i]
    &&& before.natives.len() <= after.natives.len()
    &&& forall|i: int|
        0 <= i < before.natives.len() ==> #[trigger] after.natives[i] == before.natives[i]
    &&& before.classes.len() <= after.classes.len()
    &&& forall|i: int|
        0 <= i < before.classes.len() ==> #[trigger] after.classes[i] == before.classes[i]
    &&& before.instances.len() <= after.instances.len()
    &&& forall|i: int|
        0 <= i < before.instances.len() ==> (#[trigger] after.instances[i]).class
            == before.instances[i].class
    &&& before.output.len() <= after.output.len()
    &&& forall|i: int| 0 <= i < before.output.len() ==> #[trigger] after.output[i] == before.output[i]
    &&& before.asked <= after.asked
}

/// The same, but for the scope that is current.
pub open spec fn grows_elsewhere(before: Store, after: Store) -> bool {
    grows(before, after.enter(before.current))
}

/// How a piece of a program may end: in a state that grew out of the one
/// before, with no more steps left than there were.
pub open spec fn sound<T>(st: Store, fuel: nat, o: Outcome<T>) -> bool {
    &&& grows(st, o.store)
    &&& o.left <= fuel
}

proof fn lemma_bind_all_grows(st: Store, scope: int, names: Seq<Seq<char>>, values: Seq<ValueView>, i: int)
    requires
        0 <= i,
    ensures
        grows(st, bind_all(st, scope, names, values, i)),
    decreases names.len() - i,
{
    if i < names.len() {
        lemma_bind_all_grows(st.bind(scope, names[i], values[i]), scope, names, values, i + 1);
    }
}

proof fn lemma_make_methods_grows(st: Store, methods: Seq<StmtView>, i: int, made: Map<Seq<char>, usize>)
    requires
        0 <= i,
    ensures
        grows(st, make_methods(st, methods, i, made).store),
    decreases methods.len() - i,
{
    if i < methods.len() {
        match methods[i] {
            StmtView::Function { name, params, body } => {
                let next = st.add_function(
                    crate::model::FunctionView {
                        name: name.lexeme,
                        params: crate::semantics::lexemes(params),
                        body,
                        parent_env: st.current,
                    },
                );
                lemma_make_methods_grows(
                    next,
                    methods,
                    i + 1,
                    made.insert(name.lexeme, st.functions.len() as usize),
                );
            },
            _ => {},
        }
    }
}

/// Whatever an expression does, the state that it leaves grew out of the
/// state before, and no step came back.
#[verifier::spinoff_prover]
#[verifier::rlimit(50)]
pub proof fn lemma_eval(st: Store, e: ExprView, fuel: nat, a: Oracle)
    ensures
        sound(st, fuel, eval(st, e, fuel, a)),
    decreases fuel, 0nat, 0nat,
{
    reveal(eval);
    reveal(assign_expr);
    reveal(unary_expr);
    reveal(binary_expr);
    reveal(logical_expr);
    reveal(call_expr);
    reveal(get_expr);
    reveal(set_expr);
    if fuel > 0 {
        let f = (fuel - 1) as nat;
        match e {
            ExprView::Assign { id, name, value } => {
                lemma_assign_expr(st, id, name.lexeme, *value, f, a);
            },
            ExprView::Unary { id, operator, right } => {
                lemma_unary_expr(st, operator, *right, f, a);
            },
            ExprView::Binary { id, left, operator, right } => {
                lemma_binary_expr(st, *left, operator, *right, f, a);
            },
            ExprView::Logical { id, left, operator, right } => {
                lemma_logical_expr(st, *left, operator, *right, f, a);
            },
            ExprView::Grouping { id, expression } => {
                lemma_eval(st, *expression, f, a);
            },
            ExprView::Call { id, callee, paren, arguments } => {
                lemma_call_expr(st, *callee, arguments, f, a);
            },
            ExprView::Get { id, object, name } => {
                lemma_get_expr(st, *object, name.lexeme, f, a);
            },
            ExprView::SetField { id, object, name, value } => {
                lemma_set_expr(st, *object, name.lexeme, *value, f, a);
            },
            _ => {},
        }
    }
}

#[verifier::spinoff_prover]
#[verifier::rlimit(50)]
proof fn lemma_assign_expr(st: Store, id: nat, name: Seq<char>, value: ExprView, fuel: nat, a: Oracle)
    ensures
        sound(st, fuel, assign_expr(st, id, name, value, fuel, a)),
    decreases fuel, 1nat, 0nat,
{
    reveal(assign_expr);
    reveal(eval);
    lemma_eval(st, value, fuel, a);
}

#[verifier::spinoff_prover]
#[verifier::rlimit(50)]
proof fn lemma_unary_expr(st: Store, operator: TokenView, right: ExprView, fuel: nat, a: Oracle)
    ensures
        sound(st, fuel, unary_expr(st, operator, right, fuel, a)),
    decreases fuel, 1nat, 0nat,
{
    reveal(unary_expr);
    reveal(eval);
    lemma_eval(st, right, fuel, a);
}

#[verifier::spinoff_prover]
#[verifier::rlimit(50)]
proof fn lemma_binary_expr(
    st: Store,
    left: ExprView,
    operator: TokenView,
    right: ExprView,
    fuel: nat,
    a: Oracle,
)
    ensures
        sound(st, fuel, binary_expr(st, left, operator, right, fuel, a)),
    decreases fuel, 1nat, 0nat,
{
    reveal(binary_expr);
    reveal(eval);
    lemma_eval(st, left, fuel, a);
    let first = eval(st, left, fuel, a);
    lemma_eval(first.store, right, at_most(first.left, fuel), a);
}

#[verifier::spinoff_prover]
#[verifier::rlimit(50)]
proof fn lemma_logical(st: Store, left: ValueView, kind: TokenType, right: ExprView, fuel: nat, a: Oracle)
    ensures
        sound(st, fuel, logical(st, left, kind, right, fuel, a)),
    decreases fuel, 1nat, 0nat,
{
    reveal(logical);
    reveal(eval);
    lemma_eval(st, right, fuel, a);
}

#[verifier::spinoff_prover]
#[verifier::rlimit(50)]
proof fn lemma_logical_expr(
    st: Store,
    left: ExprView,
    operator: TokenView,
    right: ExprView,
    fuel: nat,
    a: Oracle,
)
    ensures
        sound(st, fuel, logical_expr(st, left, operator, right, fuel, a)),
    decreases fuel, 2nat, 0nat,
{
    reveal(logical_expr);
    reveal(logical);
    reveal(eval);
    lemma_eval(st, left, fuel, a);
    let first = eval(st, left, fuel, a);
    match first.result {
        Ok(l) => {
            lemma_logical(first.store, l, operator.token_type, right, at_most(first.left, fuel), a);
        },
        Err(_) => {},
    }
}

#[verifier::spinoff_prover]
#[verifier::rlimit(50)]
proof fn lemma_arguments(st: Store, es: Seq<ExprView>, i: int, fuel: nat, a: Oracle)
    ensures
        sound(st, fuel, arguments(st, es, i, fuel, a)),
    decreases fuel, 1nat, es.len() - i,
{
    reveal(arguments);
    reveal(eval);
    if 0 <= i < es.len() {
        lemma_eval(st, es[i], fuel, a);
        let first = eval(st, es[i], fuel, a);
        if first.result is Ok {
            lemma_arguments(first.store, es, i + 1, at_most(first.left, fuel), a);
        }
    }
}

#[verifier::spinoff_prover]
#[verifier::rlimit(50)]
proof fn lemma_call_expr(st: Store, callee: ExprView, args: Seq<ExprView>, fuel: nat, a: Oracle)
    ensures
        sound(st, fuel, call_expr(st, callee, args, fuel, a)),
    decreases fuel, 5nat, 0nat,
{
    reveal(call_expr);
    reveal(eval);
    reveal(arguments);
    reveal(call);
    lemma_eval(st, callee, fuel, a);
    let first = eval(st, callee, fuel, a);
    match first.result {
        Ok(c) => {
            if callable(c) {
                lemma_arguments(first.store, args, 0, at_most(first.left, fuel), a);
                let second = arguments(first.store, args, 0, at_most(first.left, fuel), a);
                match second.result {
                    Ok(values) => {
                        lemma_call(second.store, c, values, at_most(second.left, fuel), a);
                    },
                    Err(_) => {},
                }
            }
        },
        Err(_) => {},
    }
}

#[verifier::spinoff_prover]
#[verifier::rlimit(50)]
proof fn lemma_get_expr(st: Store, object: ExprView, name: Seq<char>, fuel: nat, a: Oracle)
    ensures
        sound(st, fuel, get_expr(st, object, name, fuel, a)),
    decreases fuel, 1nat, 0nat,
{
    reveal(get_expr);
    reveal(eval);
    lemma_eval(st, object, fuel, a);
}

#[verifier::spinoff_prover]
#[verifier::rlimit(50)]
proof fn lemma_set_expr(st: Store, object: ExprView, name: Seq<char>, value: ExprView, fuel: nat, a: Oracle)
    ensures
        sound(st, fuel, set_expr(st, object, name, value, fuel, a)),
    decreases fuel, 1nat, 0nat,
{
    reveal(set_expr);
    reveal(eval);
    lemma_eval(st, object, fuel, a);
    let first = eval(st, object, fuel, a);
    lemma_eval(first.store, value, at_most(first.left, fuel), a);
}

/// Whatever a call does, the state that it leaves grew out of the state
/// before, and no step came back.
#[verifier::spinoff_prover]
#[verifier::rlimit(50)]
pub proof fn lemma_call(st: Store, callee: ValueView, args: Seq<ValueView>, fuel: nat, a: Oracle)
    ensures
        sound(st, fuel, call(st, callee, args, fuel, a)),
    decreases fuel, 4nat, 0nat,
{
    reveal(call);
    reveal(call_function);
    match callee {
        ValueView::Function { function, env } => {
            lemma_call_function(st, function, env, args, fuel, a);
        },
        ValueView::Class(class) => {
            match crate::model::method_of(st.classes, class as int, "init"@) {
                Some(function) => {
                    let instance = st.instances.len() as usize;
                    let ready = st.add_instance(class).bind_method(function, instance);
                    lemma_call_function(ready, function, st.scopes.len() as usize, args, fuel, a);
                },
                None => {},
            }
        },
        _ => {},
    }
}

#[verifier::spinoff_prover]
#[verifier::rlimit(50)]
proof fn lemma_call_function(
    st: Store,
    function: usize,
    env: usize,
    args: Seq<ValueView>,
    fuel: nat,
    a: Oracle,
)
    ensures
        sound(st, fuel, call_function(st, function, env, args, fuel, a)),
    decreases fuel, 3nat, 0nat,
{
    reveal(call_function);
    reveal(interpret);
    let f = st.functions[function as int];
    let scope = st.scopes.len() as usize;
    lemma_bind_all_grows(st.enclose(env), scope as int, f.params, args, 0);
    let ready = ready_to_run(st, function, env, args);
    lemma_interpret(ready, f.body, 0, fuel, a);
}

/// Whatever statements do, the state that they leave grew out of the
/// state before, and no step came back.
#[verifier::spinoff_prover]
#[verifier::rlimit(50)]
pub proof fn lemma_interpret(st: Store, stmts: Seq<StmtView>, i: int, fuel: nat, a: Oracle)
    ensures
        sound(st, fuel, interpret(st, stmts, i, fuel, a)),
    decreases fuel, 2nat, stmts.len() - i,
{
    reveal(interpret);
    reveal(execute);
    if 0 <= i < stmts.len() {
        lemma_execute(st, stmts[i], fuel, a);
        let o = execute(st, stmts[i], fuel, a);
        if o.result is Ok && o.store.specials is None {
            lemma_interpret(o.store, stmts, i + 1, at_most(o.left, fuel), a);
        }
    }
}

/// Whatever a statement does, the state that it leaves grew out of the
/// state before, and no step came back.
#[verifier::spinoff_prover]
#[verifier::rlimit(50)]
pub proof fn lemma_execute(st: Store, s: StmtView, fuel: nat, a: Oracle)
    ensures
        sound(st, fuel, execute(st, s, fuel, a)),
    decreases fuel, 0nat, 0nat,
{
    reveal(execute);
    reveal(eval);
    reveal(block);
    reveal(class);
    reveal(conditional);
    reveal(repeat);
    if fuel > 0 {
        let f = (fuel - 1) as nat;
        match s {
            StmtView::Expression { expression } => {
                lemma_eval(st, expression, f, a);
            },
            StmtView::Print { expression } => {
                lemma_eval(st, expression, f, a);
            },
            StmtView::Limpar { expression } => {
                lemma_eval(st, expression, f, a);
            },
            StmtView::Var { name, initializer } => {
                lemma_eval(st, initializer, f, a);
            },
            StmtView::Block { statements } => {
                lemma_block(st, statements, f, a);
            },
            StmtView::Class { name, methods, superclass } => {
                lemma_class(st, name.lexeme, methods, superclass, f, a);
            },
            StmtView::IfStmt { predicate, then, els } => {
                lemma_conditional(st, predicate, *then, els, f, a);
            },
            StmtView::WhileStmt { condition, body } => {
                lemma_repeat(st, condition, *body, f, a);
            },
            StmtView::ReturnStmt { keyword, value } => {
                match value {
                    Some(e) => {
                        lemma_eval(st, e, f, a);
                    },
                    None => {},
                }
            },
            _ => {},
        }
    }
}

#[verifier::spinoff_prover]
#[verifier::rlimit(50)]
proof fn lemma_block(st: Store, statements: Seq<StmtView>, fuel: nat, a: Oracle)
    ensures
        sound(st, fuel, block(st, statements, fuel, a)),
    decreases fuel, 3nat, 0nat,
{
    reveal(block);
    reveal(interpret);
    let scope = st.scopes.len() as usize;
    lemma_interpret(st.enclose(st.current).enter(scope), statements, 0, fuel, a);
}

#[verifier::spinoff_prover]
#[verifier::rlimit(50)]
proof fn lemma_conditional(
    st: Store,
    predicate: ExprView,
    then: StmtView,
    els: Option<Box<StmtView>>,
    fuel: nat,
    a: Oracle,
)
    ensures
        sound(st, fuel, conditional(st, predicate, then, els, fuel, a)),
    decreases fuel, 1nat, 0nat,
{
    reveal(conditional);
    reveal(eval);
    reveal(execute);
    lemma_eval(st, predicate, fuel, a);
    let o = eval(st, predicate, fuel, a);
    lemma_execute(o.store, then, at_most(o.left, fuel), a);
    match els {
        Some(other) => {
            lemma_execute(o.store, *other, at_most(o.left, fuel), a);
        },
        None => {},
    }
}

#[verifier::spinoff_prover]
#[verifier::rlimit(50)]
proof fn lemma_repeat(st: Store, condition: ExprView, body: StmtView, fuel: nat, a: Oracle)
    ensures
        sound(st, fuel, repeat(st, condition, body, fuel, a)),
    decreases fuel, 1nat, 0nat,
{
    reveal(repeat);
    reveal(eval);
    reveal(execute);
    lemma_eval(st, condition, fuel, a);
    let test = eval(st, condition, fuel, a);
    lemma_execute(test.store, body, at_most(test.left, fuel), a);
    let round = execute(test.store, body, at_most(test.left, fuel), a);
    if round.left < fuel {
        lemma_repeat(round.store, condition, body, round.left, a);
    }
}

#[verifier::spinoff_prover]
#[verifier::rlimit(50)]
proof fn lemma_class(
    st: Store,
    name: Seq<char>,
    methods: Seq<StmtView>,
    superclass: Option<ExprView>,
    fuel: nat,
    a: Oracle,
)
    ensures
        sound(st, fuel, class(st, name, methods, superclass, fuel, a)),
    decreases fuel, 1nat, 0nat,
{
    reveal(class);
    reveal(eval);
    match superclass {
        Some(e) => {
            lemma_eval(st, e, fuel, a);
            let o = eval(st, e, fuel, a);
            match o.result {
                Ok(ValueView::Class(c)) => {
                    lemma_class_body(o.store, name, methods, Some(c));
                },
                _ => {},
            }
        },
        None => {
            lemma_class_body(st, name, methods, None);
        },
    }
}

/// The state in which the methods of a class are made: the name of the
/// class is bound to nothing, and a new scope, which binds `super` to
/// the class above if there is one, is current.
pub open spec fn class_scope(st: Store, name: Seq<char>, parent: Option<usize>) -> Store {
    let named = st.bind(st.current as int, name, ValueView::Nil);
    let scope = named.scopes.len() as usize;
    let inside = named.enclose(named.current).enter(scope);
    match parent {
        Some(c) => inside.bind(scope as int, "super"@, ValueView::Class(c)),
        None => inside,
    }
}

proof fn lemma_class_body(st: Store, name: Seq<char>, methods: Seq<StmtView>, parent: Option<usize>)
    ensures
        grows_elsewhere(st, make_methods(class_scope(st, name, parent), methods, 0, Map::empty()).store),
{
    let ready = class_scope(st, name, parent);
    lemma_make_methods_grows(ready, methods, 0, Map::empty());
    assert(grows_elsewhere(st, ready));
}

/// A loop never takes the way that is there for the case that a round
/// took no step: every statement that ends well takes a step.
pub proof fn lemma_execute_takes_a_step(st: Store, s: StmtView, fuel: nat, a: Oracle)
    requires
        execute(st, s, fuel, a).result is Ok,
    ensures
        execute(st, s, fuel, a).left < fuel,
{
    reveal(execute);
    reveal(eval);
    reveal(block);
    reveal(class);
    reveal(conditional);
    reveal(repeat);
    if fuel > 0 {
        let f = (fuel - 1) as nat;
        match s {
            StmtView::Expression { expression } => {
                lemma_eval(st, expression, f, a);
            },
            StmtView::Print { expression } => {
                lemma_eval(st, expression, f, a);
            },
            StmtView::Limpar { expression } => {
                lemma_eval(st, expression, f, a);
            },
            StmtView::Var { name, initializer } => {
                lemma_eval(st, initializer, f, a);
            },
            StmtView::Block { statements } => {
                lemma_block(st, statements, f, a);
            },
            StmtView::Class { name, methods, superclass } => {
                lemma_class(st, name.lexeme, methods, superclass, f, a);
            },
            StmtView::IfStmt { predicate, then, els } => {
                lemma_conditional(st, predicate, *then, els, f, a);
            },
            StmtView::WhileStmt { condition, body } => {
                lemma_repeat(st, condition, *body, f, a);
            },
            StmtView::ReturnStmt { keyword, value } => {
                match value {
                    Some(e) => {
                        lemma_eval(st, e, f, a);
                    },
                    None => {},
                }
            },
            _ => {},
        }
    }
}

} // verus!

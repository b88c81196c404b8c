use vstd::prelude::*;
use crate::expr::{ExprView, LiteralView};
use crate::host::Arithmetic;
use crate::model::{Answer, ClassView, FunctionView, NativeView, Oracle, ScopeView, Store, method_of, outward};
use crate::scanner::{TokenType, TokenView};
use crate::stmt::StmtView;
use crate::text::decimal;
use crate::value::{ValueView, SIGN, kind_name, number_le, number_lt, truth, truthy, values_equal};

verus! {

/// How a piece of a program ended: the state it left, its value or the
/// text of its error, and the number of steps that are left.
pub struct Outcome<T> {
    pub store: Store,
    pub result: Result<T, Seq<char>>,
    pub left: nat,
}

pub open spec fn fine<T>(store: Store, value: T, left: nat) -> Outcome<T> {
    Outcome { store, result: Ok(value), left }
}

pub open spec fn failed<T>(store: Store, message: Seq<char>, left: nat) -> Outcome<T> {
    Outcome { store, result: Err(message), left }
}

/// `o` without its value.
pub open spec fn done<T>(o: Outcome<T>) -> Outcome<()> {
    Outcome {
        store: o.store,
        result: match o.result {
            Ok(_) => Ok(()),
            Err(message) => Err(message),
        },
        left: o.left,
    }
}

/// The smaller of two numbers of steps.
pub open spec fn at_most(a: nat, b: nat) -> nat {
    if a <= b {
        a
    } else {
        b
    }
}

/// The text of the error for a program that took all its steps.
pub open spec fn out_of_steps() -> Seq<char> {
    "Limite de passos excedido"@
}

/// The text of the error for a name that is bound nowhere.
pub open spec fn undefined(name: Seq<char>) -> Seq<char> {
    "Variável indefinida: "@ + name
}

/// The text of the error for an operator that cannot take its operands.
pub open spec fn mismatch(operator: Seq<char>, left: ValueView, right: ValueView) -> Seq<char> {
    "Operador '"@ + operator + "' não se aplica a "@ + kind_name(left) + " e "@ + kind_name(right)
}

/// The text of the error for a call with the wrong number of arguments.
pub open spec fn arity_error(name: Seq<char>, expected: nat, got: nat) -> Seq<char> {
    "A função '"@ + name + "' esperava "@ + decimal(expected) + " argumentos, mas recebeu "@
        + decimal(got)
}

/// Whether a value can be called: a function, a command or a class.
pub open spec fn callable(v: ValueView) -> bool {
    v is Function || v is Native || v is Class
}

/// The text of the error for a call of what cannot be called.
pub open spec fn not_callable() -> Seq<char> {
    "Somente funções e classes podem ser chamadas"@
}

/// Whether a binary operator compares numbers.
pub open spec fn compares(kind: TokenType) -> bool {
    kind == TokenType::Greater || kind == TokenType::GreaterEqual || kind == TokenType::Less
        || kind == TokenType::LessEqual
}

/// What a comparison of two numbers gives.
pub open spec fn comparison(kind: TokenType, a: u64, b: u64) -> bool {
    match kind {
        TokenType::Greater => number_lt(b, a),
        TokenType::GreaterEqual => number_le(b, a),
        TokenType::Less => number_lt(a, b),
        _ => number_le(a, b),
    }
}

/// The operation of arithmetic that an operator stands for.
pub open spec fn operation(kind: TokenType) -> Option<Arithmetic> {
    match kind {
        TokenType::Plus => Some(Arithmetic::Plus),
        TokenType::Minus => Some(Arithmetic::Minus),
        TokenType::Star => Some(Arithmetic::Times),
        TokenType::Slash => Some(Arithmetic::Over),
        _ => None,
    }
}

/// Whether a binary operator joins its operands as text: `+` with a
/// string on either side.
pub open spec fn concatenates(kind: TokenType, left: ValueView, right: ValueView) -> bool {
    kind == TokenType::Plus && (left is Text || right is Text)
}

/// Whether a logical operator is decided by its left operand: `ou` by
/// one that counts as true, `e` by one that counts as false.
pub open spec fn decided(kind: TokenType, left: ValueView) -> bool {
    if kind == TokenType::Or {
        truthy(left)
    } else {
        !truthy(left)
    }
}

/// `text` with each backslash that is followed by `letter` replaced,
/// together with that letter, by `with`; read from the left, from the
/// `i`-th character on.
pub open spec fn unescaped(text: Seq<char>, letter: char, with: char, i: int) -> Seq<char>
    decreases text.len() - i,
{
    if i < 0 || i >= text.len() {
        Seq::empty()
    } else if text[i] == '\\' && i + 1 < text.len() && text[i + 1] == letter {
        seq![with] + unescaped(text, letter, with, i + 2)
    } else {
        seq![text[i]] + unescaped(text, letter, with, i + 1)
    }
}

/// `text` with the two-character sequences `\n` and `\t` turned into a
/// newline and a tab.
pub open spec fn translated(text: Seq<char>) -> Seq<char> {
    unescaped(unescaped(text, 'n', '\n', 0), 't', '\t', 0)
}

/// What `limpar` writes: what clears the screen, a header, the text and
/// a rule.
pub open spec fn cleared(text: Seq<char>) -> Seq<char> {
    "\u{1b}[2J\u{1b}[1;1H\n[Fe Ferrugem vs 0.1]\nPortugol reescrito em Rust\n\n"@ + text
        + "\n-------------------------------\n"@
}

/// The lexemes of a list of tokens.
pub open spec fn lexemes(tokens: Seq<TokenView>) -> Seq<Seq<char>> {
    Seq::new(tokens.len(), |i: int| tokens[i].lexeme)
}

/// A state with a value.
pub struct Valued<T> {
    pub store: Store,
    pub value: T,
}

/// The value of a constant. That of a number is the host's answer.
pub open spec fn literal(st: Store, value: LiteralView, a: Oracle) -> Valued<ValueView> {
    match value {
        LiteralView::Number(_) => Valued {
            store: st.ask(),
            value: ValueView::Number(a(st.asked).number),
        },
        LiteralView::StringValue(s) => Valued { store: st, value: ValueView::Text(s) },
        LiteralView::True => Valued { store: st, value: ValueView::True },
        LiteralView::False => Valued { store: st, value: ValueView::False },
        LiteralView::Nil => Valued { store: st, value: ValueView::Nil },
    }
}

/// The canonical text of a value. That of a number is the host's answer.
pub open spec fn text(st: Store, v: ValueView, a: Oracle) -> Valued<Seq<char>> {
    if v is Number {
        Valued { store: st.ask(), value: a(st.asked).text }
    } else {
        Valued { store: st, value: st.text_of(v) }
    }
}

/// The float with the other sign, or the error for what is no number.
pub open spec fn negate(v: ValueView) -> Result<ValueView, Seq<char>> {
    match v {
        ValueView::Number(bits) => Ok(ValueView::Number(bits ^ SIGN)),
        _ => Err("Operador '-' não se aplica a "@ + kind_name(v)),
    }
}

/// What a binary operator gives for two values. A comparison and a test
/// of equality are decided by the values; the result of arithmetic is
/// the host's answer, and so is the text of a number that `+` joins to
/// a string.
pub open spec fn binary(
    st: Store,
    kind: TokenType,
    operator: Seq<char>,
    left: ValueView,
    right: ValueView,
    a: Oracle,
) -> Valued<Result<ValueView, Seq<char>>> {
    if kind == TokenType::EqualEqual {
        Valued { store: st, value: Ok(truth(values_equal(left, right))) }
    } else if kind == TokenType::BangEqual {
        Valued { store: st, value: Ok(truth(!values_equal(left, right))) }
    } else if compares(kind) {
        match (left, right) {
            (ValueView::Number(x), ValueView::Number(y)) => Valued {
                store: st,
                value: Ok(truth(comparison(kind, x, y))),
            },
            _ => Valued { store: st, value: Err(mismatch(operator, left, right)) },
        }
    } else if operation(kind) is Some {
        if left is Number && right is Number {
            Valued { store: st.ask(), value: Ok(ValueView::Number(a(st.asked).number)) }
        } else if concatenates(kind, left, right) {
            let first = text(st, left, a);
            let second = text(first.store, right, a);
            Valued { store: second.store, value: Ok(ValueView::Text(first.value + second.value)) }
        } else {
            Valued { store: st, value: Err(mismatch(operator, left, right)) }
        }
    } else {
        Valued { store: st, value: Err(mismatch(operator, left, right)) }
    }
}

/// What the variable `name` of the expression `id` holds.
pub open spec fn variable(st: Store, id: nat, name: Seq<char>) -> Result<ValueView, Seq<char>> {
    match st.found(id, name) {
        Some(v) => Ok(v),
        None => Err(undefined(name)),
    }
}

/// The state after the variable `name` of the expression `id` was bound
/// to `value`, if it is bound at all.
pub open spec fn assign(st: Store, id: nat, name: Seq<char>, value: ValueView) -> Option<Store> {
    if st.found(id, name) is Some {
        Some(st.bind(st.home(id)->Some_0, name, value))
    } else {
        None
    }
}

/// The property `name` of the instance `instance`: a field of that name,
/// or else the method of that name of its class or of a class above it,
/// bound to the instance.
pub open spec fn property(st: Store, instance: usize, name: Seq<char>) -> Valued<
    Result<ValueView, Seq<char>>,
> {
    let fields = st.instances[instance as int].fields;
    if fields.contains_key(name) {
        Valued { store: st, value: Ok(fields[name]) }
    } else {
        match method_of(st.classes, st.instances[instance as int].class as int, name) {
            Some(function) => Valued {
                store: st.bind_method(function, instance),
                value: Ok(ValueView::Function { function, env: st.scopes.len() as usize }),
            },
            None => Valued { store: st, value: Err("Propriedade indefinida: "@ + name) },
        }
    }
}

/// The method `method` of the class above the one in whose method the
/// expression `id` stands, bound to the instance at hand: `super` is
/// read as many scopes outward as the resolver counted, `este` one scope
/// nearer.
pub open spec fn super_method(st: Store, id: nat, keyword: Seq<char>, method: Seq<char>) -> Valued<
    Result<ValueView, Seq<char>>,
> {
    if !st.locals.contains_key(id) {
        Valued { store: st, value: Err("Uso de 'super' fora de uma classe"@) }
    } else if st.locals[id] == 0 {
        Valued { store: st, value: Err("Uso de 'super' fora de um método"@) }
    } else {
        let hops = st.locals[id];
        let above = st.read(outward(st.scopes, st.current as int, hops), keyword);
        let this = st.read(outward(st.scopes, st.current as int, (hops - 1) as nat), "este"@);
        match (above, this) {
            (Some(ValueView::Class(class)), Some(ValueView::Instance(instance))) => match method_of(
                st.classes,
                class as int,
                method,
            ) {
                Some(function) => Valued {
                    store: st.bind_method(function, instance),
                    value: Ok(ValueView::Function { function, env: st.scopes.len() as usize }),
                },
                None => Valued { store: st, value: Err("Método indefinido: "@ + method) },
            },
            _ => Valued { store: st, value: Err("Uso de 'super' fora de um método"@) },
        }
    }
}

/// The parameters from the `i`-th on bound to the arguments in the scope
/// `scope`.
pub open spec fn bind_all(st: Store, scope: int, names: Seq<Seq<char>>, values: Seq<ValueView>, i: int) -> Store
    decreases names.len() - i,
{
    if i < 0 || i >= names.len() {
        st
    } else {
        bind_all(st.bind(scope, names[i], values[i]), scope, names, values, i + 1)
    }
}

/// The state in which the body of the function `function`, which closes
/// over the scope `env`, starts to run: a new scope within `env` binds
/// the parameters to `args` and is current, and no value is left for
/// the call around.
pub open spec fn ready_to_run(st: Store, function: usize, env: usize, args: Seq<ValueView>) -> Store {
    let scope = st.scopes.len() as usize;
    bind_all(st.enclose(env), scope as int, st.functions[function as int].params, args, 0).enter(
        scope,
    ).leave(None)
}

/// The state and the methods by name after the methods from the `i`-th
/// on were made in the current scope; no methods where one of them is no
/// function declaration.
pub open spec fn make_methods(
    st: Store,
    methods: Seq<StmtView>,
    i: int,
    made: Map<Seq<char>, usize>,
) -> Valued<Option<Map<Seq<char>, usize>>>
    decreases methods.len() - i,
{
    if i < 0 || i >= methods.len() {
        Valued { store: st, value: Some(made) }
    } else {
        match methods[i] {
            StmtView::Function { name, params, body } => make_methods(
                st.add_function(
                    FunctionView {
                        name: name.lexeme,
                        params: lexemes(params),
                        body,
                        parent_env: st.current,
                    },
                ),
                methods,
                i + 1,
                made.insert(name.lexeme, st.functions.len() as usize),
            ),
            _ => Valued { store: st, value: None },
        }
    }
}

/// The value of an expression. Each expression and each statement takes
/// one step.
#[verifier::opaque]
pub open spec fn eval(st: Store, e: ExprView, fuel: nat, a: Oracle) -> Outcome<ValueView>
    decreases fuel, 0nat, 0nat,
{
    if fuel == 0 {
        failed(st, out_of_steps(), 0)
    } else {
        let f = (fuel - 1) as nat;
        match e {
            ExprView::Literal { id, value } => {
                let made = literal(st, value, a);
                fine(made.store, made.value, f)
            },
            ExprView::Variable { id, name } => Outcome {
                store: st,
                result: variable(st, id, name.lexeme),
                left: f,
            },
            ExprView::This { id, keyword } => Outcome {
                store: st,
                result: variable(st, id, keyword.lexeme),
                left: f,
            },
            ExprView::Assign { id, name, value } => assign_expr(st, id, name.lexeme, *value, f, a),
            ExprView::Unary { id, operator, right } => unary_expr(st, operator, *right, f, a),
            ExprView::Binary { id, left, operator, right } => binary_expr(
                st,
                *left,
                operator,
                *right,
                f,
                a,
            ),
            ExprView::Logical { id, left, operator, right } => logical_expr(
                st,
                *left,
                operator,
                *right,
                f,
                a,
            ),
            ExprView::Grouping { id, expression } => eval(st, *expression, f, a),
            ExprView::Call { id, callee, paren, arguments } => call_expr(st, *callee, arguments, f, a),
            ExprView::Get { id, object, name } => get_expr(st, *object, name.lexeme, f, a),
            ExprView::SetField { id, object, name, value } => set_expr(
                st,
                *object,
                name.lexeme,
                *value,
                f,
                a,
            ),
            ExprView::Super { id, keyword, method } => {
                let got = super_method(st, id, keyword.lexeme, method.lexeme);
                Outcome { store: got.store, result: got.value, left: f }
            },
            ExprView::AnonFunction { id, paren, arguments, body } => fine(
                st.add_function(
                    FunctionView {
                        name: "anon"@,
                        params: lexemes(arguments),
                        body,
                        parent_env: st.current,
                    },
                ),
                ValueView::Function { function: st.functions.len() as usize, env: st.current },
                f,
            ),
        }
    }
}

/// An assignment: the value, bound anew to the variable, is the result.
#[verifier::opaque]
pub open spec fn assign_expr(st: Store, id: nat, name: Seq<char>, value: ExprView, fuel: nat, a: Oracle) -> Outcome<
    ValueView,
>
    decreases fuel, 1nat, 0nat,
{
    let o = eval(st, value, fuel, a);
    match o.result {
        Err(_) => o,
        Ok(v) => match assign(o.store, id, name, v) {
            Some(s) => fine(s, v, o.left),
            None => failed(o.store, undefined(name), o.left),
        },
    }
}

#[verifier::opaque]
pub open spec fn unary_expr(st: Store, operator: TokenView, right: ExprView, fuel: nat, a: Oracle) -> Outcome<
    ValueView,
>
    decreases fuel, 1nat, 0nat,
{
    let o = eval(st, right, fuel, a);
    match o.result {
        Err(_) => o,
        Ok(v) => Outcome {
            store: o.store,
            result: if operator.token_type == TokenType::Minus {
                negate(v)
            } else if operator.token_type == TokenType::Bang {
                Ok(truth(!truthy(v)))
            } else {
                Err("Operador unário desconhecido"@)
            },
            left: o.left,
        },
    }
}

/// A binary operation: the left operand, then the right one, then the
/// operator.
#[verifier::opaque]
pub open spec fn binary_expr(
    st: Store,
    left: ExprView,
    operator: TokenView,
    right: ExprView,
    fuel: nat,
    a: Oracle,
) -> Outcome<ValueView>
    decreases fuel, 1nat, 0nat,
{
    let first = eval(st, left, fuel, a);
    match first.result {
        Err(_) => first,
        Ok(l) => {
            let second = eval(first.store, right, at_most(first.left, fuel), a);
            match second.result {
                Err(_) => second,
                Ok(r) => {
                    let got = binary(second.store, operator.token_type, operator.lexeme, l, r, a);
                    Outcome { store: got.store, result: got.value, left: second.left }
                },
            }
        },
    }
}

/// The value of `left operator right`, `left` being known: `left` itself
/// where it decides, and then nothing else happens; else the value of
/// `right`.
#[verifier::opaque]
pub open spec fn logical(st: Store, left: ValueView, kind: TokenType, right: ExprView, fuel: nat, a: Oracle) -> Outcome<
    ValueView,
>
    decreases fuel, 1nat, 0nat,
{
    if decided(kind, left) {
        fine(st, left, fuel)
    } else {
        eval(st, right, fuel, a)
    }
}

#[verifier::opaque]
pub open spec fn logical_expr(
    st: Store,
    left: ExprView,
    operator: TokenView,
    right: ExprView,
    fuel: nat,
    a: Oracle,
) -> Outcome<ValueView>
    decreases fuel, 2nat, 0nat,
{
    let first = eval(st, left, fuel, a);
    match first.result {
        Err(_) => first,
        Ok(l) => logical(first.store, l, operator.token_type, right, at_most(first.left, fuel), a),
    }
}

/// The values of the arguments from the `i`-th on, from left to right.
#[verifier::opaque]
pub open spec fn arguments(st: Store, es: Seq<ExprView>, i: int, fuel: nat, a: Oracle) -> Outcome<
    Seq<ValueView>,
>
    decreases fuel, 1nat, es.len() - i,
{
    if i < 0 || i >= es.len() {
        fine(st, Seq::empty(), fuel)
    } else {
        let first = eval(st, es[i], fuel, a);
        match first.result {
            Err(message) => failed(first.store, message, first.left),
            Ok(v) => {
                let rest = arguments(first.store, es, i + 1, at_most(first.left, fuel), a);
                Outcome {
                    store: rest.store,
                    result: match rest.result {
                        Ok(more) => Ok(seq![v] + more),
                        Err(message) => Err(message),
                    },
                    left: rest.left,
                }
            },
        }
    }
}

/// A call: the callee, which must be something that can be called, then
/// the arguments, then the call itself.
#[verifier::opaque]
pub open spec fn call_expr(st: Store, callee: ExprView, args: Seq<ExprView>, fuel: nat, a: Oracle) -> Outcome<
    ValueView,
>
    decreases fuel, 5nat, 0nat,
{
    let first = eval(st, callee, fuel, a);
    match first.result {
        Err(_) => first,
        Ok(c) => if !callable(c) {
            failed(first.store, not_callable(), first.left)
        } else {
            let second = arguments(first.store, args, 0, at_most(first.left, fuel), a);
            match second.result {
                Err(message) => failed(second.store, message, second.left),
                Ok(values) => call(second.store, c, values, at_most(second.left, fuel), a),
            }
        },
    }
}

#[verifier::opaque]
pub open spec fn get_expr(st: Store, object: ExprView, name: Seq<char>, fuel: nat, a: Oracle) -> Outcome<
    ValueView,
>
    decreases fuel, 1nat, 0nat,
{
    let o = eval(st, object, fuel, a);
    match o.result {
        Err(_) => o,
        Ok(ValueView::Instance(i)) => {
            let got = property(o.store, i, name);
            Outcome { store: got.store, result: got.value, left: o.left }
        },
        Ok(_) => failed(o.store, "Somente instâncias têm propriedades"@, o.left),
    }
}

#[verifier::opaque]
pub open spec fn set_expr(
    st: Store,
    object: ExprView,
    name: Seq<char>,
    value: ExprView,
    fuel: nat,
    a: Oracle,
) -> Outcome<ValueView>
    decreases fuel, 1nat, 0nat,
{
    let first = eval(st, object, fuel, a);
    match first.result {
        Err(_) => first,
        Ok(ValueView::Instance(i)) => {
            let second = eval(first.store, value, at_most(first.left, fuel), a);
            match second.result {
                Err(_) => second,
                Ok(v) => fine(second.store.set_field(i as int, name, v), v, second.left),
            }
        },
        Ok(_) => failed(first.store, "Somente instâncias têm campos"@, first.left),
    }
}

/// A call of `callee` with `args`. A function or a command is run; a
/// class makes an instance, which its method `init`, if it has one, sets
/// up. Nothing else can be called, and nothing with another number of
/// arguments than it takes.
#[verifier::opaque]
pub open spec fn call(st: Store, callee: ValueView, args: Seq<ValueView>, fuel: nat, a: Oracle) -> Outcome<
    ValueView,
>
    decreases fuel, 4nat, 0nat,
{
    match callee {
        ValueView::Function { function, env } => {
            let f = st.functions[function as int];
            if f.params.len() != args.len() {
                failed(st, arity_error(f.name, f.params.len(), args.len()), fuel)
            } else {
                call_function(st, function, env, args, fuel, a)
            }
        },
        ValueView::Native { native } => {
            let n = st.natives[native as int];
            if n.arity != args.len() {
                failed(st, arity_error(n.name, n.arity as nat, args.len()), fuel)
            } else {
                fine(st.ask(), ValueView::Text(a(st.asked).text), fuel)
            }
        },
        ValueView::Class(class) => {
            let name = st.classes[class as int].name;
            match method_of(st.classes, class as int, "init"@) {
                Some(function) => {
                    let f = st.functions[function as int];
                    if f.params.len() != args.len() {
                        failed(st, arity_error(name, f.params.len(), args.len()), fuel)
                    } else {
                        let instance = st.instances.len() as usize;
                        let ready = st.add_instance(class).bind_method(function, instance);
                        let o = call_function(
                            ready,
                            function,
                            st.scopes.len() as usize,
                            args,
                            fuel,
                            a,
                        );
                        match o.result {
                            Err(_) => o,
                            Ok(_) => fine(o.store, ValueView::Instance(instance), o.left),
                        }
                    }
                },
                None => if args.len() != 0 {
                    failed(st, arity_error(name, 0, args.len()), fuel)
                } else {
                    fine(
                        st.add_instance(class),
                        ValueView::Instance(st.instances.len() as usize),
                        fuel,
                    )
                },
            }
        },
        _ => failed(st, not_callable(), fuel),
    }
}

/// A run of the function `function`, which closes over the scope `env`:
/// its parameters are bound to `args` in a new scope within `env`, its
/// body runs there, and what a `retorna` left, or nothing, is the value.
/// The scope that was current is so again afterwards.
#[verifier::opaque]
pub open spec fn call_function(
    st: Store,
    function: usize,
    env: usize,
    args: Seq<ValueView>,
    fuel: nat,
    a: Oracle,
) -> Outcome<ValueView>
    decreases fuel, 3nat, 0nat,
{
    let f = st.functions[function as int];
    let o = interpret(ready_to_run(st, function, env, args), f.body, 0, fuel, a);
    let back = o.store.enter(st.current).leave(None);
    match o.result {
        Err(message) => failed(back, message, o.left),
        Ok(_) => fine(
            back,
            match o.store.specials {
                Some(v) => v,
                None => ValueView::Nil,
            },
            o.left,
        ),
    }
}

/// The statements from the `i`-th on, in order, up to the first that
/// fails or that leaves a value for the call around.
#[verifier::opaque]
pub open spec fn interpret(st: Store, stmts: Seq<StmtView>, i: int, fuel: nat, a: Oracle) -> Outcome<()>
    decreases fuel, 2nat, stmts.len() - i,
{
    if i < 0 || i >= stmts.len() {
        fine(st, (), fuel)
    } else {
        let o = execute(st, stmts[i], fuel, a);
        match o.result {
            Err(_) => o,
            Ok(_) => if o.store.specials is Some {
                o
            } else {
                interpret(o.store, stmts, i + 1, at_most(o.left, fuel), a)
            },
        }
    }
}

/// One statement.
#[verifier::opaque]
pub open spec fn execute(st: Store, s: StmtView, fuel: nat, a: Oracle) -> Outcome<()>
    decreases fuel, 0nat, 0nat,
{
    if fuel == 0 {
        failed(st, out_of_steps(), 0)
    } else {
        let f = (fuel - 1) as nat;
        match s {
            StmtView::Expression { expression } => done(eval(st, expression, f, a)),
            StmtView::Print { expression } => {
                let o = eval(st, expression, f, a);
                match o.result {
                    Err(message) => failed(o.store, message, o.left),
                    Ok(v) => {
                        let t = text(o.store, v, a);
                        fine(t.store.write(t.value + "\n"@), (), o.left)
                    },
                }
            },
            StmtView::Limpar { expression } => {
                let o = eval(st, expression, f, a);
                match o.result {
                    Err(message) => failed(o.store, message, o.left),
                    Ok(v) => {
                        let t = text(o.store, v, a);
                        fine(t.store.write(cleared(translated(t.value))), (), o.left)
                    },
                }
            },
            StmtView::Var { name, initializer } => {
                let o = eval(st, initializer, f, a);
                match o.result {
                    Err(message) => failed(o.store, message, o.left),
                    Ok(v) => fine(o.store.bind(o.store.current as int, name.lexeme, v), (), o.left),
                }
            },
            StmtView::Block { statements } => block(st, statements, f, a),
            StmtView::Class { name, methods, superclass } => class(
                st,
                name.lexeme,
                methods,
                superclass,
                f,
                a,
            ),
            StmtView::IfStmt { predicate, then, els } => conditional(st, predicate, *then, els, f, a),
            StmtView::WhileStmt { condition, body } => repeat(st, condition, *body, f, a),
            StmtView::Function { name, params, body } => fine(
                st.add_function(
                    FunctionView {
                        name: name.lexeme,
                        params: lexemes(params),
                        body,
                        parent_env: st.current,
                    },
                ).bind(
                    st.current as int,
                    name.lexeme,
                    ValueView::Function { function: st.functions.len() as usize, env: st.current },
                ),
                (),
                f,
            ),
            StmtView::CmdFunction { name, cmd } => fine(
                st.add_native(NativeView { name: name.lexeme, arity: 0, command: cmd }).bind(
                    st.current as int,
                    name.lexeme,
                    ValueView::Native { native: st.natives.len() as usize },
                ),
                (),
                f,
            ),
            StmtView::ReturnStmt { keyword, value } => match value {
                Some(e) => {
                    let o = eval(st, e, f, a);
                    match o.result {
                        Err(message) => failed(o.store, message, o.left),
                        Ok(v) => fine(o.store.leave(Some(v)), (), o.left),
                    }
                },
                None => fine(st.leave(Some(ValueView::Nil)), (), f),
            },
        }
    }
}

/// The statements of a block, in a new scope within the current one.
/// The scope that was current is so again afterwards, whether they
/// failed or not.
#[verifier::opaque]
pub open spec fn block(st: Store, statements: Seq<StmtView>, fuel: nat, a: Oracle) -> Outcome<()>
    decreases fuel, 3nat, 0nat,
{
    let scope = st.scopes.len() as usize;
    let o = interpret(st.enclose(st.current).enter(scope), statements, 0, fuel, a);
    Outcome { store: o.store.enter(st.current), result: o.result, left: o.left }
}

/// A conditional: the branch that the predicate chooses.
#[verifier::opaque]
pub open spec fn conditional(
    st: Store,
    predicate: ExprView,
    then: StmtView,
    els: Option<Box<StmtView>>,
    fuel: nat,
    a: Oracle,
) -> Outcome<()>
    decreases fuel, 1nat, 0nat,
{
    let o = eval(st, predicate, fuel, a);
    match o.result {
        Err(message) => failed(o.store, message, o.left),
        Ok(v) => if truthy(v) {
            execute(o.store, then, at_most(o.left, fuel), a)
        } else {
            match els {
                Some(other) => execute(o.store, *other, at_most(o.left, fuel), a),
                None => fine(o.store, (), o.left),
            }
        },
    }
}

/// A loop: the body as long as the condition, tested before each round,
/// counts as true and no value was left for the call around. (Each round
/// takes a step; the case that it took none never comes.)
#[verifier::opaque]
pub open spec fn repeat(st: Store, condition: ExprView, body: StmtView, fuel: nat, a: Oracle) -> Outcome<()>
    decreases fuel, 1nat, 0nat,
{
    let test = eval(st, condition, fuel, a);
    match test.result {
        Err(message) => failed(test.store, message, test.left),
        Ok(v) => if !truthy(v) {
            fine(test.store, (), test.left)
        } else {
            let round = execute(test.store, body, at_most(test.left, fuel), a);
            match round.result {
                Err(_) => round,
                Ok(_) => if round.store.specials is Some {
                    round
                } else if round.left < fuel {
                    repeat(round.store, condition, body, round.left, a)
                } else {
                    failed(round.store, out_of_steps(), round.left)
                },
            }
        },
    }
}

/// A class declaration: the class above is valued, if one is named, and
/// must be a class; the name is bound to nothing in the current scope;
/// the methods are made in a new scope, which binds `super` to the class
/// above if there is one; the name is bound to the class in the
/// outermost scope, which must bind it already.
#[verifier::opaque]
pub open spec fn class(
    st: Store,
    name: Seq<char>,
    methods: Seq<StmtView>,
    superclass: Option<ExprView>,
    fuel: nat,
    a: Oracle,
) -> Outcome<()>
    decreases fuel, 1nat, 0nat,
{
    let above: Outcome<Option<usize>> = match superclass {
        Some(e) => {
            let o = eval(st, e, fuel, a);
            match o.result {
                Err(message) => failed(o.store, message, o.left),
                Ok(ValueView::Class(c)) => fine(o.store, Some(c), o.left),
                Ok(other) => failed(
                    o.store,
                    "O objeto superior precisa ser uma classe, não um "@ + kind_name(other),
                    o.left,
                ),
            }
        },
        None => fine(st, None, fuel),
    };
    match above.result {
        Err(message) => failed(above.store, message, above.left),
        Ok(parent) => {
            let named = above.store.bind(above.store.current as int, name, ValueView::Nil);
            let scope = named.scopes.len() as usize;
            let inside = named.enclose(named.current).enter(scope);
            let ready = match parent {
                Some(c) => inside.bind(scope as int, "super"@, ValueView::Class(c)),
                None => inside,
            };
            let made = make_methods(ready, methods, 0, Map::empty());
            match made.value {
                None => failed(
                    made.store.enter(st.current),
                    "O método da classe precisa ser uma função"@,
                    above.left,
                ),
                Some(by_name) => {
                    let index = made.store.classes.len() as usize;
                    let with_class = made.store.add_class(
                        ClassView { name, methods: by_name, superclass: parent },
                    );
                    if with_class.read(Some(0int), name) is Some {
                        fine(
                            with_class.bind(0, name, ValueView::Class(index)).enter(st.current),
                            (),
                            above.left,
                        )
                    } else {
                        failed(
                            with_class.enter(st.current),
                            "A definição da classe falhou para "@ + name,
                            above.left,
                        )
                    }
                },
            }
        },
    }
}

/// The answers `a` are those that the host gave, from the `from`-th on.
pub open spec fn told(a: Oracle, log: Seq<Answer>, from: nat) -> bool {
    forall|i: nat| from <= i < log.len() ==> #[trigger] a(i) == log[i as int]
}

/// Binding parameters changes the bindings of their scope alone.
proof fn lemma_bind_all(st: Store, scope: int, names: Seq<Seq<char>>, values: Seq<ValueView>, i: int)
    requires
        0 <= scope < st.scopes.len(),
        0 <= i,
    ensures
        ({
            let after = bind_all(st, scope, names, values, i);
            &&& after.scopes.len() == st.scopes.len()
            &&& forall|j: int|
                0 <= j < st.scopes.len() ==> (#[trigger] after.scopes[j]).enclosing
                    == st.scopes[j].enclosing
            &&& forall|j: int|
                0 <= j < st.scopes.len() && j != scope ==> #[trigger] after.scopes[j] == st.scopes[j]
            &&& after.functions == st.functions
            &&& after.current == st.current
        }),
    decreases names.len() - i,
{
    if i < names.len() {
        lemma_bind_all(st.bind(scope, names[i], values[i]), scope, names, values, i + 1);
    }
}

/// Where the left operand of `ou` or `e` decides, the right operand is
/// not looked at: the expression leaves the state that its left operand
/// left, and has the value of its left operand.
pub proof fn lemma_short_circuit(
    st: Store,
    id: nat,
    left: ExprView,
    operator: TokenView,
    right: ExprView,
    fuel: nat,
    a: Oracle,
)
    requires
        fuel > 0,
        eval(st, left, (fuel - 1) as nat, a).result matches Ok(l) && decided(operator.token_type, l),
    ensures
        ({
            let first = eval(st, left, (fuel - 1) as nat, a);
            let whole = eval(
                st,
                ExprView::Logical { id, left: Box::new(left), operator, right: Box::new(right) },
                fuel,
                a,
            );
            &&& whole.store == first.store
            &&& whole.result == first.result
        }),
{
    reveal(eval);
    reveal(logical_expr);
    reveal(logical);
    let f = (fuel - 1) as nat;
    let first = eval(st, left, f, a);
    let l = first.result->Ok_0;
    let whole = eval(
        st,
        ExprView::Logical { id, left: Box::new(left), operator, right: Box::new(right) },
        fuel,
        a,
    );
    assert(whole == logical_expr(st, left, operator, right, f, a));
    assert(logical_expr(st, left, operator, right, f, a) == logical(
        first.store,
        l,
        operator.token_type,
        right,
        at_most(first.left, f),
        a,
    ));
    assert(logical(first.store, l, operator.token_type, right, at_most(first.left, f), a) == fine(
        first.store,
        l,
        at_most(first.left, f),
    ));
}

/// A method that was taken from an instance sees that instance as `este`
/// when it is called, whatever its arguments and whatever happened
/// between the taking and the call to other scopes: the method closes
/// over a scope that binds `este` to the instance, and its body starts
/// to run in a scope within that one.
pub proof fn lemma_method_sees_its_instance(
    st: Store,
    instance: usize,
    name: Seq<char>,
    later: Store,
    args: Seq<ValueView>,
)
    requires
        property(st, instance, name).value matches Ok(ValueView::Function { function, env }),
        !st.instances[instance as int].fields.contains_key(name),
        st.scopes.len() < later.scopes.len() < usize::MAX,
        later.scopes[st.scopes.len() as int] == property(st, instance, name).store.scopes[st.scopes.len() as int],
    ensures
        ({
            let method = property(st, instance, name).value->Ok_0;
            let ready = ready_to_run(later, method->function, method->env, args);
            ready.read(outward(ready.scopes, ready.current as int, 1), "este"@) == Some(
                ValueView::Instance(instance),
            )
        }),
{
    let method = property(st, instance, name).value->Ok_0;
    let function = method->function;
    let env = method->env;
    let closed = st.scopes.len() as int;
    let scope = later.scopes.len() as int;
    let entered = later.enclose(env);
    lemma_bind_all(entered, scope, later.functions[function as int].params, args, 0);
    let ready = ready_to_run(later, function, env, args);
    assert(ready.scopes[scope].enclosing == Some(env));
    assert(ready.scopes[closed] == later.scopes[closed]);
    assert(outward(ready.scopes, closed, 0) == Some(closed));
    assert(outward(ready.scopes, scope, 1) == outward(ready.scopes, closed, (1 - 1) as nat));
    assert(ready.scopes[closed].values.contains_key("este"@));
}

/// The scope that is `hops` steps outward stays the same when scopes are
/// added.
proof fn lemma_outward_grows(before: Seq<ScopeView>, after: Seq<ScopeView>, from: int, hops: nat)
    requires
        before.len() <= after.len(),
        forall|i: int|
            0 <= i < before.len() ==> (#[trigger] after[i]).enclosing == before[i].enclosing,
        outward(before, from, hops) is Some,
    ensures
        outward(after, from, hops) == outward(before, from, hops),
        0 <= outward(before, from, hops)->Some_0 < before.len(),
    decreases hops,
{
    if hops > 0 {
        match before[from].enclosing {
            Some(outer) => {
                lemma_outward_grows(before, after, outer as int, (hops - 1) as nat);
            },
            None => {},
        }
    }
}

/// What was bound through one handle is read through every handle that
/// leads to the same scope, whatever scopes were made since and
/// whichever scope is current: a scope outlives the block that made it,
/// and a function that closes over it reads what another wrote there.
pub proof fn lemma_captured_binding(
    st: Store,
    later: Store,
    writer: int,
    hops: nat,
    reader: int,
    steps: nat,
    name: Seq<char>,
    value: ValueView,
)
    requires
        outward(st.scopes, writer, hops) is Some,
        outward(st.scopes, reader, steps) == outward(st.scopes, writer, hops),
        st.scopes.len() <= later.scopes.len(),
        forall|i: int|
            0 <= i < st.scopes.len() ==> #[trigger] later.scopes[i] == st.bind(
                outward(st.scopes, writer, hops)->Some_0,
                name,
                value,
            ).scopes[i],
    ensures
        later.read(outward(later.scopes, reader, steps), name) == Some(value),
{
    let at = outward(st.scopes, writer, hops)->Some_0;
    lemma_outward_grows(st.scopes, st.scopes, writer, hops);
    assert forall|i: int| 0 <= i < st.scopes.len() implies (#[trigger] later.scopes[i]).enclosing
        == st.scopes[i].enclosing by {
        assert(later.scopes[i] == st.bind(at, name, value).scopes[i]);
    }
    lemma_outward_grows(st.scopes, later.scopes, reader, steps);
    assert(later.scopes[at] == st.bind(at, name, value).scopes[at]);
}

} // verus!

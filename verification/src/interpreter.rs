use std::collections::HashMap;
use std::rc::Rc;
use vstd::prelude::*;
use vstd::string::*;
use crate::environment::{Environment, Scope, ancestor, bindings, bound, chained, parents, rebound};
use crate::expr::{Expr, LiteralValue, clone_tokens};
use crate::host::{Arithmetic, Host};
use crate::model::{
    Answer,
    ClassView,
    FunctionView,
    InstanceView,
    NativeView,
    Oracle,
    ScopeView,
    Store,
    method_of,
    outward,
};
use crate::resolver::nat_map;
use crate::scanner::{Token, TokenType, token_views};
use crate::semantics::{self, Outcome, Valued, lexemes, told};
use crate::stmt::{Stmt, clone_stmts, stmt_views};
use crate::table::Table;
use crate::text::{chars_of, push_decimal, string_of};
use crate::value::{CallableImpl, Value, ValueView, kind_name, less, less_equal, negated, truth, truthy};

verus! {

/// A function of the program: its name, its parameters and its body, and
/// the scope in which it was declared.
pub struct LoxFunctionImpl {
    pub name: String,
    pub arity: usize,
    pub parent_env: usize,
    pub params: Vec<Token>,
    pub body: Rc<Vec<Stmt>>,
}

/// A command of the host that can be called as a function without
/// arguments.
pub struct NativeFunctionImpl {
    pub name: String,
    pub arity: usize,
    pub command: String,
}

/// A class: its name, its methods by name as numbers of functions, and
/// the class above it.
pub struct LoxClass {
    pub name: String,
    pub methods: Table<usize>,
    pub superclass: Option<usize>,
}

/// An instance: its class and its fields.
pub struct LoxInstance {
    pub class: usize,
    pub fields: Table<Value>,
}

pub struct Interpreter {
    /// The value that a `retorna` left for the call around it.
    pub specials: Option<Value>,
    pub environment: Environment,
    pub doc: String,
    pub functions: Vec<LoxFunctionImpl>,
    pub natives: Vec<NativeFunctionImpl>,
    pub classes: Vec<LoxClass>,
    pub instances: Vec<LoxInstance>,
    /// What the program wrote, piece by piece.
    pub output: Vec<String>,
    /// The number of steps that the program may still take.
    pub fuel: u64,
    /// What the host answered so far.
    pub log: Ghost<Seq<Answer>>,
}

pub open spec fn value_views(m: Map<Seq<char>, Value>) -> Map<Seq<char>, ValueView> {
    m.map_values(|v: Value| v@)
}

pub open spec fn scope_view(s: Scope) -> ScopeView {
    ScopeView { values: value_views(s.values@), enclosing: s.enclosing }
}

pub open spec fn scope_views(scopes: Seq<Scope>) -> Seq<ScopeView> {
    Seq::new(scopes.len(), |i: int| scope_view(scopes[i]))
}

pub open spec fn function_view(f: LoxFunctionImpl) -> FunctionView {
    FunctionView {
        name: f.name@,
        params: lexemes(token_views(f.params@)),
        body: stmt_views(f.body@),
        parent_env: f.parent_env,
    }
}

pub open spec fn native_view(f: NativeFunctionImpl) -> NativeView {
    NativeView { name: f.name@, arity: f.arity, command: f.command@ }
}

pub open spec fn class_view(c: LoxClass) -> ClassView {
    ClassView { name: c.name@, methods: c.methods@, superclass: c.superclass }
}

pub open spec fn instance_view(i: LoxInstance) -> InstanceView {
    InstanceView { class: i.class, fields: value_views(i.fields@) }
}

pub open spec fn texts(v: Seq<String>) -> Seq<Seq<char>> {
    Seq::new(v.len(), |i: int| v[i]@)
}

pub open spec fn values_view(v: Seq<Value>) -> Seq<ValueView> {
    Seq::new(v.len(), |i: int| v[i]@)
}

pub open spec fn some_value_view(v: Option<Value>) -> Option<ValueView> {
    match v {
        Some(v) => Some(v@),
        None => None,
    }
}

pub open spec fn value_result(r: Result<Value, String>) -> Result<ValueView, Seq<char>> {
    match r {
        Ok(v) => Ok(v@),
        Err(m) => Err(m@),
    }
}

pub open spec fn unit_result(r: Result<(), String>) -> Result<(), Seq<char>> {
    match r {
        Ok(_) => Ok(()),
        Err(m) => Err(m@),
    }
}

pub open spec fn values_result(r: Result<Vec<Value>, String>) -> Result<Seq<ValueView>, Seq<char>> {
    match r {
        Ok(v) => Ok(values_view(v@)),
        Err(m) => Err(m@),
    }
}

impl View for Interpreter {
    type V = Store;

    open spec fn view(&self) -> Store {
        Store {
            scopes: scope_views(self.environment.scopes@),
            current: self.environment.current,
            locals: nat_map(self.environment.locals@),
            functions: Seq::new(self.functions@.len(), |i: int| function_view(self.functions@[i])),
            natives: Seq::new(self.natives@.len(), |i: int| native_view(self.natives@[i])),
            classes: Seq::new(self.classes@.len(), |i: int| class_view(self.classes@[i])),
            instances: Seq::new(self.instances@.len(), |i: int| instance_view(self.instances@[i])),
            output: texts(self.output@),
            specials: some_value_view(self.specials),
            asked: self.log@.len(),
        }
    }
}

/// How many scopes, functions, commands, classes and instances there are.
pub struct Sizes {
    pub scopes: nat,
    pub functions: nat,
    pub natives: nat,
    pub classes: nat,
    pub instances: nat,
}

/// Whether what a value refers to is there.
pub open spec fn valid(v: Value, z: Sizes) -> bool {
    match v {
        Value::Callable(CallableImpl::LoxFunction { function, env }) => function < z.functions
            && env < z.scopes,
        Value::Callable(CallableImpl::NativeFunction { native }) => native < z.natives,
        Value::LoxClass(c) => c < z.classes,
        Value::LoxInstance(i) => i < z.instances,
        _ => true,
    }
}

pub open spec fn all_valid(m: Map<Seq<char>, Value>, z: Sizes) -> bool {
    forall|k: Seq<char>| m.contains_key(k) ==> valid(#[trigger] m[k], z)
}

pub open spec fn no_less(a: Sizes, b: Sizes) -> bool {
    &&& a.scopes >= b.scopes
    &&& a.functions >= b.functions
    &&& a.natives >= b.natives
    &&& a.classes >= b.classes
    &&& a.instances >= b.instances
}

/// The scope that is `hops` steps outward is the same for the scopes and
/// for what they are seen as.
pub proof fn lemma_outward(scopes: Seq<Scope>, from: int, hops: nat)
    ensures
        ancestor(scopes, from, hops) == outward(scope_views(scopes), from, hops),
    decreases hops,
{
    if 0 <= from < scopes.len() && hops > 0 {
        match scopes[from].enclosing {
            Some(outer) => {
                lemma_outward(scopes, outer as int, (hops - 1) as nat);
            },
            None => {},
        }
    }
}

/// The methods of the classes are found alike in the classes and in what
/// they are seen as.
proof fn lemma_method_of(classes: Seq<LoxClass>, class: int, name: Seq<char>)
    ensures
        method_of(Seq::new(classes.len(), |i: int| class_view(classes[i])), class, name) == (if 0
            <= class < classes.len() {
            if classes[class].methods@.contains_key(name) {
                Some(classes[class].methods@[name])
            } else {
                match classes[class].superclass {
                    Some(above) => if above < class {
                        method_of(
                            Seq::new(classes.len(), |i: int| class_view(classes[i])),
                            above as int,
                            name,
                        )
                    } else {
                        None
                    },
                    None => None,
                }
            }
        } else {
            None
        }),
{
}

/// After a binding was put into one scope, the scopes are seen as before
/// but for that binding, and every binding is valid if it was before and
/// the new value is.
proof fn lemma_rebound(before: Seq<Scope>, after: Seq<Scope>, at: int, name: Seq<char>, value: Value, z: Sizes)
    requires
        0 <= at < before.len(),
        parents(after) == parents(before),
        bindings(after) == rebound(before, at, name, value),
        valid(value, z),
        forall|i: int| 0 <= i < before.len() ==> all_valid((#[trigger] before[i]).values@, z),
    ensures
        after.len() == before.len(),
        forall|i: int| 0 <= i < after.len() ==> all_valid((#[trigger] after[i]).values@, z),
        scope_views(after) == scope_views(before).update(
            at,
            ScopeView {
                values: scope_views(before)[at].values.insert(name, value@),
                enclosing: scope_views(before)[at].enclosing,
            },
        ),
{
    assert(bindings(after).len() == after.len());
    assert(parents(after).len() == after.len());
    assert forall|i: int| 0 <= i < after.len() implies all_valid((#[trigger] after[i]).values@, z) by {
        assert(bindings(after)[i] == after[i].values@);
        assert(bindings(before)[i] == before[i].values@);
        assert(all_valid(before[i].values@, z));
    }
    let expected = scope_views(before).update(
        at,
        ScopeView {
            values: scope_views(before)[at].values.insert(name, value@),
            enclosing: scope_views(before)[at].enclosing,
        },
    );
    assert forall|i: int| 0 <= i < after.len() implies scope_views(after)[i] == expected[i] by {
        assert(bindings(after)[i] == after[i].values@);
        assert(bindings(before)[i] == before[i].values@);
        assert(parents(after)[i] == after[i].enclosing);
        assert(parents(before)[i] == before[i].enclosing);
        if i == at {
            assert(value_views(before[i].values@.insert(name, value)) =~= value_views(
                before[i].values@,
            ).insert(name, value@));
        }
    }
    assert(scope_views(after) =~= expected);
}

/// Hands out another handle to a shared value. Wraps `Rc::clone`, which
/// gives a pointer to the same allocation: the contract says that what
/// the two point to is equal.
#[verifier::external_body]
fn share(body: &Rc<Vec<Stmt>>) -> (r: Rc<Vec<Stmt>>)
    ensures
        r == *body,
{
    Rc::clone(body)
}

impl Interpreter {
    pub open spec fn sizes(&self) -> Sizes {
        Sizes {
            scopes: self.environment.scopes@.len(),
            functions: self.functions@.len(),
            natives: self.natives@.len(),
            classes: self.classes@.len(),
            instances: self.instances@.len(),
        }
    }

    /// Every handle that is stored anywhere leads to something: the
    /// scopes are chained, each function closes over a scope that is
    /// there and takes as many arguments as it has parameters, each
    /// method is a function, each class lies below one that was made
    /// before it, and each instance belongs to a class.
    pub open spec fn wf(&self) -> bool {
        &&& self.environment.wf()
        &&& forall|i: int|
            0 <= i < self.environment.scopes@.len() ==> all_valid(
                (#[trigger] self.environment.scopes@[i]).values@,
                self.sizes(),
            )
        &&& forall|i: int|
            0 <= i < self.functions@.len() ==> (#[trigger] self.functions@[i]).parent_env
                < self.environment.scopes@.len() && self.functions@[i].arity
                == self.functions@[i].params@.len()
        &&& forall|i: int|
            0 <= i < self.classes@.len() ==> {
                &&& (#[trigger] self.classes@[i]).methods.wf()
                &&& forall|k: Seq<char>|
                    self.classes@[i].methods@.contains_key(k) ==> (#[trigger] self.classes@[i].methods@[k])
                        < self.functions@.len()
                &&& self.classes@[i].superclass matches Some(s) ==> s < i
            }
        &&& forall|i: int|
            0 <= i < self.instances@.len() ==> {
                &&& (#[trigger] self.instances@[i]).class < self.classes@.len()
                &&& self.instances@[i].fields.wf()
                &&& all_valid(self.instances@[i].fields@, self.sizes())
            }
        &&& self.specials matches Some(v) ==> valid(v, self.sizes())
    }

    /// What stays of `before` whatever the program does: nothing that was
    /// made is taken away, what was written stays written and what was
    /// answered stays answered, the current scope and the hop counts are
    /// the same, and no step comes back.
    pub open spec fn follows(&self, before: &Interpreter) -> bool {
        &&& no_less(self.sizes(), before.sizes())
        &&& self.environment.current == before.environment.current
        &&& self.environment.locals == before.environment.locals
        &&& self.fuel <= before.fuel
        &&& self.doc == before.doc
        &&& self.output@.len() >= before.output@.len()
        &&& forall|i: int| 0 <= i < before.output@.len() ==> self.output@[i] == before.output@[i]
        &&& self.log@.len() >= before.log@.len()
        &&& forall|i: int| 0 <= i < before.log@.len() ==> self.log@[i] == before.log@[i]
    }

    /// What a program may leave behind: a state in which every handle
    /// leads somewhere, and that follows the one before.
    pub open spec fn went_on(&self, before: &Interpreter) -> bool {
        &&& self.wf()
        &&& self.follows(before)
    }

    /// Nothing but the scopes differs from `before`.
    pub open spec fn same_but_scopes(&self, before: &Interpreter) -> bool {
        *self == (Interpreter { environment: self.environment, ..*before })
    }

    pub fn new() -> (r: Self)
        ensures
            r.wf(),
            r.sizes() == (Sizes { scopes: 1, functions: 0, natives: 0, classes: 0, instances: 0 }),
            r.environment.current == 0,
            r.environment.scopes@[0].values@ == Map::<Seq<char>, Value>::empty(),
            r.environment.locals@ == Map::<usize, usize>::empty(),
            r.specials is None,
            r.output@.len() == 0,
            r.log@.len() == 0,
            r.fuel == u64::MAX,
            r.doc@ == "flowchart TD\nL3@{ shape: circle, label: \"início\"}\n"@,
            r@ == crate::model::initial(),
    {
        let mut doc = String::new();
        doc.append("flowchart TD\nL3@{ shape: circle, label: \"início\"}\n");
        let r = Self {
            specials: None,
            environment: Environment::new(HashMap::new()),
            doc,
            functions: Vec::new(),
            natives: Vec::new(),
            classes: Vec::new(),
            instances: Vec::new(),
            output: Vec::new(),
            fuel: u64::MAX,
            log: Ghost(Seq::empty()),
        };
        assert(r.doc@ =~= "flowchart TD\nL3@{ shape: circle, label: \"início\"}\n"@);
        proof {
            let st = crate::model::initial();
            assert(value_views(r.environment.scopes@[0].values@) =~= Map::<Seq<char>, ValueView>::empty());
            assert(r@.scopes =~= st.scopes);
            assert(r@.locals =~= st.locals);
            assert(r@.functions =~= st.functions);
            assert(r@.natives =~= st.natives);
            assert(r@.classes =~= st.classes);
            assert(r@.instances =~= st.instances);
            assert(r@.output =~= st.output);
        }
        r
    }

    /// The flowchart document.
    pub fn doc(&self) -> (r: String)
        ensures
            r@ == "```mermaid\n"@ + self.doc@ + "\n```"@,
    {
        let mut out = String::from_str("```mermaid\n");
        out.append(self.doc.as_str());
        out.append("\n```");
        out
    }

    /// Takes the hop counts that the resolver found.
    pub fn resolve(&mut self, locals: HashMap<usize, usize>)
        requires
            old(self).wf(),
        ensures
            final(self).wf(),
            final(self).environment.locals == locals,
            final(self).environment.scopes == old(self).environment.scopes,
            final(self).environment.current == old(self).environment.current,
            final(self).same_but_scopes(old(self)),
            final(self)@ == (Store { locals: nat_map(locals@), ..old(self)@ }),
    {
        self.environment.resolve(locals);
    }

    /// An interpreter on the scopes of `env`, which hold no function, class
    /// or instance.
    pub fn with_env(env: Environment) -> (r: Self)
        requires
            env.wf(),
            forall|i: int|
                0 <= i < env.scopes@.len() ==> all_valid(
                    (#[trigger] env.scopes@[i]).values@,
                    Sizes {
                        scopes: env.scopes@.len(),
                        functions: 0,
                        natives: 0,
                        classes: 0,
                        instances: 0,
                    },
                ),
        ensures
            r.wf(),
            r.environment == env,
            r.sizes() == (Sizes {
                scopes: env.scopes@.len(),
                functions: 0,
                natives: 0,
                classes: 0,
                instances: 0,
            }),
            r.specials is None,
            r.output@.len() == 0,
            r.log@.len() == 0,
            r.doc@.len() == 0,
            r.fuel == u64::MAX,
    {
        Self {
            specials: None,
            environment: env,
            doc: String::new(),
            functions: Vec::new(),
            natives: Vec::new(),
            classes: Vec::new(),
            instances: Vec::new(),
            output: Vec::new(),
            fuel: u64::MAX,
            log: Ghost(Seq::empty()),
        }
    }

    /// An interpreter whose current scope is a new one within the current
    /// scope of `parent`.
    pub fn for_anon(parent: Environment) -> (r: Self)
        requires
            parent.wf(),
            forall|i: int|
                0 <= i < parent.scopes@.len() ==> all_valid(
                    (#[trigger] parent.scopes@[i]).values@,
                    Sizes {
                        scopes: parent.scopes@.len(),
                        functions: 0,
                        natives: 0,
                        classes: 0,
                        instances: 0,
                    },
                ),
        ensures
            r.wf(),
            r.environment.scopes@.len() == parent.scopes@.len() + 1,
            r.environment.scopes@.subrange(0, parent.scopes@.len() as int) == parent.scopes@,
            r.environment.current == parent.scopes@.len(),
            r.environment.scopes@[r.environment.current as int].enclosing == Some(parent.current),
            r.environment.scopes@[r.environment.current as int].values@ == Map::<
                Seq<char>,
                Value,
            >::empty(),
            r.environment.locals == parent.locals,
            r.specials is None,
            r.output@.len() == 0,
            r.log@.len() == 0,
            r.fuel == u64::MAX,
    {
        let mut env = parent;
        let inner = env.enclose();
        env.current = inner;
        assert(env.scopes@.subrange(0, parent.scopes@.len() as int) =~= parent.scopes@);
        Self {
            specials: None,
            environment: env,
            doc: String::new(),
            functions: Vec::new(),
            natives: Vec::new(),
            classes: Vec::new(),
            instances: Vec::new(),
            output: Vec::new(),
            fuel: u64::MAX,
            log: Ghost(Seq::empty()),
        }
    }

    /// The function that a declaration makes in the current scope.
    pub fn make_function(&self, fn_stmt: &Stmt) -> (r: LoxFunctionImpl)
        requires
            fn_stmt is Function,
        ensures
            r.arity == r.params@.len(),
            r.parent_env == self.environment.current,
            function_view(r) == (FunctionView {
                name: fn_stmt@->Function_name.lexeme,
                params: lexemes(fn_stmt@->params),
                body: fn_stmt@->Function_body,
                parent_env: self.environment.current,
            }),
    {
        match fn_stmt {
            Stmt::Function { name, params, body } => {
                let params = clone_tokens(params);
                let body = clone_stmts(body);
                LoxFunctionImpl {
                    name: name.lexeme.clone(),
                    arity: params.len(),
                    parent_env: self.environment.current,
                    params,
                    body: Rc::new(body),
                }
            },
            _ => {
                // A declaration of another kind cannot get here.
                LoxFunctionImpl {
                    name: String::new(),
                    arity: 0,
                    parent_env: self.environment.current,
                    params: Vec::new(),
                    body: Rc::new(Vec::new()),
                }
            },
        }
    }
}

fn replace_escape(text: &Vec<char>, letter: char, with: char) -> (r: Vec<char>)
    ensures
        r@ == semantics::unescaped(text@, letter, with, 0),
{
    let mut out: Vec<char> = Vec::new();
    let mut i: usize = 0;
    while i < text.len()
        invariant
            i <= text@.len(),
            semantics::unescaped(text@, letter, with, 0) == out@ + semantics::unescaped(text@, letter, with, i as int),
        decreases text@.len() - i,
    {
        let ghost before = out@;
        if text[i] == '\\' && i + 1 < text.len() && text[i + 1] == letter {
            out.push(with);
            assert(out@ + semantics::unescaped(text@, letter, with, i + 2) =~= before + (seq![with]
                + semantics::unescaped(text@, letter, with, i + 2)));
            i = i + 2;
        } else {
            out.push(text[i]);
            assert(out@ + semantics::unescaped(text@, letter, with, i + 1) =~= before + (seq![text@[i as int]]
                + semantics::unescaped(text@, letter, with, i + 1)));
            i = i + 1;
        }
    }
    assert(out@ + Seq::<char>::empty() =~= out@);
    out
}

/// Turns the two-character sequences `\n` and `\t` of `text` into a
/// newline and a tab.
pub fn translate(text: &String) -> (r: String)
    ensures
        r@ == semantics::translated(text@),
{
    let chars = chars_of(text.as_str());
    let first = replace_escape(&chars, 'n', '\n');
    let second = replace_escape(&first, 't', '\t');
    let r = string_of(&second, 0, second.len());
    assert(second@.subrange(0, second@.len() as int) =~= second@);
    r
}


/// The float with the other sign, or the error for what is no number.
pub fn negate(value: &Value) -> (r: Result<Value, String>)
    ensures
        value_result(r) == semantics::negate(value@),
{
    match value {
        Value::Number(bits) => Ok(Value::Number(negated(*bits))),
        _ => {
            let mut message = String::from_str("Operador '-' não se aplica a ");
            message.append(value.to_type());
            Err(message)
        },
    }
}

/// What a comparison of two numbers gives.
pub fn compare(kind: TokenType, a: u64, b: u64) -> (r: bool)
    requires
        semantics::compares(kind),
    ensures
        r == semantics::comparison(kind, a, b),
{
    match kind {
        TokenType::Greater => less(b, a),
        TokenType::GreaterEqual => less_equal(b, a),
        TokenType::Less => less(a, b),
        _ => less_equal(a, b),
    }
}


fn mismatch_error(operator: &Token, left: &Value, right: &Value) -> (r: String)
    ensures
        r@ == semantics::mismatch(operator@.lexeme, left@, right@),
{
    let mut message = String::from_str("Operador '");
    message.append(operator.lexeme.as_str());
    message.append("' não se aplica a ");
    message.append(left.to_type());
    message.append(" e ");
    message.append(right.to_type());
    assert(message@ =~= semantics::mismatch(operator@.lexeme, left@, right@));
    message
}

fn arity_message(name: &String, expected: usize, got: usize) -> (r: String)
    ensures
        r@ == semantics::arity_error(name@, expected as nat, got as nat),
{
    let mut message = String::from_str("A função '");
    message.append(name.as_str());
    message.append("' esperava ");
    push_decimal(&mut message, expected);
    message.append(" argumentos, mas recebeu ");
    push_decimal(&mut message, got);
    assert(message@ =~= semantics::arity_error(name@, expected as nat, got as nat));
    message
}

/// The words of a command: its text cut at each space, each piece
/// without its double quotes. Read from the `i`-th character on, with
/// `word` the piece that is being read.
pub open spec fn words_from(text: Seq<char>, i: int, word: Seq<char>) -> Seq<Seq<char>>
    decreases text.len() - i,
{
    if i < 0 || i >= text.len() {
        seq![word]
    } else if text[i] == ' ' {
        seq![word] + words_from(text, i + 1, Seq::empty())
    } else if text[i] == '"' {
        words_from(text, i + 1, word)
    } else {
        words_from(text, i + 1, word.push(text[i]))
    }
}

/// The words of a command.
pub open spec fn words(text: Seq<char>) -> Seq<Seq<char>> {
    words_from(text, 0, Seq::empty())
}

/// Cuts a command into its words.
pub fn command_words(command: &String) -> (r: Vec<String>)
    ensures
        texts(r@) == words(command@),
{
    let chars = chars_of(command.as_str());
    let mut out: Vec<String> = Vec::new();
    let mut word: Vec<char> = Vec::new();
    let mut i: usize = 0;
    while i < chars.len()
        invariant
            i <= chars@.len(),
            words(chars@) == texts(out@) + words_from(chars@, i as int, word@),
        decreases chars@.len() - i,
    {
        let c = chars[i];
        if c == ' ' {
            let done = string_of(&word, 0, word.len());
            assert(word@.subrange(0, word@.len() as int) =~= word@);
            let ghost before = texts(out@);
            out.push(done);
            word = Vec::new();
            assert(texts(out@) =~= before + seq![done@]);
            assert(texts(out@) + words_from(chars@, i + 1, Seq::empty()) =~= before + (seq![done@]
                + words_from(chars@, i + 1, Seq::empty())));
        } else if c != '"' {
            word.push(c);
        }
        i = i + 1;
    }
    let done = string_of(&word, 0, word.len());
    assert(word@.subrange(0, word@.len() as int) =~= word@);
    let ghost before = texts(out@);
    out.push(done);
    assert(texts(out@) =~= before + seq![done@]);
    out
}


impl Interpreter {
    /// Takes one step, if one is left.
    fn tick(&mut self) -> (r: Result<(), String>)
        ensures
            old(self).fuel > 0 ==> r is Ok && *final(self) == (Interpreter {
                fuel: (old(self).fuel - 1) as u64,
                ..*old(self)
            }),
            old(self).fuel == 0 ==> (r matches Err(m) && m@ == semantics::out_of_steps())
                && *final(self) == *old(self),
    {
        if self.fuel == 0 {
            Err(String::from_str("Limite de passos excedido"))
        } else {
            self.fuel = self.fuel - 1;
            Ok(())
        }
    }

    /// Reads the variable `name` of the expression `id`: what it is bound
    /// to as many scopes outward as the resolver counted, or in the
    /// outermost scope where the resolver counted nothing.
    pub fn variable(&self, id: usize, name: &String) -> (r: Result<Value, String>)
        requires
            self.wf(),
        ensures
            value_result(r) == semantics::variable(self@, id as nat, name@),
            r matches Ok(v) ==> valid(v, self.sizes()),
    {
        proof {
            lemma_outward(
                self.environment.scopes@,
                self.environment.current as int,
                self.environment.locals@[id] as nat,
            );
            crate::environment::lemma_ancestor_in_range(
                self.environment.scopes@,
                self.environment.current as int,
                self.environment.locals@[id] as nat,
            );
        }
        let held = match self.environment.locals.get(&id) {
            Some(hops) => self.environment.get_at(*hops, name),
            None => self.environment.get_global(name),
        };
        match held {
            Some(v) => Ok(v),
            None => {
                let mut message = String::from_str("Variável indefinida: ");
                message.append(name.as_str());
                Err(message)
            },
        }
    }

    /// Binds the variable `name` of the expression `id` anew, in the scope
    /// in which reading it finds it.
    pub fn store(&mut self, id: usize, name: &String, value: Value) -> (r: Result<(), String>)
        requires
            old(self).wf(),
            valid(value, old(self).sizes()),
        ensures
            final(self).went_on(old(self)),
            final(self).same_but_scopes(old(self)),
            final(self).sizes() == old(self).sizes(),
            match semantics::assign(old(self)@, id as nat, name@, value@) {
                Some(s) => r is Ok && final(self)@ == s,
                None => (r matches Err(m) && m@ == semantics::undefined(name@)) && *final(self)
                    == *old(self),
            },
    {
        let ghost before = self.environment.scopes@;
        let ghost hops = self.environment.locals@[id] as nat;
        proof {
            lemma_outward(before, self.environment.current as int, hops);
            crate::environment::lemma_ancestor_in_range(
                before,
                self.environment.current as int,
                hops,
            );
        }
        let done = match self.environment.locals.get(&id) {
            Some(hops) => {
                let hops: usize = *hops;
                self.environment.assign_at(hops, name, value)
            },
            None => self.environment.assign_global(name, value),
        };
        if done {
            proof {
                let at = if self.environment.locals@.contains_key(id) {
                    ancestor(before, self.environment.current as int, hops)->Some_0
                } else {
                    0
                };
                lemma_rebound(before, self.environment.scopes@, at, name@, value, self.sizes());
            }
            Ok(())
        } else {
            let mut message = String::from_str("Variável indefinida: ");
            message.append(name.as_str());
            Err(message)
        }
    }

    /// Binds `name` to `value` in the scope `at`.
    pub fn define_in(&mut self, at: usize, name: String, value: Value)
        requires
            old(self).wf(),
            at < old(self).environment.scopes@.len(),
            valid(value, old(self).sizes()),
        ensures
            final(self).went_on(old(self)),
            final(self).same_but_scopes(old(self)),
            final(self).sizes() == old(self).sizes(),
            final(self)@ == old(self)@.bind(at as int, name@, value@),
    {
        let ghost before = self.environment.scopes@;
        self.environment.define_in(at, name, value);
        proof {
            lemma_rebound(before, self.environment.scopes@, at as int, name@, value, self.sizes());
        }
    }

    /// Binds `name` to `value` in the current scope.
    pub fn define(&mut self, name: String, value: Value)
        requires
            old(self).wf(),
            valid(value, old(self).sizes()),
        ensures
            final(self).went_on(old(self)),
            final(self).same_but_scopes(old(self)),
            final(self).sizes() == old(self).sizes(),
            final(self)@ == old(self)@.bind(old(self).environment.current as int, name@, value@),
    {
        let at: usize = self.environment.current;
        self.define_in(at, name, value);
    }

    /// Binds `name` to `value` in the outermost scope, if it is bound
    /// there.
    pub fn assign_global(&mut self, name: &String, value: Value) -> (r: bool)
        requires
            old(self).wf(),
            valid(value, old(self).sizes()),
        ensures
            final(self).went_on(old(self)),
            final(self).same_but_scopes(old(self)),
            final(self).sizes() == old(self).sizes(),
            r == (old(self)@.read(Some(0int), name@) is Some),
            r ==> final(self)@ == old(self)@.bind(0, name@, value@),
            !r ==> *final(self) == *old(self),
    {
        let ghost before = self.environment.scopes@;
        let r = self.environment.assign_global(name, value);
        proof {
            if r {
                lemma_rebound(before, self.environment.scopes@, 0, name@, value, self.sizes());
            }
        }
        r
    }

    /// Makes a new, empty scope within the scope `outer`, and gives its
    /// number.
    pub fn enclose_in(&mut self, outer: usize) -> (r: usize)
        requires
            old(self).wf(),
            outer < old(self).environment.scopes@.len(),
        ensures
            final(self).went_on(old(self)),
            final(self).same_but_scopes(old(self)),
            r == old(self).environment.scopes@.len(),
            final(self).environment.scopes@.len() == old(self).environment.scopes@.len() + 1,
            final(self)@ == old(self)@.enclose(outer),
    {
        let r = self.environment.enclose_in(outer);
        assert(scope_views(self.environment.scopes@) =~= scope_views(
            old(self).environment.scopes@,
        ).push(ScopeView { values: Map::empty(), enclosing: Some(outer) })) by {
            assert(value_views(self.environment.scopes@[r as int].values@) =~= Map::<
                Seq<char>,
                ValueView,
            >::empty());
        }
        r
    }

    /// Makes the scope `at` current.
    pub fn enter(&mut self, at: usize)
        requires
            old(self).wf(),
            at < old(self).environment.scopes@.len(),
        ensures
            final(self).wf(),
            final(self).same_but_scopes(old(self)),
            final(self).environment.scopes == old(self).environment.scopes,
            final(self).environment.locals == old(self).environment.locals,
            final(self).environment.current == at,
            final(self)@ == old(self)@.enter(at),
    {
        self.environment.current = at;
    }

    /// Leaves `value`, or nothing, for the call around.
    pub fn leave(&mut self, value: Option<Value>)
        requires
            old(self).wf(),
            value matches Some(v) ==> valid(v, old(self).sizes()),
        ensures
            final(self).went_on(old(self)),
            *final(self) == (Interpreter { specials: value, ..*old(self) }),
            final(self)@ == old(self)@.leave(some_value_view(value)),
    {
        self.specials = value;
    }

    /// Writes `text`: hands it to the host, and keeps it.
    pub fn write<H: Host>(&mut self, host: &mut H, text: String)
        requires
            old(self).wf(),
        ensures
            final(self).went_on(old(self)),
            *final(self) == (Interpreter { output: final(self).output, ..*old(self) }),
            final(self).output@ == old(self).output@.push(text),
            final(self)@ == old(self)@.write(text@),
    {
        host.write(&text);
        self.output.push(text);
        assert(texts(self.output@) =~= texts(old(self).output@).push(text@));
    }

    /// Takes in a function and gives its number.
    fn add_function(&mut self, function: LoxFunctionImpl) -> (r: usize)
        requires
            old(self).wf(),
            function.parent_env < old(self).environment.scopes@.len(),
            function.arity == function.params@.len(),
        ensures
            final(self).went_on(old(self)),
            r == old(self).functions@.len(),
            final(self).functions@ == old(self).functions@.push(function),
            *final(self) == (Interpreter { functions: final(self).functions, ..*old(self) }),
            final(self)@ == old(self)@.add_function(function_view(function)),
    {
        let r: usize = self.functions.len();
        self.functions.push(function);
        assert(self@.functions =~= old(self)@.functions.push(function_view(function)));
        r
    }

    /// Takes in a command and gives its number.
    fn add_native(&mut self, native: NativeFunctionImpl) -> (r: usize)
        requires
            old(self).wf(),
        ensures
            final(self).went_on(old(self)),
            r == old(self).natives@.len(),
            final(self).natives@ == old(self).natives@.push(native),
            *final(self) == (Interpreter { natives: final(self).natives, ..*old(self) }),
            final(self)@ == old(self)@.add_native(native_view(native)),
    {
        let r: usize = self.natives.len();
        self.natives.push(native);
        assert(self@.natives =~= old(self)@.natives.push(native_view(native)));
        r
    }

    /// Takes in a class and gives its number.
    fn add_class(&mut self, class: LoxClass) -> (r: usize)
        requires
            old(self).wf(),
            class.methods.wf(),
            forall|k: Seq<char>|
                class.methods@.contains_key(k) ==> (#[trigger] class.methods@[k]) < old(self).functions@.len(),
            class.superclass matches Some(s) ==> s < old(self).classes@.len(),
        ensures
            final(self).went_on(old(self)),
            r == old(self).classes@.len(),
            final(self).classes@ == old(self).classes@.push(class),
            *final(self) == (Interpreter { classes: final(self).classes, ..*old(self) }),
            final(self)@ == old(self)@.add_class(class_view(class)),
    {
        let r: usize = self.classes.len();
        self.classes.push(class);
        assert(self@.classes =~= old(self)@.classes.push(class_view(class)));
        r
    }

    /// Makes a new instance of the class `class`, without fields, and
    /// gives its number.
    fn add_instance(&mut self, class: usize) -> (r: usize)
        requires
            old(self).wf(),
            class < old(self).classes@.len(),
        ensures
            final(self).went_on(old(self)),
            r == old(self).instances@.len(),
            final(self).instances@.len() == old(self).instances@.len() + 1,
            *final(self) == (Interpreter { instances: final(self).instances, ..*old(self) }),
            final(self)@ == old(self)@.add_instance(class),
    {
        let r: usize = self.instances.len();
        self.instances.push(LoxInstance { class, fields: Table::new() });
        assert(self@.instances =~= old(self)@.instances.push(
            InstanceView { class, fields: Map::empty() },
        )) by {
            assert(value_views(self.instances@[r as int].fields@) =~= Map::<
                Seq<char>,
                ValueView,
            >::empty());
        }
        r
    }

    /// Sets the field `name` of the instance `instance` to `value`.
    pub fn set_property(&mut self, instance: usize, name: &Token, value: Value)
        requires
            old(self).wf(),
            instance < old(self).instances@.len(),
            valid(value, old(self).sizes()),
        ensures
            final(self).went_on(old(self)),
            final(self).sizes() == old(self).sizes(),
            *final(self) == (Interpreter { instances: final(self).instances, ..*old(self) }),
            final(self)@ == old(self)@.set_field(instance as int, name@.lexeme, value@),
    {
        self.instances[instance].fields.insert(name.lexeme.clone(), value);
        proof {
            let expected = old(self)@.set_field(instance as int, name@.lexeme, value@);
            assert forall|i: int| 0 <= i < self.instances@.len() implies self@.instances[i]
                == expected.instances[i] by {
                if i == instance {
                    assert(value_views(
                        old(self).instances@[i].fields@.insert(name@.lexeme, value),
                    ) =~= value_views(old(self).instances@[i].fields@).insert(
                        name@.lexeme,
                        value@,
                    ));
                }
            }
            assert(self@.instances =~= expected.instances);
        }
    }

    /// Looks for the method `name` in the class `class` and in the
    /// classes above it.
    pub fn find_method(&self, class: usize, name: &String) -> (r: Option<usize>)
        requires
            self.wf(),
            class < self.classes@.len(),
        ensures
            r == method_of(self@.classes, class as int, name@),
            r matches Some(f) ==> f < self.functions@.len(),
    {
        let mut at: usize = class;
        loop
            invariant
                self.wf(),
                at < self.classes@.len(),
                method_of(self@.classes, class as int, name@) == method_of(
                    self@.classes,
                    at as int,
                    name@,
                ),
            decreases at,
        {
            proof {
                lemma_method_of(self.classes@, at as int, name@);
            }
            match self.classes[at].methods.find(name) {
                Some(j) => {
                    return Some(self.classes[at].methods.values[j]);
                },
                None => {},
            }
            match self.classes[at].superclass {
                Some(above) => {
                    at = above;
                },
                None => {
                    return None;
                },
            }
        }
    }

    /// The method `function` with `este` bound to the instance
    /// `instance`: a function that closes over a new scope, which lies
    /// within the scope of the method and binds `este` alone.
    pub fn bind(&mut self, function: usize, instance: usize) -> (r: Value)
        requires
            old(self).wf(),
            function < old(self).functions@.len(),
            instance < old(self).instances@.len(),
        ensures
            final(self).went_on(old(self)),
            final(self).same_but_scopes(old(self)),
            r@ == (ValueView::Function {
                function,
                env: old(self).environment.scopes@.len() as usize,
            }),
            valid(r, final(self).sizes()),
            final(self)@ == old(self)@.bind_method(function, instance),
    {
        let outer: usize = self.functions[function].parent_env;
        let scope = self.enclose_in(outer);
        self.define_in(scope, String::from_str("este"), Value::LoxInstance(instance));
        Value::Callable(CallableImpl::LoxFunction { function, env: scope })
    }

    /// Reads the property `name` of the instance `instance`: a field of
    /// that name, or else the method of that name of its class or of a
    /// class above it, bound to the instance.
    pub fn property(&mut self, instance: usize, name: &Token) -> (r: Result<Value, String>)
        requires
            old(self).wf(),
            instance < old(self).instances@.len(),
        ensures
            final(self).went_on(old(self)),
            final(self).same_but_scopes(old(self)),
            r matches Ok(v) ==> valid(v, final(self).sizes()),
            semantics::property(old(self)@, instance, name@.lexeme) == (Valued {
                store: final(self)@,
                value: value_result(r),
            }),
    {
        match self.instances[instance].fields.find(&name.lexeme) {
            Some(j) => {
                return Ok(self.instances[instance].fields.values[j].clone());
            },
            None => {},
        }
        let class: usize = self.instances[instance].class;
        match self.find_method(class, &name.lexeme) {
            Some(function) => Ok(self.bind(function, instance)),
            None => {
                let mut message = String::from_str("Propriedade indefinida: ");
                message.append(name.lexeme.as_str());
                Err(message)
            },
        }
    }

    /// The method `method` of the class above the one in whose method the
    /// expression `id` stands, bound to the instance at hand.
    pub fn super_method(&mut self, id: usize, keyword: &Token, method: &Token) -> (r: Result<
        Value,
        String,
    >)
        requires
            old(self).wf(),
        ensures
            final(self).went_on(old(self)),
            final(self).same_but_scopes(old(self)),
            r matches Ok(v) ==> valid(v, final(self).sizes()),
            semantics::super_method(old(self)@, id as nat, keyword@.lexeme, method@.lexeme)
                == (Valued { store: final(self)@, value: value_result(r) }),
    {
        let hops: usize = match self.environment.locals.get(&id) {
            Some(hops) => *hops,
            None => {
                return Err(String::from_str("Uso de 'super' fora de uma classe"));
            },
        };
        if hops == 0 {
            return Err(String::from_str("Uso de 'super' fora de um método"));
        }
        proof {
            lemma_outward(self.environment.scopes@, self.environment.current as int, hops as nat);
            lemma_outward(
                self.environment.scopes@,
                self.environment.current as int,
                (hops - 1) as nat,
            );
            crate::environment::lemma_ancestor_in_range(
                self.environment.scopes@,
                self.environment.current as int,
                hops as nat,
            );
            crate::environment::lemma_ancestor_in_range(
                self.environment.scopes@,
                self.environment.current as int,
                (hops - 1) as nat,
            );
        }
        let above = self.environment.get_at(hops, &keyword.lexeme);
        let this = self.environment.get_at(hops - 1, &String::from_str("este"));
        match (above, this) {
            (Some(Value::LoxClass(class)), Some(Value::LoxInstance(instance))) => {
                match self.find_method(class, &method.lexeme) {
                    Some(function) => Ok(self.bind(function, instance)),
                    None => {
                        let mut message = String::from_str("Método indefinido: ");
                        message.append(method.lexeme.as_str());
                        Err(message)
                    },
                }
            },
            _ => Err(String::from_str("Uso de 'super' fora de um método")),
        }
    }

    /// Asks the host for the number that `text` stands for.
    fn ask_number<H: Host>(&mut self, host: &mut H, text: &String) -> (r: u64)
        ensures
            *final(self) == (Interpreter { log: final(self).log, ..*old(self) }),
            final(self).log@ == old(self).log@.push(Answer { number: r, text: Seq::empty() }),
    {
        let r = host.number(text);
        self.log = Ghost(self.log@.push(Answer { number: r, text: Seq::empty() }));
        r
    }

    /// Asks the host for the text of the number `bits`.
    fn ask_text<H: Host>(&mut self, host: &mut H, bits: u64) -> (r: String)
        ensures
            *final(self) == (Interpreter { log: final(self).log, ..*old(self) }),
            final(self).log@ == old(self).log@.push(Answer { number: 0, text: r@ }),
    {
        let r = host.number_text(bits);
        self.log = Ghost(self.log@.push(Answer { number: 0, text: r@ }));
        r
    }

    /// Asks the host for `left op right`.
    fn ask_arithmetic<H: Host>(&mut self, host: &mut H, op: Arithmetic, left: u64, right: u64) -> (r: u64)
        ensures
            *final(self) == (Interpreter { log: final(self).log, ..*old(self) }),
            final(self).log@ == old(self).log@.push(Answer { number: r, text: Seq::empty() }),
    {
        let r = host.arithmetic(op, left, right);
        self.log = Ghost(self.log@.push(Answer { number: r, text: Seq::empty() }));
        r
    }

    /// Asks the host to run a command.
    fn ask_command<H: Host>(&mut self, host: &mut H, words: &Vec<String>) -> (r: String)
        ensures
            *final(self) == (Interpreter { log: final(self).log, ..*old(self) }),
            final(self).log@ == old(self).log@.push(Answer { number: 0, text: r@ }),
    {
        let r = host.run_command(words);
        self.log = Ghost(self.log@.push(Answer { number: 0, text: r@ }));
        r
    }

    /// The value of a constant. That of a number is the host's reading of
    /// its text.
    pub fn literal<H: Host>(&mut self, host: &mut H, value: &LiteralValue) -> (r: Value)
        requires
            old(self).wf(),
        ensures
            final(self).went_on(old(self)),
            *final(self) == (Interpreter { log: final(self).log, ..*old(self) }),
            valid(r, final(self).sizes()),
            forall|a: Oracle|
                #[trigger] told(a, final(self).log@, old(self).log@.len()) ==> semantics::literal(
                    old(self)@,
                    value@,
                    a,
                ) == (Valued { store: final(self)@, value: r@ }),
    {
        match value {
            LiteralValue::Number(text) => Value::Number(self.ask_number(host, text)),
            LiteralValue::StringValue(s) => Value::StringValue(s.clone()),
            LiteralValue::True => Value::True,
            LiteralValue::False => Value::False,
            LiteralValue::Nil => Value::Nil,
        }
    }

    /// The canonical text of a value. That of a number is the host's.
    pub fn stringify<H: Host>(&mut self, host: &mut H, value: &Value) -> (r: String)
        requires
            old(self).wf(),
            valid(*value, old(self).sizes()),
        ensures
            final(self).went_on(old(self)),
            *final(self) == (Interpreter { log: final(self).log, ..*old(self) }),
            forall|a: Oracle|
                #[trigger] told(a, final(self).log@, old(self).log@.len()) ==> semantics::text(
                    old(self)@,
                    value@,
                    a,
                ) == (Valued { store: final(self)@, value: r@ }),
    {
        match value {
            Value::Number(bits) => self.ask_text(host, *bits),
            Value::StringValue(s) => s.clone(),
            Value::True => String::from_str("verdadeiro"),
            Value::False => String::from_str("falso"),
            Value::Nil => String::from_str("nulo"),
            Value::Callable(CallableImpl::LoxFunction { function, env }) => {
                let mut out = String::from_str("<fn ");
                out.append(self.functions[*function].name.as_str());
                out.append(">");
                out
            },
            Value::Callable(CallableImpl::NativeFunction { native }) => {
                let mut out = String::from_str("<fn ");
                out.append(self.natives[*native].name.as_str());
                out.append(">");
                out
            },
            Value::LoxClass(c) => self.classes[*c].name.clone(),
            Value::LoxInstance(i) => {
                let mut out = String::from_str("<");
                out.append(self.classes[self.instances[*i].class].name.as_str());
                out.append(" instância>");
                out
            },
        }
    }

    /// What the binary operator `operator` gives for two values. A
    /// comparison and a test of equality are decided here; arithmetic is
    /// the host's, and so is the text of a number that `+` joins to a
    /// string.
    pub fn binary_op<H: Host>(&mut self, host: &mut H, operator: &Token, left: Value, right: Value) -> (r:
        Result<Value, String>)
        requires
            old(self).wf(),
            valid(left, old(self).sizes()),
            valid(right, old(self).sizes()),
        ensures
            final(self).went_on(old(self)),
            *final(self) == (Interpreter { log: final(self).log, ..*old(self) }),
            r matches Ok(v) ==> valid(v, final(self).sizes()),
            forall|a: Oracle|
                #[trigger] told(a, final(self).log@, old(self).log@.len()) ==> semantics::binary(
                    old(self)@,
                    operator.token_type,
                    operator@.lexeme,
                    left@,
                    right@,
                    a,
                ) == (Valued { store: final(self)@, value: value_result(r) }),
    {
        let kind = operator.token_type;
        match kind {
            TokenType::EqualEqual => Ok(Value::from_bool(left.equals(&right))),
            TokenType::BangEqual => Ok(Value::from_bool(!left.equals(&right))),
            TokenType::Greater | TokenType::GreaterEqual | TokenType::Less | TokenType::LessEqual => {
                match (&left, &right) {
                    (Value::Number(a), Value::Number(b)) => Ok(
                        Value::from_bool(compare(kind, *a, *b)),
                    ),
                    _ => Err(mismatch_error(operator, &left, &right)),
                }
            },
            TokenType::Plus | TokenType::Minus | TokenType::Star | TokenType::Slash => {
                let op = match kind {
                    TokenType::Plus => Arithmetic::Plus,
                    TokenType::Minus => Arithmetic::Minus,
                    TokenType::Star => Arithmetic::Times,
                    _ => Arithmetic::Over,
                };
                match (&left, &right) {
                    (Value::Number(a), Value::Number(b)) => Ok(
                        Value::Number(self.ask_arithmetic(host, op, *a, *b)),
                    ),
                    _ => {
                        let joins = match kind {
                            TokenType::Plus => match (&left, &right) {
                                (Value::StringValue(_), _) => true,
                                (_, Value::StringValue(_)) => true,
                                _ => false,
                            },
                            _ => false,
                        };
                        if joins {
                            let mut out = self.stringify(host, &left);
                            let ghost first = self.log@;
                            let second = self.stringify(host, &right);
                            proof {
                                lemma_split(first, self.log@, old(self).log@.len());
                            }
                            out.append(second.as_str());
                            Ok(Value::StringValue(out))
                        } else {
                            Err(mismatch_error(operator, &left, &right))
                        }
                    },
                }
            },
            _ => Err(mismatch_error(operator, &left, &right)),
        }
    }
}

/// An oracle that answers as the host did up to some point answers as
/// it did up to any point before, and from there on.
proof fn lemma_split(mid: Seq<Answer>, end: Seq<Answer>, from: nat)
    requires
        from <= mid.len() <= end.len(),
        forall|i: int| 0 <= i < mid.len() ==> end[i] == mid[i],
    ensures
        forall|a: Oracle| #[trigger]
            told(a, end, from) ==> told(a, mid, from) && told(a, end, mid.len()),
{
}

/// `o` with `first` put before the values it gave.
pub open spec fn with_values(first: Seq<ValueView>, o: Outcome<Seq<ValueView>>) -> Outcome<Seq<ValueView>> {
    Outcome {
        store: o.store,
        result: match o.result {
            Ok(more) => Ok(first + more),
            Err(message) => Err(message),
        },
        left: o.left,
    }
}

pub open spec fn some_boxed(s: Option<Box<Stmt>>) -> Option<Box<crate::stmt::StmtView>> {
    match s {
        Some(e) => Some(Box::new(e@)),
        None => None,
    }
}

impl Interpreter {
    /// How a piece of the program ended that gave `result` and left the
    /// interpreter as it is.
    pub open spec fn gave<T>(&self, result: Result<T, Seq<char>>) -> Outcome<T> {
        Outcome { store: self@, result, left: self.fuel as nat }
    }

    /// The value of an expression.
    #[verifier::spinoff_prover]
    #[verifier::rlimit(50)]
    pub fn evaluate<H: Host>(&mut self, host: &mut H, e: &Expr) -> (r: Result<Value, String>)
        requires
            old(self).wf(),
        ensures
            final(self).went_on(old(self)),
            r matches Ok(v) ==> valid(v, final(self).sizes()) && final(self).fuel < old(self).fuel,
            old(self).fuel == 0 ==> r is Err,
            forall|a: Oracle|
                #[trigger] told(a, final(self).log@, old(self).log@.len()) ==> semantics::eval(old(self)@, e@, old(self).fuel as nat, a) == final(self).gave(value_result(r)),
        decreases old(self).fuel, 0nat,
    {
        proof {
            reveal(semantics::eval);
            reveal(semantics::assign_expr);
            reveal(semantics::unary_expr);
            reveal(semantics::binary_expr);
            reveal(semantics::logical_expr);
            reveal(semantics::call_expr);
            reveal(semantics::get_expr);
            reveal(semantics::set_expr);
        }
        self.tick()?;
        match e {
            Expr::Literal { id, value } => Ok(self.literal(host, value)),
            Expr::Variable { id, name } => self.variable(*id, &name.lexeme),
            Expr::This { id, keyword } => self.variable(*id, &keyword.lexeme),
            Expr::Assign { id, name, value } => self.assign_expr(host, *id, name, value),
            Expr::Unary { id, operator, right } => self.unary_expr(host, operator, right),
            Expr::Binary { id, left, operator, right } => self.binary_expr(
                host,
                left,
                operator,
                right,
            ),
            Expr::Logical { id, left, operator, right } => self.logical_expr(
                host,
                left,
                operator,
                right,
            ),
            Expr::Grouping { id, expression } => self.evaluate(host, expression),
            Expr::Call { id, callee, paren, arguments } => self.call_expr(host, callee, arguments),
            Expr::Get { id, object, name } => self.get_expr(host, object, name),
            Expr::SetField { id, object, name, value } => self.set_expr(host, object, name, value),
            Expr::Super { id, keyword, method } => self.super_method(*id, keyword, method),
            Expr::AnonFunction { id, paren, arguments, body } => {
                let params = clone_tokens(arguments);
                let function = LoxFunctionImpl {
                    name: String::from_str("anon"),
                    arity: params.len(),
                    parent_env: self.environment.current,
                    params,
                    body: Rc::new(clone_stmts(body)),
                };
                let env: usize = self.environment.current;
                let index = self.add_function(function);
                Ok(Value::Callable(CallableImpl::LoxFunction { function: index, env }))
            },
        }
    }

    /// An assignment: the value, bound anew to the variable, is the
    /// result.
    #[verifier::spinoff_prover]
    #[verifier::rlimit(50)]
    fn assign_expr<H: Host>(&mut self, host: &mut H, id: usize, name: &Token, value: &Expr) -> (r:
        Result<Value, String>)
        requires
            old(self).wf(),
        ensures
            final(self).went_on(old(self)),
            r matches Ok(v) ==> valid(v, final(self).sizes()) && final(self).fuel < old(self).fuel,
            forall|a: Oracle|
                #[trigger] told(a, final(self).log@, old(self).log@.len()) ==> semantics::assign_expr(
                        old(self)@,
                        id as nat,
                        name@.lexeme,
                        value@,
                        old(self).fuel as nat,
                        a,
                    ) == final(self).gave(value_result(r)),
        decreases old(self).fuel, 1nat,
    {
        proof {
            reveal(semantics::assign_expr);
            reveal(semantics::eval);
        }
        let v = self.evaluate(host, value)?;
        self.store(id, &name.lexeme, v.clone())?;
        Ok(v)
    }

    #[verifier::spinoff_prover]
    #[verifier::rlimit(50)]
    fn unary_expr<H: Host>(&mut self, host: &mut H, operator: &Token, right: &Expr) -> (r: Result<
        Value,
        String,
    >)
        requires
            old(self).wf(),
        ensures
            final(self).went_on(old(self)),
            r matches Ok(v) ==> valid(v, final(self).sizes()) && final(self).fuel < old(self).fuel,
            forall|a: Oracle|
                #[trigger] told(a, final(self).log@, old(self).log@.len()) ==> semantics::unary_expr(
                        old(self)@,
                        operator@,
                        right@,
                        old(self).fuel as nat,
                        a,
                    ) == final(self).gave(value_result(r)),
        decreases old(self).fuel, 1nat,
    {
        proof {
            reveal(semantics::unary_expr);
            reveal(semantics::eval);
        }
        let v = self.evaluate(host, right)?;
        match operator.token_type {
            TokenType::Minus => negate(&v),
            TokenType::Bang => Ok(Value::from_bool(!v.is_truthy())),
            _ => Err(String::from_str("Operador unário desconhecido")),
        }
    }

    /// A binary operation: the left operand, then the right one, then the
    /// operator.
    #[verifier::spinoff_prover]
    #[verifier::rlimit(50)]
    fn binary_expr<H: Host>(&mut self, host: &mut H, left: &Expr, operator: &Token, right: &Expr) -> (r:
        Result<Value, String>)
        requires
            old(self).wf(),
        ensures
            final(self).went_on(old(self)),
            r matches Ok(v) ==> valid(v, final(self).sizes()) && final(self).fuel < old(self).fuel,
            forall|a: Oracle|
                #[trigger] told(a, final(self).log@, old(self).log@.len()) ==> semantics::binary_expr(
                        old(self)@,
                        left@,
                        operator@,
                        right@,
                        old(self).fuel as nat,
                        a,
                    ) == final(self).gave(value_result(r)),
        decreases old(self).fuel, 1nat,
    {
        proof {
            reveal(semantics::binary_expr);
            reveal(semantics::eval);
        }
        let ghost start = self.log@.len();
        let l = self.evaluate(host, left)?;
        let ghost first = self.log@;
        let result = self.evaluate(host, right);
        let ghost second = self.log@;
        proof {
            lemma_split(first, second, start);
        }
        let r = result?;
        let v = self.binary_op(host, operator, l, r);
        proof {
            lemma_split(first, self.log@, start);
            lemma_split(second, self.log@, first.len());
        }
        v
    }

    /// The value of `left operator right`, `left` being known: `left`
    /// itself where it decides, without a look at `right`; else the value
    /// of `right`.
    #[verifier::spinoff_prover]
    #[verifier::rlimit(50)]
    pub fn logical<H: Host>(&mut self, host: &mut H, left: Value, operator: &Token, right: &Expr) -> (r:
        Result<Value, String>)
        requires
            old(self).wf(),
            valid(left, old(self).sizes()),
        ensures
            final(self).went_on(old(self)),
            r matches Ok(v) ==> valid(v, final(self).sizes()),
            semantics::decided(operator.token_type, left@) ==> r == Ok::<Value, String>(left)
                && *final(self) == *old(self),
            forall|a: Oracle|
                #[trigger] told(a, final(self).log@, old(self).log@.len()) ==> semantics::logical(
                        old(self)@,
                        left@,
                        operator.token_type,
                        right@,
                        old(self).fuel as nat,
                        a,
                    ) == final(self).gave(value_result(r)),
        decreases old(self).fuel, 1nat,
    {
        proof {
            reveal(semantics::logical);
            reveal(semantics::eval);
        }
        let stops = match operator.token_type {
            TokenType::Or => left.is_truthy(),
            _ => !left.is_truthy(),
        };
        if stops {
            Ok(left)
        } else {
            self.evaluate(host, right)
        }
    }

    #[verifier::spinoff_prover]
    #[verifier::rlimit(50)]
    fn logical_expr<H: Host>(&mut self, host: &mut H, left: &Expr, operator: &Token, right: &Expr) -> (r:
        Result<Value, String>)
        requires
            old(self).wf(),
        ensures
            final(self).went_on(old(self)),
            r matches Ok(v) ==> valid(v, final(self).sizes()) && final(self).fuel < old(self).fuel,
            forall|a: Oracle|
                #[trigger] told(a, final(self).log@, old(self).log@.len()) ==> semantics::logical_expr(
                        old(self)@,
                        left@,
                        operator@,
                        right@,
                        old(self).fuel as nat,
                        a,
                    ) == final(self).gave(value_result(r)),
        decreases old(self).fuel, 2nat,
    {
        proof {
            reveal(semantics::logical_expr);
            reveal(semantics::logical);
            reveal(semantics::eval);
        }
        let ghost start = self.log@.len();
        let l = self.evaluate(host, left)?;
        let ghost first = self.log@;
        let v = self.logical(host, l, operator, right);
        proof {
            lemma_split(first, self.log@, start);
        }
        v
    }

    /// The values of the arguments of a call, from left to right.
    #[verifier::spinoff_prover]
    #[verifier::rlimit(50)]
    fn arguments<H: Host>(&mut self, host: &mut H, arguments: &Vec<Expr>) -> (r: Result<
        Vec<Value>,
        String,
    >)
        requires
            old(self).wf(),
        ensures
            final(self).went_on(old(self)),
            r matches Ok(v) ==> v@.len() == arguments@.len() && forall|i: int|
                0 <= i < v@.len() ==> valid(#[trigger] v@[i], final(self).sizes()),
            forall|a: Oracle|
                #[trigger] told(a, final(self).log@, old(self).log@.len()) ==> semantics::arguments(
                        old(self)@,
                        crate::expr::expr_views(arguments@),
                        0,
                        old(self).fuel as nat,
                        a,
                    ) == final(self).gave(values_result(r)),
        decreases old(self).fuel, 1nat,
    {
        let mut values: Vec<Value> = Vec::new();
        let mut i: usize = 0;
        let ghost es = crate::expr::expr_views(arguments@);
        proof {
            reveal(semantics::arguments);
            reveal(semantics::eval);
            assert(values_view(values@) =~= Seq::<ValueView>::empty());
            assert forall|a: Oracle| true implies with_values(
                Seq::empty(),
                #[trigger] semantics::arguments(self@, es, 0, self.fuel as nat, a),
            ) == semantics::arguments(self@, es, 0, self.fuel as nat, a) by {
                let o = semantics::arguments(self@, es, 0, self.fuel as nat, a);
                match o.result {
                    Ok(more) => {
                        assert(Seq::<ValueView>::empty() + more =~= more);
                    },
                    Err(_) => {},
                }
            }
        }
        while i < arguments.len()
            invariant
                i <= arguments@.len(),
                values@.len() == i,
                es == crate::expr::expr_views(arguments@),
                self.went_on(old(self)),
                forall|j: int| 0 <= j < values@.len() ==> valid(#[trigger] values@[j], self.sizes()),
                forall|a: Oracle|
                    #[trigger] told(a, self.log@, old(self).log@.len()) ==> semantics::arguments(
                        old(self)@,
                        es,
                        0,
                        old(self).fuel as nat,
                        a,
                    ) == with_values(
                        values_view(values@),
                        semantics::arguments(self@, es, i as int, self.fuel as nat, a),
                    ),
            decreases arguments@.len() - i,
        {
            proof {
                reveal(semantics::arguments);
                reveal(semantics::eval);
            }
            let ghost before = *self;
            let ghost seen = values_view(values@);
            let result = self.evaluate(host, &arguments[i]);
            proof {
                lemma_split(before.log@, self.log@, old(self).log@.len());
            }
            match result {
                Err(message) => {
                    return Err(message);
                },
                Ok(v) => {
                    values.push(v);
                    proof {
                        assert(values_view(values@) =~= seen + seq![v@]);
                        assert forall|a: Oracle| #[trigger]
                            told(a, self.log@, old(self).log@.len()) implies semantics::arguments(
                            old(self)@,
                            es,
                            0,
                            old(self).fuel as nat,
                            a,
                        ) == with_values(
                            values_view(values@),
                            semantics::arguments(self@, es, i + 1, self.fuel as nat, a),
                        ) by {
                            let rest = semantics::arguments(self@, es, i + 1, self.fuel as nat, a);
                            match rest.result {
                                Ok(more) => {
                                    assert(seen + (seq![v@] + more) =~= (seen + seq![v@]) + more);
                                },
                                Err(_) => {},
                            }
                        }
                    }
                },
            }
            i = i + 1;
        }
        proof {
            reveal(semantics::arguments);
            assert(values_view(values@) + Seq::<ValueView>::empty() =~= values_view(values@));
        }
        Ok(values)
    }

    /// A call: the callee, then the arguments, then the call itself.
    #[verifier::spinoff_prover]
    #[verifier::rlimit(50)]
    fn call_expr<H: Host>(&mut self, host: &mut H, callee: &Expr, arguments: &Vec<Expr>) -> (r: Result<
        Value,
        String,
    >)
        requires
            old(self).wf(),
        ensures
            final(self).went_on(old(self)),
            r matches Ok(v) ==> valid(v, final(self).sizes()) && final(self).fuel < old(self).fuel,
            forall|a: Oracle|
                #[trigger] told(a, final(self).log@, old(self).log@.len()) ==> semantics::call_expr(
                        old(self)@,
                        callee@,
                        crate::expr::expr_views(arguments@),
                        old(self).fuel as nat,
                        a,
                    ) == final(self).gave(value_result(r)),
        decreases old(self).fuel, 5nat,
    {
        proof {
            reveal(semantics::call_expr);
            reveal(semantics::eval);
            reveal(semantics::arguments);
            reveal(semantics::call);
        }
        let ghost start = self.log@.len();
        let c = self.evaluate(host, callee)?;
        let ghost first = self.log@;
        match &c {
            Value::Callable(_) => {},
            Value::LoxClass(_) => {},
            _ => {
                return Err(String::from_str("Somente funções e classes podem ser chamadas"));
            },
        }
        let listed = self.arguments(host, arguments);
        let ghost second = self.log@;
        proof {
            lemma_split(first, second, start);
        }
        let args = listed?;
        let v = self.call(host, c, args);
        proof {
            lemma_split(first, self.log@, start);
            lemma_split(second, self.log@, first.len());
        }
        v
    }

    #[verifier::spinoff_prover]
    #[verifier::rlimit(50)]
    fn get_expr<H: Host>(&mut self, host: &mut H, object: &Expr, name: &Token) -> (r: Result<
        Value,
        String,
    >)
        requires
            old(self).wf(),
        ensures
            final(self).went_on(old(self)),
            r matches Ok(v) ==> valid(v, final(self).sizes()) && final(self).fuel < old(self).fuel,
            forall|a: Oracle|
                #[trigger] told(a, final(self).log@, old(self).log@.len()) ==> semantics::get_expr(
                        old(self)@,
                        object@,
                        name@.lexeme,
                        old(self).fuel as nat,
                        a,
                    ) == final(self).gave(value_result(r)),
        decreases old(self).fuel, 1nat,
    {
        proof {
            reveal(semantics::get_expr);
            reveal(semantics::eval);
        }
        let o = self.evaluate(host, object)?;
        match o {
            Value::LoxInstance(i) => self.property(i, name),
            _ => Err(String::from_str("Somente instâncias têm propriedades")),
        }
    }

    #[verifier::spinoff_prover]
    #[verifier::rlimit(50)]
    fn set_expr<H: Host>(&mut self, host: &mut H, object: &Expr, name: &Token, value: &Expr) -> (r:
        Result<Value, String>)
        requires
            old(self).wf(),
        ensures
            final(self).went_on(old(self)),
            r matches Ok(v) ==> valid(v, final(self).sizes()) && final(self).fuel < old(self).fuel,
            forall|a: Oracle|
                #[trigger] told(a, final(self).log@, old(self).log@.len()) ==> semantics::set_expr(
                        old(self)@,
                        object@,
                        name@.lexeme,
                        value@,
                        old(self).fuel as nat,
                        a,
                    ) == final(self).gave(value_result(r)),
        decreases old(self).fuel, 1nat,
    {
        proof {
            reveal(semantics::set_expr);
            reveal(semantics::eval);
        }
        let ghost start = self.log@.len();
        let o = self.evaluate(host, object)?;
        let ghost first = self.log@;
        match o {
            Value::LoxInstance(i) => {
                let result = self.evaluate(host, value);
                proof {
                    lemma_split(first, self.log@, start);
                }
                let v = result?;
                self.set_property(i, name, v.clone());
                Ok(v)
            },
            _ => Err(String::from_str("Somente instâncias têm campos")),
        }
    }

    /// Calls `callee` with `arguments`. A function or a command is run; a
    /// class makes an instance, which its method `init`, if it has one,
    /// sets up. Nothing else can be called, and nothing with another
    /// number of arguments than it takes.
    #[verifier::spinoff_prover]
    #[verifier::rlimit(50)]
    pub fn call<H: Host>(&mut self, host: &mut H, callee: Value, arguments: Vec<Value>) -> (r: Result<
        Value,
        String,
    >)
        requires
            old(self).wf(),
            valid(callee, old(self).sizes()),
            forall|i: int| 0 <= i < arguments@.len() ==> valid(#[trigger] arguments@[i], old(self).sizes()),
        ensures
            final(self).went_on(old(self)),
            r matches Ok(v) ==> valid(v, final(self).sizes()),
            forall|a: Oracle|
                #[trigger] told(a, final(self).log@, old(self).log@.len()) ==> semantics::call(
                        old(self)@,
                        callee@,
                        values_view(arguments@),
                        old(self).fuel as nat,
                        a,
                    ) == final(self).gave(value_result(r)),
        decreases old(self).fuel, 4nat,
    {
        proof {
            reveal(semantics::call);
            reveal(semantics::call_function);
        }
        match callee {
            Value::Callable(CallableImpl::LoxFunction { function, env }) => {
                let arity: usize = self.functions[function].arity;
                if arity != arguments.len() {
                    return Err(arity_message(&self.functions[function].name, arity, arguments.len()));
                }
                self.call_function(host, function, env, arguments)
            },
            Value::Callable(CallableImpl::NativeFunction { native }) => {
                let arity: usize = self.natives[native].arity;
                if arity != arguments.len() {
                    return Err(arity_message(&self.natives[native].name, arity, arguments.len()));
                }
                let words = command_words(&self.natives[native].command);
                Ok(Value::StringValue(self.ask_command(host, &words)))
            },
            Value::LoxClass(class) => {
                match self.find_method(class, &String::from_str("init")) {
                    Some(function) => {
                        let arity: usize = self.functions[function].arity;
                        if arity != arguments.len() {
                            return Err(
                                arity_message(&self.classes[class].name, arity, arguments.len()),
                            );
                        }
                        let instance = self.add_instance(class);
                        let bound = self.bind(function, instance);
                        match bound {
                            Value::Callable(CallableImpl::LoxFunction { function, env }) => {
                                self.call_function(host, function, env, arguments)?;
                            },
                            _ => {},
                        }
                        Ok(Value::LoxInstance(instance))
                    },
                    None => {
                        if arguments.len() != 0 {
                            return Err(
                                arity_message(&self.classes[class].name, 0, arguments.len()),
                            );
                        }
                        let instance = self.add_instance(class);
                        Ok(Value::LoxInstance(instance))
                    },
                }
            },
            _ => Err(String::from_str("Somente funções e classes podem ser chamadas")),
        }
    }

    /// Binds the parameters of the function `function` to `arguments` in
    /// the scope `scope`.
    fn bind_params(&mut self, scope: usize, function: usize, arguments: &Vec<Value>)
        requires
            old(self).wf(),
            function < old(self).functions@.len(),
            scope < old(self).environment.scopes@.len(),
            old(self).functions@[function as int].arity == arguments@.len(),
            forall|i: int| 0 <= i < arguments@.len() ==> valid(#[trigger] arguments@[i], old(self).sizes()),
        ensures
            final(self).went_on(old(self)),
            final(self).same_but_scopes(old(self)),
            final(self).sizes() == old(self).sizes(),
            final(self)@ == semantics::bind_all(
                old(self)@,
                scope as int,
                old(self)@.functions[function as int].params,
                values_view(arguments@),
                0,
            ),
    {
        let mut i: usize = 0;
        let ghost params = self@.functions[function as int].params;
        while i < arguments.len()
            invariant
                i <= arguments@.len(),
                self.went_on(old(self)),
                self.same_but_scopes(old(self)),
                self.sizes() == old(self).sizes(),
                function < self.functions@.len(),
                self.functions@[function as int].arity == arguments@.len(),
                params == self@.functions[function as int].params,
                params.len() == arguments@.len(),
                scope < self.environment.scopes@.len(),
                forall|j: int| 0 <= j < arguments@.len() ==> valid(#[trigger] arguments@[j], self.sizes()),
                semantics::bind_all(
                    old(self)@,
                    scope as int,
                    params,
                    values_view(arguments@),
                    0,
                ) == semantics::bind_all(
                    self@,
                    scope as int,
                    params,
                    values_view(arguments@),
                    i as int,
                ),
            decreases arguments@.len() - i,
        {
            let name = self.functions[function].params[i].lexeme.clone();
            self.define_in(scope, name, arguments[i].clone());
            i = i + 1;
        }
    }

    /// Runs the function `function`, which closes over the scope `env`:
    /// binds its parameters to `arguments` in a new scope within `env`,
    /// runs its body there, and gives what a `retorna` left, or nothing.
    #[verifier::spinoff_prover]
    #[verifier::rlimit(50)]
    fn call_function<H: Host>(
        &mut self,
        host: &mut H,
        function: usize,
        env: usize,
        arguments: Vec<Value>,
    ) -> (r: Result<Value, String>)
        requires
            old(self).wf(),
            function < old(self).functions@.len(),
            env < old(self).environment.scopes@.len(),
            old(self).functions@[function as int].arity == arguments@.len(),
            forall|i: int| 0 <= i < arguments@.len() ==> valid(#[trigger] arguments@[i], old(self).sizes()),
        ensures
            final(self).went_on(old(self)),
            r matches Ok(v) ==> valid(v, final(self).sizes()),
            forall|a: Oracle|
                #[trigger] told(a, final(self).log@, old(self).log@.len()) ==> semantics::call_function(
                        old(self)@,
                        function,
                        env,
                        values_view(arguments@),
                        old(self).fuel as nat,
                        a,
                    ) == final(self).gave(value_result(r)),
        decreases old(self).fuel, 3nat,
    {
        proof {
            reveal(semantics::call_function);
            reveal(semantics::interpret);
        }
        let saved: usize = self.environment.current;
        let scope = self.enclose_in(env);
        self.bind_params(scope, function, &arguments);
        self.enter(scope);
        self.leave(None);
        let body = share(&self.functions[function].body);
        let result = self.interpret(host, &body);
        self.enter(saved);
        match result {
            Err(message) => {
                self.leave(None);
                Err(message)
            },
            Ok(()) => {
                let value = match &self.specials {
                    Some(v) => v.clone(),
                    None => Value::Nil,
                };
                self.leave(None);
                Ok(value)
            },
        }
    }

    /// Runs statements in source order, up to the first that fails or
    /// that leaves a value for the call around it.
    #[verifier::spinoff_prover]
    #[verifier::rlimit(50)]
    pub fn interpret<H: Host>(&mut self, host: &mut H, stmts: &Vec<Stmt>) -> (r: Result<(), String>)
        requires
            old(self).wf(),
        ensures
            final(self).went_on(old(self)),
            stmts@.len() == 0 ==> r is Ok && *final(self) == *old(self),
            forall|a: Oracle|
                #[trigger] told(a, final(self).log@, old(self).log@.len()) ==> semantics::interpret(
                        old(self)@,
                        stmt_views(stmts@),
                        0,
                        old(self).fuel as nat,
                        a,
                    ) == final(self).gave(unit_result(r)),
        decreases old(self).fuel, 2nat,
    {
        let mut i: usize = 0;
        let ghost ss = stmt_views(stmts@);
        while i < stmts.len()
            invariant
                i <= stmts@.len(),
                ss == stmt_views(stmts@),
                self.went_on(old(self)),
                stmts@.len() == 0 ==> *self == *old(self),
                forall|a: Oracle|
                    #[trigger] told(a, self.log@, old(self).log@.len()) ==> semantics::interpret(
                        old(self)@,
                        ss,
                        0,
                        old(self).fuel as nat,
                        a,
                    ) == semantics::interpret(self@, ss, i as int, self.fuel as nat, a),
            decreases stmts@.len() - i,
        {
            proof {
                reveal(semantics::interpret);
                reveal(semantics::execute);
            }
            let ghost before = *self;
            let result = self.execute(host, &stmts[i]);
            proof {
                lemma_split(before.log@, self.log@, old(self).log@.len());
            }
            match result {
                Err(message) => {
                    return Err(message);
                },
                Ok(()) => {},
            }
            if self.specials.is_some() {
                return Ok(());
            }
            i = i + 1;
        }
        proof {
            reveal(semantics::interpret);
        }
        Ok(())
    }

    /// Runs one statement.
    #[verifier::spinoff_prover]
    #[verifier::rlimit(50)]
    pub fn execute<H: Host>(&mut self, host: &mut H, stmt: &Stmt) -> (r: Result<(), String>)
        requires
            old(self).wf(),
        ensures
            final(self).went_on(old(self)),
            r is Ok ==> final(self).fuel < old(self).fuel,
            old(self).fuel == 0 ==> r is Err,
            forall|a: Oracle|
                #[trigger] told(a, final(self).log@, old(self).log@.len()) ==> semantics::execute(old(self)@, stmt@, old(self).fuel as nat, a) == final(self).gave(unit_result(r)),
        decreases old(self).fuel, 0nat,
    {
        proof {
            reveal(semantics::execute);
            reveal(semantics::eval);
            reveal(semantics::block);
            reveal(semantics::class);
            reveal(semantics::conditional);
            reveal(semantics::repeat);
        }
        self.tick()?;
        match stmt {
            Stmt::Expression { expression } => {
                self.evaluate(host, expression)?;
                Ok(())
            },
            Stmt::Print { expression } => {
                let value = self.evaluate(host, expression)?;
                let ghost first = self.log@;
                let mut text = self.stringify(host, &value);
                proof {
                    lemma_split(first, self.log@, old(self).log@.len());
                }
                text.append("\n");
                self.write(host, text);
                Ok(())
            },
            Stmt::Limpar { expression } => {
                let value = self.evaluate(host, expression)?;
                let ghost first = self.log@;
                let shown = self.stringify(host, &value);
                proof {
                    lemma_split(first, self.log@, old(self).log@.len());
                }
                let text = translate(&shown);
                let mut out = String::from_str(
                    "\u{1b}[2J\u{1b}[1;1H\n[Fe Ferrugem vs 0.1]\nPortugol reescrito em Rust\n\n",
                );
                out.append(text.as_str());
                out.append("\n-------------------------------\n");
                self.write(host, out);
                Ok(())
            },
            Stmt::Var { name, initializer } => {
                let value = self.evaluate(host, initializer)?;
                self.define(name.lexeme.clone(), value);
                Ok(())
            },
            Stmt::Block { statements } => self.block(host, statements),
            Stmt::Class { name, methods, superclass } => self.class(host, name, methods, superclass),
            Stmt::IfStmt { predicate, then, els } => self.conditional(host, predicate, then, els),
            Stmt::WhileStmt { condition, body } => self.repeat(host, condition, body),
            Stmt::Function { name, params, body } => {
                let callable = self.make_function(stmt);
                let env: usize = self.environment.current;
                let index = self.add_function(callable);
                let fun = Value::Callable(CallableImpl::LoxFunction { function: index, env });
                self.define(name.lexeme.clone(), fun);
                Ok(())
            },
            Stmt::CmdFunction { name, cmd } => {
                let index = self.add_native(
                    NativeFunctionImpl { name: name.lexeme.clone(), arity: 0, command: cmd.clone() },
                );
                let fun_val = Value::Callable(CallableImpl::NativeFunction { native: index });
                self.define(name.lexeme.clone(), fun_val);
                Ok(())
            },
            Stmt::ReturnStmt { keyword, value } => {
                let eval_val = match value {
                    Some(value) => self.evaluate(host, value)?,
                    None => Value::Nil,
                };
                self.leave(Some(eval_val));
                Ok(())
            },
        }
    }

    /// Runs the statements of a block in a new scope within the current
    /// one, and makes the scope that was current so again, whether they
    /// failed or not.
    #[verifier::spinoff_prover]
    #[verifier::rlimit(50)]
    fn block<H: Host>(&mut self, host: &mut H, statements: &Vec<Stmt>) -> (r: Result<(), String>)
        requires
            old(self).wf(),
        ensures
            final(self).went_on(old(self)),
            forall|a: Oracle|
                #[trigger] told(a, final(self).log@, old(self).log@.len()) ==> semantics::block(
                        old(self)@,
                        stmt_views(statements@),
                        old(self).fuel as nat,
                        a,
                    ) == final(self).gave(unit_result(r)),
        decreases old(self).fuel, 3nat,
    {
        proof {
            reveal(semantics::block);
            reveal(semantics::interpret);
        }
        let old_environment: usize = self.environment.current;
        let new_environment = self.enclose_in(old_environment);
        self.enter(new_environment);
        let block_result = self.interpret(host, statements);
        self.enter(old_environment);
        block_result
    }

    /// Runs the branch of a conditional that its predicate chooses.
    #[verifier::spinoff_prover]
    #[verifier::rlimit(50)]
    fn conditional<H: Host>(
        &mut self,
        host: &mut H,
        predicate: &Expr,
        then: &Stmt,
        els: &Option<Box<Stmt>>,
    ) -> (r: Result<(), String>)
        requires
            old(self).wf(),
        ensures
            final(self).went_on(old(self)),
            forall|a: Oracle|
                #[trigger] told(a, final(self).log@, old(self).log@.len()) ==> semantics::conditional(
                        old(self)@,
                        predicate@,
                        then@,
                        some_boxed(*els),
                        old(self).fuel as nat,
                        a,
                    ) == final(self).gave(unit_result(r)),
        decreases old(self).fuel, 1nat,
    {
        proof {
            reveal(semantics::conditional);
            reveal(semantics::eval);
            reveal(semantics::execute);
        }
        let truth_value = self.evaluate(host, predicate)?;
        let ghost first = self.log@;
        let r = if truth_value.is_truthy() {
            self.execute(host, then)
        } else {
            match els {
                Some(els_stmt) => self.execute(host, els_stmt),
                None => Ok(()),
            }
        };
        proof {
            lemma_split(first, self.log@, old(self).log@.len());
        }
        r
    }

    /// Runs `body` as long as `condition` counts as true and no value was
    /// left for the call around.
    #[verifier::spinoff_prover]
    #[verifier::rlimit(50)]
    fn repeat<H: Host>(&mut self, host: &mut H, condition: &Expr, body: &Stmt) -> (r: Result<(), String>)
        requires
            old(self).wf(),
        ensures
            final(self).went_on(old(self)),
            forall|a: Oracle|
                #[trigger] told(a, final(self).log@, old(self).log@.len()) ==> semantics::repeat(
                        old(self)@,
                        condition@,
                        body@,
                        old(self).fuel as nat,
                        a,
                    ) == final(self).gave(unit_result(r)),
        decreases old(self).fuel, 1nat,
    {
        loop
            invariant
                self.went_on(old(self)),
                forall|a: Oracle|
                    #[trigger] told(a, self.log@, old(self).log@.len()) ==> semantics::repeat(
                        old(self)@,
                        condition@,
                        body@,
                        old(self).fuel as nat,
                        a,
                    ) == semantics::repeat(self@, condition@, body@, self.fuel as nat, a),
            decreases self.fuel,
        {
            proof {
                reveal(semantics::repeat);
                reveal(semantics::eval);
                reveal(semantics::execute);
            }
            let ghost before = *self;
            let tested = self.evaluate(host, condition);
            let ghost between = *self;
            proof {
                lemma_split(before.log@, self.log@, old(self).log@.len());
            }
            let flag = match tested {
                Err(message) => {
                    return Err(message);
                },
                Ok(flag) => flag,
            };
            if !flag.is_truthy() {
                return Ok(());
            }
            let round = self.execute(host, body);
            proof {
                lemma_split(before.log@, self.log@, old(self).log@.len());
                lemma_split(between.log@, self.log@, before.log@.len());
            }
            match round {
                Err(message) => {
                    return Err(message);
                },
                Ok(()) => {},
            }
            if self.specials.is_some() {
                return Ok(());
            }
        }
    }

    /// Makes the methods of a class in the current scope, and gives them
    /// by name; nothing where one of them is no function declaration.
    fn make_methods(&mut self, methods: &Vec<Stmt>) -> (r: Option<Table<usize>>)
        requires
            old(self).wf(),
        ensures
            final(self).went_on(old(self)),
            *final(self) == (Interpreter { functions: final(self).functions, ..*old(self) }),
            r matches Some(table) ==> table.wf() && forall|k: Seq<char>|
                table@.contains_key(k) ==> (#[trigger] table@[k]) < final(self).functions@.len(),
            semantics::make_methods(old(self)@, stmt_views(methods@), 0, Map::empty()) == (Valued {
                store: final(self)@,
                value: match r {
                    Some(table) => Some(table@),
                    None => None,
                },
            }),
    {
        let mut methods_map: Table<usize> = Table::new();
        let mut i: usize = 0;
        let ghost ms = stmt_views(methods@);
        while i < methods.len()
            invariant
                i <= methods@.len(),
                ms == stmt_views(methods@),
                self.went_on(old(self)),
                *self == (Interpreter { functions: self.functions, ..*old(self) }),
                methods_map.wf(),
                forall|k: Seq<char>|
                    methods_map@.contains_key(k) ==> (#[trigger] methods_map@[k]) < self.functions@.len(),
                semantics::make_methods(old(self)@, ms, 0, Map::empty()) == semantics::make_methods(
                    self@,
                    ms,
                    i as int,
                    methods_map@,
                ),
            decreases methods@.len() - i,
        {
            match &methods[i] {
                Stmt::Function { name, params, body } => {
                    let function = self.make_function(&methods[i]);
                    let index = self.add_function(function);
                    methods_map.insert(name.lexeme.clone(), index);
                },
                _ => {
                    return None;
                },
            }
            i = i + 1;
        }
        Some(methods_map)
    }

    /// Declares a class: binds its name to nothing, makes its methods in
    /// a new scope, which binds `super` to the class above if there is
    /// one, then binds the name to the class in the outermost scope.
    #[verifier::spinoff_prover]
    #[verifier::rlimit(50)]
    fn class<H: Host>(
        &mut self,
        host: &mut H,
        name: &Token,
        methods: &Vec<Stmt>,
        superclass: &Option<Expr>,
    ) -> (r: Result<(), String>)
        requires
            old(self).wf(),
        ensures
            final(self).went_on(old(self)),
            forall|a: Oracle|
                #[trigger] told(a, final(self).log@, old(self).log@.len()) ==> semantics::class(
                        old(self)@,
                        name@.lexeme,
                        stmt_views(methods@),
                        crate::parser::some_expr_view(*superclass),
                        old(self).fuel as nat,
                        a,
                    ) == final(self).gave(unit_result(r)),
        decreases old(self).fuel, 1nat,
    {
        proof {
            reveal(semantics::class);
            reveal(semantics::eval);
        }
        let superclass_value: Option<usize> = match superclass {
            Some(superclass) => {
                let above = self.evaluate(host, superclass)?;
                match above {
                    Value::LoxClass(c) => Some(c),
                    _ => {
                        let mut message = String::from_str(
                            "O objeto superior precisa ser uma classe, não um ",
                        );
                        message.append(above.to_type());
                        return Err(message);
                    },
                }
            },
            None => None,
        };
        self.define(name.lexeme.clone(), Value::Nil);
        let saved: usize = self.environment.current;
        let scope = self.enclose_in(saved);
        self.enter(scope);
        match superclass_value {
            Some(c) => {
                self.define(String::from_str("super"), Value::LoxClass(c));
            },
            None => {},
        }
        let methods_map = match self.make_methods(methods) {
            Some(table) => table,
            None => {
                self.enter(saved);
                return Err(String::from_str("O método da classe precisa ser uma função"));
            },
        };
        let index = self.add_class(
            LoxClass { name: name.lexeme.clone(), methods: methods_map, superclass: superclass_value },
        );
        let klass = Value::LoxClass(index);
        let done = self.assign_global(&name.lexeme, klass);
        self.enter(saved);
        if !done {
            let mut message = String::from_str("A definição da classe falhou para ");
            message.append(name.lexeme.as_str());
            return Err(message);
        }
        Ok(())
    }
}

} // verus!

use std::collections::HashMap;
use vstd::prelude::*;
use vstd::string::*;
use crate::expr::{Expr, ExprView, expr_views};
use crate::scanner::{Token, TokenView, token_views};
use crate::stmt::{Stmt, StmtView, stmt_views};
use crate::table::Table;

verus! {

/// What kind of function body the resolver stands in.
#[derive(Clone, Copy, Debug, PartialEq, Eq, Structural)]
pub enum FunctionType {
    Outside,
    Function,
    Method,
}

/// What kind of class body the resolver stands in.
#[derive(Clone, Copy, Debug, PartialEq, Eq, Structural)]
pub enum ClassType {
    Outside,
    Class,
    Subclass,
}

/// The resolver's state: the lexical scopes from the outermost local one
/// to the innermost, each a map from a declared name to whether it is
/// defined yet; the hop counts found so far; and where the resolver
/// stands.
pub struct State {
    pub scopes: Seq<Map<Seq<char>, bool>>,
    pub locals: Map<nat, nat>,
    pub function: FunctionType,
    pub class: ClassType,
}

pub open spec fn start() -> State {
    State {
        scopes: Seq::empty(),
        locals: Map::empty(),
        function: FunctionType::Outside,
        class: ClassType::Outside,
    }
}

pub open spec fn begin_scope(st: State) -> State {
    State { scopes: st.scopes.push(Map::empty()), ..st }
}

pub open spec fn end_scope(st: State) -> State {
    State { scopes: st.scopes.drop_last(), ..st }
}

/// `name` put into the innermost scope with the mark `ready`. Outside of
/// every local scope nothing is recorded.
pub open spec fn put(st: State, name: Seq<char>, ready: bool) -> State {
    if st.scopes.len() == 0 {
        st
    } else {
        State {
            scopes: st.scopes.update(st.scopes.len() - 1, st.scopes.last().insert(name, ready)),
            ..st
        }
    }
}

/// Declares `name` in the innermost scope, not yet defined. A name may
/// be declared once in a scope.
pub open spec fn declare(st: State, name: Seq<char>) -> Result<State, Seq<char>> {
    if st.scopes.len() > 0 && st.scopes.last().contains_key(name) {
        Err("Já existe uma variável com este nome neste escopo"@)
    } else {
        Ok(put(st, name, false))
    }
}

pub open spec fn define(st: State, name: Seq<char>) -> State {
    put(st, name, true)
}

/// The number of scopes between the innermost one and the innermost among
/// the first `n` that declares `name`.
pub open spec fn found_below(scopes: Seq<Map<Seq<char>, bool>>, name: Seq<char>, n: int) -> Option<nat>
    decreases n,
{
    if n <= 0 {
        None
    } else if scopes[n - 1].contains_key(name) {
        Some((scopes.len() - n) as nat)
    } else {
        found_below(scopes, name, n - 1)
    }
}

/// The hop count of `name`: the number of scopes to walk outward from
/// the innermost one to the nearest that declares it, if one does.
pub open spec fn hops(scopes: Seq<Map<Seq<char>, bool>>, name: Seq<char>) -> Option<nat> {
    found_below(scopes, name, scopes.len() as int)
}

/// Records the hop count of the expression `id`, which names `name`. A
/// name that no scope declares is global and gets no entry.
pub open spec fn resolve_local(st: State, id: nat, name: Seq<char>) -> State {
    match hops(st.scopes, name) {
        Some(k) => State { locals: st.locals.insert(id, k), ..st },
        None => st,
    }
}

/// Declares and defines each of the parameters from the `i`-th on.
pub open spec fn declare_all(st: State, names: Seq<TokenView>, i: int) -> Result<State, Seq<char>>
    decreases names.len() - i,
{
    if i < 0 || i >= names.len() {
        Ok(st)
    } else {
        match declare(st, names[i].lexeme) {
            Err(message) => Err(message),
            Ok(next) => declare_all(define(next, names[i].lexeme), names, i + 1),
        }
    }
}

#[verifier::opaque]
pub open spec fn resolve_expr(st: State, e: ExprView) -> Result<State, Seq<char>>
    decreases e, 0nat,
{
    match e {
        ExprView::AnonFunction { id, paren, arguments, body } => resolve_function(
            st,
            arguments,
            body,
            FunctionType::Function,
        ),
        ExprView::Assign { id, name, value } => match resolve_expr(st, *value) {
            Err(message) => Err(message),
            Ok(next) => Ok(resolve_local(next, id, name.lexeme)),
        },
        ExprView::Binary { id, left, operator, right } => match resolve_expr(st, *left) {
            Err(message) => Err(message),
            Ok(next) => resolve_expr(next, *right),
        },
        ExprView::Call { id, callee, paren, arguments } => match resolve_expr(st, *callee) {
            Err(message) => Err(message),
            Ok(next) => resolve_exprs(next, arguments, 0),
        },
        ExprView::Get { id, object, name } => resolve_expr(st, *object),
        ExprView::Grouping { id, expression } => resolve_expr(st, *expression),
        ExprView::Literal { id, value } => Ok(st),
        ExprView::Logical { id, left, operator, right } => match resolve_expr(st, *left) {
            Err(message) => Err(message),
            Ok(next) => resolve_expr(next, *right),
        },
        ExprView::SetField { id, object, name, value } => match resolve_expr(st, *value) {
            Err(message) => Err(message),
            Ok(next) => resolve_expr(next, *object),
        },
        ExprView::This { id, keyword } => if st.class == ClassType::Outside {
            Err("Não é possível usar 'este' fora de uma classe"@)
        } else {
            Ok(resolve_local(st, id, keyword.lexeme))
        },
        ExprView::Super { id, keyword, method } => if st.class == ClassType::Outside {
            Err("Não é possível usar 'super' fora de uma classe"@)
        } else if st.class == ClassType::Class {
            Err("Não é possível usar 'super' em uma classe sem superclasse"@)
        } else {
            Ok(resolve_local(st, id, keyword.lexeme))
        },
        ExprView::Unary { id, operator, right } => resolve_expr(st, *right),
        ExprView::Variable { id, name } => if st.scopes.len() > 0 && st.scopes.last().contains_key(
            name.lexeme,
        ) && !st.scopes.last()[name.lexeme] {
            Err("Não é possível ler uma variável local no seu próprio inicializador"@)
        } else {
            Ok(resolve_local(st, id, name.lexeme))
        },
    }
}

/// Resolves the expressions from the `i`-th on, in order.
#[verifier::opaque]
pub open spec fn resolve_exprs(st: State, es: Seq<ExprView>, i: int) -> Result<State, Seq<char>>
    decreases es, es.len() - i,
{
    if i < 0 || i >= es.len() {
        Ok(st)
    } else {
        match resolve_expr(st, es[i]) {
            Err(message) => Err(message),
            Ok(next) => resolve_exprs(next, es, i + 1),
        }
    }
}

/// Resolves a function's parameters and body in a scope of their own.
#[verifier::opaque]
pub open spec fn resolve_function(
    st: State,
    params: Seq<TokenView>,
    body: Seq<StmtView>,
    kind: FunctionType,
) -> Result<State, Seq<char>>
    decreases body, body.len() + 1,
{
    let inside = State { function: kind, ..begin_scope(st) };
    match declare_all(inside, params, 0) {
        Err(message) => Err(message),
        Ok(ready) => match resolve_stmts(ready, body, 0) {
            Err(message) => Err(message),
            Ok(done) => Ok(State { function: st.function, ..end_scope(done) }),
        },
    }
}

/// Resolves the methods of a class from the `i`-th on. What is no
/// function declaration is passed over.
#[verifier::opaque]
pub open spec fn resolve_methods(st: State, methods: Seq<StmtView>, i: int) -> Result<State, Seq<char>>
    decreases methods, methods.len() - i,
{
    if i < 0 || i >= methods.len() {
        Ok(st)
    } else {
        let first = match methods[i] {
            StmtView::Function { name, params, body } => resolve_function(
                st,
                params,
                body,
                FunctionType::Method,
            ),
            _ => Ok(st),
        };
        match first {
            Err(message) => Err(message),
            Ok(next) => resolve_methods(next, methods, i + 1),
        }
    }
}

#[verifier::opaque]
pub open spec fn resolve_stmt(st: State, s: StmtView) -> Result<State, Seq<char>>
    decreases s, 0nat,
{
    match s {
        StmtView::Expression { expression } => resolve_expr(st, expression),
        StmtView::Print { expression } => resolve_expr(st, expression),
        StmtView::Limpar { expression } => resolve_expr(st, expression),
        StmtView::Var { name, initializer } => match declare(st, name.lexeme) {
            Err(message) => Err(message),
            Ok(declared) => match resolve_expr(declared, initializer) {
                Err(message) => Err(message),
                Ok(next) => Ok(define(next, name.lexeme)),
            },
        },
        StmtView::Block { statements } => match resolve_stmts(begin_scope(st), statements, 0) {
            Err(message) => Err(message),
            Ok(next) => Ok(end_scope(next)),
        },
        StmtView::Class { name, methods, superclass } => match declare(st, name.lexeme) {
            Err(message) => Err(message),
            Ok(declared) => {
                let named = define(declared, name.lexeme);
                let above = match superclass {
                    Some(e) => match resolve_expr(named, e) {
                        Err(message) => Err(message),
                        Ok(next) => Ok(define(begin_scope(next), "super"@)),
                    },
                    None => Ok(named),
                };
                match above {
                    Err(message) => Err(message),
                    Ok(outer) => {
                        let inside = State {
                            class: if superclass is Some {
                                ClassType::Subclass
                            } else {
                                ClassType::Class
                            },
                            ..define(begin_scope(outer), "este"@)
                        };
                        match resolve_methods(inside, methods, 0) {
                            Err(message) => Err(message),
                            Ok(done) => {
                                let closed = end_scope(done);
                                Ok(
                                    State {
                                        class: st.class,
                                        ..if superclass is Some {
                                            end_scope(closed)
                                        } else {
                                            closed
                                        }
                                    },
                                )
                            },
                        }
                    },
                }
            },
        },
        StmtView::IfStmt { predicate, then, els } => match resolve_expr(st, predicate) {
            Err(message) => Err(message),
            Ok(tested) => match resolve_stmt(tested, *then) {
                Err(message) => Err(message),
                Ok(next) => match els {
                    Some(e) => resolve_stmt(next, *e),
                    None => Ok(next),
                },
            },
        },
        StmtView::WhileStmt { condition, body } => match resolve_expr(st, condition) {
            Err(message) => Err(message),
            Ok(next) => resolve_stmt(next, *body),
        },
        StmtView::Function { name, params, body } => match declare(st, name.lexeme) {
            Err(message) => Err(message),
            Ok(declared) => resolve_function(
                define(declared, name.lexeme),
                params,
                body,
                FunctionType::Function,
            ),
        },
        StmtView::CmdFunction { name, cmd } => match declare(st, name.lexeme) {
            Err(message) => Err(message),
            Ok(declared) => Ok(define(declared, name.lexeme)),
        },
        StmtView::ReturnStmt { keyword, value } => if st.function == FunctionType::Outside {
            Err("Não é possível usar 'retorna' fora de uma função"@)
        } else {
            match value {
                Some(e) => resolve_expr(st, e),
                None => Ok(st),
            }
        },
    }
}

/// Resolves the statements from the `i`-th on, in order.
#[verifier::opaque]
pub open spec fn resolve_stmts(st: State, ss: Seq<StmtView>, i: int) -> Result<State, Seq<char>>
    decreases ss, ss.len() - i,
{
    if i < 0 || i >= ss.len() {
        Ok(st)
    } else {
        match resolve_stmt(st, ss[i]) {
            Err(message) => Err(message),
            Ok(next) => resolve_stmts(next, ss, i + 1),
        }
    }
}

/// What resolving a program gives: the hop count of each expression that
/// names a local, or the first error.
pub open spec fn resolution(program: Seq<StmtView>) -> Result<Map<nat, nat>, Seq<char>> {
    match resolve_stmts(start(), program, 0) {
        Ok(st) => Ok(st.locals),
        Err(message) => Err(message),
    }
}

/// The hop counts as natural numbers.
pub open spec fn nat_map(m: Map<usize, usize>) -> Map<nat, nat> {
    Map::new(
        |k: nat| k <= usize::MAX && m.contains_key(k as usize),
        |k: nat| m[k as usize] as nat,
    )
}

pub open spec fn scope_views(scopes: Seq<Table<bool>>) -> Seq<Map<Seq<char>, bool>> {
    Seq::new(scopes.len(), |i: int| scopes[i]@)
}

pub struct Resolver {
    pub scopes: Vec<Table<bool>>,
    pub locals: HashMap<usize, usize>,
    pub current_function: FunctionType,
    pub current_class: ClassType,
}

impl View for Resolver {
    type V = State;

    open spec fn view(&self) -> State {
        State {
            scopes: scope_views(self.scopes@),
            locals: nat_map(self.locals@),
            function: self.current_function,
            class: self.current_class,
        }
    }
}

/// Whether the resolver ended as the rules say: in the state they give,
/// or with the error they give.
pub open spec fn settled(r: Result<(), String>, now: State, p: Result<State, Seq<char>>) -> bool {
    match p {
        Ok(st) => r is Ok && now == st,
        Err(message) => r matches Err(m) && m@ == message,
    }
}

/// The resolver stands where it stood: as deep in scopes, in the same
/// kind of function and class.
pub open spec fn same_place(before: State, now: State) -> bool {
    &&& now.scopes.len() == before.scopes.len()
    &&& now.function == before.function
    &&& now.class == before.class
}

impl Resolver {
    pub open spec fn wf(&self) -> bool {
        forall|i: int| 0 <= i < self.scopes@.len() ==> (#[trigger] self.scopes@[i]).wf()
    }

    pub fn new() -> (r: Self)
        ensures
            r.wf(),
            r@ == start(),
    {
        let r = Resolver {
            scopes: Vec::new(),
            locals: HashMap::new(),
            current_function: FunctionType::Outside,
            current_class: ClassType::Outside,
        };
        assert(r@.scopes =~= Seq::empty());
        assert(r@.locals =~= Map::empty());
        r
    }

    fn begin_scope(&mut self)
        requires
            old(self).wf(),
        ensures
            final(self).wf(),
            final(self)@ == begin_scope(old(self)@),
    {
        self.scopes.push(Table::new());
        assert(self@.scopes =~= old(self)@.scopes.push(Map::empty()));
    }

    fn end_scope(&mut self)
        requires
            old(self).wf(),
            old(self)@.scopes.len() > 0,
        ensures
            final(self).wf(),
            final(self)@ == end_scope(old(self)@),
    {
        self.scopes.pop();
        assert(self@.scopes =~= old(self)@.scopes.drop_last());
    }

    /// Puts `name` into the innermost scope with the mark `ready`.
    fn put(&mut self, name: &String, ready: bool)
        requires
            old(self).wf(),
        ensures
            final(self).wf(),
            final(self)@ == put(old(self)@, name@, ready),
    {
        match self.scopes.pop() {
            None => {
                assert(self@.scopes =~= old(self)@.scopes);
            },
            Some(top) => {
                let mut top = top;
                top.insert(name.clone(), ready);
                self.scopes.push(top);
                assert(self@.scopes =~= old(self)@.scopes.update(
                    old(self)@.scopes.len() - 1,
                    old(self)@.scopes.last().insert(name@, ready),
                ));
            },
        }
    }

    fn declare(&mut self, name: &String) -> (r: Result<(), String>)
        requires
            old(self).wf(),
        ensures
            final(self).wf(),
            settled(r, final(self)@, declare(old(self)@, name@)),
    {
        let n: usize = self.scopes.len();
        if n > 0 && self.scopes[n - 1].contains(name) {
            return Err(String::from_str("Já existe uma variável com este nome neste escopo"));
        }
        self.put(name, false);
        Ok(())
    }

    fn define(&mut self, name: &String)
        requires
            old(self).wf(),
        ensures
            final(self).wf(),
            final(self)@ == define(old(self)@, name@),
    {
        self.put(name, true);
    }

    fn resolve_local(&mut self, id: usize, name: &String)
        requires
            old(self).wf(),
        ensures
            final(self).wf(),
            final(self)@ == resolve_local(old(self)@, id as nat, name@),
    {
        let n: usize = self.scopes.len();
        let mut i: usize = n;
        while i > 0
            invariant
                i <= n,
                n == self.scopes@.len(),
                *self == *old(self),
                self.wf(),
                hops(self@.scopes, name@) == found_below(self@.scopes, name@, i as int),
            decreases i,
        {
            i = i - 1;
            if self.scopes[i].contains(name) {
                self.locals.insert(id, n - 1 - i);
                assert(self@.locals =~= old(self)@.locals.insert(id as nat, (n - 1 - i) as nat));
                return ;
            }
        }
    }

    fn declare_all(&mut self, names: &Vec<Token>) -> (r: Result<(), String>)
        requires
            old(self).wf(),
        ensures
            final(self).wf(),
            settled(r, final(self)@, declare_all(old(self)@, token_views(names@), 0)),
    {
        let mut i: usize = 0;
        while i < names.len()
            invariant
                i <= names@.len(),
                self.wf(),
                declare_all(old(self)@, token_views(names@), 0) == declare_all(
                    self@,
                    token_views(names@),
                    i as int,
                ),
            decreases names@.len() - i,
        {
            self.declare(&names[i].lexeme)?;
            self.define(&names[i].lexeme);
            i = i + 1;
        }
        Ok(())
    }

    #[verifier::spinoff_prover]
    #[verifier::rlimit(50)]
    fn resolve_expr(&mut self, e: &Expr) -> (r: Result<(), String>)
        requires
            old(self).wf(),
        ensures
            final(self).wf(),
            settled(r, final(self)@, resolve_expr(old(self)@, e@)),
            r is Ok ==> same_place(old(self)@, final(self)@),
        decreases e, 0nat,
    {
        proof {
            reveal(resolve_expr);
            reveal(resolve_exprs);
            reveal(resolve_function);
        }
        match e {
            Expr::AnonFunction { id, paren, arguments, body } => self.resolve_function(
                arguments,
                body,
                FunctionType::Function,
            ),
            Expr::Assign { id, name, value } => {
                self.resolve_expr(value)?;
                self.resolve_local(*id, &name.lexeme);
                Ok(())
            },
            Expr::Binary { id, left, operator, right } => {
                self.resolve_expr(left)?;
                self.resolve_expr(right)
            },
            Expr::Call { id, callee, paren, arguments } => {
                self.resolve_expr(callee)?;
                self.resolve_exprs(arguments)
            },
            Expr::Get { id, object, name } => self.resolve_expr(object),
            Expr::Grouping { id, expression } => self.resolve_expr(expression),
            Expr::Literal { id, value } => Ok(()),
            Expr::Logical { id, left, operator, right } => {
                self.resolve_expr(left)?;
                self.resolve_expr(right)
            },
            Expr::SetField { id, object, name, value } => {
                self.resolve_expr(value)?;
                self.resolve_expr(object)
            },
            Expr::This { id, keyword } => {
                if self.current_class == ClassType::Outside {
                    return Err(String::from_str("Não é possível usar 'este' fora de uma classe"));
                }
                self.resolve_local(*id, &keyword.lexeme);
                Ok(())
            },
            Expr::Super { id, keyword, method } => {
                if self.current_class == ClassType::Outside {
                    return Err(String::from_str("Não é possível usar 'super' fora de uma classe"));
                }
                if self.current_class == ClassType::Class {
                    return Err(
                        String::from_str(
                            "Não é possível usar 'super' em uma classe sem superclasse",
                        ),
                    );
                }
                self.resolve_local(*id, &keyword.lexeme);
                Ok(())
            },
            Expr::Unary { id, operator, right } => self.resolve_expr(right),
            Expr::Variable { id, name } => {
                let n: usize = self.scopes.len();
                if n > 0 {
                    match self.scopes[n - 1].find(&name.lexeme) {
                        Some(i) => {
                            if !self.scopes[n - 1].values[i] {
                                return Err(
                                    String::from_str(
                                        "Não é possível ler uma variável local no seu próprio inicializador",
                                    ),
                                );
                            }
                        },
                        None => {},
                    }
                }
                self.resolve_local(*id, &name.lexeme);
                Ok(())
            },
        }
    }

    #[verifier::spinoff_prover]
    #[verifier::rlimit(50)]
    fn resolve_exprs(&mut self, es: &Vec<Expr>) -> (r: Result<(), String>)
        requires
            old(self).wf(),
        ensures
            final(self).wf(),
            settled(r, final(self)@, resolve_exprs(old(self)@, expr_views(es@), 0)),
            r is Ok ==> same_place(old(self)@, final(self)@),
        decreases es, 1nat,
    {
        proof {
            reveal(resolve_exprs);
            reveal(resolve_expr);
        }
        let mut i: usize = 0;
        while i < es.len()
            invariant
                i <= es@.len(),
                self.wf(),
                same_place(old(self)@, self@),
                resolve_exprs(old(self)@, expr_views(es@), 0) == resolve_exprs(
                    self@,
                    expr_views(es@),
                    i as int,
                ),
            decreases es@.len() - i,
        {
            proof {
                reveal(resolve_exprs);
                reveal(resolve_expr);
            }
            self.resolve_expr(&es[i])?;
            i = i + 1;
        }
        Ok(())
    }

    #[verifier::spinoff_prover]
    #[verifier::rlimit(50)]
    fn resolve_function(&mut self, params: &Vec<Token>, body: &Vec<Stmt>, kind: FunctionType) -> (r:
        Result<(), String>)
        requires
            old(self).wf(),
        ensures
            final(self).wf(),
            settled(
                r,
                final(self)@,
                resolve_function(old(self)@, token_views(params@), stmt_views(body@), kind),
            ),
            r is Ok ==> same_place(old(self)@, final(self)@),
        decreases body, 2nat,
    {
        proof {
            reveal(resolve_function);
            reveal(resolve_stmts);
        }
        let enclosing = self.current_function;
        self.begin_scope();
        self.current_function = kind;
        self.declare_all(params)?;
        proof {
            lemma_declare_all_place(
                State { function: kind, ..begin_scope(old(self)@) },
                token_views(params@),
                0,
            );
        }
        self.resolve_stmts(body)?;
        self.end_scope();
        self.current_function = enclosing;
        Ok(())
    }

    #[verifier::spinoff_prover]
    #[verifier::rlimit(50)]
    fn resolve_methods(&mut self, methods: &Vec<Stmt>) -> (r: Result<(), String>)
        requires
            old(self).wf(),
        ensures
            final(self).wf(),
            settled(r, final(self)@, resolve_methods(old(self)@, stmt_views(methods@), 0)),
            r is Ok ==> same_place(old(self)@, final(self)@),
        decreases methods, 1nat,
    {
        proof {
            reveal(resolve_methods);
            reveal(resolve_function);
        }
        let mut i: usize = 0;
        while i < methods.len()
            invariant
                i <= methods@.len(),
                self.wf(),
                same_place(old(self)@, self@),
                resolve_methods(old(self)@, stmt_views(methods@), 0) == resolve_methods(
                    self@,
                    stmt_views(methods@),
                    i as int,
                ),
            decreases methods@.len() - i,
        {
            proof {
                reveal(resolve_methods);
                reveal(resolve_function);
            }
            match &methods[i] {
                Stmt::Function { name, params, body } => {
                    self.resolve_function(params, body, FunctionType::Method)?;
                },
                _ => {},
            }
            i = i + 1;
        }
        Ok(())
    }

    #[verifier::spinoff_prover]
    #[verifier::rlimit(50)]
    fn resolve_stmt(&mut self, s: &Stmt) -> (r: Result<(), String>)
        requires
            old(self).wf(),
        ensures
            final(self).wf(),
            settled(r, final(self)@, resolve_stmt(old(self)@, s@)),
            r is Ok ==> same_place(old(self)@, final(self)@),
        decreases s, 1nat,
    {
        proof {
            reveal(resolve_stmt);
            reveal(resolve_stmts);
            reveal(resolve_expr);
            reveal(resolve_function);
            reveal(resolve_methods);
        }
        match s {
            Stmt::Expression { expression } => self.resolve_expr(expression),
            Stmt::Print { expression } => self.resolve_expr(expression),
            Stmt::Limpar { expression } => self.resolve_expr(expression),
            Stmt::Var { name, initializer } => {
                self.declare(&name.lexeme)?;
                self.resolve_expr(initializer)?;
                self.define(&name.lexeme);
                Ok(())
            },
            Stmt::Block { statements } => {
                self.begin_scope();
                self.resolve_stmts(statements)?;
                self.end_scope();
                Ok(())
            },
            Stmt::Class { name, methods, superclass } => self.resolve_class(s),
            Stmt::IfStmt { predicate, then, els } => {
                self.resolve_expr(predicate)?;
                self.resolve_stmt(then)?;
                match els {
                    Some(e) => self.resolve_stmt(e),
                    None => Ok(()),
                }
            },
            Stmt::WhileStmt { condition, body } => {
                self.resolve_expr(condition)?;
                self.resolve_stmt(body)
            },
            Stmt::Function { name, params, body } => {
                self.declare(&name.lexeme)?;
                self.define(&name.lexeme);
                self.resolve_function(params, body, FunctionType::Function)
            },
            Stmt::CmdFunction { name, cmd } => {
                self.declare(&name.lexeme)?;
                self.define(&name.lexeme);
                Ok(())
            },
            Stmt::ReturnStmt { keyword, value } => {
                if self.current_function == FunctionType::Outside {
                    return Err(
                        String::from_str("Não é possível usar 'retorna' fora de uma função"),
                    );
                }
                match value {
                    Some(e) => self.resolve_expr(e),
                    None => Ok(()),
                }
            },
        }
    }

    /// Resolves a class declaration: its name, its superclass in a scope
    /// that holds `super`, and its methods in a scope that holds `este`.
    #[verifier::spinoff_prover]
    #[verifier::rlimit(50)]
    fn resolve_class(&mut self, s: &Stmt) -> (r: Result<(), String>)
        requires
            old(self).wf(),
            s is Class,
        ensures
            final(self).wf(),
            settled(r, final(self)@, resolve_stmt(old(self)@, s@)),
            r is Ok ==> same_place(old(self)@, final(self)@),
        decreases s, 0nat,
    {
        proof {
            reveal(resolve_stmt);
            reveal(resolve_expr);
            reveal(resolve_methods);
        }
        let Stmt::Class { name, methods, superclass } = s else {
            return Ok(());
        };
        let enclosing = self.current_class;
        self.declare(&name.lexeme)?;
        self.define(&name.lexeme);
        match superclass {
            Some(e) => {
                self.resolve_expr(e)?;
                self.begin_scope();
                self.define(&String::from_str("super"));
                self.current_class = ClassType::Subclass;
            },
            None => {
                self.current_class = ClassType::Class;
            },
        }
        self.begin_scope();
        self.define(&String::from_str("este"));
        self.resolve_methods(methods)?;
        self.end_scope();
        if superclass.is_some() {
            self.end_scope();
        }
        self.current_class = enclosing;
        Ok(())
    }

    #[verifier::spinoff_prover]
    #[verifier::rlimit(50)]
    fn resolve_stmts(&mut self, ss: &Vec<Stmt>) -> (r: Result<(), String>)
        requires
            old(self).wf(),
        ensures
            final(self).wf(),
            settled(r, final(self)@, resolve_stmts(old(self)@, stmt_views(ss@), 0)),
            r is Ok ==> same_place(old(self)@, final(self)@),
        decreases ss, 1nat,
    {
        proof {
            reveal(resolve_stmts);
            reveal(resolve_stmt);
        }
        let mut i: usize = 0;
        while i < ss.len()
            invariant
                i <= ss@.len(),
                self.wf(),
                same_place(old(self)@, self@),
                resolve_stmts(old(self)@, stmt_views(ss@), 0) == resolve_stmts(
                    self@,
                    stmt_views(ss@),
                    i as int,
                ),
            decreases ss@.len() - i,
        {
            proof {
                reveal(resolve_stmts);
                reveal(resolve_stmt);
            }
            self.resolve_stmt(&ss[i])?;
            i = i + 1;
        }
        Ok(())
    }

    /// Resolves a program: gives each expression that names a local the
    /// number of scopes between its use and its declaration. The first
    /// error ends the work.
    pub fn resolve(self, stmts: &Vec<Stmt>) -> (r: Result<HashMap<usize, usize>, String>)
        requires
            self.wf(),
            self@ == start(),
        ensures
            match resolution(stmt_views(stmts@)) {
                Ok(locals) => r matches Ok(m) && nat_map(m@) == locals,
                Err(message) => r matches Err(m) && m@ == message,
            },
    {
        let mut resolver = self;
        resolver.resolve_stmts(stmts)?;
        Ok(resolver.locals)
    }
}

/// Declaring parameters leaves the resolver where it stood.
proof fn lemma_declare_all_place(st: State, names: Seq<TokenView>, i: int)
    requires
        0 <= i <= names.len(),
    ensures
        declare_all(st, names, i) matches Ok(next) ==> same_place(st, next),
    decreases names.len() - i,
{
    if i < names.len() {
        match declare(st, names[i].lexeme) {
            Err(_) => {},
            Ok(next) => {
                lemma_declare_all_place(define(next, names[i].lexeme), names, i + 1);
            },
        }
    }
}

/// A hop count leads to a scope that is there and declares the name, and
/// no scope nearer than it declares the name.
pub proof fn lemma_hops_sound(scopes: Seq<Map<Seq<char>, bool>>, name: Seq<char>)
    ensures
        match hops(scopes, name) {
            Some(k) => {
                &&& k < scopes.len()
                &&& scopes[scopes.len() - 1 - k].contains_key(name)
                &&& forall|j: int| 0 <= j < k ==> !(#[trigger] scopes[scopes.len() - 1 - j]).contains_key(name)
            },
            None => forall|j: int| 0 <= j < scopes.len() ==> !(#[trigger] scopes[j]).contains_key(name),
        },
{
    lemma_found_below(scopes, name, scopes.len() as int);
}

proof fn lemma_found_below(scopes: Seq<Map<Seq<char>, bool>>, name: Seq<char>, n: int)
    requires
        0 <= n <= scopes.len(),
    ensures
        match found_below(scopes, name, n) {
            Some(k) => {
                &&& scopes.len() - n <= k < scopes.len()
                &&& scopes[scopes.len() - 1 - k].contains_key(name)
                &&& forall|j: int|
                    scopes.len() - n <= j < k ==> !(#[trigger] scopes[scopes.len() - 1 - j]).contains_key(name)
            },
            None => forall|j: int| 0 <= j < n ==> !(#[trigger] scopes[j]).contains_key(name),
        },
    decreases n,
{
    if n > 0 && !scopes[n - 1].contains_key(name) {
        lemma_found_below(scopes, name, n - 1);
        match found_below(scopes, name, n - 1) {
            Some(k) => {
                assert forall|j: int| scopes.len() - n <= j < k implies !(#[trigger] scopes[scopes.len() - 1 - j]).contains_key(name) by {
                    if j == scopes.len() - n {
                        assert(scopes.len() - 1 - j == n - 1);
                    }
                }
            },
            None => {},
        }
    }
}

} // verus!

use vstd::prelude::*;
use vstd::string::*;
use crate::scanner::{self, Token, TokenType, TokenView, token_views};
use crate::expr::{Expr, ExprView, LiteralValue, LiteralView, expr_view, expr_views, is_literal};
use crate::stmt::{Stmt, StmtView, stmt_view, stmt_views};
use crate::grammar::{self, Parsed, Level, FunctionKind, LIMIT, tokens_ok, kind_at, remaining, syntax_error, limit_error, expect, is_operator, join, resume, synchronized, after, prepend, done, fail};
use crate::text::push_decimal;

verus! {

pub struct Parser {
    tokens: Vec<Token>,
    current: usize,
    next_id: usize,
}

/// Whether what the parser returned for an expression is what the grammar
/// gives.
pub open spec fn expr_agrees(r: Result<Expr, String>, p: Result<ExprView, Seq<char>>) -> bool {
    match r {
        Ok(e) => p == Ok::<ExprView, Seq<char>>(e@),
        Err(m) => p == Err::<ExprView, Seq<char>>(m@),
    }
}

/// Whether what the parser returned for a statement is what the grammar
/// gives.
pub open spec fn stmt_agrees(r: Result<Stmt, String>, p: Result<StmtView, Seq<char>>) -> bool {
    match r {
        Ok(s) => p == Ok::<StmtView, Seq<char>>(s@),
        Err(m) => p == Err::<StmtView, Seq<char>>(m@),
    }
}

/// Whether what the parser returned for a list of statements is what the
/// grammar gives.
pub open spec fn stmts_agree(r: Result<Vec<Stmt>, String>, p: Result<Seq<StmtView>, Seq<char>>) -> bool {
    match r {
        Ok(v) => p == Ok::<Seq<StmtView>, Seq<char>>(stmt_views(v@)),
        Err(m) => p == Err::<Seq<StmtView>, Seq<char>>(m@),
    }
}

spec fn token_agrees(r: Result<Token, String>, p: Result<TokenView, Seq<char>>) -> bool {
    match r {
        Ok(t) => p == Ok::<TokenView, Seq<char>>(t@),
        Err(m) => p == Err::<TokenView, Seq<char>>(m@),
    }
}

spec fn tokens_agree(r: Result<Vec<Token>, String>, p: Result<Seq<TokenView>, Seq<char>>) -> bool {
    match r {
        Ok(v) => p == Ok::<Seq<TokenView>, Seq<char>>(token_views(v@)),
        Err(m) => p == Err::<Seq<TokenView>, Seq<char>>(m@),
    }
}

/// The parser `now` stands where `before` stood, `consumed` tokens and
/// `ids` expression numbers later.
spec fn ran(before: Parser, now: Parser, consumed: nat, ids: nat) -> bool {
    &&& now.wf()
    &&& now.tokens == before.tokens
    &&& now.current == before.current + consumed
    &&& now.next_id == before.next_id + ids
    &&& ids <= consumed
}


/// The parser went from `before` to `now` as the grammar says of `p`, and
/// returned what `p` holds. Whatever it read in full took a token.
spec fn expr_done(before: Parser, now: Parser, r: Result<Expr, String>, p: Parsed<ExprView>) -> bool {
    &&& ran(before, now, p.consumed, p.ids)
    &&& expr_agrees(r, p.result)
    &&& r is Ok ==> p.consumed >= 1
}

spec fn stmt_done(before: Parser, now: Parser, r: Result<Stmt, String>, p: Parsed<StmtView>) -> bool {
    &&& ran(before, now, p.consumed, p.ids)
    &&& stmt_agrees(r, p.result)
    &&& r is Ok ==> p.consumed >= 1
}

spec fn stmts_done(before: Parser, now: Parser, r: Result<Vec<Stmt>, String>, p: Parsed<Seq<StmtView>>) -> bool {
    &&& ran(before, now, p.consumed, p.ids)
    &&& stmts_agree(r, p.result)
}

proof fn lemma_prepend_twice<T>(a: Seq<T>, c1: nat, i1: nat, b: Seq<T>, c2: nat, i2: nat, rest: Parsed<Seq<T>>)
    ensures
        prepend(a, c1, i1, prepend(b, c2, i2, rest)) == prepend(a + b, c1 + c2, i1 + i2, rest),
{
    match rest.result {
        Ok(more) => {
            assert(a + (b + more) =~= (a + b) + more);
        },
        Err(_) => {},
    }
}

proof fn lemma_push_stmt(v: Seq<Stmt>, s: Stmt)
    ensures
        stmt_views(v.push(s)) == stmt_views(v) + seq![s@],
{
    assert(stmt_views(v.push(s)) =~= stmt_views(v) + seq![s@]);
}

proof fn lemma_push_expr(v: Seq<Expr>, e: Expr)
    ensures
        expr_views(v.push(e)) == expr_views(v) + seq![e@],
{
    assert(expr_views(v.push(e)) =~= expr_views(v) + seq![e@]);
}

proof fn lemma_push_token(v: Seq<Token>, t: Token)
    ensures
        token_views(v.push(t)) == token_views(v) + seq![t@],
{
    assert(token_views(v.push(t)) =~= token_views(v) + seq![t@]);
}

#[verifier::spinoff_prover]
#[verifier::rlimit(50)]
proof fn lemma_resume_bounds(tokens: Seq<TokenView>, pos: int)
    requires
        0 <= pos,
    ensures
        resume(tokens, pos) >= pos,
    decreases remaining(tokens, pos),
{
    if kind_at(tokens, pos) == TokenType::Eof {
    } else if kind_at(tokens, pos - 1) == TokenType::Semicolon {
    } else if grammar::starts_statement(kind_at(tokens, pos)) {
    } else {
        lemma_resume_bounds(tokens, pos + 1);
    }
}

/// Puts the texts of `errors` together, one to a line.
fn join_lines(errors: &Vec<String>) -> (r: String)
    ensures
        r@ == grammar::joined(Seq::new(errors@.len(), |i: int| errors@[i]@)),
{
    let ghost all = Seq::new(errors@.len(), |i: int| errors@[i]@);
    let mut out = String::new();
    let mut i: usize = 0;
    while i < errors.len()
        invariant
            i <= errors@.len(),
            all == Seq::new(errors@.len(), |i: int| errors@[i]@),
            out@ == grammar::joined(all.take(i as int)),
        decreases errors@.len() - i,
    {
        proof {
            assert(all.take(i + 1).drop_last() =~= all.take(i as int));
            assert(all.take(i + 1).last() == errors@[i as int]@);
            if i == 0 {
                assert(all.take(1)[0] == errors@[0]@);
                assert(all.take(0).len() == 0);
            }
        }
        if i > 0 {
            out.append("\n");
        }
        out.append(errors[i].as_str());
        proof {
            if i == 0 {
                assert(out@ =~= errors@[0]@);
            }
        }
        i = i + 1;
    }
    assert(all.take(i as int) =~= all);
    out
}

pub open spec fn some_stmt_view(s: Option<Stmt>) -> Option<StmtView> {
    match s {
        Some(s) => Some(s@),
        None => None,
    }
}

pub open spec fn some_expr_view(e: Option<Expr>) -> Option<ExprView> {
    match e {
        Some(e) => Some(e@),
        None => None,
    }
}

/// The loop that a counting loop stands for.
fn build_loop(initializer: Option<Stmt>, condition: Expr, increment: Option<Expr>, body: Stmt) -> (r: Stmt)
    ensures
        r@ == grammar::desugar(
            some_stmt_view(initializer),
            Some(condition@),
            some_expr_view(increment),
            body@,
            0,
        ),
{
    let stepped = match increment {
        Some(incr) => {
            let last = Stmt::Expression { expression: incr };
            let ghost both = seq![body@, last@];
            let statements = vec![body, last];
            assert(stmt_views(statements@) =~= both);
            Stmt::Block { statements }
        },
        None => body,
    };
    let ghost inner = stepped@;
    let ghost test = condition@;
    let looped = Stmt::WhileStmt { condition, body: Box::new(stepped) };
    assert(looped@ == StmtView::WhileStmt { condition: test, body: Box::new(inner) });
    match initializer {
        Some(init) => {
            let ghost both = seq![init@, looped@];
            let statements = vec![init, looped];
            assert(stmt_views(statements@) =~= both);
            Stmt::Block { statements }
        },
        None => looped,
    }
}


proof fn lemma_scanned_from(src: Seq<char>, pos: int)
    requires
        0 <= pos <= src.len(),
        scanner::scan_from(src, pos) is Ok,
    ensures
        tokens_ok(scanner::scan_from(src, pos)->Ok_0),
    decreases src.len() - pos,
{
    let tokens = scanner::scan_from(src, pos)->Ok_0;
    if pos >= src.len() {
    } else {
        scanner::lemma_lex_advances(src, pos);
        match scanner::lex_at(src, pos) {
            scanner::Lexed::Skip { next } => {
                lemma_scanned_from(src, next);
            },
            scanner::Lexed::Token { token, next } => {
                lemma_scanned_from(src, next);
                let rest = scanner::scan_from(src, next)->Ok_0;
                assert(tokens == seq![token] + rest);
                assert(tokens.last() == rest.last());
                assert(token.token_type == TokenType::Number ==> is_literal(token));
                assert(token.token_type == TokenType::StringLit ==> is_literal(token));
                assert forall|i: int|
                    0 <= i < tokens.len() && ((#[trigger] tokens[i]).token_type == TokenType::Number
                        || tokens[i].token_type == TokenType::StringLit) implies is_literal(
                    tokens[i],
                ) by {
                    if i > 0 {
                        assert(tokens[i] == rest[i - 1]);
                    }
                }
            },
            scanner::Lexed::Error { message } => {},
        }
    }
}

/// What a scan gives can be handed to a parser.
pub proof fn lemma_scanned_tokens_ok(src: Seq<char>)
    requires
        scanner::scan(src) is Ok,
    ensures
        tokens_ok(scanner::scan(src)->Ok_0),
{
    lemma_scanned_from(src, 0);
}


/// Whether a list of tokens can be handed to a parser.
pub fn accepts(tokens: &Vec<Token>) -> (r: bool)
    ensures
        r == tokens_ok(token_views(tokens@)),
{
    let n: usize = tokens.len();
    if n == 0 {
        return false;
    }
    if tokens[n - 1].token_type != TokenType::Eof {
        return false;
    }
    let mut i: usize = 0;
    while i < n
        invariant
            i <= n,
            n == tokens@.len(),
            forall|j: int|
                0 <= j < i && (#[trigger] token_views(tokens@)[j]).token_type == TokenType::Number
                    ==> is_literal(token_views(tokens@)[j]),
            forall|j: int|
                0 <= j < i && (#[trigger] token_views(tokens@)[j]).token_type
                    == TokenType::StringLit ==> is_literal(token_views(tokens@)[j]),
        decreases n - i,
    {
        let t = &tokens[i];
        let kind = t.token_type;
        let good = match &t.literal {
            Some(crate::scanner::LiteralValue::FValue(_)) => kind != TokenType::StringLit,
            Some(crate::scanner::LiteralValue::SValue(_)) => kind != TokenType::Number,
            None => kind != TokenType::Number && kind != TokenType::StringLit,
        };
        if !good {
            assert(!is_literal(token_views(tokens@)[i as int]));
            return false;
        }
        i = i + 1;
    }
    true
}

fn join_nodes(level: Level, id: usize, left: Expr, operator: Token, right: Expr) -> (r: Expr)
    ensures
        r@ == join(level, id as nat, left@, operator@, right@),
{
    match level {
        Level::Pipe => {
            let arguments = vec![left];
            assert(expr_views(arguments@) =~= seq![left@]);
            Expr::Call { id, callee: Box::new(right), paren: operator, arguments }
        },
        Level::Or | Level::And => Expr::Logical {
            id,
            left: Box::new(left),
            operator,
            right: Box::new(right),
        },
        _ => Expr::Binary { id, left: Box::new(left), operator, right: Box::new(right) },
    }
}

impl Parser {
    /// The tokens that the parser reads.
    pub closed spec fn stream(&self) -> Seq<TokenView> {
        token_views(self.tokens@)
    }

    /// The index of the token that the parser reads next.
    pub closed spec fn position(&self) -> int {
        self.current as int
    }

    /// The number that the next expression gets.
    pub closed spec fn upcoming_id(&self) -> nat {
        self.next_id as nat
    }

    /// The parser stands on a token of a stream that ends in `Eof`, and
    /// has handed out no more numbers than it has read tokens.
    pub closed spec fn wf(&self) -> bool {
        &&& tokens_ok(self.stream())
        &&& self.current < self.tokens@.len()
        &&& self.next_id <= self.current
    }

    pub fn new(tokens: Vec<Token>) -> (r: Self)
        requires
            tokens_ok(token_views(tokens@)),
        ensures
            r.wf(),
            r.stream() == token_views(tokens@),
            r.position() == 0,
            r.upcoming_id() == 0,
    {
        Self { tokens, current: 0, next_id: 0 }
    }

    /// Reads the declarations up to the end of the stream. After a syntax
    /// error it drops tokens up to the next place where a statement may
    /// start and goes on; it returns the statements if there was no
    /// error, else the errors, one to a line.
    pub fn parse(&mut self) -> (r: Result<Vec<Stmt>, String>)
        requires
            old(self).wf(),
        ensures
            final(self).wf(),
            final(self).stream() == old(self).stream(),
            stmts_agree(
                r,
                grammar::parse_result(old(self).stream(), old(self).position(), old(self).upcoming_id()),
            ),
    {
        proof {
            reveal(grammar::program);
            reveal(grammar::declaration);
        }
        let mut stmts: Vec<Stmt> = Vec::new();
        let mut errs: Vec<String> = Vec::new();
        let ghost tokens = self.stream();
        let ghost whole = grammar::program(tokens, self.current as int, self.next_id as nat);
        while !self.is_at_end()
            invariant
                self.wf(),
                self.tokens == old(self).tokens,
                tokens == self.stream(),
                ({
                    let rest = grammar::program(tokens, self.current as int, self.next_id as nat);
                    &&& whole.statements == stmt_views(stmts@) + rest.statements
                    &&& whole.errors == Seq::new(errs@.len(), |i: int| errs@[i]@) + rest.errors
                }),
            decreases remaining(tokens, self.current as int),
        {
            let ghost pos = self.current as int;
            let ghost id = self.next_id as nat;
            proof {
                reveal(grammar::program);
                reveal(grammar::declaration);
            }
            let ghost first = grammar::declaration(tokens, pos, id);
            let ghost before_errs = Seq::new(errs@.len(), |i: int| errs@[i]@);
            let ghost before_stmts = stmt_views(stmts@);
            match self.declaration() {
                Ok(s) => {
                    proof {
                        lemma_push_stmt(stmts@, s);
                        let rest = grammar::program(tokens, pos + first.consumed, id + first.ids);
                        assert(before_stmts + (seq![s@] + rest.statements) =~= (before_stmts
                            + seq![s@]) + rest.statements);
                    }
                    stmts.push(s);
                },
                Err(msg) => {
                    proof {
                        lemma_resume_bounds(tokens, pos + first.consumed + 1);
                        let next = synchronized(tokens, pos + first.consumed);
                        let rest = grammar::program(tokens, next, id + first.ids);
                        assert(before_errs + (seq![msg@] + rest.errors) =~= (before_errs
                            + seq![msg@]) + rest.errors);
                        assert(Seq::new(errs@.push(msg).len(), |i: int| errs@.push(msg)[i]@)
                            =~= before_errs + seq![msg@]);
                    }
                    errs.push(msg);
                    self.synchronize();
                },
            }
        }
        proof {
            assert(stmt_views(stmts@) + Seq::<StmtView>::empty() =~= stmt_views(stmts@));
            assert(Seq::new(errs@.len(), |i: int| errs@[i]@) + Seq::<Seq<char>>::empty() =~= Seq::new(
                errs@.len(),
                |i: int| errs@[i]@,
            ));
        }
        if errs.len() == 0 {
            Ok(stmts)
        } else {
            Err(join_lines(&errs))
        }
    }

    #[verifier::spinoff_prover]
    #[verifier::rlimit(50)]
    fn declaration(&mut self) -> (r: Result<Stmt, String>)
        requires
            old(self).wf(),
        ensures
            stmt_done(
                *old(self),
                *final(self),
                r,
                grammar::declaration(old(self).stream(), old(self).current as int, old(self).next_id as nat),
            ),
        decreases remaining(old(self).stream(), old(self).current as int), 44nat,
    {
        proof {
            reveal(grammar::declaration);
            reveal(grammar::var_declaration);
            reveal(grammar::function);
            reveal(grammar::class_declaration);
            reveal(grammar::statement);
        }
        if self.match_token(TokenType::Var) {
            self.var_declaration()
        } else if self.match_token(TokenType::Fun) {
            self.function(FunctionKind::Function)
        } else if self.match_token(TokenType::Class) {
            self.class_declaration()
        } else {
            self.statement()
        }
    }

    #[verifier::spinoff_prover]
    #[verifier::rlimit(50)]
    fn class_declaration(&mut self) -> (r: Result<Stmt, String>)
        requires
            old(self).wf(),
        ensures
            stmt_done(
                *old(self),
                *final(self),
                r,
                grammar::class_declaration(
                    old(self).stream(),
                    old(self).current as int,
                    old(self).next_id as nat,
                ),
            ),
        decreases remaining(old(self).stream(), old(self).current as int), 2nat,
    {
        proof {
            reveal(grammar::class_declaration);
            reveal(grammar::methods);
        }
        let name = self.consume(
            TokenType::Identifier,
            "Esperado o nome depois da palavra reservada 'classe' .",
        )?;
        let superclass = if self.match_token(TokenType::Less) {
            let above = self.consume(
                TokenType::Identifier,
                "Esperada superclass depois do símbolo  '<'.",
            )?;
            let id = self.get_id();
            let ghost shown = above@;
            let parent = Expr::Variable { id, name: above };
            assert(parent@ == ExprView::Variable { id: id as nat, name: shown });
            Some(parent)
        } else {
            None
        };
        self.consume(TokenType::LeftBrace, "Esperado '{' antes do corpo da classe.")?;
        let methods = self.methods()?;
        self.consume(TokenType::RightBrace, "Esperado '}' depois do corpo da classe.")?;
        Ok(Stmt::Class { name, methods, superclass })
    }

    /// Reads the methods of a class up to the closing brace, which it
    /// leaves unread.
    #[verifier::spinoff_prover]
    #[verifier::rlimit(50)]
    fn methods(&mut self) -> (r: Result<Vec<Stmt>, String>)
        requires
            old(self).wf(),
        ensures
            stmts_done(
                *old(self),
                *final(self),
                r,
                grammar::methods(old(self).stream(), old(self).current as int, old(self).next_id as nat),
            ),
        decreases remaining(old(self).stream(), old(self).current as int), 1nat,
    {
        proof {
            reveal(grammar::methods);
            reveal(grammar::function);
        }
        let mut methods: Vec<Stmt> = Vec::new();
        let ghost tokens = self.stream();
        let ghost start = self.current as int;
        let ghost id0 = self.next_id as nat;
        while !self.check(TokenType::RightBrace) && !self.is_at_end()
            invariant
                self.wf(),
                self.tokens == old(self).tokens,
                tokens == self.stream(),
                start <= self.current,
                start == old(self).current,
                id0 == old(self).next_id,
                id0 <= self.next_id,
                self.next_id - id0 <= self.current - start,
                grammar::methods(tokens, start, id0) == prepend(
                    stmt_views(methods@),
                    (self.current - start) as nat,
                    (self.next_id - id0) as nat,
                    grammar::methods(tokens, self.current as int, self.next_id as nat),
                ),
            decreases remaining(tokens, self.current as int),
        {
            proof {
                reveal(grammar::methods);
                reveal(grammar::function);
            }
            let ghost pos = self.current as int;
            let ghost id = self.next_id as nat;
            let ghost first = grammar::function(tokens, pos, id, FunctionKind::Method);
            let method = self.function(FunctionKind::Method)?;
            proof {
                lemma_push_stmt(methods@, method);
                lemma_prepend_twice(
                    stmt_views(methods@),
                    (pos - start) as nat,
                    (id - id0) as nat,
                    seq![method@],
                    first.consumed,
                    first.ids,
                    grammar::methods(tokens, pos + first.consumed, id + first.ids),
                );
            }
            methods.push(method);
        }
        proof {
            assert(stmt_views(methods@) + Seq::<StmtView>::empty() =~= stmt_views(methods@));
        }
        Ok(methods)
    }

    /// Reads the parameters of a function up to the closing parenthesis.
    fn parameters(&mut self, named: bool) -> (r: Result<Vec<Token>, String>)
        requires
            old(self).wf(),
        ensures
            ({
                let p = grammar::parameters(old(self).stream(), old(self).current as int, named);
                &&& ran(*old(self), *final(self), p.consumed, 0)
                &&& tokens_agree(r, p.result)
            }),
    {
        let mut parameters: Vec<Token> = Vec::new();
        let ghost tokens = self.stream();
        let ghost start = self.current as int;
        if !self.check(TokenType::RightParen) {
            loop
                invariant_except_break
                    grammar::more_parameters(tokens, start, 0, named) == prepend(
                        token_views(parameters@),
                        (self.current - start) as nat,
                        0,
                        grammar::more_parameters(
                            tokens,
                            self.current as int,
                            parameters@.len(),
                            named,
                        ),
                    ),
                invariant
                    self.wf(),
                    self.tokens == old(self).tokens,
                    self.next_id == old(self).next_id,
                    tokens == self.stream(),
                    start <= self.current,
                    start == old(self).current,
                    kind_at(tokens, start) != TokenType::RightParen,
                ensures
                    grammar::more_parameters(tokens, start, 0, named) == done(
                        token_views(parameters@),
                        (self.current - start) as nat,
                        0,
                    ),
                decreases remaining(tokens, self.current as int),
            {
                let ghost pos = self.current as int;
                let ghost before = token_views(parameters@);
                if parameters.len() >= LIMIT {
                    return Err(self.limit_here(named));
                }
                let msg = if named {
                    "Esperado o nome do parâmetro"
                } else {
                    "Esperado o parâmetro nome"
                };
                let param = self.consume(TokenType::Identifier, msg)?;
                proof {
                    lemma_push_token(parameters@, param);
                }
                parameters.push(param);
                if !self.match_token(TokenType::Comma) {
                    proof {
                        assert(before + seq![tokens[pos]] =~= token_views(parameters@));
                    }
                    break ;
                }
                proof {
                    lemma_prepend_twice(
                        before,
                        (pos - start) as nat,
                        0,
                        seq![tokens[pos]],
                        2,
                        0,
                        grammar::more_parameters(tokens, pos + 2, (parameters@.len()) as nat, named),
                    );
                }
            }
        } else {
            assert(token_views(parameters@) =~= Seq::<TokenView>::empty());
        }
        Ok(parameters)
    }

    #[verifier::spinoff_prover]
    #[verifier::rlimit(50)]
    fn function(&mut self, kind: FunctionKind) -> (r: Result<Stmt, String>)
        requires
            old(self).wf(),
        ensures
            stmt_done(
                *old(self),
                *final(self),
                r,
                grammar::function(
                    old(self).stream(),
                    old(self).current as int,
                    old(self).next_id as nat,
                    kind,
                ),
            ),
        decreases remaining(old(self).stream(), old(self).current as int), 0nat,
    {
        proof {
            reveal(grammar::function);
            reveal(grammar::block);
        }
        let name = self.consume(
            TokenType::Identifier,
            match kind {
                FunctionKind::Function => "Esperado o tipo Function ",
                FunctionKind::Method => "Esperado o tipo Method ",
            },
        )?;
        if kind == FunctionKind::Function && self.match_token(TokenType::Gets) {
            let cmd_body = self.consume(TokenType::StringLit, "Esperado o corpo do comando")?;
            self.consume(TokenType::Semicolon, "Esperado ';' depois do corpo do comando")?;
            return Ok(Stmt::CmdFunction { name, cmd: cmd_body.lexeme });
        }
        self.consume(
            TokenType::LeftParen,
            match kind {
                FunctionKind::Function => "Esperado '(' depois do tipoFunction ",
                FunctionKind::Method => "Esperado '(' depois do tipoMethod ",
            },
        )?;
        let parameters = self.parameters(true)?;
        self.consume(TokenType::RightParen, "Esperado ')' depois dos parâmetros.")?;
        self.consume(
            TokenType::LeftBrace,
            match kind {
                FunctionKind::Function => "Esperado '{' antes do tipo Function.",
                FunctionKind::Method => "Esperado '{' antes do tipo Method.",
            },
        )?;
        let body = self.block()?;
        Ok(Stmt::Function { name, params: parameters, body })
    }

    #[verifier::spinoff_prover]
    #[verifier::rlimit(50)]
    fn var_declaration(&mut self) -> (r: Result<Stmt, String>)
        requires
            old(self).wf(),
        ensures
            stmt_done(
                *old(self),
                *final(self),
                r,
                grammar::var_declaration(
                    old(self).stream(),
                    old(self).current as int,
                    old(self).next_id as nat,
                ),
            ),
        decreases remaining(old(self).stream(), old(self).current as int), 38nat,
    {
        proof {
            reveal(grammar::var_declaration);
            reveal(grammar::expression);
        }
        let token = self.consume(TokenType::Identifier, "Esperado o nome da variável")?;
        let initializer;
        if self.match_token(TokenType::Equal) {
            initializer = self.expression()?;
        } else {
            let id = self.get_id();
            initializer = Expr::Literal { id, value: LiteralValue::Nil };
            assert(initializer@ == ExprView::Literal { id: id as nat, value: LiteralView::Nil });
        }
        self.consume(TokenType::Semicolon, "Esperado ';' depois da declaração da variável")?;
        Ok(Stmt::Var { name: token, initializer })
    }

    #[verifier::spinoff_prover]
    #[verifier::rlimit(50)]
    fn statement(&mut self) -> (r: Result<Stmt, String>)
        requires
            old(self).wf(),
        ensures
            stmt_done(
                *old(self),
                *final(self),
                r,
                grammar::statement(old(self).stream(), old(self).current as int, old(self).next_id as nat),
            ),
        decreases remaining(old(self).stream(), old(self).current as int), 43nat,
    {
        proof {
            reveal(grammar::statement);
            reveal(grammar::print_statement);
            reveal(grammar::limpa_tela);
            reveal(grammar::block_statement);
            reveal(grammar::if_statement);
            reveal(grammar::while_statement);
            reveal(grammar::for_statement);
            reveal(grammar::return_statement);
            reveal(grammar::expression_statement);
        }
        if self.match_token(TokenType::Print) {
            self.print_statement()
        } else if self.match_token(TokenType::Limpar) {
            self.limpa_tela()
        } else if self.match_token(TokenType::LeftBrace) {
            self.block_statement()
        } else if self.match_token(TokenType::If) {
            self.if_statement()
        } else if self.match_token(TokenType::While) {
            self.while_statement()
        } else if self.match_token(TokenType::For) {
            self.for_statement()
        } else if self.match_token(TokenType::Return) {
            self.return_statement()
        } else {
            self.expression_statement()
        }
    }

    #[verifier::spinoff_prover]
    #[verifier::rlimit(50)]
    fn return_statement(&mut self) -> (r: Result<Stmt, String>)
        requires
            old(self).wf(),
            old(self).current >= 1,
        ensures
            ({
                let p = grammar::return_statement(
                    old(self).stream(),
                    old(self).current as int,
                    old(self).next_id as nat,
                );
                &&& ran(*old(self), *final(self), p.consumed, p.ids)
                &&& stmt_agrees(r, p.result)
            }),
        decreases remaining(old(self).stream(), old(self).current as int), 38nat,
    {
        proof {
            reveal(grammar::return_statement);
            reveal(grammar::expression);
        }
        let keyword = self.previous();
        let value;
        if !self.check(TokenType::Semicolon) {
            value = Some(self.expression()?);
        } else {
            value = None;
        }
        self.consume(TokenType::Semicolon, "Esperado ';' depois do valor de retorno;")?;
        Ok(Stmt::ReturnStmt { keyword, value })
    }

    /// Reads the first clause of a counting loop, with its semicolon.
    #[verifier::spinoff_prover]
    #[verifier::rlimit(50)]
    fn for_initializer(&mut self) -> (r: Result<Option<Stmt>, String>)
        requires
            old(self).wf(),
        ensures
            ({
                let p = grammar::for_initializer(
                    old(self).stream(),
                    old(self).current as int,
                    old(self).next_id as nat,
                );
                &&& ran(*old(self), *final(self), p.consumed, p.ids)
                &&& match r {
                    Ok(s) => p.result == Ok::<Option<StmtView>, Seq<char>>(some_stmt_view(s)),
                    Err(m) => p.result == Err::<Option<StmtView>, Seq<char>>(m@),
                }
            }),
        decreases remaining(old(self).stream(), old(self).current as int), 39nat,
    {
        proof {
            reveal(grammar::for_initializer);
            reveal(grammar::var_declaration);
            reveal(grammar::expression_statement);
        }
        if self.match_token(TokenType::Semicolon) {
            Ok(None)
        } else if self.match_token(TokenType::Var) {
            let var_decl = self.var_declaration()?;
            Ok(Some(var_decl))
        } else {
            let expr = self.expression_statement()?;
            Ok(Some(expr))
        }
    }

    /// Reads a clause of a counting loop that may be left out, up to the
    /// token of kind `end`, which it leaves unread.
    #[verifier::spinoff_prover]
    #[verifier::rlimit(50)]
    fn for_clause(&mut self, end: TokenType) -> (r: Result<Option<Expr>, String>)
        requires
            old(self).wf(),
        ensures
            ({
                let p = grammar::for_clause(
                    old(self).stream(),
                    old(self).current as int,
                    old(self).next_id as nat,
                    end,
                );
                &&& ran(*old(self), *final(self), p.consumed, p.ids)
                &&& match r {
                    Ok(e) => p.result == Ok::<Option<ExprView>, Seq<char>>(some_expr_view(e)),
                    Err(m) => p.result == Err::<Option<ExprView>, Seq<char>>(m@),
                }
            }),
        decreases remaining(old(self).stream(), old(self).current as int), 39nat,
    {
        proof {
            reveal(grammar::for_clause);
            reveal(grammar::expression);
        }
        if !self.check(end) {
            let expr = self.expression()?;
            Ok(Some(expr))
        } else {
            Ok(None)
        }
    }

    #[verifier::spinoff_prover]
    #[verifier::rlimit(50)]
    fn for_statement(&mut self) -> (r: Result<Stmt, String>)
        requires
            old(self).wf(),
        ensures
            stmt_done(
                *old(self),
                *final(self),
                r,
                grammar::for_statement(
                    old(self).stream(),
                    old(self).current as int,
                    old(self).next_id as nat,
                ),
            ),
        decreases remaining(old(self).stream(), old(self).current as int), 0nat,
    {
        proof {
            reveal(grammar::for_statement);
            reveal(grammar::for_initializer);
            reveal(grammar::for_clause);
            reveal(grammar::statement);
        }
        self.consume(TokenType::LeftParen, "Esperado '(' depois 'for'.")?;
        let initializer = self.for_initializer()?;
        let condition = self.for_clause(TokenType::Semicolon)?;
        self.consume(TokenType::Semicolon, "Esperado ';' depois da condição do laço.")?;
        let increment = self.for_clause(TokenType::RightParen)?;
        self.consume(TokenType::RightParen, "Esperado ')' depois da cláusula para.")?;
        let body = self.statement()?;
        let cond = match condition {
            None => {
                let id = self.get_id();
                let always = Expr::Literal { id, value: LiteralValue::True };
                assert(always@ == ExprView::Literal { id: id as nat, value: LiteralView::True });
                always
            },
            Some(c) => c,
        };
        Ok(build_loop(initializer, cond, increment, body))
    }

    #[verifier::spinoff_prover]
    #[verifier::rlimit(50)]
    fn while_statement(&mut self) -> (r: Result<Stmt, String>)
        requires
            old(self).wf(),
        ensures
            stmt_done(
                *old(self),
                *final(self),
                r,
                grammar::while_statement(
                    old(self).stream(),
                    old(self).current as int,
                    old(self).next_id as nat,
                ),
            ),
        decreases remaining(old(self).stream(), old(self).current as int), 0nat,
    {
        proof {
            reveal(grammar::while_statement);
            reveal(grammar::expression);
            reveal(grammar::statement);
        }
        self.consume(TokenType::LeftParen, "Esperado '(' depois de 'enquanto'")?;
        let condition = self.expression()?;
        self.consume(TokenType::RightParen, "Esperado ')' depois da condição.")?;
        let body = self.statement()?;
        Ok(Stmt::WhileStmt { condition, body: Box::new(body) })
    }

    #[verifier::spinoff_prover]
    #[verifier::rlimit(50)]
    fn if_statement(&mut self) -> (r: Result<Stmt, String>)
        requires
            old(self).wf(),
        ensures
            stmt_done(
                *old(self),
                *final(self),
                r,
                grammar::if_statement(
                    old(self).stream(),
                    old(self).current as int,
                    old(self).next_id as nat,
                ),
            ),
        decreases remaining(old(self).stream(), old(self).current as int), 1nat,
    {
        proof {
            reveal(grammar::if_statement);
            reveal(grammar::else_branch);
            reveal(grammar::expression);
            reveal(grammar::statement);
        }
        self.consume(TokenType::LeftParen, "Esperado '(' depois do bloco 'se'")?;
        let predicate = self.expression()?;
        self.consume(TokenType::RightParen, "Esperado ')' depois do predicado se")?;
        let then = Box::new(self.statement()?);
        let els = if self.match_token(TokenType::Else) {
            let stm = self.statement()?;
            Some(Box::new(stm))
        } else {
            None
        };
        Ok(Stmt::IfStmt { predicate, then, els })
    }

    /// Reads the statements of a block up to its closing brace.
    #[verifier::spinoff_prover]
    #[verifier::rlimit(50)]
    fn block(&mut self) -> (r: Result<Vec<Stmt>, String>)
        requires
            old(self).wf(),
        ensures
            ({
                let p = grammar::block(old(self).stream(), old(self).current as int, old(self).next_id as nat);
                &&& stmts_done(*old(self), *final(self), r, p)
                &&& r is Ok ==> p.consumed >= 1
            }),
        decreases remaining(old(self).stream(), old(self).current as int), 45nat,
    {
        proof {
            reveal(grammar::block);
            reveal(grammar::declaration);
        }
        let mut statements: Vec<Stmt> = Vec::new();
        let ghost tokens = self.stream();
        let ghost start = self.current as int;
        let ghost id0 = self.next_id as nat;
        while !self.check(TokenType::RightBrace) && !self.is_at_end()
            invariant
                self.wf(),
                self.tokens == old(self).tokens,
                tokens == self.stream(),
                start <= self.current,
                start == old(self).current,
                id0 == old(self).next_id,
                id0 <= self.next_id,
                self.next_id - id0 <= self.current - start,
                grammar::block(tokens, start, id0) == prepend(
                    stmt_views(statements@),
                    (self.current - start) as nat,
                    (self.next_id - id0) as nat,
                    grammar::block(tokens, self.current as int, self.next_id as nat),
                ),
            decreases remaining(tokens, self.current as int),
        {
            let ghost pos = self.current as int;
            let ghost id = self.next_id as nat;
            proof {
                reveal(grammar::block);
                reveal(grammar::declaration);
            }
            let ghost first = grammar::declaration(tokens, pos, id);
            let decl = self.declaration()?;
            proof {
                lemma_push_stmt(statements@, decl);
                lemma_prepend_twice(
                    stmt_views(statements@),
                    (pos - start) as nat,
                    (id - id0) as nat,
                    seq![decl@],
                    first.consumed,
                    first.ids,
                    grammar::block(tokens, pos + first.consumed, id + first.ids),
                );
            }
            statements.push(decl);
        }
        proof {
            assert(stmt_views(statements@) + Seq::<StmtView>::empty() =~= stmt_views(statements@));
        }
        self.consume(TokenType::RightBrace, "Esperado '}' depois do bloco")?;
        Ok(statements)
    }

    #[verifier::spinoff_prover]
    #[verifier::rlimit(50)]
    fn block_statement(&mut self) -> (r: Result<Stmt, String>)
        requires
            old(self).wf(),
        ensures
            stmt_done(
                *old(self),
                *final(self),
                r,
                grammar::block_statement(
                    old(self).stream(),
                    old(self).current as int,
                    old(self).next_id as nat,
                ),
            ),
        decreases remaining(old(self).stream(), old(self).current as int), 46nat,
    {
        proof {
            reveal(grammar::block_statement);
            reveal(grammar::block);
        }
        let statements = self.block()?;
        Ok(Stmt::Block { statements })
    }

    #[verifier::spinoff_prover]
    #[verifier::rlimit(50)]
    fn print_statement(&mut self) -> (r: Result<Stmt, String>)
        requires
            old(self).wf(),
        ensures
            stmt_done(
                *old(self),
                *final(self),
                r,
                grammar::print_statement(
                    old(self).stream(),
                    old(self).current as int,
                    old(self).next_id as nat,
                ),
            ),
        decreases remaining(old(self).stream(), old(self).current as int), 38nat,
    {
        proof {
            reveal(grammar::print_statement);
            reveal(grammar::expression);
        }
        let value = self.expression()?;
        self.match_token(TokenType::Semicolon);
        Ok(Stmt::Print { expression: value })
    }

    #[verifier::spinoff_prover]
    #[verifier::rlimit(50)]
    fn limpa_tela(&mut self) -> (r: Result<Stmt, String>)
        requires
            old(self).wf(),
        ensures
            stmt_done(
                *old(self),
                *final(self),
                r,
                grammar::limpa_tela(old(self).stream(), old(self).current as int, old(self).next_id as nat),
            ),
        decreases remaining(old(self).stream(), old(self).current as int), 38nat,
    {
        proof {
            reveal(grammar::limpa_tela);
            reveal(grammar::expression);
        }
        let value = self.expression()?;
        self.match_token(TokenType::Semicolon);
        Ok(Stmt::Limpar { expression: value })
    }

    #[verifier::spinoff_prover]
    #[verifier::rlimit(50)]
    fn expression_statement(&mut self) -> (r: Result<Stmt, String>)
        requires
            old(self).wf(),
        ensures
            stmt_done(
                *old(self),
                *final(self),
                r,
                grammar::expression_statement(
                    old(self).stream(),
                    old(self).current as int,
                    old(self).next_id as nat,
                ),
            ),
        decreases remaining(old(self).stream(), old(self).current as int), 38nat,
    {
        proof {
            reveal(grammar::expression_statement);
            reveal(grammar::expression);
        }
        let expr = self.expression()?;
        self.match_token(TokenType::Semicolon);
        Ok(Stmt::Expression { expression: expr })
    }

    #[verifier::spinoff_prover]
    #[verifier::rlimit(50)]
    fn expression(&mut self) -> (r: Result<Expr, String>)
        requires
            old(self).wf(),
        ensures
            expr_done(
                *old(self),
                *final(self),
                r,
                grammar::expression(old(self).stream(), old(self).current as int, old(self).next_id as nat),
            ),
        decreases remaining(old(self).stream(), old(self).current as int), 35nat,
    {
        proof {
            reveal(grammar::expression);
            reveal(grammar::assignment);
        }
        self.assignment()
    }

    #[verifier::spinoff_prover]
    #[verifier::rlimit(50)]
    fn function_expression(&mut self) -> (r: Result<Expr, String>)
        requires
            old(self).wf(),
            old(self).current >= 1,
        ensures
            ({
                let p = grammar::function_expression(
                    old(self).stream(),
                    old(self).current as int,
                    old(self).next_id as nat,
                );
                &&& ran(*old(self), *final(self), p.consumed, p.ids)
                &&& expr_agrees(r, p.result)
            }),
        decreases remaining(old(self).stream(), old(self).current as int), 0nat,
    {
        proof {
            reveal(grammar::function_expression);
            reveal(grammar::block);
        }
        let paren = self.consume(TokenType::LeftParen, "Esperado '(' depois da função anônima")?;
        let parameters = self.parameters(false)?;
        self.consume(
            TokenType::RightParen,
            "Esperado ')' depois dos parâmetros da função anônima",
        )?;
        self.consume(
            TokenType::LeftBrace,
            "Esperado '{' depois da declaração da função anônima",
        )?;
        let body = self.block()?;
        let id = self.get_id();
        Ok(Expr::AnonFunction { id, paren, arguments: parameters, body })
    }

    #[verifier::spinoff_prover]
    #[verifier::rlimit(50)]
    fn assignment(&mut self) -> (r: Result<Expr, String>)
        requires
            old(self).wf(),
        ensures
            expr_done(
                *old(self),
                *final(self),
                r,
                grammar::assignment(old(self).stream(), old(self).current as int, old(self).next_id as nat),
            ),
        decreases remaining(old(self).stream(), old(self).current as int), 34nat,
    {
        proof {
            reveal(grammar::assignment);
            reveal(grammar::binary);
            reveal(grammar::expression);
        }
        let expr = self.pipe()?;
        if self.match_token(TokenType::Equal) {
            let value = self.expression()?;
            match expr {
                Expr::Variable { id: _, name } => {
                    let id = self.get_id();
                    Ok(Expr::Assign { id, name, value: Box::new(value) })
                },
                Expr::Get { id: _, object, name } => {
                    let id = self.get_id();
                    Ok(Expr::SetField { id, object, name, value: Box::new(value) })
                },
                _ => Err(String::from_str("Destino inválido.")),
            }
        } else {
            Ok(expr)
        }
    }

    /// Reads an operand of an operator of `level`.
    #[verifier::spinoff_prover]
    #[verifier::rlimit(50)]
    fn operand(&mut self, level: Level) -> (r: Result<Expr, String>)
        requires
            old(self).wf(),
        ensures
            expr_done(
                *old(self),
                *final(self),
                r,
                grammar::operand(
                    old(self).stream(),
                    level,
                    old(self).current as int,
                    old(self).next_id as nat,
                ),
            ),
        decreases remaining(old(self).stream(), old(self).current as int), (31 - 3
            * grammar::level_index(level)) as nat,
    {
        proof {
            reveal(grammar::operand);
            reveal(grammar::binary);
            reveal(grammar::unary);
        }
        match level {
            Level::Pipe => self.or(),
            Level::Or => self.and(),
            Level::And => self.equality(),
            Level::Equality => self.comparison(),
            Level::Comparison => self.term(),
            Level::Term => self.factor(),
            Level::Factor => self.unary(),
        }
    }

    /// Reads operands with operators of `level` between them, and groups
    /// them to the left.
    #[verifier::spinoff_prover]
    #[verifier::rlimit(50)]
    fn binary(&mut self, level: Level) -> (r: Result<Expr, String>)
        requires
            old(self).wf(),
        ensures
            expr_done(
                *old(self),
                *final(self),
                r,
                grammar::binary(
                    old(self).stream(),
                    level,
                    old(self).current as int,
                    old(self).next_id as nat,
                ),
            ),
        decreases remaining(old(self).stream(), old(self).current as int), (32 - 3
            * grammar::level_index(level)) as nat,
    {
        proof {
            reveal(grammar::binary);
            reveal(grammar::binary_rest);
            reveal(grammar::operand);
        }
        let ghost tokens = self.stream();
        let ghost start = self.current as int;
        let ghost id0 = self.next_id as nat;
        let mut expr = self.operand(level)?;
        while self.match_operator(level)
            invariant
                self.wf(),
                self.tokens == old(self).tokens,
                tokens == self.stream(),
                start == old(self).current,
                id0 == old(self).next_id,
                start + 1 <= self.current,
                id0 <= self.next_id,
                self.next_id - id0 <= self.current - start,
                grammar::binary(tokens, level, start, id0) == after(
                    grammar::binary_rest(
                        tokens,
                        level,
                        self.current as int,
                        self.next_id as nat,
                        expr@,
                    ),
                    (self.current - start) as nat,
                    (self.next_id - id0) as nat,
                ),
            decreases remaining(tokens, self.current as int),
        {
            proof {
                reveal(grammar::binary);
                reveal(grammar::binary_rest);
                reveal(grammar::operand);
            }
            let operator = self.previous();
            let right = self.operand(level)?;
            let id = self.get_id();
            expr = join_nodes(level, id, expr, operator, right);
        }
        Ok(expr)
    }

    #[verifier::spinoff_prover]
    #[verifier::rlimit(50)]
    fn pipe(&mut self) -> (r: Result<Expr, String>)
        requires
            old(self).wf(),
        ensures
            expr_done(
                *old(self),
                *final(self),
                r,
                grammar::binary(
                    old(self).stream(),
                    Level::Pipe,
                    old(self).current as int,
                    old(self).next_id as nat,
                ),
            ),
        decreases remaining(old(self).stream(), old(self).current as int), 33nat,
    {
        self.binary(Level::Pipe)
    }

    #[verifier::spinoff_prover]
    #[verifier::rlimit(50)]
    fn or(&mut self) -> (r: Result<Expr, String>)
        requires
            old(self).wf(),
        ensures
            expr_done(
                *old(self),
                *final(self),
                r,
                grammar::binary(
                    old(self).stream(),
                    Level::Or,
                    old(self).current as int,
                    old(self).next_id as nat,
                ),
            ),
        decreases remaining(old(self).stream(), old(self).current as int), 30nat,
    {
        self.binary(Level::Or)
    }

    #[verifier::spinoff_prover]
    #[verifier::rlimit(50)]
    fn and(&mut self) -> (r: Result<Expr, String>)
        requires
            old(self).wf(),
        ensures
            expr_done(
                *old(self),
                *final(self),
                r,
                grammar::binary(
                    old(self).stream(),
                    Level::And,
                    old(self).current as int,
                    old(self).next_id as nat,
                ),
            ),
        decreases remaining(old(self).stream(), old(self).current as int), 27nat,
    {
        self.binary(Level::And)
    }

    #[verifier::spinoff_prover]
    #[verifier::rlimit(50)]
    fn equality(&mut self) -> (r: Result<Expr, String>)
        requires
            old(self).wf(),
        ensures
            expr_done(
                *old(self),
                *final(self),
                r,
                grammar::binary(
                    old(self).stream(),
                    Level::Equality,
                    old(self).current as int,
                    old(self).next_id as nat,
                ),
            ),
        decreases remaining(old(self).stream(), old(self).current as int), 24nat,
    {
        self.binary(Level::Equality)
    }

    #[verifier::spinoff_prover]
    #[verifier::rlimit(50)]
    fn comparison(&mut self) -> (r: Result<Expr, String>)
        requires
            old(self).wf(),
        ensures
            expr_done(
                *old(self),
                *final(self),
                r,
                grammar::binary(
                    old(self).stream(),
                    Level::Comparison,
                    old(self).current as int,
                    old(self).next_id as nat,
                ),
            ),
        decreases remaining(old(self).stream(), old(self).current as int), 21nat,
    {
        self.binary(Level::Comparison)
    }

    #[verifier::spinoff_prover]
    #[verifier::rlimit(50)]
    fn term(&mut self) -> (r: Result<Expr, String>)
        requires
            old(self).wf(),
        ensures
            expr_done(
                *old(self),
                *final(self),
                r,
                grammar::binary(
                    old(self).stream(),
                    Level::Term,
                    old(self).current as int,
                    old(self).next_id as nat,
                ),
            ),
        decreases remaining(old(self).stream(), old(self).current as int), 18nat,
    {
        self.binary(Level::Term)
    }

    #[verifier::spinoff_prover]
    #[verifier::rlimit(50)]
    fn factor(&mut self) -> (r: Result<Expr, String>)
        requires
            old(self).wf(),
        ensures
            expr_done(
                *old(self),
                *final(self),
                r,
                grammar::binary(
                    old(self).stream(),
                    Level::Factor,
                    old(self).current as int,
                    old(self).next_id as nat,
                ),
            ),
        decreases remaining(old(self).stream(), old(self).current as int), 15nat,
    {
        self.binary(Level::Factor)
    }

    #[verifier::spinoff_prover]
    #[verifier::rlimit(50)]
    fn unary(&mut self) -> (r: Result<Expr, String>)
        requires
            old(self).wf(),
        ensures
            expr_done(
                *old(self),
                *final(self),
                r,
                grammar::unary(old(self).stream(), old(self).current as int, old(self).next_id as nat),
            ),
        decreases remaining(old(self).stream(), old(self).current as int), 12nat,
    {
        proof {
            reveal(grammar::unary);
            reveal(grammar::call);
        }
        if self.match_tokens(&[TokenType::Bang, TokenType::Minus]) {
            let op = self.previous();
            let rhs = self.unary()?;
            let id = self.get_id();
            Ok(Expr::Unary { id, operator: op, right: Box::new(rhs) })
        } else {
            self.call()
        }
    }

    #[verifier::spinoff_prover]
    #[verifier::rlimit(50)]
    fn call(&mut self) -> (r: Result<Expr, String>)
        requires
            old(self).wf(),
        ensures
            expr_done(
                *old(self),
                *final(self),
                r,
                grammar::call(old(self).stream(), old(self).current as int, old(self).next_id as nat),
            ),
        decreases remaining(old(self).stream(), old(self).current as int), 11nat,
    {
        proof {
            reveal(grammar::call);
            reveal(grammar::call_rest);
            reveal(grammar::primary);
            reveal(grammar::finish_call);
        }
        let ghost tokens = self.stream();
        let ghost start = self.current as int;
        let ghost id0 = self.next_id as nat;
        let mut expr = self.primary()?;
        loop
            invariant
                self.wf(),
                self.tokens == old(self).tokens,
                tokens == self.stream(),
                start == old(self).current,
                id0 == old(self).next_id,
                start + 1 <= self.current,
                id0 <= self.next_id,
                self.next_id - id0 <= self.current - start,
                grammar::call(tokens, start, id0) == after(
                    grammar::call_rest(tokens, self.current as int, self.next_id as nat, expr@),
                    (self.current - start) as nat,
                    (self.next_id - id0) as nat,
                ),
            ensures
                grammar::call_rest(tokens, self.current as int, self.next_id as nat, expr@) == done(
                    expr@,
                    0,
                    0,
                ),
            decreases remaining(tokens, self.current as int),
        {
            proof {
                reveal(grammar::call);
                reveal(grammar::call_rest);
                reveal(grammar::primary);
                reveal(grammar::finish_call);
            }
            if self.match_token(TokenType::LeftParen) {
                expr = self.finish_call(expr)?;
            } else if self.match_token(TokenType::Dot) {
                let name = self.consume(TokenType::Identifier, "Esperado token depois do ponto")?;
                let id = self.get_id();
                expr = Expr::Get { id, object: Box::new(expr), name };
            } else {
                break ;
            }
        }
        Ok(expr)
    }

    /// Reads the arguments of a call and its closing parenthesis.
    #[verifier::spinoff_prover]
    #[verifier::rlimit(50)]
    fn finish_call(&mut self, callee: Expr) -> (r: Result<Expr, String>)
        requires
            old(self).wf(),
            old(self).current >= 1,
        ensures
            expr_done(
                *old(self),
                *final(self),
                r,
                grammar::finish_call(
                    old(self).stream(),
                    old(self).current as int,
                    old(self).next_id as nat,
                    callee@,
                ),
            ),
        decreases remaining(old(self).stream(), old(self).current as int), 37nat,
    {
        proof {
            reveal(grammar::finish_call);
            reveal(grammar::arguments);
            reveal(grammar::expression);
        }
        let mut arguments: Vec<Expr> = Vec::new();
        let ghost tokens = self.stream();
        let ghost start = self.current as int;
        let ghost id0 = self.next_id as nat;
        if !self.check(TokenType::RightParen) {
            loop
                invariant_except_break
                    grammar::arguments(tokens, start, id0, 0) == prepend(
                        expr_views(arguments@),
                        (self.current - start) as nat,
                        (self.next_id - id0) as nat,
                        grammar::arguments(
                            tokens,
                            self.current as int,
                            self.next_id as nat,
                            arguments@.len(),
                        ),
                    ),
                invariant
                    self.wf(),
                    self.tokens == old(self).tokens,
                    tokens == self.stream(),
                    start == old(self).current,
                    id0 == old(self).next_id,
                    start <= self.current,
                    id0 <= self.next_id,
                    self.next_id - id0 <= self.current - start,
                    kind_at(tokens, start) != TokenType::RightParen,
                ensures
                    grammar::arguments(tokens, start, id0, 0) == done(
                        expr_views(arguments@),
                        (self.current - start) as nat,
                        (self.next_id - id0) as nat,
                    ),
                decreases remaining(tokens, self.current as int),
            {
                let ghost pos = self.current as int;
                let ghost id = self.next_id as nat;
                let ghost before = expr_views(arguments@);
                proof {
                    reveal(grammar::finish_call);
                    reveal(grammar::arguments);
                    reveal(grammar::expression);
                }
                let ghost first = grammar::expression(tokens, pos, id);
                let arg = self.expression()?;
                proof {
                    lemma_push_expr(arguments@, arg);
                }
                arguments.push(arg);
                if arguments.len() >= LIMIT {
                    return Err(self.limit_here(false));
                }
                if !self.match_token(TokenType::Comma) {
                    break ;
                }
                proof {
                    lemma_prepend_twice(
                        before,
                        (pos - start) as nat,
                        (id - id0) as nat,
                        seq![arg@],
                        first.consumed + 1,
                        first.ids,
                        grammar::arguments(
                            tokens,
                            pos + first.consumed + 1,
                            id + first.ids,
                            arguments@.len(),
                        ),
                    );
                }
            }
        } else {
            assert(expr_views(arguments@) =~= Seq::<ExprView>::empty());
        }
        let paren = self.consume(TokenType::RightParen, "Esperado ')' depois dos argumentos.")?;
        let id = self.get_id();
        Ok(Expr::Call { id, callee: Box::new(callee), paren, arguments })
    }

    #[verifier::spinoff_prover]
    #[verifier::rlimit(50)]
    fn primary(&mut self) -> (r: Result<Expr, String>)
        requires
            old(self).wf(),
        ensures
            expr_done(
                *old(self),
                *final(self),
                r,
                grammar::primary(old(self).stream(), old(self).current as int, old(self).next_id as nat),
            ),
        decreases remaining(old(self).stream(), old(self).current as int), 9nat,
    {
        proof {
            reveal(grammar::primary);
            reveal(grammar::expression);
            reveal(grammar::function_expression);
        }
        let token = self.peek().clone();
        let result;
        match token.token_type {
            TokenType::LeftParen => {
                self.advance();
                let expr = self.expression()?;
                self.consume(TokenType::RightParen, "Esperado ')'")?;
                let id = self.get_id();
                result = Expr::Grouping { id, expression: Box::new(expr) };
            },
            TokenType::False
            | TokenType::True
            | TokenType::Nil
            | TokenType::Number
            | TokenType::StringLit => {
                self.advance();
                let id = self.get_id();
                result = Expr::Literal { id, value: LiteralValue::from_token(token) };
            },
            TokenType::Identifier => {
                self.advance();
                let id = self.get_id();
                result = Expr::Variable { id, name: token };
            },
            TokenType::This => {
                self.advance();
                let id = self.get_id();
                result = Expr::This { id, keyword: token };
            },
            TokenType::Super => {
                self.advance();
                self.consume(TokenType::Dot, "Esperado '.' depois do comando 'super'.")?;
                let method = self.consume(
                    TokenType::Identifier,
                    "Esperado o nome da classe principal.",
                )?;
                let id = self.get_id();
                result = Expr::Super { id, keyword: token, method };
            },
            TokenType::Fun => {
                self.advance();
                result = self.function_expression()?;
            },
            _ => {
                return Err(String::from_str("Uma expressão era esperada"));
            },
        }
        Ok(result)
    }

    fn get_id(&mut self) -> (id: usize)
        requires
            old(self).wf(),
            old(self).next_id < old(self).current,
        ensures
            id == old(self).next_id,
            final(self).wf(),
            final(self).tokens == old(self).tokens,
            final(self).current == old(self).current,
            final(self).next_id == old(self).next_id + 1,
    {
        let id: usize = self.next_id;
        self.next_id = self.next_id + 1;
        id
    }

    fn peek(&self) -> (r: &Token)
        requires
            self.wf(),
        ensures
            r@ == self.stream()[self.current as int],
            r.token_type == kind_at(self.stream(), self.current as int),
            r.line_number == self.stream()[self.current as int].line_number,
    {
        &self.tokens[self.current]
    }

    fn previous(&self) -> (r: Token)
        requires
            self.wf(),
            self.current >= 1,
        ensures
            r@ == self.stream()[self.current - 1],
    {
        self.tokens[self.current - 1].clone()
    }

    fn is_at_end(&self) -> (r: bool)
        requires
            self.wf(),
        ensures
            r == (kind_at(self.stream(), self.current as int) == TokenType::Eof),
    {
        self.peek().token_type == TokenType::Eof
    }

    fn check(&self, typ: TokenType) -> (r: bool)
        requires
            self.wf(),
        ensures
            r == (kind_at(self.stream(), self.current as int) == typ),
    {
        self.peek().token_type == typ
    }

    fn advance(&mut self)
        requires
            old(self).wf(),
        ensures
            final(self).wf(),
            final(self).tokens == old(self).tokens,
            final(self).next_id == old(self).next_id,
            final(self).current == old(self).current + if kind_at(
                old(self).stream(),
                old(self).current as int,
            ) == TokenType::Eof {
                0int
            } else {
                1int
            },
    {
        if !self.is_at_end() {
            assert(self.stream().last().token_type == TokenType::Eof);
            assert(self.current != self.tokens@.len() - 1);
            assert(self.tokens@.len() == self.tokens.len());
            self.current = self.current + 1;
        }
    }

    fn match_token(&mut self, typ: TokenType) -> (r: bool)
        requires
            old(self).wf(),
        ensures
            r == (typ != TokenType::Eof && kind_at(old(self).stream(), old(self).current as int)
                == typ),
            final(self).wf(),
            final(self).tokens == old(self).tokens,
            final(self).next_id == old(self).next_id,
            final(self).current == old(self).current + if r {
                1int
            } else {
                0int
            },
    {
        if self.is_at_end() {
            false
        } else {
            if self.peek().token_type == typ {
                self.advance();
                true
            } else {
                false
            }
        }
    }

    fn match_tokens(&mut self, typs: &[TokenType]) -> (r: bool)
        requires
            old(self).wf(),
        ensures
            r == (exists|i: int|
                0 <= i < typs@.len() && typs@[i] != TokenType::Eof && typs@[i] == kind_at(
                    old(self).stream(),
                    old(self).current as int,
                )),
            final(self).wf(),
            final(self).tokens == old(self).tokens,
            final(self).next_id == old(self).next_id,
            final(self).current == old(self).current + if r {
                1int
            } else {
                0int
            },
    {
        let mut i: usize = 0;
        while i < typs.len()
            invariant
                i <= typs@.len(),
                *self == *old(self),
                self.wf(),
                forall|j: int|
                    0 <= j < i ==> !(typs@[j] != TokenType::Eof && typs@[j] == kind_at(
                        self.stream(),
                        self.current as int,
                    )),
            decreases typs@.len() - i,
        {
            if self.match_token(typs[i]) {
                return true;
            }
            i = i + 1;
        }
        false
    }

    fn match_operator(&mut self, level: Level) -> (r: bool)
        requires
            old(self).wf(),
        ensures
            r == is_operator(level, kind_at(old(self).stream(), old(self).current as int)),
            final(self).wf(),
            final(self).tokens == old(self).tokens,
            final(self).next_id == old(self).next_id,
            final(self).current == old(self).current + if r {
                1int
            } else {
                0int
            },
    {
        match level {
            Level::Pipe => self.match_token(TokenType::Pipe),
            Level::Or => self.match_token(TokenType::Or),
            Level::And => self.match_token(TokenType::And),
            Level::Equality => self.match_tokens(&[TokenType::BangEqual, TokenType::EqualEqual]),
            Level::Comparison => self.match_tokens(
                &[
                    TokenType::Greater,
                    TokenType::GreaterEqual,
                    TokenType::Less,
                    TokenType::LessEqual,
                ],
            ),
            Level::Term => self.match_tokens(&[TokenType::Minus, TokenType::Plus]),
            Level::Factor => self.match_tokens(&[TokenType::Slash, TokenType::Star]),
        }
    }

    fn error_here(&self, msg: &str) -> (r: String)
        requires
            self.wf(),
        ensures
            r@ == syntax_error(self.stream(), self.current as int, msg@),
    {
        let mut message = String::from_str("Line ");
        push_decimal(&mut message, self.peek().line_number);
        message.append(": ");
        message.append(msg);
        assert(message@ =~= syntax_error(self.stream(), self.current as int, msg@));
        message
    }

    fn limit_here(&self, named: bool) -> (r: String)
        requires
            self.wf(),
        ensures
            r@ == limit_error(self.stream(), self.current as int, named),
    {
        let mut message = if named {
            String::from_str("Linha ")
        } else {
            String::from_str("Line ")
        };
        push_decimal(&mut message, self.peek().line_number);
        message.append(": Estourou o limite de 255 argumentos");
        assert(message@ =~= limit_error(self.stream(), self.current as int, named));
        message
    }

    fn consume(&mut self, token_type: TokenType, msg: &str) -> (r: Result<Token, String>)
        requires
            old(self).wf(),
            token_type != TokenType::Eof,
        ensures
            ({
                let p = expect(old(self).stream(), old(self).current as int, token_type, msg@);
                &&& token_agrees(r, p.result)
                &&& final(self).current == old(self).current + p.consumed
            }),
            final(self).wf(),
            final(self).tokens == old(self).tokens,
            final(self).next_id == old(self).next_id,
    {
        if self.peek().token_type == token_type {
            self.advance();
            let token = self.previous();
            Ok(token)
        } else {
            Err(self.error_here(msg))
        }
    }

    fn synchronize(&mut self)
        requires
            old(self).wf(),
        ensures
            final(self).wf(),
            final(self).tokens == old(self).tokens,
            final(self).next_id == old(self).next_id,
            final(self).current == synchronized(old(self).stream(), old(self).current as int),
    {
        if self.is_at_end() {
            return ;
        }
        self.advance();
        while !self.is_at_end()
            invariant
                self.wf(),
                self.tokens == old(self).tokens,
                self.next_id == old(self).next_id,
                self.current >= 1,
                resume(self.stream(), self.current as int) == synchronized(
                    old(self).stream(),
                    old(self).current as int,
                ),
            decreases self.tokens@.len() - self.current,
        {
            if self.tokens[self.current - 1].token_type == TokenType::Semicolon {
                return ;
            }
            match self.peek().token_type {
                TokenType::Class
                | TokenType::Fun
                | TokenType::Var
                | TokenType::For
                | TokenType::If
                | TokenType::While
                | TokenType::Print
                | TokenType::Return => {
                    return ;
                },
                _ => (),
            }
            self.advance();
        }
    }
}

} // verus!

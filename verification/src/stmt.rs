use vstd::prelude::*;
use vstd::string::*;
use crate::scanner::{Token, TokenView, token_views};
use crate::expr::{Expr, ExprView, LiteralView, expr_view, expr_text, names_text, clone_tokens, names_to_string};

verus! {

#[derive(Debug)]
#[allow(inconsistent_fields)]
pub enum Stmt {
    Expression { expression: Expr },
    Print { expression: Expr },
    Limpar { expression: Expr },
    Var { name: Token, initializer: Expr },
    Block { statements: Vec<Stmt> },
    Class { name: Token, methods: Vec<Stmt>, superclass: Option<Expr> },
    IfStmt { predicate: Expr, then: Box<Stmt>, els: Option<Box<Stmt>> },
    WhileStmt { condition: Expr, body: Box<Stmt> },
    Function { name: Token, params: Vec<Token>, body: Vec<Stmt> },
    CmdFunction { name: Token, cmd: String },
    ReturnStmt { keyword: Token, value: Option<Expr> },
}

#[allow(inconsistent_fields)]
pub enum StmtView {
    Expression { expression: ExprView },
    Print { expression: ExprView },
    Limpar { expression: ExprView },
    Var { name: TokenView, initializer: ExprView },
    Block { statements: Seq<StmtView> },
    Class { name: TokenView, methods: Seq<StmtView>, superclass: Option<ExprView> },
    IfStmt { predicate: ExprView, then: Box<StmtView>, els: Option<Box<StmtView>> },
    WhileStmt { condition: ExprView, body: Box<StmtView> },
    Function { name: TokenView, params: Seq<TokenView>, body: Seq<StmtView> },
    CmdFunction { name: TokenView, cmd: Seq<char> },
    ReturnStmt { keyword: TokenView, value: Option<ExprView> },
}

pub open spec fn stmt_view(s: Stmt) -> StmtView
    decreases s,
{
    match s {
        Stmt::Expression { expression } => StmtView::Expression {
            expression: expr_view(expression),
        },
        Stmt::Print { expression } => StmtView::Print { expression: expr_view(expression) },
        Stmt::Limpar { expression } => StmtView::Limpar { expression: expr_view(expression) },
        Stmt::Var { name, initializer } => StmtView::Var {
            name: name@,
            initializer: expr_view(initializer),
        },
        Stmt::Block { statements } => StmtView::Block { statements: stmt_views(statements@) },
        Stmt::Class { name, methods, superclass } => StmtView::Class {
            name: name@,
            methods: stmt_views(methods@),
            superclass: match superclass {
                Some(e) => Some(expr_view(e)),
                None => None,
            },
        },
        Stmt::IfStmt { predicate, then, els } => StmtView::IfStmt {
            predicate: expr_view(predicate),
            then: Box::new(stmt_view(*then)),
            els: match els {
                Some(e) => Some(Box::new(stmt_view(*e))),
                None => None,
            },
        },
        Stmt::WhileStmt { condition, body } => StmtView::WhileStmt {
            condition: expr_view(condition),
            body: Box::new(stmt_view(*body)),
        },
        Stmt::Function { name, params, body } => StmtView::Function {
            name: name@,
            params: token_views(params@),
            body: stmt_views(body@),
        },
        Stmt::CmdFunction { name, cmd } => StmtView::CmdFunction { name: name@, cmd: cmd@ },
        Stmt::ReturnStmt { keyword, value } => StmtView::ReturnStmt {
            keyword: keyword@,
            value: match value {
                Some(e) => Some(expr_view(e)),
                None => None,
            },
        },
    }
}

/// The views of a sequence of statements, one by one.
pub open spec fn stmt_views(ss: Seq<Stmt>) -> Seq<StmtView>
    decreases ss,
{
    Seq::new(
        ss.len(),
        |i: int|
            if 0 <= i < ss.len() {
                stmt_view(ss[i])
            } else {
                StmtView::Block { statements: Seq::empty() }
            },
    )
}

impl View for Stmt {
    type V = StmtView;

    open spec fn view(&self) -> StmtView {
        stmt_view(*self)
    }
}

/// A statement written out in prefix form. An expression statement is
/// written as its expression alone.
pub open spec fn stmt_text(s: StmtView) -> Seq<char>
    decreases s,
{
    match s {
        StmtView::Expression { expression } => expr_text(expression),
        StmtView::Print { expression } => "(saida "@ + expr_text(expression) + ")"@,
        StmtView::Limpar { expression } => "(limpar "@ + expr_text(expression) + ")"@,
        StmtView::Var { name, initializer } => "(var "@ + name.lexeme + " "@ + expr_text(
            initializer,
        ) + ")"@,
        StmtView::Block { statements } => "(bloco"@ + block_text(statements) + ")"@,
        StmtView::Class { name, methods, superclass } => "(classe "@ + name.lexeme + match superclass {
            Some(e) => " < "@ + expr_text(e),
            None => Seq::empty(),
        } + block_text(methods) + ")"@,
        StmtView::IfStmt { predicate, then, els } => "(se "@ + expr_text(predicate) + " "@
            + stmt_text(*then) + match els {
            Some(e) => " "@ + stmt_text(*e),
            None => Seq::empty(),
        } + ")"@,
        StmtView::WhileStmt { condition, body } => "(enquanto "@ + expr_text(condition) + " "@
            + stmt_text(*body) + ")"@,
        StmtView::Function { name, params, body } => "(funcao "@ + name.lexeme + " ("@
            + names_text(params) + ")"@ + block_text(body) + ")"@,
        StmtView::CmdFunction { name, cmd } => "(funcao "@ + name.lexeme + " recebe "@ + cmd
            + ")"@,
        StmtView::ReturnStmt { keyword, value } => "(retorna"@ + match value {
            Some(e) => " "@ + expr_text(e),
            None => Seq::empty(),
        } + ")"@,
    }
}

/// The statements of a list written out, a space before each.
pub open spec fn block_text(ss: Seq<StmtView>) -> Seq<char>
    decreases ss,
{
    if ss.len() == 0 {
        Seq::empty()
    } else {
        block_text(ss.drop_last()) + " "@ + stmt_text(ss.last())
    }
}

pub fn clone_stmts(ss: &Vec<Stmt>) -> (r: Vec<Stmt>)
    ensures
        stmt_views(r@) == stmt_views(ss@),
    decreases ss,
{
    let mut out: Vec<Stmt> = Vec::new();
    let mut i: usize = 0;
    while i < ss.len()
        invariant
            i <= ss.len(),
            out@.len() == i,
            forall|j: int| 0 <= j < i ==> out@[j]@ == ss@[j]@,
        decreases ss.len() - i,
    {
        out.push(ss[i].clone());
        i = i + 1;
    }
    assert(stmt_views(out@) =~= stmt_views(ss@));
    out
}

impl Clone for Stmt {
    fn clone(&self) -> (r: Self)
        ensures
            r@ == self@,
        decreases self,
    {
        match self {
            Stmt::Expression { expression } => Stmt::Expression { expression: expression.clone() },
            Stmt::Print { expression } => Stmt::Print { expression: expression.clone() },
            Stmt::Limpar { expression } => Stmt::Limpar { expression: expression.clone() },
            Stmt::Var { name, initializer } => Stmt::Var {
                name: name.clone(),
                initializer: initializer.clone(),
            },
            Stmt::Block { statements } => Stmt::Block { statements: clone_stmts(statements) },
            Stmt::Class { name, methods, superclass } => Stmt::Class {
                name: name.clone(),
                methods: clone_stmts(methods),
                superclass: match superclass {
                    Some(e) => Some(e.clone()),
                    None => None,
                },
            },
            Stmt::IfStmt { predicate, then, els } => Stmt::IfStmt {
                predicate: predicate.clone(),
                then: Box::new((**then).clone()),
                els: match els {
                    Some(e) => Some(Box::new((**e).clone())),
                    None => None,
                },
            },
            Stmt::WhileStmt { condition, body } => Stmt::WhileStmt {
                condition: condition.clone(),
                body: Box::new((**body).clone()),
            },
            Stmt::Function { name, params, body } => Stmt::Function {
                name: name.clone(),
                params: clone_tokens(params),
                body: clone_stmts(body),
            },
            Stmt::CmdFunction { name, cmd } => Stmt::CmdFunction {
                name: name.clone(),
                cmd: cmd.clone(),
            },
            Stmt::ReturnStmt { keyword, value } => Stmt::ReturnStmt {
                keyword: keyword.clone(),
                value: match value {
                    Some(e) => Some(e.clone()),
                    None => None,
                },
            },
        }
    }
}

/// Writes out the statements of `ss`, a space before each.
pub fn stmts_to_string(ss: &Vec<Stmt>) -> (r: String)
    ensures
        r@ == block_text(stmt_views(ss@)),
    decreases ss,
{
    let mut out = String::new();
    let mut i: usize = 0;
    while i < ss.len()
        invariant
            i <= ss.len(),
            out@ == block_text(stmt_views(ss@).take(i as int)),
        decreases ss.len() - i,
    {
        proof {
            let all = stmt_views(ss@);
            assert(all.take(i + 1).drop_last() =~= all.take(i as int));
        }
        out.append(" ");
        let one = ss[i].to_string();
        out.append(one.as_str());
        i = i + 1;
    }
    assert(stmt_views(ss@).take(i as int) =~= stmt_views(ss@));
    out
}

impl Stmt {
    /// The statement in prefix form.
    pub fn to_string(&self) -> (r: String)
        ensures
            r@ == stmt_text(self@),
        decreases self,
    {
        let mut out = String::new();
        match self {
            Stmt::Expression { expression } => {
                out.append(expression.to_string().as_str());
            },
            Stmt::Print { expression } => {
                out.append("(saida ");
                out.append(expression.to_string().as_str());
                out.append(")");
            },
            Stmt::Limpar { expression } => {
                out.append("(limpar ");
                out.append(expression.to_string().as_str());
                out.append(")");
            },
            Stmt::Var { name, initializer } => {
                out.append("(var ");
                out.append(name.lexeme.as_str());
                out.append(" ");
                out.append(initializer.to_string().as_str());
                out.append(")");
            },
            Stmt::Block { statements } => {
                out.append("(bloco");
                out.append(stmts_to_string(statements).as_str());
                out.append(")");
            },
            Stmt::Class { name, methods, superclass } => {
                out.append("(classe ");
                out.append(name.lexeme.as_str());
                match superclass {
                    Some(e) => {
                        out.append(" < ");
                        out.append(e.to_string().as_str());
                    },
                    None => {},
                }
                out.append(stmts_to_string(methods).as_str());
                out.append(")");
            },
            Stmt::IfStmt { predicate, then, els } => {
                out.append("(se ");
                out.append(predicate.to_string().as_str());
                out.append(" ");
                out.append(then.to_string().as_str());
                match els {
                    Some(e) => {
                        out.append(" ");
                        out.append(e.to_string().as_str());
                    },
                    None => {},
                }
                out.append(")");
            },
            Stmt::WhileStmt { condition, body } => {
                out.append("(enquanto ");
                out.append(condition.to_string().as_str());
                out.append(" ");
                out.append(body.to_string().as_str());
                out.append(")");
            },
            Stmt::Function { name, params, body } => {
                out.append("(funcao ");
                out.append(name.lexeme.as_str());
                out.append(" (");
                out.append(names_to_string(params).as_str());
                out.append(")");
                out.append(stmts_to_string(body).as_str());
                out.append(")");
            },
            Stmt::CmdFunction { name, cmd } => {
                out.append("(funcao ");
                out.append(name.lexeme.as_str());
                out.append(" recebe ");
                out.append(cmd.as_str());
                out.append(")");
            },
            Stmt::ReturnStmt { keyword, value } => {
                out.append("(retorna");
                match value {
                    Some(e) => {
                        out.append(" ");
                        out.append(e.to_string().as_str());
                    },
                    None => {},
                }
                out.append(")");
            },
        }
        assert(out@ =~= stmt_text(self@));
        out
    }
}

} // verus!

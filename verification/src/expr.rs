use vstd::prelude::*;
use vstd::string::*;
use crate::scanner::{self, Token, TokenType, TokenView, token_views};
use crate::stmt::{Stmt, StmtView, stmt_views, clone_stmts, block_text, stmts_to_string};

verus! {

/// A constant of the source. A number is held as its decimal text.
#[derive(Debug)]
pub enum LiteralValue {
    Number(String),
    StringValue(String),
    True,
    False,
    Nil,
}

pub enum LiteralView {
    Number(Seq<char>),
    StringValue(Seq<char>),
    True,
    False,
    Nil,
}

impl View for LiteralValue {
    type V = LiteralView;

    open spec fn view(&self) -> LiteralView {
        match self {
            LiteralValue::Number(s) => LiteralView::Number(s@),
            LiteralValue::StringValue(s) => LiteralView::StringValue(s@),
            LiteralValue::True => LiteralView::True,
            LiteralValue::False => LiteralView::False,
            LiteralValue::Nil => LiteralView::Nil,
        }
    }
}

impl Clone for LiteralValue {
    fn clone(&self) -> (r: Self)
        ensures
            r@ == self@,
    {
        match self {
            LiteralValue::Number(s) => LiteralValue::Number(s.clone()),
            LiteralValue::StringValue(s) => LiteralValue::StringValue(s.clone()),
            LiteralValue::True => LiteralValue::True,
            LiteralValue::False => LiteralValue::False,
            LiteralValue::Nil => LiteralValue::Nil,
        }
    }
}

/// Whether a token is one that stands for a constant, and carries what
/// its kind needs: a number its text, a string its contents.
pub open spec fn is_literal(token: TokenView) -> bool {
    match token.token_type {
        TokenType::Number => token.literal is Some && token.literal->Some_0 is FValue,
        TokenType::StringLit => token.literal is Some && token.literal->Some_0 is SValue,
        TokenType::False | TokenType::True | TokenType::Nil => true,
        _ => false,
    }
}

/// The constant that a literal token stands for.
pub open spec fn literal_of(token: TokenView) -> LiteralView {
    match token.token_type {
        TokenType::Number => match token.literal {
            Some(scanner::LiteralView::FValue(text)) => LiteralView::Number(text),
            _ => LiteralView::Nil,
        },
        TokenType::StringLit => match token.literal {
            Some(scanner::LiteralView::SValue(text)) => LiteralView::StringValue(text),
            _ => LiteralView::Nil,
        },
        TokenType::False => LiteralView::False,
        TokenType::True => LiteralView::True,
        _ => LiteralView::Nil,
    }
}

/// How a constant is written out.
pub open spec fn literal_text(value: LiteralView) -> Seq<char> {
    match value {
        LiteralView::Number(text) => text,
        LiteralView::StringValue(text) => "\""@ + text + "\""@,
        LiteralView::True => "verdadeiro"@,
        LiteralView::False => "falso"@,
        LiteralView::Nil => "nulo"@,
    }
}

impl LiteralValue {
    pub fn from_token(token: Token) -> (r: Self)
        requires
            is_literal(token@),
        ensures
            r@ == literal_of(token@),
    {
        match token.token_type {
            TokenType::Number => match token.literal {
                Some(scanner::LiteralValue::FValue(text)) => LiteralValue::Number(text),
                _ => LiteralValue::Nil,
            },
            TokenType::StringLit => match token.literal {
                Some(scanner::LiteralValue::SValue(text)) => LiteralValue::StringValue(text),
                _ => LiteralValue::Nil,
            },
            TokenType::False => LiteralValue::False,
            TokenType::True => LiteralValue::True,
            _ => LiteralValue::Nil,
        }
    }

    pub fn to_string(&self) -> (r: String)
        ensures
            r@ == literal_text(self@),
    {
        match self {
            LiteralValue::Number(text) => text.clone(),
            LiteralValue::StringValue(text) => {
                let mut out = String::from_str("\"");
                out.append(text.as_str());
                out.append("\"");
                out
            },
            LiteralValue::True => String::from_str("verdadeiro"),
            LiteralValue::False => String::from_str("falso"),
            LiteralValue::Nil => String::from_str("nulo"),
        }
    }
}

#[derive(Debug)]
#[allow(inconsistent_fields)]
pub enum Expr {
    AnonFunction { id: usize, paren: Token, arguments: Vec<Token>, body: Vec<Stmt> },
    Assign { id: usize, name: Token, value: Box<Expr> },
    Binary { id: usize, left: Box<Expr>, operator: Token, right: Box<Expr> },
    Call { id: usize, callee: Box<Expr>, paren: Token, arguments: Vec<Expr> },
    Get { id: usize, object: Box<Expr>, name: Token },
    Grouping { id: usize, expression: Box<Expr> },
    Literal { id: usize, value: LiteralValue },
    Logical { id: usize, left: Box<Expr>, operator: Token, right: Box<Expr> },
    SetField { id: usize, object: Box<Expr>, name: Token, value: Box<Expr> },
    This { id: usize, keyword: Token },
    Super { id: usize, keyword: Token, method: Token },
    Unary { id: usize, operator: Token, right: Box<Expr> },
    Variable { id: usize, name: Token },
}

#[allow(inconsistent_fields)]
pub enum ExprView {
    AnonFunction { id: nat, paren: TokenView, arguments: Seq<TokenView>, body: Seq<StmtView> },
    Assign { id: nat, name: TokenView, value: Box<ExprView> },
    Binary { id: nat, left: Box<ExprView>, operator: TokenView, right: Box<ExprView> },
    Call { id: nat, callee: Box<ExprView>, paren: TokenView, arguments: Seq<ExprView> },
    Get { id: nat, object: Box<ExprView>, name: TokenView },
    Grouping { id: nat, expression: Box<ExprView> },
    Literal { id: nat, value: LiteralView },
    Logical { id: nat, left: Box<ExprView>, operator: TokenView, right: Box<ExprView> },
    SetField { id: nat, object: Box<ExprView>, name: TokenView, value: Box<ExprView> },
    This { id: nat, keyword: TokenView },
    Super { id: nat, keyword: TokenView, method: TokenView },
    Unary { id: nat, operator: TokenView, right: Box<ExprView> },
    Variable { id: nat, name: TokenView },
}

pub open spec fn expr_view(e: Expr) -> ExprView
    decreases e,
{
    match e {
        Expr::AnonFunction { id, paren, arguments, body } => ExprView::AnonFunction {
            id: id as nat,
            paren: paren@,
            arguments: token_views(arguments@),
            body: stmt_views(body@),
        },
        Expr::Assign { id, name, value } => ExprView::Assign {
            id: id as nat,
            name: name@,
            value: Box::new(expr_view(*value)),
        },
        Expr::Binary { id, left, operator, right } => ExprView::Binary {
            id: id as nat,
            left: Box::new(expr_view(*left)),
            operator: operator@,
            right: Box::new(expr_view(*right)),
        },
        Expr::Call { id, callee, paren, arguments } => ExprView::Call {
            id: id as nat,
            callee: Box::new(expr_view(*callee)),
            paren: paren@,
            arguments: expr_views(arguments@),
        },
        Expr::Get { id, object, name } => ExprView::Get {
            id: id as nat,
            object: Box::new(expr_view(*object)),
            name: name@,
        },
        Expr::Grouping { id, expression } => ExprView::Grouping {
            id: id as nat,
            expression: Box::new(expr_view(*expression)),
        },
        Expr::Literal { id, value } => ExprView::Literal { id: id as nat, value: value@ },
        Expr::Logical { id, left, operator, right } => ExprView::Logical {
            id: id as nat,
            left: Box::new(expr_view(*left)),
            operator: operator@,
            right: Box::new(expr_view(*right)),
        },
        Expr::SetField { id, object, name, value } => ExprView::SetField {
            id: id as nat,
            object: Box::new(expr_view(*object)),
            name: name@,
            value: Box::new(expr_view(*value)),
        },
        Expr::This { id, keyword } => ExprView::This { id: id as nat, keyword: keyword@ },
        Expr::Super { id, keyword, method } => ExprView::Super {
            id: id as nat,
            keyword: keyword@,
            method: method@,
        },
        Expr::Unary { id, operator, right } => ExprView::Unary {
            id: id as nat,
            operator: operator@,
            right: Box::new(expr_view(*right)),
        },
        Expr::Variable { id, name } => ExprView::Variable { id: id as nat, name: name@ },
    }
}

/// The views of a sequence of expressions, one by one.
pub open spec fn expr_views(es: Seq<Expr>) -> Seq<ExprView>
    decreases es,
{
    Seq::new(
        es.len(),
        |i: int|
            if 0 <= i < es.len() {
                expr_view(es[i])
            } else {
                ExprView::Literal { id: 0, value: LiteralView::Nil }
            },
    )
}

impl View for Expr {
    type V = ExprView;

    open spec fn view(&self) -> ExprView {
        expr_view(*self)
    }
}

/// An expression written out in prefix form, each node in parentheses
/// with its operator first.
pub open spec fn expr_text(e: ExprView) -> Seq<char>
    decreases e,
{
    match e {
        ExprView::AnonFunction { id, paren, arguments, body } => "(funcao ("@ + names_text(
            arguments,
        ) + ")"@ + block_text(body) + ")"@,
        ExprView::Assign { id, name, value } => "(= "@ + name.lexeme + " "@ + expr_text(*value)
            + ")"@,
        ExprView::Binary { id, left, operator, right } => "("@ + operator.lexeme + " "@
            + expr_text(*left) + " "@ + expr_text(*right) + ")"@,
        ExprView::Call { id, callee, paren, arguments } => "(call "@ + expr_text(*callee)
            + exprs_text(arguments) + ")"@,
        ExprView::Get { id, object, name } => "(get "@ + expr_text(*object) + " "@ + name.lexeme
            + ")"@,
        ExprView::Grouping { id, expression } => "(group "@ + expr_text(*expression) + ")"@,
        ExprView::Literal { id, value } => literal_text(value),
        ExprView::Logical { id, left, operator, right } => "("@ + operator.lexeme + " "@
            + expr_text(*left) + " "@ + expr_text(*right) + ")"@,
        ExprView::SetField { id, object, name, value } => "(set "@ + expr_text(*object) + " "@
            + name.lexeme + " "@ + expr_text(*value) + ")"@,
        ExprView::This { id, keyword } => "(este)"@,
        ExprView::Super { id, keyword, method } => "(super "@ + method.lexeme + ")"@,
        ExprView::Unary { id, operator, right } => "("@ + operator.lexeme + " "@ + expr_text(
            *right,
        ) + ")"@,
        ExprView::Variable { id, name } => "(var "@ + name.lexeme + ")"@,
    }
}

/// The expressions of a list written out, a space before each.
pub open spec fn exprs_text(es: Seq<ExprView>) -> Seq<char>
    decreases es,
{
    if es.len() == 0 {
        Seq::empty()
    } else {
        exprs_text(es.drop_last()) + " "@ + expr_text(es.last())
    }
}

/// The lexemes of a list of tokens, a space before each.
pub open spec fn names_text(names: Seq<TokenView>) -> Seq<char>
    decreases names.len(),
{
    if names.len() == 0 {
        Seq::empty()
    } else {
        names_text(names.drop_last()) + " "@ + names.last().lexeme
    }
}

pub fn clone_tokens(tokens: &Vec<Token>) -> (r: Vec<Token>)
    ensures
        token_views(r@) == token_views(tokens@),
{
    let mut out: Vec<Token> = Vec::new();
    let mut i: usize = 0;
    while i < tokens.len()
        invariant
            i <= tokens.len(),
            out@.len() == i,
            forall|j: int| 0 <= j < i ==> out@[j]@ == tokens@[j]@,
        decreases tokens.len() - i,
    {
        out.push(tokens[i].clone());
        i = i + 1;
    }
    assert(token_views(out@) =~= token_views(tokens@));
    out
}

pub fn clone_exprs(es: &Vec<Expr>) -> (r: Vec<Expr>)
    ensures
        expr_views(r@) == expr_views(es@),
    decreases es,
{
    let mut out: Vec<Expr> = Vec::new();
    let mut i: usize = 0;
    while i < es.len()
        invariant
            i <= es.len(),
            out@.len() == i,
            forall|j: int| 0 <= j < i ==> out@[j]@ == es@[j]@,
        decreases es.len() - i,
    {
        out.push(es[i].clone());
        i = i + 1;
    }
    assert(expr_views(out@) =~= expr_views(es@));
    out
}

impl Clone for Expr {
    fn clone(&self) -> (r: Self)
        ensures
            r@ == self@,
        decreases self,
    {
        match self {
            Expr::AnonFunction { id, paren, arguments, body } => Expr::AnonFunction {
                id: *id,
                paren: paren.clone(),
                arguments: clone_tokens(arguments),
                body: clone_stmts(body),
            },
            Expr::Assign { id, name, value } => Expr::Assign {
                id: *id,
                name: name.clone(),
                value: Box::new((**value).clone()),
            },
            Expr::Binary { id, left, operator, right } => Expr::Binary {
                id: *id,
                left: Box::new((**left).clone()),
                operator: operator.clone(),
                right: Box::new((**right).clone()),
            },
            Expr::Call { id, callee, paren, arguments } => Expr::Call {
                id: *id,
                callee: Box::new((**callee).clone()),
                paren: paren.clone(),
                arguments: clone_exprs(arguments),
            },
            Expr::Get { id, object, name } => Expr::Get {
                id: *id,
                object: Box::new((**object).clone()),
                name: name.clone(),
            },
            Expr::Grouping { id, expression } => Expr::Grouping {
                id: *id,
                expression: Box::new((**expression).clone()),
            },
            Expr::Literal { id, value } => Expr::Literal { id: *id, value: value.clone() },
            Expr::Logical { id, left, operator, right } => Expr::Logical {
                id: *id,
                left: Box::new((**left).clone()),
                operator: operator.clone(),
                right: Box::new((**right).clone()),
            },
            Expr::SetField { id, object, name, value } => Expr::SetField {
                id: *id,
                object: Box::new((**object).clone()),
                name: name.clone(),
                value: Box::new((**value).clone()),
            },
            Expr::This { id, keyword } => Expr::This { id: *id, keyword: keyword.clone() },
            Expr::Super { id, keyword, method } => Expr::Super {
                id: *id,
                keyword: keyword.clone(),
                method: method.clone(),
            },
            Expr::Unary { id, operator, right } => Expr::Unary {
                id: *id,
                operator: operator.clone(),
                right: Box::new((**right).clone()),
            },
            Expr::Variable { id, name } => Expr::Variable { id: *id, name: name.clone() },
        }
    }
}

/// Writes out the lexemes of `names`, a space before each.
pub fn names_to_string(names: &Vec<Token>) -> (r: String)
    ensures
        r@ == names_text(token_views(names@)),
{
    let mut out = String::new();
    let mut i: usize = 0;
    while i < names.len()
        invariant
            i <= names.len(),
            out@ == names_text(token_views(names@).take(i as int)),
        decreases names.len() - i,
    {
        proof {
            let all = token_views(names@);
            assert(all.take(i + 1).drop_last() =~= all.take(i as int));
        }
        out.append(" ");
        out.append(names[i].lexeme.as_str());
        i = i + 1;
    }
    assert(token_views(names@).take(i as int) =~= token_views(names@));
    out
}

/// Writes out the expressions of `es`, a space before each.
pub fn exprs_to_string(es: &Vec<Expr>) -> (r: String)
    ensures
        r@ == exprs_text(expr_views(es@)),
    decreases es,
{
    let mut out = String::new();
    let mut i: usize = 0;
    while i < es.len()
        invariant
            i <= es.len(),
            out@ == exprs_text(expr_views(es@).take(i as int)),
        decreases es.len() - i,
    {
        proof {
            let all = expr_views(es@);
            assert(all.take(i + 1).drop_last() =~= all.take(i as int));
        }
        out.append(" ");
        let one = es[i].to_string();
        out.append(one.as_str());
        i = i + 1;
    }
    assert(expr_views(es@).take(i as int) =~= expr_views(es@));
    out
}

impl Expr {
    /// The expression in prefix form.
    pub fn to_string(&self) -> (r: String)
        ensures
            r@ == expr_text(self@),
        decreases self,
    {
        let mut out = String::new();
        match self {
            Expr::AnonFunction { id, paren, arguments, body } => {
                out.append("(funcao (");
                out.append(names_to_string(arguments).as_str());
                out.append(")");
                out.append(stmts_to_string(body).as_str());
                out.append(")");
            },
            Expr::Assign { id, name, value } => {
                out.append("(= ");
                out.append(name.lexeme.as_str());
                out.append(" ");
                out.append(value.to_string().as_str());
                out.append(")");
            },
            Expr::Binary { id, left, operator, right } => {
                out.append("(");
                out.append(operator.lexeme.as_str());
                out.append(" ");
                out.append(left.to_string().as_str());
                out.append(" ");
                out.append(right.to_string().as_str());
                out.append(")");
            },
            Expr::Call { id, callee, paren, arguments } => {
                out.append("(call ");
                out.append(callee.to_string().as_str());
                out.append(exprs_to_string(arguments).as_str());
                out.append(")");
            },
            Expr::Get { id, object, name } => {
                out.append("(get ");
                out.append(object.to_string().as_str());
                out.append(" ");
                out.append(name.lexeme.as_str());
                out.append(")");
            },
            Expr::Grouping { id, expression } => {
                out.append("(group ");
                out.append(expression.to_string().as_str());
                out.append(")");
            },
            Expr::Literal { id, value } => {
                out.append(value.to_string().as_str());
            },
            Expr::Logical { id, left, operator, right } => {
                out.append("(");
                out.append(operator.lexeme.as_str());
                out.append(" ");
                out.append(left.to_string().as_str());
                out.append(" ");
                out.append(right.to_string().as_str());
                out.append(")");
            },
            Expr::SetField { id, object, name, value } => {
                out.append("(set ");
                out.append(object.to_string().as_str());
                out.append(" ");
                out.append(name.lexeme.as_str());
                out.append(" ");
                out.append(value.to_string().as_str());
                out.append(")");
            },
            Expr::This { id, keyword } => {
                out.append("(este)");
            },
            Expr::Super { id, keyword, method } => {
                out.append("(super ");
                out.append(method.lexeme.as_str());
                out.append(")");
            },
            Expr::Unary { id, operator, right } => {
                out.append("(");
                out.append(operator.lexeme.as_str());
                out.append(" ");
                out.append(right.to_string().as_str());
                out.append(")");
            },
            Expr::Variable { id, name } => {
                out.append("(var ");
                out.append(name.lexeme.as_str());
                out.append(")");
            },
        }
        assert(out@ =~= expr_text(self@));
        out
    }
}

} // verus!

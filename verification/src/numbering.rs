use vstd::prelude::*;
use crate::expr::ExprView;
use crate::grammar::{
    self,
    FunctionKind,
    Level,
    Parsed,
    arguments,
    assign_to,
    assignment,
    binary,
    binary_rest,
    block,
    block_statement,
    call,
    call_rest,
    class_declaration,
    declaration,
    desugar,
    else_branch,
    expression,
    expression_statement,
    finish_call,
    for_clause,
    for_initializer,
    for_statement,
    function,
    function_expression,
    if_statement,
    is_operator,
    join,
    kind_at,
    level_index,
    limpa_tela,
    methods,
    operand,
    primary,
    print_statement,
    program,
    remaining,
    return_statement,
    statement,
    unary,
    var_declaration,
    while_statement,
};
use crate::scanner::{TokenType, TokenView};
use crate::stmt::StmtView;

verus! {

/// The numbers of the expressions of `e`, `e` itself among them.
pub open spec fn expr_ids(e: ExprView) -> Set<nat>
    decreases e,
{
    match e {
        ExprView::AnonFunction { id, paren, arguments, body } => stmts_ids(body).insert(id),
        ExprView::Assign { id, name, value } => expr_ids(*value).insert(id),
        ExprView::Binary { id, left, operator, right } => (expr_ids(*left) + expr_ids(*right)).insert(
            id,
        ),
        ExprView::Call { id, callee, paren, arguments } => (expr_ids(*callee) + exprs_ids(
            arguments,
        )).insert(id),
        ExprView::Get { id, object, name } => expr_ids(*object).insert(id),
        ExprView::Grouping { id, expression } => expr_ids(*expression).insert(id),
        ExprView::Literal { id, value } => Set::empty().insert(id),
        ExprView::Logical { id, left, operator, right } => (expr_ids(*left) + expr_ids(
            *right,
        )).insert(id),
        ExprView::SetField { id, object, name, value } => (expr_ids(*object) + expr_ids(
            *value,
        )).insert(id),
        ExprView::This { id, keyword } => Set::empty().insert(id),
        ExprView::Super { id, keyword, method } => Set::empty().insert(id),
        ExprView::Unary { id, operator, right } => expr_ids(*right).insert(id),
        ExprView::Variable { id, name } => Set::empty().insert(id),
    }
}

/// The numbers of the expressions of a list of expressions.
pub open spec fn exprs_ids(es: Seq<ExprView>) -> Set<nat>
    decreases es,
{
    if es.len() == 0 {
        Set::empty()
    } else {
        expr_ids(es[0]) + exprs_ids(es.subrange(1, es.len() as int))
    }
}

/// The numbers of the expressions of a statement.
pub open spec fn stmt_ids(s: StmtView) -> Set<nat>
    decreases s,
{
    match s {
        StmtView::Expression { expression } => expr_ids(expression),
        StmtView::Print { expression } => expr_ids(expression),
        StmtView::Limpar { expression } => expr_ids(expression),
        StmtView::Var { name, initializer } => expr_ids(initializer),
        StmtView::Block { statements } => stmts_ids(statements),
        StmtView::Class { name, methods, superclass } => (match superclass {
            Some(e) => expr_ids(e),
            None => Set::empty(),
        }) + stmts_ids(methods),
        StmtView::IfStmt { predicate, then, els } => expr_ids(predicate) + stmt_ids(*then) + (match els {
            Some(e) => stmt_ids(*e),
            None => Set::empty(),
        }),
        StmtView::WhileStmt { condition, body } => expr_ids(condition) + stmt_ids(*body),
        StmtView::Function { name, params, body } => stmts_ids(body),
        StmtView::CmdFunction { name, cmd } => Set::empty(),
        StmtView::ReturnStmt { keyword, value } => match value {
            Some(e) => expr_ids(e),
            None => Set::empty(),
        },
    }
}

/// The numbers of the expressions of a list of statements.
pub open spec fn stmts_ids(ss: Seq<StmtView>) -> Set<nat>
    decreases ss,
{
    if ss.len() == 0 {
        Set::empty()
    } else {
        stmt_ids(ss[0]) + stmts_ids(ss.subrange(1, ss.len() as int))
    }
}

/// No two expressions of `e` have the same number.
pub open spec fn expr_unique(e: ExprView) -> bool
    decreases e,
{
    match e {
        ExprView::AnonFunction { id, paren, arguments, body } => stmts_unique(body) && !stmts_ids(
            body,
        ).contains(id),
        ExprView::Assign { id, name, value } => expr_unique(*value) && !expr_ids(*value).contains(id),
        ExprView::Binary { id, left, operator, right } => apart(
            expr_unique(*left),
            expr_unique(*right),
            expr_ids(*left),
            expr_ids(*right),
            id,
        ),
        ExprView::Call { id, callee, paren, arguments } => {
            &&& expr_unique(*callee)
            &&& exprs_unique(arguments)
            &&& expr_ids(*callee).disjoint(exprs_ids(arguments))
            &&& !expr_ids(*callee).contains(id)
            &&& !exprs_ids(arguments).contains(id)
        },
        ExprView::Get { id, object, name } => expr_unique(*object) && !expr_ids(*object).contains(id),
        ExprView::Grouping { id, expression } => expr_unique(*expression) && !expr_ids(
            *expression,
        ).contains(id),
        ExprView::Literal { id, value } => true,
        ExprView::Logical { id, left, operator, right } => apart(
            expr_unique(*left),
            expr_unique(*right),
            expr_ids(*left),
            expr_ids(*right),
            id,
        ),
        ExprView::SetField { id, object, name, value } => apart(
            expr_unique(*object),
            expr_unique(*value),
            expr_ids(*object),
            expr_ids(*value),
            id,
        ),
        ExprView::This { id, keyword } => true,
        ExprView::Super { id, keyword, method } => true,
        ExprView::Unary { id, operator, right } => expr_unique(*right) && !expr_ids(*right).contains(id),
        ExprView::Variable { id, name } => true,
    }
}

/// Two expressions, each without a number that comes twice in it, have
/// no number in common, and none has the number `id`.
pub open spec fn apart(left: bool, right: bool, in_left: Set<nat>, in_right: Set<nat>, id: nat) -> bool {
    &&& left
    &&& right
    &&& in_left.disjoint(in_right)
    &&& !in_left.contains(id)
    &&& !in_right.contains(id)
}

pub open spec fn exprs_unique(es: Seq<ExprView>) -> bool
    decreases es,
{
    if es.len() == 0 {
        true
    } else {
        &&& expr_unique(es[0])
        &&& exprs_unique(es.subrange(1, es.len() as int))
        &&& expr_ids(es[0]).disjoint(exprs_ids(es.subrange(1, es.len() as int)))
    }
}

/// No two expressions of a statement have the same number.
pub open spec fn stmt_unique(s: StmtView) -> bool
    decreases s,
{
    match s {
        StmtView::Expression { expression } => expr_unique(expression),
        StmtView::Print { expression } => expr_unique(expression),
        StmtView::Limpar { expression } => expr_unique(expression),
        StmtView::Var { name, initializer } => expr_unique(initializer),
        StmtView::Block { statements } => stmts_unique(statements),
        StmtView::Class { name, methods, superclass } => stmts_unique(methods) && (match superclass {
            Some(e) => expr_unique(e) && expr_ids(e).disjoint(stmts_ids(methods)),
            None => true,
        }),
        StmtView::IfStmt { predicate, then, els } => {
            &&& expr_unique(predicate)
            &&& stmt_unique(*then)
            &&& expr_ids(predicate).disjoint(stmt_ids(*then))
            &&& match els {
                Some(e) => stmt_unique(*e) && expr_ids(predicate).disjoint(stmt_ids(*e)) && stmt_ids(
                    *then,
                ).disjoint(stmt_ids(*e)),
                None => true,
            }
        },
        StmtView::WhileStmt { condition, body } => expr_unique(condition) && stmt_unique(*body)
            && expr_ids(condition).disjoint(stmt_ids(*body)),
        StmtView::Function { name, params, body } => stmts_unique(body),
        StmtView::CmdFunction { name, cmd } => true,
        StmtView::ReturnStmt { keyword, value } => match value {
            Some(e) => expr_unique(e),
            None => true,
        },
    }
}

pub open spec fn stmts_unique(ss: Seq<StmtView>) -> bool
    decreases ss,
{
    if ss.len() == 0 {
        true
    } else {
        &&& stmt_unique(ss[0])
        &&& stmts_unique(ss.subrange(1, ss.len() as int))
        &&& stmt_ids(ss[0]).disjoint(stmts_ids(ss.subrange(1, ss.len() as int)))
    }
}

/// Every number of `s` is at least `lo` and less than `hi`.
pub open spec fn within(s: Set<nat>, lo: nat, hi: nat) -> bool {
    forall|k: nat| s.contains(k) ==> lo <= k < hi
}

/// The expressions of `e` have numbers of their own from `lo` up to,
/// but not including, `hi`.
pub open spec fn numbered(e: ExprView, lo: nat, hi: nat) -> bool {
    expr_unique(e) && within(expr_ids(e), lo, hi)
}

pub open spec fn numbered_stmt(s: StmtView, lo: nat, hi: nat) -> bool {
    stmt_unique(s) && within(stmt_ids(s), lo, hi)
}

pub open spec fn numbered_stmts(ss: Seq<StmtView>, lo: nat, hi: nat) -> bool {
    stmts_unique(ss) && within(stmts_ids(ss), lo, hi)
}

pub open spec fn numbered_exprs(es: Seq<ExprView>, lo: nat, hi: nat) -> bool {
    exprs_unique(es) && within(exprs_ids(es), lo, hi)
}

/// What holds of an expression that was read with the numbers from `id`
/// on: no more numbers were handed out than tokens were read; and if it
/// was read in full, at least one token was read, and its expressions
/// have numbers of their own among those that were handed out.
pub open spec fn well_read(p: Parsed<ExprView>, id: nat) -> bool {
    &&& p.ids <= p.consumed
    &&& p.result matches Ok(e) ==> p.consumed >= 1 && numbered(e, id, id + p.ids)
}

/// The same of a statement.
pub open spec fn well_read_stmt(p: Parsed<StmtView>, id: nat) -> bool {
    &&& p.ids <= p.consumed
    &&& p.result matches Ok(s) ==> p.consumed >= 1 && numbered_stmt(s, id, id + p.ids)
}

/// The same of a list of statements and its closing brace.
pub open spec fn well_read_stmts(p: Parsed<Seq<StmtView>>, id: nat) -> bool {
    &&& p.ids <= p.consumed
    &&& p.result matches Ok(ss) ==> numbered_stmts(ss, id, id + p.ids)
}

proof fn lemma_cons_stmts(s: StmtView, rest: Seq<StmtView>)
    ensures
        stmts_ids(seq![s] + rest) == stmt_ids(s) + stmts_ids(rest),
        stmts_unique(seq![s] + rest) == (stmt_unique(s) && stmts_unique(rest) && stmt_ids(s).disjoint(
            stmts_ids(rest),
        )),
{
    let all = seq![s] + rest;
    assert(all[0] == s);
    assert(all.subrange(1, all.len() as int) =~= rest);
}

proof fn lemma_cons_exprs(e: ExprView, rest: Seq<ExprView>)
    ensures
        exprs_ids(seq![e] + rest) == expr_ids(e) + exprs_ids(rest),
        exprs_unique(seq![e] + rest) == (expr_unique(e) && exprs_unique(rest) && expr_ids(e).disjoint(
            exprs_ids(rest),
        )),
{
    let all = seq![e] + rest;
    assert(all[0] == e);
    assert(all.subrange(1, all.len() as int) =~= rest);
}

proof fn lemma_one_expr(e: ExprView)
    ensures
        exprs_ids(seq![e]) == expr_ids(e),
        exprs_unique(seq![e]) == expr_unique(e),
{
    lemma_cons_exprs(e, Seq::empty());
    assert(seq![e] + Seq::<ExprView>::empty() =~= seq![e]);
    assert(expr_ids(e) + Set::<nat>::empty() =~= expr_ids(e));
}

proof fn lemma_two_stmts(a: StmtView, b: StmtView)
    ensures
        stmts_ids(seq![a, b]) == stmt_ids(a) + stmt_ids(b),
        stmts_unique(seq![a, b]) == (stmt_unique(a) && stmt_unique(b) && stmt_ids(a).disjoint(
            stmt_ids(b),
        )),
{
    lemma_cons_stmts(a, seq![b]);
    lemma_cons_stmts(b, Seq::empty());
    assert(seq![a] + seq![b] =~= seq![a, b]);
    assert(seq![b] + Seq::<StmtView>::empty() =~= seq![b]);
    assert(stmt_ids(b) + Set::<nat>::empty() =~= stmt_ids(b));
}

/// The same of a list of expressions.
pub open spec fn well_read_exprs(p: Parsed<Seq<ExprView>>, id: nat) -> bool {
    &&& p.ids <= p.consumed
    &&& p.result matches Ok(es) ==> p.consumed >= 1 && numbered_exprs(es, id, id + p.ids)
}

/// What holds of what follows an expression that has the numbers from
/// `lo` up to `id`: no more numbers were handed out than tokens were
/// read, and the whole has numbers of its own from `lo` on.
pub open spec fn well_continued(p: Parsed<ExprView>, lo: nat, id: nat) -> bool {
    &&& p.ids <= p.consumed
    &&& p.result matches Ok(e) ==> numbered(e, lo, id + p.ids)
}

#[verifier::spinoff_prover]
#[verifier::rlimit(50)]
proof fn lemma_primary(tokens: Seq<TokenView>, pos: int, id: nat)
    ensures
        well_read(primary(tokens, pos, id), id),
    decreases remaining(tokens, pos), 9nat,
{
    reveal(primary);
    reveal(expression);
    reveal(function_expression);
    if kind_at(tokens, pos) == TokenType::LeftParen {
        lemma_expression(tokens, pos + 1, id);
    } else if kind_at(tokens, pos) == TokenType::Fun {
        lemma_function_expression(tokens, pos + 1, id);
    }
}

#[verifier::spinoff_prover]
#[verifier::rlimit(50)]
proof fn lemma_function_expression(tokens: Seq<TokenView>, pos: int, id: nat)
    ensures
        ({
            let p = function_expression(tokens, pos, id);
            &&& p.ids <= p.consumed
            &&& p.result matches Ok(e) ==> numbered(e, id, id + p.ids)
        }),
    decreases remaining(tokens, pos), 0nat,
{
    reveal(function_expression);
    reveal(block);
    if kind_at(tokens, pos) == TokenType::LeftParen {
        let params = grammar::parameters(tokens, pos + 1, false);
        lemma_block(tokens, pos + 1 + params.consumed + 2, id);
    }
}

#[verifier::spinoff_prover]
#[verifier::rlimit(50)]
proof fn lemma_arguments(tokens: Seq<TokenView>, pos: int, id: nat, count: nat)
    ensures
        well_read_exprs(arguments(tokens, pos, id, count), id),
    decreases remaining(tokens, pos), 36nat,
{
    reveal(arguments);
    reveal(expression);
    lemma_expression(tokens, pos, id);
    let first = expression(tokens, pos, id);
    match first.result {
        Ok(e) => {
            let at = pos + first.consumed;
            if kind_at(tokens, at) == TokenType::Comma {
                lemma_arguments(tokens, at + 1, id + first.ids, count + 1);
                let rest = arguments(tokens, at + 1, id + first.ids, count + 1);
                match rest.result {
                    Ok(more) => {
                        lemma_cons_exprs(e, more);
                    },
                    Err(_) => {},
                }
            } else {
                lemma_one_expr(e);
            }
        },
        Err(_) => {},
    }
}

proof fn lemma_call_node(id: nat, callee: ExprView, paren: TokenView, args: Seq<ExprView>, lo: nat, mid: nat)
    requires
        lo <= mid <= id,
        numbered(callee, lo, mid),
        numbered_exprs(args, mid, id),
    ensures
        numbered(ExprView::Call { id, callee: Box::new(callee), paren, arguments: args }, lo, id + 1),
{
    let node = ExprView::Call { id, callee: Box::new(callee), paren, arguments: args };
    assert(expr_ids(node) == (expr_ids(callee) + exprs_ids(args)).insert(id));
}

proof fn lemma_class_node(
    name: TokenView,
    list: Seq<StmtView>,
    parent: Option<ExprView>,
    lo: nat,
    mid: nat,
    hi: nat,
)
    requires
        lo <= mid <= hi,
        parent matches Some(e) ==> numbered(e, lo, mid),
        numbered_stmts(list, mid, hi),
    ensures
        numbered_stmt(StmtView::Class { name, methods: list, superclass: parent }, lo, hi),
{
}

#[verifier::spinoff_prover]
#[verifier::rlimit(50)]
proof fn lemma_finish_call(tokens: Seq<TokenView>, pos: int, id: nat, callee: ExprView, lo: nat)
    requires
        lo <= id,
        numbered(callee, lo, id),
    ensures
        ({
            let p = finish_call(tokens, pos, id, callee);
            &&& p.ids <= p.consumed
            &&& p.result matches Ok(e) ==> p.consumed >= 1 && numbered(e, lo, id + p.ids)
        }),
    decreases remaining(tokens, pos), 37nat,
{
    reveal(finish_call);
    reveal(arguments);
    if kind_at(tokens, pos) != TokenType::RightParen {
        lemma_arguments(tokens, pos, id, 0);
        let args = arguments(tokens, pos, id, 0);
        match args.result {
            Ok(list) => {
                if kind_at(tokens, pos + args.consumed) == TokenType::RightParen {
                    lemma_call_node(
                        id + args.ids,
                        callee,
                        tokens[pos + args.consumed],
                        list,
                        lo,
                        id,
                    );
                }
            },
            Err(_) => {},
        }
    } else {
        lemma_call_node(id, callee, tokens[pos], Seq::empty(), lo, id);
    }
}

#[verifier::spinoff_prover]
#[verifier::rlimit(50)]
proof fn lemma_call_rest(tokens: Seq<TokenView>, pos: int, id: nat, callee: ExprView, lo: nat)
    requires
        lo <= id,
        numbered(callee, lo, id),
    ensures
        well_continued(call_rest(tokens, pos, id, callee), lo, id),
    decreases remaining(tokens, pos), 10nat,
{
    reveal(call_rest);
    reveal(finish_call);
    if kind_at(tokens, pos) == TokenType::LeftParen {
        lemma_finish_call(tokens, pos + 1, id, callee, lo);
        let made = finish_call(tokens, pos + 1, id, callee);
        match made.result {
            Ok(e) => {
                lemma_call_rest(tokens, pos + 1 + made.consumed, id + made.ids, e, lo);
            },
            Err(_) => {},
        }
    } else if kind_at(tokens, pos) == TokenType::Dot {
        if kind_at(tokens, pos + 1) == TokenType::Identifier {
            let got = ExprView::Get { id, object: Box::new(callee), name: tokens[pos + 1] };
            lemma_call_rest(tokens, pos + 2, id + 1, got, lo);
        }
    }
}

#[verifier::spinoff_prover]
#[verifier::rlimit(50)]
proof fn lemma_call(tokens: Seq<TokenView>, pos: int, id: nat)
    ensures
        well_read(call(tokens, pos, id), id),
    decreases remaining(tokens, pos), 11nat,
{
    reveal(call);
    reveal(primary);
    reveal(call_rest);
    lemma_primary(tokens, pos, id);
    let first = primary(tokens, pos, id);
    match first.result {
        Ok(e) => {
            lemma_call_rest(tokens, pos + first.consumed, id + first.ids, e, id);
        },
        Err(_) => {},
    }
}

#[verifier::spinoff_prover]
#[verifier::rlimit(50)]
proof fn lemma_unary(tokens: Seq<TokenView>, pos: int, id: nat)
    ensures
        well_read(unary(tokens, pos, id), id),
    decreases remaining(tokens, pos), 12nat,
{
    reveal(unary);
    reveal(call);
    if kind_at(tokens, pos) == TokenType::Bang || kind_at(tokens, pos) == TokenType::Minus {
        lemma_unary(tokens, pos + 1, id);
    } else {
        lemma_call(tokens, pos, id);
    }
}

#[verifier::spinoff_prover]
#[verifier::rlimit(50)]
proof fn lemma_operand(tokens: Seq<TokenView>, level: Level, pos: int, id: nat)
    ensures
        well_read(operand(tokens, level, pos, id), id),
    decreases remaining(tokens, pos), (31 - 3 * level_index(level)) as nat,
{
    reveal(operand);
    reveal(binary);
    reveal(unary);
    match level {
        Level::Pipe => lemma_binary(tokens, Level::Or, pos, id),
        Level::Or => lemma_binary(tokens, Level::And, pos, id),
        Level::And => lemma_binary(tokens, Level::Equality, pos, id),
        Level::Equality => lemma_binary(tokens, Level::Comparison, pos, id),
        Level::Comparison => lemma_binary(tokens, Level::Term, pos, id),
        Level::Term => lemma_binary(tokens, Level::Factor, pos, id),
        Level::Factor => lemma_unary(tokens, pos, id),
    }
}

proof fn lemma_join(level: Level, id: nat, left: ExprView, operator: TokenView, right: ExprView, lo: nat, mid: nat)
    requires
        lo <= mid <= id,
        numbered(left, lo, mid),
        numbered(right, mid, id),
    ensures
        numbered(join(level, id, left, operator, right), lo, id + 1),
{
    lemma_one_expr(left);
}

#[verifier::spinoff_prover]
#[verifier::rlimit(50)]
proof fn lemma_binary_rest(tokens: Seq<TokenView>, level: Level, pos: int, id: nat, left: ExprView, lo: nat)
    requires
        lo <= id,
        numbered(left, lo, id),
    ensures
        well_continued(binary_rest(tokens, level, pos, id, left), lo, id),
    decreases remaining(tokens, pos), (32 - 3 * level_index(level)) as nat,
{
    reveal(binary_rest);
    reveal(operand);
    if is_operator(level, kind_at(tokens, pos)) {
        lemma_operand(tokens, level, pos + 1, id);
        let right = operand(tokens, level, pos + 1, id);
        match right.result {
            Ok(r) => {
                let node = join(level, id + right.ids, left, tokens[pos], r);
                lemma_join(level, id + right.ids, left, tokens[pos], r, lo, id);
                lemma_binary_rest(
                    tokens,
                    level,
                    pos + 1 + right.consumed,
                    id + right.ids + 1,
                    node,
                    lo,
                );
            },
            Err(_) => {},
        }
    }
}

#[verifier::spinoff_prover]
#[verifier::rlimit(50)]
proof fn lemma_binary(tokens: Seq<TokenView>, level: Level, pos: int, id: nat)
    ensures
        well_read(binary(tokens, level, pos, id), id),
    decreases remaining(tokens, pos), (33 - 3 * level_index(level)) as nat,
{
    reveal(binary);
    reveal(operand);
    reveal(binary_rest);
    lemma_operand(tokens, level, pos, id);
    let first = operand(tokens, level, pos, id);
    match first.result {
        Ok(e) => {
            lemma_binary_rest(tokens, level, pos + first.consumed, id + first.ids, e, id);
        },
        Err(_) => {},
    }
}

proof fn lemma_assign_to(target: ExprView, id: nat, value: ExprView, lo: nat, mid: nat)
    requires
        lo <= mid <= id,
        numbered(target, lo, mid),
        numbered(value, mid, id),
    ensures
        assign_to(target, id, value) matches Some(node) ==> numbered(node, lo, id + 1),
{
    match target {
        ExprView::Variable { id: _, name } => {
            let node = ExprView::Assign { id, name, value: Box::new(value) };
            assert(expr_ids(node) == expr_ids(value).insert(id));
        },
        ExprView::Get { id: before, object, name } => {
            let node = ExprView::SetField { id, object, name, value: Box::new(value) };
            assert(expr_ids(target) == expr_ids(*object).insert(before));
            assert(expr_unique(*object));
            assert(within(expr_ids(*object), lo, mid)) by {
                assert forall|k: nat| expr_ids(*object).contains(k) implies lo <= k < mid by {
                    assert(expr_ids(target).contains(k));
                }
            }
            assert(expr_ids(node) == (expr_ids(*object) + expr_ids(value)).insert(id));
        },
        _ => {},
    }
}

#[verifier::spinoff_prover]
#[verifier::rlimit(50)]
proof fn lemma_assignment(tokens: Seq<TokenView>, pos: int, id: nat)
    ensures
        well_read(assignment(tokens, pos, id), id),
    decreases remaining(tokens, pos), 34nat,
{
    reveal(assignment);
    reveal(binary);
    reveal(expression);
    lemma_binary(tokens, Level::Pipe, pos, id);
    let target = binary(tokens, Level::Pipe, pos, id);
    match target.result {
        Ok(e) => {
            let at = pos + target.consumed;
            if kind_at(tokens, at) == TokenType::Equal {
                lemma_expression(tokens, at + 1, id + target.ids);
                let value = expression(tokens, at + 1, id + target.ids);
                match value.result {
                    Ok(v) => {
                        lemma_assign_to(
                            e,
                            id + target.ids + value.ids,
                            v,
                            id,
                            id + target.ids,
                        );
                    },
                    Err(_) => {},
                }
            }
        },
        Err(_) => {},
    }
}

#[verifier::spinoff_prover]
#[verifier::rlimit(50)]
proof fn lemma_expression(tokens: Seq<TokenView>, pos: int, id: nat)
    ensures
        well_read(expression(tokens, pos, id), id),
    decreases remaining(tokens, pos), 35nat,
{
    reveal(expression);
    reveal(assignment);
    lemma_assignment(tokens, pos, id);
}

#[verifier::spinoff_prover]
#[verifier::rlimit(50)]
proof fn lemma_expression_statement(tokens: Seq<TokenView>, pos: int, id: nat)
    ensures
        well_read_stmt(expression_statement(tokens, pos, id), id),
    decreases remaining(tokens, pos), 38nat,
{
    reveal(expression_statement);
    reveal(expression);
    lemma_expression(tokens, pos, id);
}

#[verifier::spinoff_prover]
#[verifier::rlimit(50)]
proof fn lemma_print_statement(tokens: Seq<TokenView>, pos: int, id: nat)
    ensures
        well_read_stmt(print_statement(tokens, pos, id), id),
    decreases remaining(tokens, pos), 38nat,
{
    reveal(print_statement);
    reveal(expression);
    lemma_expression(tokens, pos, id);
}

#[verifier::spinoff_prover]
#[verifier::rlimit(50)]
proof fn lemma_limpa_tela(tokens: Seq<TokenView>, pos: int, id: nat)
    ensures
        well_read_stmt(limpa_tela(tokens, pos, id), id),
    decreases remaining(tokens, pos), 38nat,
{
    reveal(limpa_tela);
    reveal(expression);
    lemma_expression(tokens, pos, id);
}

#[verifier::spinoff_prover]
#[verifier::rlimit(50)]
proof fn lemma_block(tokens: Seq<TokenView>, pos: int, id: nat)
    ensures
        ({
            let p = block(tokens, pos, id);
            &&& well_read_stmts(p, id)
            &&& p.result is Ok ==> p.consumed >= 1
        }),
    decreases remaining(tokens, pos), 45nat,
{
    reveal(block);
    reveal(declaration);
    if kind_at(tokens, pos) != TokenType::RightBrace && kind_at(tokens, pos) != TokenType::Eof {
        lemma_declaration(tokens, pos, id);
        let first = declaration(tokens, pos, id);
        match first.result {
            Ok(s) => {
                if first.consumed > 0 {
                    lemma_block(tokens, pos + first.consumed, id + first.ids);
                    let rest = block(tokens, pos + first.consumed, id + first.ids);
                    match rest.result {
                        Ok(more) => {
                            lemma_cons_stmts(s, more);
                        },
                        Err(_) => {},
                    }
                }
            },
            Err(_) => {},
        }
    }
}

#[verifier::spinoff_prover]
#[verifier::rlimit(50)]
proof fn lemma_block_statement(tokens: Seq<TokenView>, pos: int, id: nat)
    ensures
        well_read_stmt(block_statement(tokens, pos, id), id),
    decreases remaining(tokens, pos), 46nat,
{
    reveal(block_statement);
    reveal(block);
    lemma_block(tokens, pos, id);
}

#[verifier::spinoff_prover]
#[verifier::rlimit(50)]
proof fn lemma_var_declaration(tokens: Seq<TokenView>, pos: int, id: nat)
    ensures
        well_read_stmt(var_declaration(tokens, pos, id), id),
    decreases remaining(tokens, pos), 38nat,
{
    reveal(var_declaration);
    reveal(expression);
    if kind_at(tokens, pos) == TokenType::Identifier && kind_at(tokens, pos + 1) == TokenType::Equal {
        lemma_expression(tokens, pos + 2, id);
    } else {
        let nothing = ExprView::Literal { id, value: crate::expr::LiteralView::Nil };
        assert(expr_ids(nothing) == Set::<nat>::empty().insert(id));
        assert(numbered(nothing, id, id + 1));
    }
}

#[verifier::spinoff_prover]
#[verifier::rlimit(50)]
proof fn lemma_return_statement(tokens: Seq<TokenView>, pos: int, id: nat)
    ensures
        well_read_stmt(return_statement(tokens, pos, id), id),
    decreases remaining(tokens, pos), 38nat,
{
    reveal(return_statement);
    reveal(expression);
    if kind_at(tokens, pos) != TokenType::Semicolon {
        lemma_expression(tokens, pos, id);
    }
}

#[verifier::spinoff_prover]
#[verifier::rlimit(50)]
proof fn lemma_while_statement(tokens: Seq<TokenView>, pos: int, id: nat)
    ensures
        well_read_stmt(while_statement(tokens, pos, id), id),
    decreases remaining(tokens, pos), 0nat,
{
    reveal(while_statement);
    reveal(expression);
    reveal(statement);
    if kind_at(tokens, pos) == TokenType::LeftParen {
        lemma_expression(tokens, pos + 1, id);
        let test = expression(tokens, pos + 1, id);
        lemma_statement(tokens, pos + 1 + test.consumed + 1, id + test.ids);
    }
}

#[verifier::spinoff_prover]
#[verifier::rlimit(50)]
proof fn lemma_else_branch(tokens: Seq<TokenView>, pos: int, id: nat)
    ensures
        ({
            let p = else_branch(tokens, pos, id);
            &&& p.ids <= p.consumed
            &&& p.result matches Ok(Some(s)) ==> numbered_stmt(*s, id, id + p.ids)
            &&& p.result matches Ok(None) ==> p.ids == 0
        }),
    decreases remaining(tokens, pos), 0nat,
{
    reveal(else_branch);
    reveal(statement);
    if kind_at(tokens, pos) == TokenType::Else {
        lemma_statement(tokens, pos + 1, id);
    }
}

#[verifier::spinoff_prover]
#[verifier::rlimit(50)]
proof fn lemma_if_statement(tokens: Seq<TokenView>, pos: int, id: nat)
    ensures
        well_read_stmt(if_statement(tokens, pos, id), id),
    decreases remaining(tokens, pos), 1nat,
{
    reveal(if_statement);
    reveal(expression);
    reveal(statement);
    reveal(else_branch);
    if kind_at(tokens, pos) == TokenType::LeftParen {
        lemma_expression(tokens, pos + 1, id);
        let test = expression(tokens, pos + 1, id);
        let at = pos + 1 + test.consumed;
        lemma_statement(tokens, at + 1, id + test.ids);
        let then = statement(tokens, at + 1, id + test.ids);
        lemma_else_branch(tokens, at + 1 + then.consumed, id + test.ids + then.ids);
    }
}

#[verifier::spinoff_prover]
#[verifier::rlimit(50)]
proof fn lemma_for_initializer(tokens: Seq<TokenView>, pos: int, id: nat)
    ensures
        ({
            let p = for_initializer(tokens, pos, id);
            &&& p.ids <= p.consumed
            &&& p.result is Ok ==> p.consumed >= 1
            &&& p.result matches Ok(Some(s)) ==> numbered_stmt(s, id, id + p.ids)
            &&& p.result matches Ok(None) ==> p.ids == 0
        }),
    decreases remaining(tokens, pos), 39nat,
{
    reveal(for_initializer);
    reveal(var_declaration);
    reveal(expression_statement);
    if kind_at(tokens, pos) == TokenType::Semicolon {
    } else if kind_at(tokens, pos) == TokenType::Var {
        lemma_var_declaration(tokens, pos + 1, id);
    } else {
        lemma_expression_statement(tokens, pos, id);
    }
}

#[verifier::spinoff_prover]
#[verifier::rlimit(50)]
proof fn lemma_for_clause(tokens: Seq<TokenView>, pos: int, id: nat, end: TokenType)
    ensures
        ({
            let p = for_clause(tokens, pos, id, end);
            &&& p.ids <= p.consumed
            &&& p.result matches Ok(Some(e)) ==> numbered(e, id, id + p.ids)
            &&& p.result matches Ok(None) ==> p.ids == 0
        }),
    decreases remaining(tokens, pos), 39nat,
{
    reveal(for_clause);
    reveal(expression);
    if kind_at(tokens, pos) != end {
        lemma_expression(tokens, pos, id);
    }
}

proof fn lemma_desugar(
    initializer: Option<StmtView>,
    condition: Option<ExprView>,
    increment: Option<ExprView>,
    body: StmtView,
    id: nat,
    id1: nat,
    id2: nat,
    id3: nat,
    id4: nat,
)
    requires
        id <= id1 <= id2 <= id3 <= id4,
        initializer matches Some(s) ==> numbered_stmt(s, id, id1),
        condition matches Some(e) ==> numbered(e, id1, id2),
        increment matches Some(e) ==> numbered(e, id2, id3),
        numbered_stmt(body, id3, id4),
    ensures
        numbered_stmt(
            desugar(initializer, condition, increment, body, id4),
            id,
            if condition is None {
                id4 + 1
            } else {
                id4
            },
        ),
{
    let stepped = match increment {
        Some(incr) => {
            lemma_two_stmts(body, StmtView::Expression { expression: incr });
            StmtView::Block { statements: seq![body, StmtView::Expression { expression: incr }] }
        },
        None => body,
    };
    assert(numbered_stmt(stepped, id2, id4)) by {
        match increment {
            Some(incr) => {
                assert(stmt_ids(StmtView::Expression { expression: incr }) == expr_ids(incr));
                assert(stmt_ids(stepped) == stmts_ids(
                    seq![body, StmtView::Expression { expression: incr }],
                ));
            },
            None => {},
        }
    }
    let test = match condition {
        Some(c) => c,
        None => ExprView::Literal { id: id4, value: crate::expr::LiteralView::True },
    };
    assert(expr_unique(test));
    assert(condition is None ==> expr_ids(test) == Set::<nat>::empty().insert(id4));
    let looped = StmtView::WhileStmt { condition: test, body: Box::new(stepped) };
    assert(stmt_ids(looped) == expr_ids(test) + stmt_ids(stepped));
    assert(numbered_stmt(
        looped,
        id1,
        if condition is None {
            id4 + 1
        } else {
            id4
        },
    ));
    match initializer {
        Some(init) => {
            lemma_two_stmts(init, looped);
        },
        None => {},
    }
}

#[verifier::spinoff_prover]
#[verifier::rlimit(60)]
proof fn lemma_for_statement(tokens: Seq<TokenView>, pos: int, id: nat)
    ensures
        well_read_stmt(for_statement(tokens, pos, id), id),
    decreases remaining(tokens, pos), 0nat,
{
    reveal(for_statement);
    reveal(for_initializer);
    reveal(for_clause);
    reveal(statement);
    if kind_at(tokens, pos) == TokenType::LeftParen {
        lemma_for_initializer(tokens, pos + 1, id);
        let init = for_initializer(tokens, pos + 1, id);
        if init.result is Ok {
            let at1 = pos + 1 + init.consumed;
            let id1 = id + init.ids;
            lemma_for_clause(tokens, at1, id1, TokenType::Semicolon);
            let test = for_clause(tokens, at1, id1, TokenType::Semicolon);
            let at2 = at1 + test.consumed;
            let id2 = id1 + test.ids;
            if test.result is Ok && kind_at(tokens, at2) == TokenType::Semicolon {
                lemma_for_clause(tokens, at2 + 1, id2, TokenType::RightParen);
                let step = for_clause(tokens, at2 + 1, id2, TokenType::RightParen);
                let at3 = at2 + 1 + step.consumed;
                let id3 = id2 + step.ids;
                if step.result is Ok && kind_at(tokens, at3) == TokenType::RightParen {
                    lemma_statement(tokens, at3 + 1, id3);
                    let body = statement(tokens, at3 + 1, id3);
                    match body.result {
                        Ok(b) => {
                            lemma_desugar(
                                init.result->Ok_0,
                                test.result->Ok_0,
                                step.result->Ok_0,
                                b,
                                id,
                                id1,
                                id2,
                                id3,
                                id3 + body.ids,
                            );
                        },
                        Err(_) => {},
                    }
                }
            }
        }
    }
}

#[verifier::spinoff_prover]
#[verifier::rlimit(50)]
proof fn lemma_statement(tokens: Seq<TokenView>, pos: int, id: nat)
    ensures
        well_read_stmt(statement(tokens, pos, id), id),
    decreases remaining(tokens, pos), 43nat,
{
    reveal(statement);
    reveal(print_statement);
    reveal(limpa_tela);
    reveal(block_statement);
    reveal(if_statement);
    reveal(while_statement);
    reveal(for_statement);
    reveal(return_statement);
    reveal(expression_statement);
    match kind_at(tokens, pos) {
        TokenType::Print => lemma_print_statement(tokens, pos + 1, id),
        TokenType::Limpar => lemma_limpa_tela(tokens, pos + 1, id),
        TokenType::LeftBrace => lemma_block_statement(tokens, pos + 1, id),
        TokenType::If => lemma_if_statement(tokens, pos + 1, id),
        TokenType::While => lemma_while_statement(tokens, pos + 1, id),
        TokenType::For => lemma_for_statement(tokens, pos + 1, id),
        TokenType::Return => lemma_return_statement(tokens, pos + 1, id),
        _ => lemma_expression_statement(tokens, pos, id),
    }
}

#[verifier::spinoff_prover]
#[verifier::rlimit(50)]
proof fn lemma_function(tokens: Seq<TokenView>, pos: int, id: nat, kind: FunctionKind)
    ensures
        well_read_stmt(function(tokens, pos, id, kind), id),
    decreases remaining(tokens, pos), 0nat,
{
    reveal(function);
    reveal(block);
    if kind_at(tokens, pos) == TokenType::Identifier {
        let params = grammar::parameters(tokens, pos + 2, true);
        lemma_block(tokens, pos + 2 + params.consumed + 2, id);
    }
}

#[verifier::spinoff_prover]
#[verifier::rlimit(50)]
proof fn lemma_methods(tokens: Seq<TokenView>, pos: int, id: nat)
    ensures
        well_read_stmts(methods(tokens, pos, id), id),
    decreases remaining(tokens, pos), 1nat,
{
    reveal(methods);
    reveal(function);
    if kind_at(tokens, pos) != TokenType::RightBrace && kind_at(tokens, pos) != TokenType::Eof {
        lemma_function(tokens, pos, id, FunctionKind::Method);
        let first = function(tokens, pos, id, FunctionKind::Method);
        match first.result {
            Ok(s) => {
                if first.consumed > 0 {
                    lemma_methods(tokens, pos + first.consumed, id + first.ids);
                    let rest = methods(tokens, pos + first.consumed, id + first.ids);
                    match rest.result {
                        Ok(more) => {
                            lemma_cons_stmts(s, more);
                        },
                        Err(_) => {},
                    }
                }
            },
            Err(_) => {},
        }
    }
}

#[verifier::spinoff_prover]
#[verifier::rlimit(50)]
proof fn lemma_class_declaration(tokens: Seq<TokenView>, pos: int, id: nat)
    ensures
        well_read_stmt(class_declaration(tokens, pos, id), id),
    decreases remaining(tokens, pos), 2nat,
{
    reveal(class_declaration);
    reveal(methods);
    if kind_at(tokens, pos) == TokenType::Identifier {
        if kind_at(tokens, pos + 1) == TokenType::Less {
            lemma_methods(tokens, pos + 1 + 2 + 1, id + 1);
            if kind_at(tokens, pos + 2) == TokenType::Identifier {
                let above = ExprView::Variable { id, name: tokens[pos + 2] };
                assert(expr_ids(above) == Set::<nat>::empty().insert(id));
                let list = methods(tokens, pos + 4, id + 1);
                match list.result {
                    Ok(ms) => {
                        lemma_class_node(tokens[pos], ms, Some(above), id, id + 1, id + 1 + list.ids);
                    },
                    Err(_) => {},
                }
            }
        } else {
            lemma_methods(tokens, pos + 1 + 0 + 1, id);
            let list = methods(tokens, pos + 2, id);
            match list.result {
                Ok(ms) => {
                    lemma_class_node(tokens[pos], ms, None, id, id, id + list.ids);
                },
                Err(_) => {},
            }
        }
    }
}

#[verifier::spinoff_prover]
#[verifier::rlimit(50)]
proof fn lemma_declaration(tokens: Seq<TokenView>, pos: int, id: nat)
    ensures
        well_read_stmt(declaration(tokens, pos, id), id),
    decreases remaining(tokens, pos), 44nat,
{
    reveal(declaration);
    reveal(var_declaration);
    reveal(function);
    reveal(class_declaration);
    reveal(statement);
    match kind_at(tokens, pos) {
        TokenType::Var => lemma_var_declaration(tokens, pos + 1, id),
        TokenType::Fun => lemma_function(tokens, pos + 1, id, FunctionKind::Function),
        TokenType::Class => lemma_class_declaration(tokens, pos + 1, id),
        _ => lemma_statement(tokens, pos, id),
    }
}

/// Every declaration that the parser reads takes at least one token and
/// no more numbers than tokens, and gives each of its expressions a
/// number of its own: the next that is free, counted up from the number
/// that the parser started with.
pub proof fn lemma_declaration_numbered(tokens: Seq<TokenView>, pos: int, id: nat)
    ensures
        well_read_stmt(declaration(tokens, pos, id), id),
{
    lemma_declaration(tokens, pos, id);
}

/// Every expression that the parser reads takes at least one token and
/// no more numbers than tokens, and gives each of its expressions a
/// number of its own.
pub proof fn lemma_expression_numbered(tokens: Seq<TokenView>, pos: int, id: nat)
    ensures
        well_read(expression(tokens, pos, id), id),
{
    lemma_expression(tokens, pos, id);
}

/// In the statements of a whole program, read with the numbers from
/// `id` on, no two expressions have the same number, and none has a
/// number below `id`.
#[verifier::spinoff_prover]
#[verifier::rlimit(50)]
pub proof fn lemma_program_numbered(tokens: Seq<TokenView>, pos: int, id: nat)
    ensures
        stmts_unique(program(tokens, pos, id).statements),
        forall|k: nat| stmts_ids(program(tokens, pos, id).statements).contains(k) ==> id <= k,
    decreases remaining(tokens, pos),
{
    reveal(program);
    reveal(declaration);
    if kind_at(tokens, pos) != TokenType::Eof {
        lemma_declaration(tokens, pos, id);
        let first = declaration(tokens, pos, id);
        match first.result {
            Ok(s) => {
                if first.consumed > 0 {
                    lemma_program_numbered(tokens, pos + first.consumed, id + first.ids);
                    let rest = program(tokens, pos + first.consumed, id + first.ids);
                    lemma_cons_stmts(s, rest.statements);
                }
            },
            Err(message) => {
                let next = grammar::synchronized(tokens, pos + first.consumed);
                if next > pos {
                    lemma_program_numbered(tokens, next, id + first.ids);
                }
            },
        }
    }
}

} // verus!

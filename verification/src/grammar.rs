use vstd::prelude::*;
use crate::scanner::{TokenType, TokenView};
use crate::expr::{ExprView, LiteralView, is_literal, literal_of};
use crate::stmt::StmtView;
use crate::text::decimal;

verus! {

/// What reading part of a token stream gives: a value or the text of a
/// syntax error, with the number of tokens read and of expression numbers
/// handed out until then.
pub struct Parsed<T> {
    pub result: Result<T, Seq<char>>,
    pub consumed: nat,
    pub ids: nat,
}

pub open spec fn done<T>(value: T, consumed: nat, ids: nat) -> Parsed<T> {
    Parsed { result: Ok(value), consumed, ids }
}

pub open spec fn fail<T>(message: Seq<char>, consumed: nat, ids: nat) -> Parsed<T> {
    Parsed { result: Err(message), consumed, ids }
}

/// `p`, read after `consumed` tokens and `ids` numbers that came before.
pub open spec fn after<T>(p: Parsed<T>, consumed: nat, ids: nat) -> Parsed<T> {
    Parsed { result: p.result, consumed: consumed + p.consumed, ids: ids + p.ids }
}

/// `rest`, read after `consumed` tokens and `ids` numbers, with `first`
/// put before what it gave.
pub open spec fn prepend<T>(first: Seq<T>, consumed: nat, ids: nat, rest: Parsed<Seq<T>>) -> Parsed<
    Seq<T>,
> {
    Parsed {
        result: match rest.result {
            Ok(more) => Ok(first + more),
            Err(message) => Err(message),
        },
        consumed: consumed + rest.consumed,
        ids: ids + rest.ids,
    }
}

/// A token stream that a parser can read: it ends in `Eof`, and each
/// number and string token carries its literal.
pub open spec fn tokens_ok(tokens: Seq<TokenView>) -> bool {
    &&& tokens.len() > 0
    &&& tokens.last().token_type == TokenType::Eof
    &&& forall|i: int|
        0 <= i < tokens.len() && (#[trigger] tokens[i]).token_type == TokenType::Number
            ==> is_literal(tokens[i])
    &&& forall|i: int|
        0 <= i < tokens.len() && (#[trigger] tokens[i]).token_type == TokenType::StringLit
            ==> is_literal(tokens[i])
}

/// The kind of the token at `pos`; past the stream it is `Eof`.
pub open spec fn kind_at(tokens: Seq<TokenView>, pos: int) -> TokenType {
    if 0 <= pos < tokens.len() {
        tokens[pos].token_type
    } else {
        TokenType::Eof
    }
}

/// The number of tokens from `pos` to the end of the stream.
pub open spec fn remaining(tokens: Seq<TokenView>, pos: int) -> nat {
    if pos < tokens.len() {
        (tokens.len() - pos) as nat
    } else {
        0
    }
}

/// The text of a syntax error at the token at `pos`.
pub open spec fn syntax_error(tokens: Seq<TokenView>, pos: int, what: Seq<char>) -> Seq<char> {
    "Line "@ + decimal(tokens[pos].line_number) + ": "@ + what
}

/// Reads one token of kind `kind`, or fails with `what`.
pub open spec fn expect(tokens: Seq<TokenView>, pos: int, kind: TokenType, what: Seq<char>) -> Parsed<
    TokenView,
> {
    if kind_at(tokens, pos) == kind {
        done(tokens[pos], 1, 0)
    } else {
        fail(syntax_error(tokens, pos, what), 0, 0)
    }
}

/// The levels of the operators that stand between two operands, from the
/// one that binds least.
#[derive(Clone, Copy, PartialEq, Eq, Structural)]
pub enum Level {
    Pipe,
    Or,
    And,
    Equality,
    Comparison,
    Term,
    Factor,
}

pub open spec fn level_index(level: Level) -> nat {
    match level {
        Level::Pipe => 0,
        Level::Or => 1,
        Level::And => 2,
        Level::Equality => 3,
        Level::Comparison => 4,
        Level::Term => 5,
        Level::Factor => 6,
    }
}

/// Whether a token of kind `kind` is an operator of `level`.
pub open spec fn is_operator(level: Level, kind: TokenType) -> bool {
    match level {
        Level::Pipe => kind == TokenType::Pipe,
        Level::Or => kind == TokenType::Or,
        Level::And => kind == TokenType::And,
        Level::Equality => kind == TokenType::BangEqual || kind == TokenType::EqualEqual,
        Level::Comparison => kind == TokenType::Greater || kind == TokenType::GreaterEqual || kind
            == TokenType::Less || kind == TokenType::LessEqual,
        Level::Term => kind == TokenType::Minus || kind == TokenType::Plus,
        Level::Factor => kind == TokenType::Slash || kind == TokenType::Star,
    }
}

/// The node for `left operator right` at `level`. A pipe hands its left
/// side to its right side as the one argument of a call.
pub open spec fn join(level: Level, id: nat, left: ExprView, operator: TokenView, right: ExprView) -> ExprView {
    match level {
        Level::Pipe => ExprView::Call {
            id,
            callee: Box::new(right),
            paren: operator,
            arguments: seq![left],
        },
        Level::Or | Level::And => ExprView::Logical {
            id,
            left: Box::new(left),
            operator,
            right: Box::new(right),
        },
        _ => ExprView::Binary { id, left: Box::new(left), operator, right: Box::new(right) },
    }
}

/// The two kinds of function declaration, which differ in the words of
/// their errors and in that only a plain function may stand for a command.
#[derive(Clone, Copy, Debug, PartialEq, Eq, Structural)]
pub enum FunctionKind {
    Function,
    Method,
}

pub open spec fn name_message(kind: FunctionKind) -> Seq<char> {
    match kind {
        FunctionKind::Function => "Esperado o tipo Function "@,
        FunctionKind::Method => "Esperado o tipo Method "@,
    }
}

pub open spec fn paren_message(kind: FunctionKind) -> Seq<char> {
    match kind {
        FunctionKind::Function => "Esperado '(' depois do tipoFunction "@,
        FunctionKind::Method => "Esperado '(' depois do tipoMethod "@,
    }
}

pub open spec fn brace_message(kind: FunctionKind) -> Seq<char> {
    match kind {
        FunctionKind::Function => "Esperado '{' antes do tipo Function."@,
        FunctionKind::Method => "Esperado '{' antes do tipo Method."@,
    }
}

/// The most parameters that a function takes, and one more than the most
/// arguments that a call takes.
pub const LIMIT: usize = 255;

/// The error for a list that is too long, at the token at `pos`. A named
/// function says `Linha`, the others `Line`.
pub open spec fn limit_error(tokens: Seq<TokenView>, pos: int, named: bool) -> Seq<char> {
    (if named {
        "Linha "@
    } else {
        "Line "@
    }) + decimal(tokens[pos].line_number) + ": Estourou o limite de 255 argumentos"@
}

pub open spec fn parameter_message(named: bool) -> Seq<char> {
    if named {
        "Esperado o nome do parâmetro"@
    } else {
        "Esperado o parâmetro nome"@
    }
}

/// The parameters from `pos` on, `count` of them read before: names with
/// commas between them.
pub open spec fn more_parameters(tokens: Seq<TokenView>, pos: int, count: nat, named: bool) -> Parsed<
    Seq<TokenView>,
>
    decreases remaining(tokens, pos),
{
    if count >= LIMIT {
        fail(limit_error(tokens, pos, named), 0, 0)
    } else if kind_at(tokens, pos) != TokenType::Identifier {
        fail(syntax_error(tokens, pos, parameter_message(named)), 0, 0)
    } else if kind_at(tokens, pos + 1) == TokenType::Comma {
        prepend(seq![tokens[pos]], 2, 0, more_parameters(tokens, pos + 2, count + 1, named))
    } else {
        done(seq![tokens[pos]], 1, 0)
    }
}

/// The parameters of a function, up to the closing parenthesis.
pub open spec fn parameters(tokens: Seq<TokenView>, pos: int, named: bool) -> Parsed<Seq<TokenView>> {
    if kind_at(tokens, pos) == TokenType::RightParen {
        done(Seq::empty(), 0, 0)
    } else {
        more_parameters(tokens, pos, 0, named)
    }
}

/// Whether a statement may start with a token of kind `kind`: there the
/// parser takes up its work again after an error.
pub open spec fn starts_statement(kind: TokenType) -> bool {
    kind == TokenType::Class || kind == TokenType::Fun || kind == TokenType::Var || kind
        == TokenType::For || kind == TokenType::If || kind == TokenType::While || kind
        == TokenType::Print || kind == TokenType::Return
}

/// Where the parser stands after it dropped tokens from `pos` on, `pos`
/// itself already dropped: behind a semicolon, before a token that starts
/// a statement, or at the end.
pub open spec fn resume(tokens: Seq<TokenView>, pos: int) -> int
    decreases remaining(tokens, pos),
{
    if kind_at(tokens, pos) == TokenType::Eof {
        pos
    } else if kind_at(tokens, pos - 1) == TokenType::Semicolon {
        pos
    } else if starts_statement(kind_at(tokens, pos)) {
        pos
    } else {
        resume(tokens, pos + 1)
    }
}

/// Where the parser takes up its work after an error at `pos`.
pub open spec fn synchronized(tokens: Seq<TokenView>, pos: int) -> int {
    if kind_at(tokens, pos) == TokenType::Eof {
        pos
    } else {
        resume(tokens, pos + 1)
    }
}

#[verifier::opaque]
pub open spec fn primary(tokens: Seq<TokenView>, pos: int, id: nat) -> Parsed<ExprView>
    decreases remaining(tokens, pos), 9nat,
{
    match kind_at(tokens, pos) {
        TokenType::LeftParen => {
            let inner = expression(tokens, pos + 1, id);
            match inner.result {
                Err(message) => fail(message, 1 + inner.consumed, inner.ids),
                Ok(e) => {
                    let close = expect(
                        tokens,
                        pos + 1 + inner.consumed,
                        TokenType::RightParen,
                        "Esperado ')'"@,
                    );
                    match close.result {
                        Err(message) => fail(message, 1 + inner.consumed, inner.ids),
                        Ok(_) => done(
                            ExprView::Grouping { id: id + inner.ids, expression: Box::new(e) },
                            2 + inner.consumed,
                            inner.ids + 1,
                        ),
                    }
                },
            }
        },
        TokenType::False | TokenType::True | TokenType::Nil | TokenType::Number
        | TokenType::StringLit => done(
            ExprView::Literal { id, value: literal_of(tokens[pos]) },
            1,
            1,
        ),
        TokenType::Identifier => done(ExprView::Variable { id, name: tokens[pos] }, 1, 1),
        TokenType::This => done(ExprView::This { id, keyword: tokens[pos] }, 1, 1),
        TokenType::Super => {
            let dot = expect(
                tokens,
                pos + 1,
                TokenType::Dot,
                "Esperado '.' depois do comando 'super'."@,
            );
            match dot.result {
                Err(message) => fail(message, 1, 0),
                Ok(_) => {
                    let method = expect(
                        tokens,
                        pos + 2,
                        TokenType::Identifier,
                        "Esperado o nome da classe principal."@,
                    );
                    match method.result {
                        Err(message) => fail(message, 2, 0),
                        Ok(m) => done(
                            ExprView::Super { id, keyword: tokens[pos], method: m },
                            3,
                            1,
                        ),
                    }
                },
            }
        },
        TokenType::Fun => after(function_expression(tokens, pos + 1, id), 1, 0),
        _ => fail("Uma expressão era esperada"@, 0, 0),
    }
}

/// A function without a name, from its opening parenthesis on.
#[verifier::opaque]
pub open spec fn function_expression(tokens: Seq<TokenView>, pos: int, id: nat) -> Parsed<ExprView>
    decreases remaining(tokens, pos), 0nat,
{
    let open = expect(
        tokens,
        pos,
        TokenType::LeftParen,
        "Esperado '(' depois da função anônima"@,
    );
    match open.result {
        Err(message) => fail(message, 0, 0),
        Ok(paren) => {
            let params = parameters(tokens, pos + 1, false);
            match params.result {
                Err(message) => fail(message, 1 + params.consumed, 0),
                Ok(arguments) => {
                    let at = pos + 1 + params.consumed;
                    let close = expect(
                        tokens,
                        at,
                        TokenType::RightParen,
                        "Esperado ')' depois dos parâmetros da função anônima"@,
                    );
                    let brace = expect(
                        tokens,
                        at + 1,
                        TokenType::LeftBrace,
                        "Esperado '{' depois da declaração da função anônima"@,
                    );
                    if close.result is Err {
                        fail(close.result->Err_0, 1 + params.consumed, 0)
                    } else if brace.result is Err {
                        fail(brace.result->Err_0, 2 + params.consumed, 0)
                    } else {
                        let body = block(tokens, at + 2, id);
                        match body.result {
                            Err(message) => fail(
                                message,
                                3 + params.consumed + body.consumed,
                                body.ids,
                            ),
                            Ok(statements) => done(
                                ExprView::AnonFunction {
                                    id: id + body.ids,
                                    paren,
                                    arguments,
                                    body: statements,
                                },
                                3 + params.consumed + body.consumed,
                                body.ids + 1,
                            ),
                        }
                    }
                },
            }
        },
    }
}

/// The arguments of a call from `pos` on, `count` of them read before:
/// expressions with commas between them.
#[verifier::opaque]
pub open spec fn arguments(tokens: Seq<TokenView>, pos: int, id: nat, count: nat) -> Parsed<
    Seq<ExprView>,
>
    decreases remaining(tokens, pos), 36nat,
{
    let first = expression(tokens, pos, id);
    match first.result {
        Err(message) => fail(message, first.consumed, first.ids),
        Ok(e) => {
            let at = pos + first.consumed;
            if count + 1 >= LIMIT {
                fail(limit_error(tokens, at, false), first.consumed, first.ids)
            } else if kind_at(tokens, at) == TokenType::Comma {
                prepend(
                    seq![e],
                    first.consumed + 1,
                    first.ids,
                    arguments(tokens, at + 1, id + first.ids, count + 1),
                )
            } else {
                done(seq![e], first.consumed, first.ids)
            }
        },
    }
}

/// A call of `callee`, from behind its opening parenthesis on.
#[verifier::opaque]
pub open spec fn finish_call(tokens: Seq<TokenView>, pos: int, id: nat, callee: ExprView) -> Parsed<
    ExprView,
>
    decreases remaining(tokens, pos), 37nat,
{
    let args = if kind_at(tokens, pos) == TokenType::RightParen {
        done(Seq::empty(), 0, 0)
    } else {
        arguments(tokens, pos, id, 0)
    };
    match args.result {
        Err(message) => fail(message, args.consumed, args.ids),
        Ok(list) => {
            let close = expect(
                tokens,
                pos + args.consumed,
                TokenType::RightParen,
                "Esperado ')' depois dos argumentos."@,
            );
            match close.result {
                Err(message) => fail(message, args.consumed, args.ids),
                Ok(paren) => done(
                    ExprView::Call {
                        id: id + args.ids,
                        callee: Box::new(callee),
                        paren,
                        arguments: list,
                    },
                    args.consumed + 1,
                    args.ids + 1,
                ),
            }
        },
    }
}

/// The calls and property reads that follow `callee`.
#[verifier::opaque]
pub open spec fn call_rest(tokens: Seq<TokenView>, pos: int, id: nat, callee: ExprView) -> Parsed<
    ExprView,
>
    decreases remaining(tokens, pos), 10nat,
{
    if kind_at(tokens, pos) == TokenType::LeftParen {
        let made = finish_call(tokens, pos + 1, id, callee);
        match made.result {
            Err(message) => fail(message, 1 + made.consumed, made.ids),
            Ok(e) => after(
                call_rest(tokens, pos + 1 + made.consumed, id + made.ids, e),
                1 + made.consumed,
                made.ids,
            ),
        }
    } else if kind_at(tokens, pos) == TokenType::Dot {
        let name = expect(
            tokens,
            pos + 1,
            TokenType::Identifier,
            "Esperado token depois do ponto"@,
        );
        match name.result {
            Err(message) => fail(message, 1, 0),
            Ok(n) => after(
                call_rest(
                    tokens,
                    pos + 2,
                    id + 1,
                    ExprView::Get { id, object: Box::new(callee), name: n },
                ),
                2,
                1,
            ),
        }
    } else {
        done(callee, 0, 0)
    }
}

#[verifier::opaque]
pub open spec fn call(tokens: Seq<TokenView>, pos: int, id: nat) -> Parsed<ExprView>
    decreases remaining(tokens, pos), 11nat,
{
    let first = primary(tokens, pos, id);
    match first.result {
        Err(message) => first,
        Ok(e) => after(
            call_rest(tokens, pos + first.consumed, id + first.ids, e),
            first.consumed,
            first.ids,
        ),
    }
}

#[verifier::opaque]
pub open spec fn unary(tokens: Seq<TokenView>, pos: int, id: nat) -> Parsed<ExprView>
    decreases remaining(tokens, pos), 12nat,
{
    if kind_at(tokens, pos) == TokenType::Bang || kind_at(tokens, pos) == TokenType::Minus {
        let right = unary(tokens, pos + 1, id);
        match right.result {
            Err(message) => fail(message, 1 + right.consumed, right.ids),
            Ok(e) => done(
                ExprView::Unary { id: id + right.ids, operator: tokens[pos], right: Box::new(e) },
                1 + right.consumed,
                right.ids + 1,
            ),
        }
    } else {
        call(tokens, pos, id)
    }
}

/// An operand of an operator of `level`: an expression of the next
/// level.
#[verifier::opaque]
pub open spec fn operand(tokens: Seq<TokenView>, level: Level, pos: int, id: nat) -> Parsed<ExprView>
    decreases remaining(tokens, pos), (31 - 3 * level_index(level)) as nat,
{
    match level {
        Level::Pipe => binary(tokens, Level::Or, pos, id),
        Level::Or => binary(tokens, Level::And, pos, id),
        Level::And => binary(tokens, Level::Equality, pos, id),
        Level::Equality => binary(tokens, Level::Comparison, pos, id),
        Level::Comparison => binary(tokens, Level::Term, pos, id),
        Level::Term => binary(tokens, Level::Factor, pos, id),
        Level::Factor => unary(tokens, pos, id),
    }
}

/// The operators of `level` that follow `left`, each with its right
/// operand: they group to the left.
#[verifier::opaque]
pub open spec fn binary_rest(tokens: Seq<TokenView>, level: Level, pos: int, id: nat, left: ExprView) -> Parsed<
    ExprView,
>
    decreases remaining(tokens, pos), (32 - 3 * level_index(level)) as nat,
{
    if is_operator(level, kind_at(tokens, pos)) {
        let right = operand(tokens, level, pos + 1, id);
        match right.result {
            Err(message) => fail(message, 1 + right.consumed, right.ids),
            Ok(r) => after(
                binary_rest(
                    tokens,
                    level,
                    pos + 1 + right.consumed,
                    id + right.ids + 1,
                    join(level, id + right.ids, left, tokens[pos], r),
                ),
                1 + right.consumed,
                right.ids + 1,
            ),
        }
    } else {
        done(left, 0, 0)
    }
}

/// An expression of `level`: operands with operators of that level
/// between them.
#[verifier::opaque]
pub open spec fn binary(tokens: Seq<TokenView>, level: Level, pos: int, id: nat) -> Parsed<ExprView>
    decreases remaining(tokens, pos), (33 - 3 * level_index(level)) as nat,
{
    let first = operand(tokens, level, pos, id);
    match first.result {
        Err(message) => first,
        Ok(e) => after(
            binary_rest(tokens, level, pos + first.consumed, id + first.ids, e),
            first.consumed,
            first.ids,
        ),
    }
}

/// What an assignment to `target` of `value` is, if `target` can be
/// assigned to: a variable or a property.
pub open spec fn assign_to(target: ExprView, id: nat, value: ExprView) -> Option<ExprView> {
    match target {
        ExprView::Variable { id: _, name } => Some(
            ExprView::Assign { id, name, value: Box::new(value) },
        ),
        ExprView::Get { id: _, object, name } => Some(
            ExprView::SetField { id, object, name, value: Box::new(value) },
        ),
        _ => None,
    }
}

#[verifier::opaque]
pub open spec fn assignment(tokens: Seq<TokenView>, pos: int, id: nat) -> Parsed<ExprView>
    decreases remaining(tokens, pos), 34nat,
{
    let target = binary(tokens, Level::Pipe, pos, id);
    match target.result {
        Err(message) => target,
        Ok(e) => {
            let at = pos + target.consumed;
            if kind_at(tokens, at) == TokenType::Equal {
                let value = expression(tokens, at + 1, id + target.ids);
                let consumed = target.consumed + 1 + value.consumed;
                let ids = target.ids + value.ids;
                match value.result {
                    Err(message) => fail(message, consumed, ids),
                    Ok(v) => match assign_to(e, id + ids, v) {
                        Some(node) => done(node, consumed, ids + 1),
                        None => fail("Destino inválido."@, consumed, ids),
                    },
                }
            } else {
                target
            }
        },
    }
}

#[verifier::opaque]
pub open spec fn expression(tokens: Seq<TokenView>, pos: int, id: nat) -> Parsed<ExprView>
    decreases remaining(tokens, pos), 35nat,
{
    assignment(tokens, pos, id)
}

/// One if a semicolon stands at `pos`, else zero: where a statement takes
/// a semicolon and does not insist on it.
pub open spec fn semicolon(tokens: Seq<TokenView>, pos: int) -> nat {
    if kind_at(tokens, pos) == TokenType::Semicolon {
        1
    } else {
        0
    }
}

#[verifier::opaque]
pub open spec fn expression_statement(tokens: Seq<TokenView>, pos: int, id: nat) -> Parsed<StmtView>
    decreases remaining(tokens, pos), 38nat,
{
    let value = expression(tokens, pos, id);
    match value.result {
        Err(message) => fail(message, value.consumed, value.ids),
        Ok(e) => done(
            StmtView::Expression { expression: e },
            value.consumed + semicolon(tokens, pos + value.consumed),
            value.ids,
        ),
    }
}

#[verifier::opaque]
pub open spec fn print_statement(tokens: Seq<TokenView>, pos: int, id: nat) -> Parsed<StmtView>
    decreases remaining(tokens, pos), 38nat,
{
    let value = expression(tokens, pos, id);
    match value.result {
        Err(message) => fail(message, value.consumed, value.ids),
        Ok(e) => done(
            StmtView::Print { expression: e },
            value.consumed + semicolon(tokens, pos + value.consumed),
            value.ids,
        ),
    }
}

#[verifier::opaque]
pub open spec fn limpa_tela(tokens: Seq<TokenView>, pos: int, id: nat) -> Parsed<StmtView>
    decreases remaining(tokens, pos), 38nat,
{
    let value = expression(tokens, pos, id);
    match value.result {
        Err(message) => fail(message, value.consumed, value.ids),
        Ok(e) => done(
            StmtView::Limpar { expression: e },
            value.consumed + semicolon(tokens, pos + value.consumed),
            value.ids,
        ),
    }
}

/// The statements of a block up to its closing brace, from behind the
/// opening brace on. (A declaration that was read took a token; the case
/// that it took none is there for the definition to end, and never
/// comes.)
#[verifier::opaque]
pub open spec fn block(tokens: Seq<TokenView>, pos: int, id: nat) -> Parsed<Seq<StmtView>>
    decreases remaining(tokens, pos), 45nat,
{
    if kind_at(tokens, pos) == TokenType::RightBrace {
        done(Seq::empty(), 1, 0)
    } else if kind_at(tokens, pos) == TokenType::Eof {
        fail(syntax_error(tokens, pos, "Esperado '}' depois do bloco"@), 0, 0)
    } else {
        let first = declaration(tokens, pos, id);
        match first.result {
            Err(message) => fail(message, first.consumed, first.ids),
            Ok(s) => if first.consumed > 0 {
                prepend(
                    seq![s],
                    first.consumed,
                    first.ids,
                    block(tokens, pos + first.consumed, id + first.ids),
                )
            } else {
                fail(Seq::empty(), 0, first.ids)
            },
        }
    }
}

#[verifier::opaque]
pub open spec fn block_statement(tokens: Seq<TokenView>, pos: int, id: nat) -> Parsed<StmtView>
    decreases remaining(tokens, pos), 46nat,
{
    let body = block(tokens, pos, id);
    match body.result {
        Err(message) => fail(message, body.consumed, body.ids),
        Ok(statements) => done(StmtView::Block { statements }, body.consumed, body.ids),
    }
}

/// A variable declaration, from behind `var` on.
#[verifier::opaque]
pub open spec fn var_declaration(tokens: Seq<TokenView>, pos: int, id: nat) -> Parsed<StmtView>
    decreases remaining(tokens, pos), 38nat,
{
    let name = expect(tokens, pos, TokenType::Identifier, "Esperado o nome da variável"@);
    match name.result {
        Err(message) => fail(message, 0, 0),
        Ok(n) => {
            let value = if kind_at(tokens, pos + 1) == TokenType::Equal {
                after(expression(tokens, pos + 2, id), 2, 0)
            } else {
                done(ExprView::Literal { id, value: LiteralView::Nil }, 1, 1)
            };
            match value.result {
                Err(message) => fail(message, value.consumed, value.ids),
                Ok(initializer) => {
                    let end = expect(
                        tokens,
                        pos + value.consumed,
                        TokenType::Semicolon,
                        "Esperado ';' depois da declaração da variável"@,
                    );
                    match end.result {
                        Err(message) => fail(message, value.consumed, value.ids),
                        Ok(_) => done(
                            StmtView::Var { name: n, initializer },
                            value.consumed + 1,
                            value.ids,
                        ),
                    }
                },
            }
        },
    }
}

/// A return statement, from behind `retorna` on.
#[verifier::opaque]
pub open spec fn return_statement(tokens: Seq<TokenView>, pos: int, id: nat) -> Parsed<StmtView>
    decreases remaining(tokens, pos), 38nat,
{
    let value = if kind_at(tokens, pos) != TokenType::Semicolon {
        let e = expression(tokens, pos, id);
        Parsed {
            result: match e.result {
                Ok(v) => Ok(Some(v)),
                Err(message) => Err(message),
            },
            consumed: e.consumed,
            ids: e.ids,
        }
    } else {
        done(None, 0, 0)
    };
    match value.result {
        Err(message) => fail(message, value.consumed, value.ids),
        Ok(v) => {
            let end = expect(
                tokens,
                pos + value.consumed,
                TokenType::Semicolon,
                "Esperado ';' depois do valor de retorno;"@,
            );
            match end.result {
                Err(message) => fail(message, value.consumed, value.ids),
                Ok(_) => done(
                    StmtView::ReturnStmt { keyword: tokens[pos - 1], value: v },
                    value.consumed + 1,
                    value.ids,
                ),
            }
        },
    }
}

/// A loop statement, from behind `enquanto` on.
#[verifier::opaque]
pub open spec fn while_statement(tokens: Seq<TokenView>, pos: int, id: nat) -> Parsed<StmtView>
    decreases remaining(tokens, pos), 0nat,
{
    let open = expect(tokens, pos, TokenType::LeftParen, "Esperado '(' depois de 'enquanto'"@);
    match open.result {
        Err(message) => fail(message, 0, 0),
        Ok(_) => {
            let test = expression(tokens, pos + 1, id);
            match test.result {
                Err(message) => fail(message, 1 + test.consumed, test.ids),
                Ok(condition) => {
                    let at = pos + 1 + test.consumed;
                    let close = expect(
                        tokens,
                        at,
                        TokenType::RightParen,
                        "Esperado ')' depois da condição."@,
                    );
                    match close.result {
                        Err(message) => fail(message, 1 + test.consumed, test.ids),
                        Ok(_) => {
                            let body = statement(tokens, at + 1, id + test.ids);
                            let consumed = 2 + test.consumed + body.consumed;
                            let ids = test.ids + body.ids;
                            match body.result {
                                Err(message) => fail(message, consumed, ids),
                                Ok(b) => done(
                                    StmtView::WhileStmt { condition, body: Box::new(b) },
                                    consumed,
                                    ids,
                                ),
                            }
                        },
                    }
                },
            }
        },
    }
}

/// The branch of a conditional after `senao`, if that word stands at
/// `pos`.
#[verifier::opaque]
pub open spec fn else_branch(tokens: Seq<TokenView>, pos: int, id: nat) -> Parsed<Option<Box<StmtView>>>
    decreases remaining(tokens, pos), 0nat,
{
    if kind_at(tokens, pos) == TokenType::Else {
        let branch = statement(tokens, pos + 1, id);
        match branch.result {
            Err(message) => fail(message, 1 + branch.consumed, branch.ids),
            Ok(s) => done(Some(Box::new(s)), 1 + branch.consumed, branch.ids),
        }
    } else {
        done(None, 0, 0)
    }
}

/// A conditional, from behind `se` on.
#[verifier::opaque]
pub open spec fn if_statement(tokens: Seq<TokenView>, pos: int, id: nat) -> Parsed<StmtView>
    decreases remaining(tokens, pos), 1nat,
{
    let open = expect(tokens, pos, TokenType::LeftParen, "Esperado '(' depois do bloco 'se'"@);
    match open.result {
        Err(message) => fail(message, 0, 0),
        Ok(_) => {
            let test = expression(tokens, pos + 1, id);
            match test.result {
                Err(message) => fail(message, 1 + test.consumed, test.ids),
                Ok(predicate) => {
                    let at = pos + 1 + test.consumed;
                    let close = expect(
                        tokens,
                        at,
                        TokenType::RightParen,
                        "Esperado ')' depois do predicado se"@,
                    );
                    match close.result {
                        Err(message) => fail(message, 1 + test.consumed, test.ids),
                        Ok(_) => {
                            let then = statement(tokens, at + 1, id + test.ids);
                            let consumed = 2 + test.consumed + then.consumed;
                            let ids = test.ids + then.ids;
                            match then.result {
                                Err(message) => fail(message, consumed, ids),
                                Ok(t) => {
                                    let other = else_branch(
                                        tokens,
                                        at + 1 + then.consumed,
                                        id + ids,
                                    );
                                    match other.result {
                                        Err(message) => fail(
                                            message,
                                            consumed + other.consumed,
                                            ids + other.ids,
                                        ),
                                        Ok(els) => done(
                                            StmtView::IfStmt { predicate, then: Box::new(t), els },
                                            consumed + other.consumed,
                                            ids + other.ids,
                                        ),
                                    }
                                },
                            }
                        },
                    }
                },
            }
        },
    }
}

/// The first clause of a counting loop with its semicolon: nothing, a
/// variable declaration or an expression.
#[verifier::opaque]
pub open spec fn for_initializer(tokens: Seq<TokenView>, pos: int, id: nat) -> Parsed<Option<StmtView>>
    decreases remaining(tokens, pos), 39nat,
{
    if kind_at(tokens, pos) == TokenType::Semicolon {
        done(None, 1, 0)
    } else {
        let first = if kind_at(tokens, pos) == TokenType::Var {
            after(var_declaration(tokens, pos + 1, id), 1, 0)
        } else {
            expression_statement(tokens, pos, id)
        };
        Parsed {
            result: match first.result {
                Ok(s) => Ok(Some(s)),
                Err(message) => Err(message),
            },
            consumed: first.consumed,
            ids: first.ids,
        }
    }
}

/// A clause of a counting loop that may be left out, up to the token of
/// kind `end` that closes it.
#[verifier::opaque]
pub open spec fn for_clause(tokens: Seq<TokenView>, pos: int, id: nat, end: TokenType) -> Parsed<
    Option<ExprView>,
>
    decreases remaining(tokens, pos), 39nat,
{
    if kind_at(tokens, pos) != end {
        let e = expression(tokens, pos, id);
        Parsed {
            result: match e.result {
                Ok(v) => Ok(Some(v)),
                Err(message) => Err(message),
            },
            consumed: e.consumed,
            ids: e.ids,
        }
    } else {
        done(None, 0, 0)
    }
}

/// The loop that a counting loop stands for: the initializer, then a
/// `while` on the condition (`true` if there is none, numbered `id`) whose
/// body ends with the increment.
pub open spec fn desugar(
    initializer: Option<StmtView>,
    condition: Option<ExprView>,
    increment: Option<ExprView>,
    body: StmtView,
    id: nat,
) -> StmtView {
    let stepped = match increment {
        Some(incr) => StmtView::Block {
            statements: seq![body, StmtView::Expression { expression: incr }],
        },
        None => body,
    };
    let test = match condition {
        Some(c) => c,
        None => ExprView::Literal { id, value: LiteralView::True },
    };
    let looped = StmtView::WhileStmt { condition: test, body: Box::new(stepped) };
    match initializer {
        Some(init) => StmtView::Block { statements: seq![init, looped] },
        None => looped,
    }
}

/// A counting loop, from behind `para` on.
#[verifier::opaque]
pub open spec fn for_statement(tokens: Seq<TokenView>, pos: int, id: nat) -> Parsed<StmtView>
    decreases remaining(tokens, pos), 0nat,
{
    let open = expect(tokens, pos, TokenType::LeftParen, "Esperado '(' depois 'for'."@);
    if open.result is Err {
        fail(open.result->Err_0, 0, 0)
    } else {
        let init = for_initializer(tokens, pos + 1, id);
        if init.result is Err {
            fail(init.result->Err_0, 1 + init.consumed, init.ids)
        } else {
            let at1 = pos + 1 + init.consumed;
            let id1 = id + init.ids;
            let test = for_clause(tokens, at1, id1, TokenType::Semicolon);
            let at2 = at1 + test.consumed;
            let id2 = id1 + test.ids;
            let semi = expect(
                tokens,
                at2,
                TokenType::Semicolon,
                "Esperado ';' depois da condição do laço."@,
            );
            if test.result is Err {
                fail(test.result->Err_0, (at2 - pos) as nat, (id2 - id) as nat)
            } else if semi.result is Err {
                fail(semi.result->Err_0, (at2 - pos) as nat, (id2 - id) as nat)
            } else {
                let step = for_clause(tokens, at2 + 1, id2, TokenType::RightParen);
                let at3 = at2 + 1 + step.consumed;
                let id3 = id2 + step.ids;
                let close = expect(
                    tokens,
                    at3,
                    TokenType::RightParen,
                    "Esperado ')' depois da cláusula para."@,
                );
                if step.result is Err {
                    fail(step.result->Err_0, (at3 - pos) as nat, (id3 - id) as nat)
                } else if close.result is Err {
                    fail(close.result->Err_0, (at3 - pos) as nat, (id3 - id) as nat)
                } else {
                    let body = statement(tokens, at3 + 1, id3);
                    let at4 = at3 + 1 + body.consumed;
                    let id4 = id3 + body.ids;
                    match body.result {
                        Err(message) => fail(message, (at4 - pos) as nat, (id4 - id) as nat),
                        Ok(b) => done(
                            desugar(
                                init.result->Ok_0,
                                test.result->Ok_0,
                                step.result->Ok_0,
                                b,
                                id4,
                            ),
                            (at4 - pos) as nat,
                            (id4 - id + if test.result->Ok_0 is None {
                                1int
                            } else {
                                0int
                            }) as nat,
                        ),
                    }
                }
            }
        }
    }
}

#[verifier::opaque]
pub open spec fn statement(tokens: Seq<TokenView>, pos: int, id: nat) -> Parsed<StmtView>
    decreases remaining(tokens, pos), 43nat,
{
    match kind_at(tokens, pos) {
        TokenType::Print => after(print_statement(tokens, pos + 1, id), 1, 0),
        TokenType::Limpar => after(limpa_tela(tokens, pos + 1, id), 1, 0),
        TokenType::LeftBrace => after(block_statement(tokens, pos + 1, id), 1, 0),
        TokenType::If => after(if_statement(tokens, pos + 1, id), 1, 0),
        TokenType::While => after(while_statement(tokens, pos + 1, id), 1, 0),
        TokenType::For => after(for_statement(tokens, pos + 1, id), 1, 0),
        TokenType::Return => after(return_statement(tokens, pos + 1, id), 1, 0),
        _ => expression_statement(tokens, pos, id),
    }
}

/// A function declaration, from its name on. Only a plain function may
/// stand for a command: `name recebe "command";`.
#[verifier::opaque]
pub open spec fn function(tokens: Seq<TokenView>, pos: int, id: nat, kind: FunctionKind) -> Parsed<
    StmtView,
>
    decreases remaining(tokens, pos), 0nat,
{
    let name = expect(tokens, pos, TokenType::Identifier, name_message(kind));
    if name.result is Err {
        fail(name.result->Err_0, 0, 0)
    } else if kind == FunctionKind::Function && kind_at(tokens, pos + 1) == TokenType::Gets {
        let command = expect(
            tokens,
            pos + 2,
            TokenType::StringLit,
            "Esperado o corpo do comando"@,
        );
        let end = expect(
            tokens,
            pos + 3,
            TokenType::Semicolon,
            "Esperado ';' depois do corpo do comando"@,
        );
        if command.result is Err {
            fail(command.result->Err_0, 2, 0)
        } else if end.result is Err {
            fail(end.result->Err_0, 3, 0)
        } else {
            done(
                StmtView::CmdFunction { name: tokens[pos], cmd: tokens[pos + 2].lexeme },
                4,
                0,
            )
        }
    } else {
        let open = expect(tokens, pos + 1, TokenType::LeftParen, paren_message(kind));
        if open.result is Err {
            fail(open.result->Err_0, 1, 0)
        } else {
            let params = parameters(tokens, pos + 2, true);
            let at = pos + 2 + params.consumed;
            let close = expect(
                tokens,
                at,
                TokenType::RightParen,
                "Esperado ')' depois dos parâmetros."@,
            );
            let brace = expect(tokens, at + 1, TokenType::LeftBrace, brace_message(kind));
            if params.result is Err {
                fail(params.result->Err_0, 2 + params.consumed, 0)
            } else if close.result is Err {
                fail(close.result->Err_0, 2 + params.consumed, 0)
            } else if brace.result is Err {
                fail(brace.result->Err_0, 3 + params.consumed, 0)
            } else {
                let body = block(tokens, at + 2, id);
                match body.result {
                    Err(message) => fail(message, 4 + params.consumed + body.consumed, body.ids),
                    Ok(statements) => done(
                        StmtView::Function {
                            name: tokens[pos],
                            params: params.result->Ok_0,
                            body: statements,
                        },
                        4 + params.consumed + body.consumed,
                        body.ids,
                    ),
                }
            }
        }
    }
}

/// The methods of a class up to the closing brace, which is not read.
/// (A method that was read took a token; the case that it took none
/// never comes.)
#[verifier::opaque]
pub open spec fn methods(tokens: Seq<TokenView>, pos: int, id: nat) -> Parsed<Seq<StmtView>>
    decreases remaining(tokens, pos), 1nat,
{
    if kind_at(tokens, pos) == TokenType::RightBrace || kind_at(tokens, pos) == TokenType::Eof {
        done(Seq::empty(), 0, 0)
    } else {
        let first = function(tokens, pos, id, FunctionKind::Method);
        match first.result {
            Err(message) => fail(message, first.consumed, first.ids),
            Ok(s) => if first.consumed > 0 {
                prepend(
                    seq![s],
                    first.consumed,
                    first.ids,
                    methods(tokens, pos + first.consumed, id + first.ids),
                )
            } else {
                fail(Seq::empty(), 0, first.ids)
            },
        }
    }
}

/// A class declaration, from its name on.
#[verifier::opaque]
pub open spec fn class_declaration(tokens: Seq<TokenView>, pos: int, id: nat) -> Parsed<StmtView>
    decreases remaining(tokens, pos), 2nat,
{
    let name = expect(
        tokens,
        pos,
        TokenType::Identifier,
        "Esperado o nome depois da palavra reservada 'classe' ."@,
    );
    if name.result is Err {
        fail(name.result->Err_0, 0, 0)
    } else {
        let parent: Parsed<Option<ExprView>> = if kind_at(tokens, pos + 1) == TokenType::Less {
            let above = expect(
                tokens,
                pos + 2,
                TokenType::Identifier,
                "Esperada superclass depois do símbolo  '<'."@,
            );
            match above.result {
                Err(message) => fail(message, 1, 0),
                Ok(n) => done(Some(ExprView::Variable { id, name: n }), 2, 1),
            }
        } else {
            done(None, 0, 0)
        };
        let at = pos + 1 + parent.consumed;
        let open = expect(
            tokens,
            at,
            TokenType::LeftBrace,
            "Esperado '{' antes do corpo da classe."@,
        );
        if parent.result is Err {
            fail(parent.result->Err_0, 1 + parent.consumed, parent.ids)
        } else if open.result is Err {
            fail(open.result->Err_0, 1 + parent.consumed, parent.ids)
        } else {
            let list = methods(tokens, at + 1, id + parent.ids);
            let end = at + 1 + list.consumed;
            let consumed = 2 + parent.consumed + list.consumed;
            let ids = parent.ids + list.ids;
            let close = expect(
                tokens,
                end,
                TokenType::RightBrace,
                "Esperado '}' depois do corpo da classe."@,
            );
            if list.result is Err {
                fail(list.result->Err_0, consumed, ids)
            } else if close.result is Err {
                fail(close.result->Err_0, consumed, ids)
            } else {
                done(
                    StmtView::Class {
                        name: tokens[pos],
                        methods: list.result->Ok_0,
                        superclass: parent.result->Ok_0,
                    },
                    consumed + 1,
                    ids,
                )
            }
        }
    }
}

#[verifier::opaque]
pub open spec fn declaration(tokens: Seq<TokenView>, pos: int, id: nat) -> Parsed<StmtView>
    decreases remaining(tokens, pos), 44nat,
{
    match kind_at(tokens, pos) {
        TokenType::Var => after(var_declaration(tokens, pos + 1, id), 1, 0),
        TokenType::Fun => after(function(tokens, pos + 1, id, FunctionKind::Function), 1, 0),
        TokenType::Class => after(class_declaration(tokens, pos + 1, id), 1, 0),
        _ => statement(tokens, pos, id),
    }
}

/// What a whole program gives: its statements, and the texts of its
/// syntax errors in the order in which they were met.
pub struct Program {
    pub statements: Seq<StmtView>,
    pub errors: Seq<Seq<char>>,
}

/// The declarations from `pos` to the end of the stream. After an error
/// the parser drops tokens up to the next place where a statement may
/// start, and goes on. (Each round takes a token; the cases that it took
/// none never come.)
#[verifier::opaque]
pub open spec fn program(tokens: Seq<TokenView>, pos: int, id: nat) -> Program
    decreases remaining(tokens, pos),
{
    if kind_at(tokens, pos) == TokenType::Eof {
        Program { statements: Seq::empty(), errors: Seq::empty() }
    } else {
        let first = declaration(tokens, pos, id);
        match first.result {
            Ok(s) => {
                if first.consumed > 0 {
                    let rest = program(tokens, pos + first.consumed, id + first.ids);
                    Program { statements: seq![s] + rest.statements, errors: rest.errors }
                } else {
                    Program { statements: Seq::empty(), errors: Seq::empty() }
                }
            },
            Err(message) => {
                let next = synchronized(tokens, pos + first.consumed);
                if next > pos {
                    let rest = program(tokens, next, id + first.ids);
                    Program { statements: rest.statements, errors: seq![message] + rest.errors }
                } else {
                    Program { statements: Seq::empty(), errors: seq![message] }
                }
            },
        }
    }
}

/// The texts of `errors`, one to a line.
pub open spec fn joined(errors: Seq<Seq<char>>) -> Seq<char>
    decreases errors.len(),
{
    if errors.len() == 0 {
        Seq::empty()
    } else if errors.len() == 1 {
        errors[0]
    } else {
        joined(errors.drop_last()) + "\n"@ + errors.last()
    }
}

/// What parsing a stream from `pos` on returns: the statements if there
/// was no error, else all the errors.
pub open spec fn parse_result(tokens: Seq<TokenView>, pos: int, id: nat) -> Result<
    Seq<StmtView>,
    Seq<char>,
> {
    let all = program(tokens, pos, id);
    if all.errors.len() == 0 {
        Ok(all.statements)
    } else {
        Err(joined(all.errors))
    }
}

} // verus!

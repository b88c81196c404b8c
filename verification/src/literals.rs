use vstd::prelude::*;
use crate::expr::{ExprView, LiteralView, literal_of, literal_text};
use crate::grammar::{self, Level, Parsed, done, kind_at, level_index};
use crate::scanner::{self, CharClass, Lexed, TokenType, TokenView, in_class, is_digit, lex_at, run_end, scan_from};
use crate::stmt::{StmtView, stmt_text};

verus! {

/// Digits, and perhaps a point with digits behind it: `whole` is the
/// number of digits before the point.
pub open spec fn is_number_text(text: Seq<char>, whole: int) -> bool {
    &&& 1 <= whole <= text.len()
    &&& forall|i: int| 0 <= i < whole ==> is_digit(#[trigger] text[i])
    &&& whole < text.len() ==> {
        &&& text[whole] == '.'
        &&& whole + 1 < text.len()
        &&& forall|i: int| whole < i < text.len() ==> is_digit(#[trigger] text[i])
    }
}

/// A constant as the scanner reads it: a number is written in digits, a
/// string holds no double quote.
pub open spec fn scannable(value: LiteralView) -> bool {
    match value {
        LiteralView::Number(text) => exists|whole: int| is_number_text(text, whole),
        LiteralView::StringValue(text) => forall|i: int|
            0 <= i < text.len() ==> #[trigger] text[i] != '"',
        _ => true,
    }
}

/// The statement that is the constant `value` alone, numbered `id`.
pub open spec fn constant(value: LiteralView, id: nat) -> StmtView {
    StmtView::Expression { expression: ExprView::Literal { id, value } }
}

/// The kind of the token that stands for a constant.
pub open spec fn literal_kind(value: LiteralView) -> TokenType {
    match value {
        LiteralView::Number(_) => TokenType::Number,
        LiteralView::StringValue(_) => TokenType::StringLit,
        LiteralView::True => TokenType::True,
        LiteralView::False => TokenType::False,
        LiteralView::Nil => TokenType::Nil,
    }
}

proof fn lemma_run(src: Seq<char>, pos: int, class: CharClass, end: int)
    requires
        0 <= pos <= end <= src.len(),
        forall|i: int| pos <= i < end ==> in_class(class, #[trigger] src[i]),
        end < src.len() ==> !in_class(class, src[end]),
    ensures
        run_end(src, pos, class) == end,
    decreases end - pos,
{
    if pos < end {
        lemma_run(src, pos + 1, class, end);
    }
}

/// What the scanner makes of the text of a constant: one token of the
/// constant's kind that stands for the constant, and the end.
proof fn lemma_scan_constant(value: LiteralView)
    requires
        scannable(value),
    ensures
        scanner::scan(literal_text(value)) matches Ok(tokens) && tokens.len() == 2
            && tokens[0].token_type == literal_kind(value) && literal_of(tokens[0]) == value
            && tokens[1].token_type == TokenType::Eof,
{
    let text = literal_text(value);
    match value {
        LiteralView::Number(t) => {
            let whole = choose|whole: int| is_number_text(t, whole);
            lemma_run(t, 0, CharClass::Digit, whole);
            if whole < t.len() {
                lemma_run(t, whole + 1, CharClass::Digit, t.len() as int);
            }
            assert(scanner::number_end(t, 0) == t.len());
            assert(is_digit(t[0]));
            assert(t.subrange(0, t.len() as int) =~= t);
            let first = lex_at(t, 0);
            assert(first is Token && first->Token_next == t.len());
            assert(scan_from(t, t.len() as int) == Ok::<Seq<TokenView>, Seq<char>>(
                seq![scanner::eof_token(t)],
            ));
            assert(scan_from(t, 0) == Ok::<Seq<TokenView>, Seq<char>>(
                seq![first->token] + seq![scanner::eof_token(t)],
            ));
        },
        LiteralView::StringValue(s) => {
            reveal_strlit("\"");
            let t = "\""@ + s + "\""@;
            let n = s.len() as int;
            assert(t.len() == n + 2);
            assert(t[0] == '"');
            assert(t[n + 1] == '"');
            assert forall|i: int| 1 <= i < n + 1 implies in_class(
                CharClass::Quoted,
                #[trigger] t[i],
            ) by {
                assert(t[i] == s[i - 1]);
            }
            lemma_run(t, 1, CharClass::Quoted, n + 1);
            assert(t.subrange(1, n + 1) =~= s);
            let first = lex_at(t, 0);
            assert(first is Token && first->Token_next == t.len());
            assert(scan_from(t, t.len() as int) == Ok::<Seq<TokenView>, Seq<char>>(
                seq![scanner::eof_token(t)],
            ));
            assert(scan_from(t, 0) == Ok::<Seq<TokenView>, Seq<char>>(
                seq![first->token] + seq![scanner::eof_token(t)],
            ));
        },
        _ => {
            lemma_scan_word(value);
        },
    }
}

/// The same for the three constants that are words.
proof fn lemma_scan_word(value: LiteralView)
    requires
        value is True || value is False || value is Nil,
    ensures
        scanner::scan(literal_text(value)) matches Ok(tokens) && tokens.len() == 2
            && tokens[0].token_type == literal_kind(value) && literal_of(tokens[0]) == value
            && tokens[1].token_type == TokenType::Eof,
{
    reveal_strlit("e");
    reveal_strlit("ou");
    reveal_strlit("senao");
    reveal_strlit("falso");
    reveal_strlit("verdadeiro");
    reveal_strlit("nulo");
    let t = literal_text(value);
    assert forall|i: int| 0 <= i < t.len() implies in_class(CharClass::Word, #[trigger] t[i]) by {}
    lemma_run(t, 0, CharClass::Word, t.len() as int);
    assert(t.subrange(0, t.len() as int) =~= t);
    let first = lex_at(t, 0);
    assert(first is Token && first->Token_next == t.len());
    assert(first->token.token_type == literal_kind(value));
    assert(scan_from(t, t.len() as int) == Ok::<Seq<TokenView>, Seq<char>>(
        seq![scanner::eof_token(t)],
    ));
    assert(scan_from(t, 0) == Ok::<Seq<TokenView>, Seq<char>>(
        seq![first->token] + seq![scanner::eof_token(t)],
    ));
}

/// Whether a token of kind `kind` stands for a constant.
pub open spec fn stands_for_constant(kind: TokenType) -> bool {
    kind == TokenType::Number || kind == TokenType::StringLit || kind == TokenType::True || kind
        == TokenType::False || kind == TokenType::Nil
}

/// A constant followed by the end is, at each level of operators, the
/// constant alone.
proof fn lemma_constant_at_level(tokens: Seq<TokenView>, level: Level)
    requires
        tokens.len() == 2,
        stands_for_constant(tokens[0].token_type),
        tokens[1].token_type == TokenType::Eof,
    ensures
        grammar::binary(tokens, level, 0, 0) == done(
            ExprView::Literal { id: 0, value: literal_of(tokens[0]) },
            1,
            1,
        ),
    decreases 6 - level_index(level),
{
    reveal(grammar::binary);
    reveal(grammar::binary_rest);
    reveal(grammar::operand);
    reveal(grammar::unary);
    reveal(grammar::call);
    reveal(grammar::call_rest);
    reveal(grammar::primary);
    reveal(grammar::finish_call);
    let literal = ExprView::Literal { id: 0, value: literal_of(tokens[0]) };
    assert(kind_at(tokens, 0) == tokens[0].token_type);
    assert(kind_at(tokens, 1) == TokenType::Eof);
    assert(grammar::primary(tokens, 0, 0) == done(literal, 1, 1));
    assert(grammar::call_rest(tokens, 1, 1, literal) == done(literal, 0, 0));
    assert(grammar::call(tokens, 0, 0) == done(literal, 1, 1));
    assert(grammar::unary(tokens, 0, 0) == done(literal, 1, 1));
    match level {
        Level::Pipe => lemma_constant_at_level(tokens, Level::Or),
        Level::Or => lemma_constant_at_level(tokens, Level::And),
        Level::And => lemma_constant_at_level(tokens, Level::Equality),
        Level::Equality => lemma_constant_at_level(tokens, Level::Comparison),
        Level::Comparison => lemma_constant_at_level(tokens, Level::Term),
        Level::Term => lemma_constant_at_level(tokens, Level::Factor),
        Level::Factor => {},
    }
    assert(grammar::operand(tokens, level, 0, 0) == done(literal, 1, 1));
    assert(grammar::binary_rest(tokens, level, 1, 1, literal) == done(literal, 0, 0));
}

/// A constant followed by the end parses as the statement that is the
/// constant alone.
proof fn lemma_parse_constant(tokens: Seq<TokenView>)
    requires
        tokens.len() == 2,
        stands_for_constant(tokens[0].token_type),
        tokens[1].token_type == TokenType::Eof,
    ensures
        grammar::parse_result(tokens, 0, 0) == Ok::<Seq<StmtView>, Seq<char>>(
            seq![constant(literal_of(tokens[0]), 0)],
        ),
{
    reveal(grammar::program);
    reveal(grammar::declaration);
    reveal(grammar::statement);
    reveal(grammar::expression_statement);
    reveal(grammar::expression);
    reveal(grammar::assignment);
    reveal(grammar::binary);
    lemma_constant_at_level(tokens, Level::Pipe);
    let literal = ExprView::Literal { id: 0, value: literal_of(tokens[0]) };
    assert(kind_at(tokens, 0) == tokens[0].token_type);
    assert(kind_at(tokens, 1) == TokenType::Eof);
    assert(grammar::assignment(tokens, 0, 0) == done(literal, 1, 1));
    assert(grammar::expression(tokens, 0, 0) == done(literal, 1, 1));
    assert(grammar::expression_statement(tokens, 0, 0) == done(
        constant(literal_of(tokens[0]), 0),
        1,
        1,
    ));
    assert(grammar::statement(tokens, 0, 0) == grammar::expression_statement(tokens, 0, 0));
    assert(grammar::declaration(tokens, 0, 0) == grammar::statement(tokens, 0, 0));
    let rest = grammar::program(tokens, 1, 1);
    assert(rest.statements =~= Seq::<StmtView>::empty());
    assert(rest.errors =~= Seq::<Seq<char>>::empty());
    let all = grammar::program(tokens, 0, 0);
    assert(all.statements =~= seq![constant(literal_of(tokens[0]), 0)]);
    assert(all.errors =~= Seq::<Seq<char>>::empty());
}

/// A statement that is a constant alone reads back from what is written
/// of it: the text of the statement, scanned and parsed, is that
/// statement again, numbered from the start. (Of every other statement
/// the written form is in prefix order, which the parser does not read.)
pub proof fn lemma_constant_reads_back(value: LiteralView, id: nat)
    requires
        scannable(value),
    ensures
        crate::syntax(stmt_text(constant(value, id))) == Ok::<Seq<StmtView>, Seq<char>>(
            seq![constant(value, 0)],
        ),
{
    lemma_scan_constant(value);
    let tokens = scanner::scan(literal_text(value))->Ok_0;
    lemma_parse_constant(tokens);
    assert(stmt_text(constant(value, id)) == literal_text(value)) by {
        reveal_with_fuel(stmt_text, 2);
        reveal_with_fuel(crate::expr::expr_text, 2);
    }
}

} // verus!

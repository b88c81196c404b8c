use ferrugem::expr::Expr;
use ferrugem::parser::{accepts, Parser};
use ferrugem::scanner::{LiteralValue, Scanner, Token, TokenType};
use ferrugem::stmt::Stmt;

fn plain(token_type: TokenType, lexeme: &str) -> Token {
    Token { token_type, lexeme: lexeme.to_string(), literal: None, line_number: 0 }
}

fn number(lexeme: &str) -> Token {
    Token {
        token_type: TokenType::Number,
        lexeme: lexeme.to_string(),
        literal: Some(LiteralValue::FValue(lexeme.to_string())),
        line_number: 0,
    }
}

fn parse(source: &str) -> Result<Vec<Stmt>, String> {
    let tokens = Scanner::new(source).scan_tokens().unwrap();
    assert!(accepts(&tokens));
    Parser::new(tokens).parse()
}

fn printed(source: &str) -> Vec<String> {
    parse(source).unwrap().iter().map(|s| s.to_string()).collect()
}

fn parse_error(source: &str) -> String {
    match parse(source) {
        Ok(_) => panic!("the parse went through"),
        Err(message) => message,
    }
}

#[test]
fn test_addition() {
    let one = number("1");
    let plus = plain(TokenType::Plus, "+");
    let two = number("2");
    let semicol = plain(TokenType::Semicolon, ";");
    let eof = plain(TokenType::Eof, "");

    let tokens = vec![one, plus, two, semicol, eof];
    let mut parser = Parser::new(tokens);

    let parsed_expr = parser.parse().unwrap();
    let string_expr = parsed_expr[0].to_string();

    assert_eq!(string_expr, "(+ 1 2)");
}

#[test]
fn test_comparison() {
    let source = "1 + 2 == 5 + 7;";
    let mut scanner = Scanner::new(source);
    let tokens = scanner.scan_tokens().unwrap();
    let mut parser = Parser::new(tokens);
    let parsed_expr = parser.parse().unwrap();
    let string_expr = parsed_expr[0].to_string();

    assert_eq!(string_expr, "(== (+ 1 2) (+ 5 7))");
}

#[test]
fn test_eq_with_paren() {
    let source = "1 == (2 + 2);";
    let mut scanner = Scanner::new(source);
    let tokens = scanner.scan_tokens().unwrap();
    let mut parser = Parser::new(tokens);
    let parsed_expr = parser.parse().unwrap();
    let string_expr = parsed_expr[0].to_string();

    assert_eq!(string_expr, "(== 1 (group (+ 2 2)))");
}

#[test]
fn accepts_only_streams_that_end_in_eof() {
    assert!(!accepts(&vec![]));
    assert!(!accepts(&vec![number("1")]));
    assert!(accepts(&vec![plain(TokenType::Eof, "")]));
    assert!(accepts(&vec![number("1"), plain(TokenType::Eof, "")]));
    // A number without its text cannot be read.
    assert!(!accepts(&vec![plain(TokenType::Number, "1"), plain(TokenType::Eof, "")]));
    assert!(!accepts(&vec![plain(TokenType::StringLit, "\"a\""), plain(TokenType::Eof, "")]));
}

#[test]
fn empty_program() {
    assert_eq!(parse("").unwrap().len(), 0);
}

#[test]
fn operators_bind_by_level() {
    assert_eq!(printed("1 + 2 * 3;"), vec!["(+ 1 (* 2 3))"]);
    assert_eq!(printed("1 * 2 + 3;"), vec!["(+ (* 1 2) 3)"]);
    assert_eq!(printed("1 < 2 == 3 >= 4;"), vec!["(== (< 1 2) (>= 3 4))"]);
    assert_eq!(printed("a ou b e c;"), vec!["(ou (var a) (e (var b) (var c)))"]);
    assert_eq!(printed("!a == -b;"), vec!["(== (! (var a)) (- (var b)))"]);
}

#[test]
fn operators_group_to_the_left() {
    assert_eq!(printed("1 - 2 - 3;"), vec!["(- (- 1 2) 3)"]);
    assert_eq!(printed("8 / 4 / 2;"), vec!["(/ (/ 8 4) 2)"]);
}

#[test]
fn unary_nests() {
    assert_eq!(printed("!!a;"), vec!["(! (! (var a)))"]);
    assert_eq!(printed("- -1;"), vec!["(- (- 1))"]);
}

#[test]
fn assignment_groups_to_the_right() {
    assert_eq!(printed("a = b = 1;"), vec!["(= a (= b 1))"]);
}

#[test]
fn assignment_to_a_property() {
    assert_eq!(printed("a.b.c = 1;"), vec!["(set (get (var a) b) c 1)"]);
}

#[test]
fn assignment_to_something_else_is_refused() {
    assert_eq!(parse_error("1 = 2;"), "Destino inválido.");
    assert_eq!(parse_error("(a) = 2;"), "Destino inválido.");
    assert_eq!(parse_error("a + b = 2;"), "Destino inválido.");
}

#[test]
fn pipe_is_a_call_of_its_right_side() {
    let stmts = parse("x |> f;").unwrap();
    match &stmts[0] {
        Stmt::Expression { expression: Expr::Call { callee, paren, arguments, .. } } => {
            assert_eq!(paren.token_type, TokenType::Pipe);
            assert_eq!(callee.to_string(), "(var f)");
            assert_eq!(arguments.len(), 1);
            assert_eq!(arguments[0].to_string(), "(var x)");
        }
        other => panic!("{:?}", other),
    }
}

#[test]
fn pipes_group_to_the_left() {
    assert_eq!(printed("x |> f |> g;"), vec!["(call (var g) (call (var f) (var x)))"]);
    assert_eq!(printed("x |> f |> g;"), printed("g(f(x));"));
}

#[test]
fn pipe_binds_less_than_or() {
    assert_eq!(printed("a ou b |> f;"), vec!["(call (var f) (ou (var a) (var b)))"]);
}

#[test]
fn calls_and_properties_chain() {
    assert_eq!(printed("a.b(1, 2).c();"), vec!["(call (get (call (get (var a) b) 1 2) c))"]);
    assert_eq!(printed("f()();"), vec!["(call (call (var f)))"]);
}

#[test]
fn literals() {
    assert_eq!(
        printed("verdadeiro; falso; nulo; 1.5; \"a\";"),
        vec!["verdadeiro", "falso", "nulo", "1.5", "\"a\""]
    );
}

#[test]
fn this_and_super() {
    assert_eq!(printed("este.x;"), vec!["(get (este) x)"]);
    assert_eq!(printed("super.f();"), vec!["(call (super f))"]);
    assert_eq!(parse_error("super;"), "Line 1: Esperado '.' depois do comando 'super'.");
    assert_eq!(parse_error("super.;"), "Line 1: Esperado o nome da classe principal.");
}

#[test]
fn var_declaration_with_and_without_value() {
    assert_eq!(printed("var a = 1; var b;"), vec!["(var a 1)", "(var b nulo)"]);
    assert_eq!(parse_error("var 1;"), "Line 1: Esperado o nome da variável");
    assert_eq!(parse_error("var a = 1"), "Line 1: Esperado ';' depois da declaração da variável");
}

#[test]
fn print_and_clear() {
    assert_eq!(printed("saida 1; limpar \"x\";"), vec!["(saida 1)", "(limpar \"x\")"]);
}

#[test]
fn semicolon_may_be_left_out_after_a_value() {
    // Only a declaration insists on its semicolon.
    assert_eq!(printed("saida 1"), vec!["(saida 1)"]);
    assert_eq!(printed("1 + 2"), vec!["(+ 1 2)"]);
    assert_eq!(printed("saida 1 saida 2"), vec!["(saida 1)", "(saida 2)"]);
}

#[test]
fn block_of_statements() {
    assert_eq!(printed("{ var a = 1; saida a; }"), vec!["(bloco (var a 1) (saida (var a)))"]);
    assert_eq!(printed("{}"), vec!["(bloco)"]);
    assert_eq!(parse_error("{ saida 1;"), "Line 1: Esperado '}' depois do bloco");
}

#[test]
fn conditional_with_and_without_else() {
    assert_eq!(printed("se (a) saida 1;"), vec!["(se (var a) (saida 1))"]);
    assert_eq!(
        printed("se (a) saida 1; senao saida 2;"),
        vec!["(se (var a) (saida 1) (saida 2))"]
    );
    // An else belongs to the nearest conditional.
    assert_eq!(
        printed("se (a) se (b) 1; senao 2;"),
        vec!["(se (var a) (se (var b) 1 2))"]
    );
    assert_eq!(parse_error("se a) 1;"), "Line 1: Esperado '(' depois do bloco 'se'");
    assert_eq!(parse_error("se (a 1;"), "Line 1: Esperado ')' depois do predicado se");
}

#[test]
fn loop_statement() {
    assert_eq!(printed("enquanto (a) a = a - 1;"), vec!["(enquanto (var a) (= a (- (var a) 1)))"]);
    assert_eq!(parse_error("enquanto a"), "Line 1: Esperado '(' depois de 'enquanto'");
    assert_eq!(parse_error("enquanto (a"), "Line 1: Esperado ')' depois da condição.");
}

#[test]
fn counting_loop_is_a_block_around_a_loop() {
    assert_eq!(
        printed("para (var i = 0; i < 3; i = i + 1) saida i;"),
        vec!["(bloco (var i 0) (enquanto (< (var i) 3) (bloco (saida (var i)) (= i (+ (var i) 1)))))"]
    );
    assert_eq!(
        printed("para (var i = 0; i < 3; i = i + 1) saida i;"),
        printed("{ var i = 0; enquanto (i < 3) { saida i; i = i + 1; } }")
    );
}

#[test]
fn counting_loop_without_its_clauses() {
    assert_eq!(printed("para (;;) saida 1;"), vec!["(enquanto verdadeiro (saida 1))"]);
    assert_eq!(printed("para (; a;) saida 1;"), vec!["(enquanto (var a) (saida 1))"]);
    assert_eq!(
        printed("para (i = 0;;) saida 1;"),
        vec!["(bloco (= i 0) (enquanto verdadeiro (saida 1)))"]
    );
    assert_eq!(
        printed("para (;; i = 1) saida 1;"),
        vec!["(enquanto verdadeiro (bloco (saida 1) (= i 1)))"]
    );
}

#[test]
fn counting_loop_errors() {
    assert_eq!(parse_error("para var"), "Line 1: Esperado '(' depois 'for'.");
    assert_eq!(parse_error("para (;a 1"), "Line 1: Esperado ';' depois da condição do laço.");
    assert_eq!(parse_error("para (;;a 1"), "Line 1: Esperado ')' depois da cláusula para.");
}

#[test]
fn function_declaration() {
    assert_eq!(
        printed("funcao soma(a, b) { retorna a + b; }"),
        vec!["(funcao soma ( a b) (retorna (+ (var a) (var b))))"]
    );
    assert_eq!(printed("funcao f() {}"), vec!["(funcao f ())"]);
}

#[test]
fn function_declaration_errors() {
    assert_eq!(parse_error("funcao 1"), "Line 1: Esperado o tipo Function ");
    assert_eq!(parse_error("funcao f"), "Line 1: Esperado '(' depois do tipoFunction ");
    assert_eq!(parse_error("funcao f(1"), "Line 1: Esperado o nome do parâmetro");
    assert_eq!(parse_error("funcao f(a"), "Line 1: Esperado ')' depois dos parâmetros.");
    assert_eq!(parse_error("funcao f(a)"), "Line 1: Esperado '{' antes do tipo Function.");
    assert_eq!(parse_error("funcao f(a) {"), "Line 1: Esperado '}' depois do bloco");
}

#[test]
fn command_function() {
    let stmts = parse("funcao lista recebe \"ls -l\";").unwrap();
    match &stmts[0] {
        Stmt::CmdFunction { name, cmd } => {
            assert_eq!(name.lexeme, "lista");
            assert_eq!(cmd, "\"ls -l\"");
        }
        other => panic!("{:?}", other),
    }
    assert_eq!(parse_error("funcao f recebe 1;"), "Line 1: Esperado o corpo do comando");
    assert_eq!(
        parse_error("funcao f recebe \"ls\""),
        "Line 1: Esperado ';' depois do corpo do comando"
    );
}

#[test]
fn anonymous_function() {
    assert_eq!(
        printed("var f = funcao (x) { retorna x; };"),
        vec!["(var f (funcao ( x) (retorna (var x))))"]
    );
    // At the start of a statement `funcao` declares a function, which
    // has a name.
    assert_eq!(parse_error("funcao (x) {}"), "Line 1: Esperado o tipo Function ");
    assert_eq!(
        parse_error("var f = funcao x"),
        "Line 1: Esperado '(' depois da função anônima"
    );
    assert_eq!(parse_error("var f = funcao (1"), "Line 1: Esperado o parâmetro nome");
    assert_eq!(
        parse_error("var f = funcao (a"),
        "Line 1: Esperado ')' depois dos parâmetros da função anônima"
    );
    assert_eq!(
        parse_error("var f = funcao (a) 1"),
        "Line 1: Esperado '{' depois da declaração da função anônima"
    );
}

#[test]
fn return_statement() {
    assert_eq!(printed("retorna;"), vec!["(retorna)"]);
    assert_eq!(printed("retorna 1;"), vec!["(retorna 1)"]);
    assert_eq!(parse_error("retorna 1"), "Line 1: Esperado ';' depois do valor de retorno;");
    match &parse("\n\nretorna;").unwrap()[0] {
        Stmt::ReturnStmt { keyword, value } => {
            assert_eq!(keyword.token_type, TokenType::Return);
            assert_eq!(keyword.line_number, 3);
            assert!(value.is_none());
        }
        other => panic!("{:?}", other),
    }
}

#[test]
fn class_declaration() {
    assert_eq!(printed("classe A {}"), vec!["(classe A)"]);
    assert_eq!(
        printed("classe B < A { f() { retorna 1; } g(x) {} }"),
        vec!["(classe B < (var A) (funcao f () (retorna 1)) (funcao g ( x)))"]
    );
}

#[test]
fn class_declaration_errors() {
    assert_eq!(
        parse_error("classe 1"),
        "Line 1: Esperado o nome depois da palavra reservada 'classe' ."
    );
    assert_eq!(parse_error("classe A < 1"), "Line 1: Esperada superclass depois do símbolo  '<'.");
    assert_eq!(parse_error("classe A f"), "Line 1: Esperado '{' antes do corpo da classe.");
    assert_eq!(parse_error("classe A { 1 }"), "Line 1: Esperado o tipo Method ");
    assert_eq!(parse_error("classe A { f }"), "Line 1: Esperado '(' depois do tipoMethod ");
    assert_eq!(parse_error("classe A { f() }"), "Line 1: Esperado '{' antes do tipo Method.");
    assert_eq!(parse_error("classe A { f() {}"), "Line 1: Esperado '}' depois do corpo da classe.");
}

#[test]
fn a_method_cannot_stand_for_a_command() {
    // The parser goes on behind the semicolon, where the brace is no
    // statement.
    assert_eq!(
        parse_error("classe A { f recebe \"ls\"; }"),
        "Line 1: Esperado '(' depois do tipoMethod \nUma expressão era esperada"
    );
}

#[test]
fn missing_expression() {
    assert_eq!(parse_error(";"), "Uma expressão era esperada");
    assert_eq!(parse_error("1 +"), "Uma expressão era esperada");
    assert_eq!(parse_error("(1"), "Line 1: Esperado ')'");
    assert_eq!(parse_error("f(1"), "Line 1: Esperado ')' depois dos argumentos.");
    assert_eq!(parse_error("a."), "Line 1: Esperado token depois do ponto");
}

#[test]
fn errors_name_the_line_of_the_token() {
    assert_eq!(parse_error("\n\nvar\n1;"), "Line 4: Esperado o nome da variável");
}

#[test]
fn errors_are_gathered_one_to_a_line() {
    assert_eq!(
        parse_error("var 1; saida 2; var 3;\nvar 4;"),
        "Line 1: Esperado o nome da variável\nLine 1: Esperado o nome da variável\nLine 2: Esperado o nome da variável"
    );
}

#[test]
fn after_an_error_the_parser_goes_on_behind_the_semicolon() {
    // `+ 2 3` is dropped up to the semicolon; `var` starts a statement.
    assert_eq!(
        parse_error("(1 + 2 3; var;"),
        "Line 1: Esperado ')'\nLine 1: Esperado o nome da variável"
    );
}

#[test]
fn after_an_error_the_parser_goes_on_at_a_keyword() {
    assert_eq!(
        parse_error("(1 2 3 saida (4"),
        "Line 1: Esperado ')'\nLine 1: Esperado ')'"
    );
}

#[test]
fn a_function_takes_255_parameters() {
    let names: Vec<String> = (0..255).map(|i| format!("p{}", i)).collect();
    let source = format!("funcao f({}) {{}}", names.join(", "));
    match &parse(&source).unwrap()[0] {
        Stmt::Function { params, .. } => assert_eq!(params.len(), 255),
        other => panic!("{:?}", other),
    }
}

#[test]
fn a_function_takes_no_more_than_255_parameters() {
    let names: Vec<String> = (0..256).map(|i| format!("p{}", i)).collect();
    let source = format!("\nfuncao f({}) {{}}", names.join(", "));
    let message = parse_error(&source);
    assert!(message.starts_with("Linha 2: Estourou o limite de 255 argumentos"), "{}", message);
    let source = format!("\nvar f = funcao ({}) {{}};", names.join(", "));
    let message = parse_error(&source);
    assert!(message.starts_with("Line 2: Estourou o limite de 255 argumentos"), "{}", message);
}

#[test]
fn a_call_takes_254_arguments() {
    let values: Vec<String> = (0..254).map(|i| format!("{}", i)).collect();
    let source = format!("f({});", values.join(", "));
    match &parse(&source).unwrap()[0] {
        Stmt::Expression { expression: Expr::Call { arguments, .. } } => {
            assert_eq!(arguments.len(), 254)
        }
        other => panic!("{:?}", other),
    }
    let values: Vec<String> = (0..255).map(|i| format!("{}", i)).collect();
    let source = format!("f({});", values.join(", "));
    let message = parse_error(&source);
    assert!(message.starts_with("Line 1: Estourou o limite de 255 argumentos"), "{}", message);
}

fn ids(e: &Expr, out: &mut Vec<usize>) {
    match e {
        Expr::AnonFunction { id, body, .. } => {
            for s in body {
                stmt_ids(s, out);
            }
            out.push(*id);
        }
        Expr::Assign { id, value, .. } => {
            ids(value, out);
            out.push(*id);
        }
        Expr::Binary { id, left, right, .. } | Expr::Logical { id, left, right, .. } => {
            ids(left, out);
            ids(right, out);
            out.push(*id);
        }
        Expr::Call { id, callee, arguments, .. } => {
            ids(callee, out);
            for a in arguments {
                ids(a, out);
            }
            out.push(*id);
        }
        Expr::Get { id, object, .. } => {
            ids(object, out);
            out.push(*id);
        }
        Expr::Grouping { id, expression } => {
            ids(expression, out);
            out.push(*id);
        }
        Expr::SetField { id, object, value, .. } => {
            ids(object, out);
            ids(value, out);
            out.push(*id);
        }
        Expr::Unary { id, right, .. } => {
            ids(right, out);
            out.push(*id);
        }
        Expr::Literal { id, .. }
        | Expr::This { id, .. }
        | Expr::Super { id, .. }
        | Expr::Variable { id, .. } => out.push(*id),
    }
}

fn stmt_ids(s: &Stmt, out: &mut Vec<usize>) {
    match s {
        Stmt::Expression { expression }
        | Stmt::Print { expression }
        | Stmt::Limpar { expression } => ids(expression, out),
        Stmt::Var { initializer, .. } => ids(initializer, out),
        Stmt::Block { statements } => {
            for s in statements {
                stmt_ids(s, out);
            }
        }
        Stmt::Class { methods, superclass, .. } => {
            if let Some(e) = superclass {
                ids(e, out);
            }
            for s in methods {
                stmt_ids(s, out);
            }
        }
        Stmt::IfStmt { predicate, then, els } => {
            ids(predicate, out);
            stmt_ids(then, out);
            if let Some(e) = els {
                stmt_ids(e, out);
            }
        }
        Stmt::WhileStmt { condition, body } => {
            ids(condition, out);
            stmt_ids(body, out);
        }
        Stmt::Function { body, .. } => {
            for s in body {
                stmt_ids(s, out);
            }
        }
        Stmt::CmdFunction { .. } => {}
        Stmt::ReturnStmt { value, .. } => {
            if let Some(e) = value {
                ids(e, out);
            }
        }
    }
}

#[test]
fn every_expression_has_a_number_of_its_own() {
    let source = "classe B < A { f(x) { retorna super.f(x) + este.y; } }
        var g = funcao (a) { a.b = -a.b |> g; };
        para (var i = 0; i < 3 ou verdadeiro; i = i + 1) { saida (i); }
        para (;;) nulo;";
    let stmts = parse(source).unwrap();
    let mut found = vec![];
    for s in &stmts {
        stmt_ids(s, &mut found);
    }
    // The target of an assignment had a number before the assignment took
    // its place, so some numbers are left out; none comes twice.
    let count = found.len();
    found.sort();
    found.dedup();
    assert_eq!(found.len(), count);
    assert_eq!(found[0], 0);
    assert_eq!(found, vec![
        0, 1, 2, 3, 4, 5, 6, 7, 9, 10, 11, 12, 13, 14, 15, 16, 17, 18, 19, 20, 21, 23, 24, 25, 26,
        27, 28, 29, 30
    ]);
}

#[test]
fn numbers_go_up_in_the_order_of_reading() {
    match &parse("1 + 2;").unwrap()[0] {
        Stmt::Expression { expression: Expr::Binary { id, left, right, .. } } => {
            let mut found = vec![];
            ids(left, &mut found);
            ids(right, &mut found);
            assert_eq!(found, vec![0, 1]);
            assert_eq!(*id, 2);
        }
        other => panic!("{:?}", other),
    }
}

#[test]
fn a_second_parse_at_the_end_gives_nothing() {
    let tokens = Scanner::new("saida 1;").scan_tokens().unwrap();
    let mut parser = Parser::new(tokens);
    assert_eq!(parser.parse().unwrap().len(), 1);
    assert_eq!(parser.parse().unwrap().len(), 0);
}

#[test]
fn a_constant_reads_back_from_what_is_written_of_it() {
    for source in ["1;", "12.50;", "\"ola mundo\";", "\"\";", "verdadeiro;", "falso;", "nulo;"] {
        let first = parse(source).unwrap();
        assert_eq!(first.len(), 1);
        let written = first[0].to_string();
        let second = parse(&written).unwrap();
        assert_eq!(second.len(), 1);
        match (&first[0], &second[0]) {
            (
                Stmt::Expression { expression: Expr::Literal { id: a, value: x } },
                Stmt::Expression { expression: Expr::Literal { id: b, value: y } },
            ) => {
                assert_eq!(*a, 0);
                assert_eq!(*b, 0);
                assert_eq!(x.to_string(), y.to_string());
            }
            other => panic!("{:?}", other),
        }
        assert_eq!(second[0].to_string(), written);
    }
}

#[test]
fn what_is_written_of_other_statements_does_not_read_back() {
    let written = parse("1 + 2;").unwrap()[0].to_string();
    assert_eq!(written, "(+ 1 2)");
    assert!(parse(&written).is_err());
    let written = parse("este;").unwrap()[0].to_string();
    assert_eq!(written, "(este)");
    assert_eq!(printed(&written), vec!["(group (este))"]);
}

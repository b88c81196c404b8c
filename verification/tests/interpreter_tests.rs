use ferrugem::environment::Environment;
use ferrugem::host::{Arithmetic, Host};
use ferrugem::interpreter::{command_words, negate, translate, Interpreter};
use ferrugem::parser::Parser;
use ferrugem::resolver::Resolver;
use ferrugem::scanner::Scanner;
use ferrugem::value::Value;
use ferrugem::{run, run_string};
use std::collections::HashMap;

/// A host that computes with the machine's floats, and that answers a
/// command with its words.
struct Machine {
    commands: Vec<Vec<String>>,
    written: String,
}

impl Machine {
    fn new() -> Self {
        Machine { commands: vec![], written: String::new() }
    }
}

impl Host for Machine {
    fn number(&mut self, text: &String) -> u64 {
        text.parse::<f64>().unwrap().to_bits()
    }

    fn number_text(&mut self, bits: u64) -> String {
        format!("{}", f64::from_bits(bits))
    }

    fn arithmetic(&mut self, op: Arithmetic, left: u64, right: u64) -> u64 {
        let a = f64::from_bits(left);
        let b = f64::from_bits(right);
        let r = match op {
            Arithmetic::Plus => a + b,
            Arithmetic::Minus => a - b,
            Arithmetic::Times => a * b,
            Arithmetic::Over => a / b,
        };
        r.to_bits()
    }

    fn write(&mut self, text: &String) {
        self.written.push_str(text);
    }

    fn run_command(&mut self, words: &Vec<String>) -> String {
        self.commands.push(words.clone());
        format!("<{}>", words.join("|"))
    }
}

fn output(source: &str) -> String {
    let mut host = Machine::new();
    match run_string(&mut host, source) {
        Ok(pieces) => {
            // The host was handed what the interpreter kept.
            assert_eq!(host.written, pieces.concat());
            pieces.concat()
        }
        Err(message) => panic!("{}", message),
    }
}

fn lines(source: &str) -> Vec<String> {
    output(source).lines().map(|l| l.to_string()).collect()
}

fn failure(source: &str) -> String {
    let mut host = Machine::new();
    match run_string(&mut host, source) {
        Ok(pieces) => panic!("the program ran: {:?}", pieces),
        Err(message) => message,
    }
}

#[test]
fn prints_a_sum() {
    assert_eq!(output("saida 1 + 2;"), "3\n");
}

#[test]
fn joins_two_strings() {
    assert_eq!(output("var a = \"ol\"; var b = \"a\"; saida a + b;"), "ola\n");
}

#[test]
fn block_has_a_scope_of_its_own() {
    assert_eq!(lines("var a = 1; { var a = 2; saida a; } saida a;"), vec!["2", "1"]);
}

#[test]
fn closure_keeps_its_variable() {
    assert_eq!(
        lines(
            "funcao mk() { var x = 0; funcao inc() { x = x + 1; retorna x; } retorna inc; } var f = mk(); saida f(); saida f(); saida f();"
        ),
        vec!["1", "2", "3"]
    );
}

#[test]
fn two_closures_of_one_call_share_a_variable() {
    assert_eq!(
        lines(
            "var get; var set;
             funcao mk() { var x = 1; funcao g() { retorna x; } funcao s(v) { x = v; } get = g; set = s; }
             mk(); saida get(); set(7); saida get();"
        ),
        vec!["1", "7"]
    );
}

#[test]
fn closures_of_two_calls_do_not_share() {
    assert_eq!(
        lines(
            "funcao mk() { var x = 0; funcao inc() { x = x + 1; retorna x; } retorna inc; }
             var f = mk(); var g = mk(); saida f(); saida f(); saida g();"
        ),
        vec!["1", "2", "1"]
    );
}

#[test]
fn closure_in_a_block_that_ended() {
    assert_eq!(
        lines(
            "var f; { var n = 10; funcao add(d) { n = n + d; retorna n; } f = add; } saida f(1); saida f(2);"
        ),
        vec!["11", "13"]
    );
}

#[test]
fn method_of_the_class_above() {
    assert_eq!(
        output("classe A { oi() { saida \"oi de A\"; } } classe B < A { } B().oi();"),
        "oi de A\n"
    );
}

#[test]
fn super_calls_the_method_above() {
    assert_eq!(
        output(
            "classe A { f() { retorna 1; } } classe B < A { f() { retorna super.f() + 10; } } saida B().f();"
        ),
        "11\n"
    );
}

#[test]
fn super_over_two_levels() {
    assert_eq!(
        lines(
            "classe A { f() { retorna \"A\"; } }
             classe B < A { f() { retorna super.f() + \"B\"; } }
             classe C < B { f() { retorna super.f() + \"C\"; } }
             saida C().f();"
        ),
        vec!["ABC"]
    );
}

#[test]
fn counting_loop() {
    assert_eq!(lines("para (var i = 0; i < 3; i = i + 1) saida i;"), vec!["0", "1", "2"]);
}

#[test]
fn pipe_into_an_anonymous_function() {
    assert_eq!(output("saida 5 |> (funcao (x) { retorna x * 2; });"), "10\n");
}

#[test]
fn pipes_in_a_row() {
    assert_eq!(
        output("funcao dobro(x) { retorna x * 2; } funcao mais1(x) { retorna x + 1; } saida 5 |> dobro |> mais1;"),
        "11\n"
    );
}

#[test]
fn wrong_number_of_arguments() {
    assert_eq!(
        failure("funcao f(a, b) { retorna a + b; } f(1);"),
        "A função 'f' esperava 2 argumentos, mas recebeu 1"
    );
    assert_eq!(
        failure("funcao f() {} f(1, 2, 3);"),
        "A função 'f' esperava 0 argumentos, mas recebeu 3"
    );
}

#[test]
fn wrong_number_of_arguments_for_a_class() {
    assert_eq!(
        failure("classe A {} A(1);"),
        "A função 'A' esperava 0 argumentos, mas recebeu 1"
    );
    assert_eq!(
        failure("classe A { init(x) {} } A();"),
        "A função 'A' esperava 1 argumentos, mas recebeu 0"
    );
}

#[test]
fn local_in_its_own_initializer() {
    assert_eq!(
        failure("{ var a = a; }"),
        "Não é possível ler uma variável local no seu próprio inicializador"
    );
}

#[test]
fn return_at_the_top() {
    assert_eq!(failure("retorna 1;"), "Não é possível usar 'retorna' fora de uma função");
}

#[test]
fn this_outside_a_method() {
    assert_eq!(failure("saida este;"), "Não é possível usar 'este' fora de uma classe");
}

#[test]
fn nothing_runs_when_the_program_does_not_resolve() {
    let mut interpreter = Interpreter::new();
    let mut host = Machine::new();
    let r = run(&mut interpreter, &mut host, "saida 1; retorna;");
    assert!(r.is_err());
    assert_eq!(interpreter.output.len(), 0);
}

#[test]
fn lexical_and_syntax_errors_come_through() {
    assert_eq!(failure("saida 1;\n#"), "Line 2: Caractere inesperado: #");
    assert_eq!(
        failure("var 1; var 2;"),
        "Line 1: Esperado o nome da variável\nLine 1: Esperado o nome da variável"
    );
}

#[test]
fn or_does_not_look_at_its_right_side_when_the_left_counts_as_true() {
    assert_eq!(
        lines("funcao f() { saida \"f\"; retorna 2; } saida 1 ou f(); saida nulo ou f();"),
        vec!["1", "f", "2"]
    );
}

#[test]
fn and_does_not_look_at_its_right_side_when_the_left_counts_as_false() {
    assert_eq!(
        lines("funcao f() { saida \"f\"; retorna 2; } saida falso e f(); saida 1 e f();"),
        vec!["falso", "f", "2"]
    );
    assert_eq!(lines("saida nulo e 1; saida 0 e 1; saida \"\" ou 1;"), vec!["nulo", "1", ""]);
}

#[test]
fn short_circuit_leaves_the_state_alone() {
    let mut interpreter = Interpreter::new();
    let mut host = Machine::new();
    run(&mut interpreter, &mut host, "var n = 0; funcao f() { n = n + 1; retorna verdadeiro; }").unwrap();
    run(&mut interpreter, &mut host, "verdadeiro ou f(); falso e f(); saida n;").unwrap();
    run(&mut interpreter, &mut host, "falso ou f(); verdadeiro e f(); saida n;").unwrap();
    assert_eq!(interpreter.output.concat(), "0\n2\n");
}

#[test]
fn method_taken_from_an_instance_keeps_it() {
    assert_eq!(
        lines(
            "classe P { init(n) { este.n = n; } nome() { retorna este.n; } }
             var a = P(\"a\"); var b = P(\"b\");
             var m = a.nome; saida m(); m = b.nome; saida m();
             var k = a.nome; a.n = \"c\"; saida k();"
        ),
        vec!["a", "b", "c"]
    );
}

#[test]
fn this_in_a_method_is_the_receiver() {
    assert_eq!(
        lines(
            "classe C { eu() { retorna este; } }
             var c = C(); var m = c.eu; saida m() == c; saida C().eu() == c;"
        ),
        vec!["verdadeiro", "falso"]
    );
}

#[test]
fn field_hides_a_method() {
    assert_eq!(
        lines("classe A { f() { retorna 1; } } var a = A(); saida a.f(); a.f = 2; saida a.f;"),
        vec!["1", "2"]
    );
}

#[test]
fn init_sets_up_an_instance() {
    assert_eq!(
        lines(
            "classe P { init(x, y) { este.x = x; este.y = y; retorna 99; } }
             var p = P(1, 2); saida p.x + p.y; saida p;"
        ),
        vec!["3", "<P instância>"]
    );
}

#[test]
fn init_of_the_class_above() {
    assert_eq!(
        lines("classe A { init(x) { este.x = x; } } classe B < A {} saida B(4).x;"),
        vec!["4"]
    );
}

#[test]
fn properties_only_on_instances() {
    assert_eq!(failure("var a = 1; a.b;"), "Somente instâncias têm propriedades");
    assert_eq!(failure("var a = \"s\"; a.b = 1;"), "Somente instâncias têm campos");
    assert_eq!(failure("classe A {} A().b;"), "Propriedade indefinida: b");
    assert_eq!(
        failure("classe A {} classe B < A { f() { super.g(); } } B().f();"),
        "Método indefinido: g"
    );
}

#[test]
fn superclass_must_be_a_class() {
    assert_eq!(
        failure("var A = 1; classe B < A {}"),
        "O objeto superior precisa ser uma classe, não um Número"
    );
    assert_eq!(
        failure("funcao A() {} classe B < A {}"),
        "O objeto superior precisa ser uma classe, não um Função"
    );
}

#[test]
fn class_is_bound_in_the_outermost_scope() {
    assert_eq!(failure("{ classe A {} }"), "A definição da classe falhou para A");
    assert_eq!(lines("var A; { classe A {} } saida A;"), vec!["A"]);
}

#[test]
fn canonical_texts() {
    assert_eq!(
        lines(
            "saida 1; saida 1.5; saida 10 / 4; saida \"t\"; saida verdadeiro; saida falso; saida nulo;
             funcao f() {} saida f; classe K {} saida K; saida K();
             saida funcao () {};"
        ),
        vec![
            "1", "1.5", "2.5", "t", "verdadeiro", "falso", "nulo", "<fn f>", "K", "<K instância>",
            "<fn anon>"
        ]
    );
}

#[test]
fn whole_numbers_print_without_fraction() {
    assert_eq!(lines("saida 3.0; saida 6 / 2; saida 0.5 + 0.5; saida 100;"), vec!["3", "3", "1", "100"]);
}

#[test]
fn arithmetic() {
    assert_eq!(
        lines("saida 7 - 2 * 3; saida (7 - 2) * 3; saida -4 + 1; saida 1 / 4; saida - -2;"),
        vec!["1", "15", "-3", "0.25", "2"]
    );
}

#[test]
fn division_by_zero_is_no_error() {
    assert_eq!(lines("saida 1 / 0; saida -1 / 0; saida 0 / 0;"), vec!["inf", "-inf", "NaN"]);
    assert_eq!(lines("saida 0 / 0 == 0 / 0; saida 1 / 0 == 1 / 0;"), vec!["falso", "verdadeiro"]);
}

#[test]
fn comparisons() {
    assert_eq!(
        lines("saida 1 < 2; saida 2 < 1; saida 2 <= 2; saida 2 > 2; saida 2 >= 2; saida -1 < 0;"),
        vec!["verdadeiro", "falso", "verdadeiro", "falso", "verdadeiro", "verdadeiro"]
    );
    assert_eq!(failure("saida 1 < \"a\";"), "Operador '<' não se aplica a Número e Texto");
    assert_eq!(failure("saida nulo >= 1;"), "Operador '>=' não se aplica a nulo e Número");
}

#[test]
fn equality() {
    assert_eq!(
        lines(
            "saida 1 == 1; saida 1 != 1; saida \"a\" == \"a\"; saida \"a\" == \"b\"; saida nulo == nulo;
             saida 1 == \"1\"; saida verdadeiro != falso; saida nulo == falso;"
        ),
        vec![
            "verdadeiro", "falso", "verdadeiro", "falso", "verdadeiro", "falso", "verdadeiro",
            "falso"
        ]
    );
    assert_eq!(
        lines("funcao f() {} var g = f; saida f == g; classe A {} saida A == A; var a = A(); saida a == a; saida A() == A();"),
        vec!["verdadeiro", "verdadeiro", "verdadeiro", "falso"]
    );
}

#[test]
fn plus_joins_when_either_side_is_a_string() {
    assert_eq!(
        lines("saida \"a\" + 1; saida 1.5 + \"b\"; saida \"x\" + verdadeiro; saida nulo + \"y\";"),
        vec!["a1", "1.5b", "xverdadeiro", "nuloy"]
    );
    assert_eq!(failure("saida 1 + nulo;"), "Operador '+' não se aplica a Número e nulo");
    assert_eq!(failure("saida \"a\" - 1;"), "Operador '-' não se aplica a Texto e Número");
    assert_eq!(failure("saida \"a\" * \"b\";"), "Operador '*' não se aplica a Texto e Texto");
}

#[test]
fn unary_operators() {
    assert_eq!(
        lines("saida !verdadeiro; saida !nulo; saida !0; saida !\"\"; saida -(1 + 2);"),
        vec!["falso", "verdadeiro", "falso", "falso", "-3"]
    );
    assert_eq!(failure("saida -\"a\";"), "Operador '-' não se aplica a Texto");
}

#[test]
fn negate_turns_the_sign_of_a_number() {
    match negate(&Value::Number(2.5f64.to_bits())) {
        Ok(Value::Number(bits)) => assert_eq!(f64::from_bits(bits), -2.5),
        other => panic!("{:?}", other),
    }
    assert_eq!(negate(&Value::Nil).unwrap_err(), "Operador '-' não se aplica a nulo");
}

#[test]
fn assignment_gives_what_was_assigned() {
    assert_eq!(lines("var a; var b; saida a = b = 3; saida a; saida b;"), vec!["3", "3", "3"]);
}

#[test]
fn undefined_names() {
    assert_eq!(failure("saida a;"), "Variável indefinida: a");
    assert_eq!(failure("a = 1;"), "Variável indefinida: a");
    assert_eq!(failure("funcao f() { retorna b; } f();"), "Variável indefinida: b");
}

#[test]
fn variable_without_a_value_is_nothing() {
    assert_eq!(output("var a; saida a;"), "nulo\n");
}

#[test]
fn only_functions_and_classes_are_called() {
    assert_eq!(failure("var a = 1; a();"), "Somente funções e classes podem ser chamadas");
    assert_eq!(failure("\"f\"();"), "Somente funções e classes podem ser chamadas");
}

#[test]
fn what_cannot_be_called_is_refused_before_its_arguments_are_valued() {
    let mut interpreter = Interpreter::new();
    let mut host = Machine::new();
    let r = run(&mut interpreter, &mut host, "funcao f() { saida \"f\"; } nulo(f());");
    assert_eq!(r.unwrap_err(), "Somente funções e classes podem ser chamadas");
    assert_eq!(interpreter.output.len(), 0);
}

#[test]
fn conditional() {
    assert_eq!(
        lines("se (1 < 2) saida \"a\"; senao saida \"b\"; se (nulo) saida \"c\"; senao saida \"d\"; se (falso) saida \"e\";"),
        vec!["a", "d"]
    );
}

#[test]
fn loop_tests_before_each_round() {
    assert_eq!(
        lines("var i = 0; enquanto (i < 3) { saida i; i = i + 1; } enquanto (falso) saida \"x\"; saida i;"),
        vec!["0", "1", "2", "3"]
    );
}

#[test]
fn return_leaves_loops_and_blocks() {
    assert_eq!(
        lines(
            "funcao f() { var i = 0; enquanto (verdadeiro) { { se (i == 2) { retorna i; } } i = i + 1; saida \"volta\"; } saida \"nunca\"; }
             saida f(); saida \"depois\";"
        ),
        vec!["volta", "volta", "2", "depois"]
    );
}

#[test]
fn return_ends_the_function() {
    assert_eq!(
        lines("funcao f() { retorna 1; saida \"nunca\"; } saida f();"),
        vec!["1"]
    );
    assert_eq!(
        lines("funcao f() { para (var i = 0; i < 10; i = i + 1) { se (i == 3) retorna i; } } saida f();"),
        vec!["3"]
    );
}

#[test]
fn function_without_return_gives_nothing() {
    assert_eq!(lines("funcao f() { 1; } saida f(); funcao g() { retorna; } saida g();"), vec!["nulo", "nulo"]);
}

#[test]
fn return_of_an_inner_call_does_not_end_the_outer_one() {
    assert_eq!(
        lines("funcao a() { retorna 1; } funcao b() { var x = a(); saida \"b\"; retorna x + 1; } saida b();"),
        vec!["b", "2"]
    );
}

#[test]
fn recursion() {
    assert_eq!(
        lines("funcao fib(n) { se (n < 2) retorna n; retorna fib(n - 1) + fib(n - 2); } saida fib(15);"),
        vec!["610"]
    );
}

#[test]
fn arguments_are_valued_from_left_to_right() {
    assert_eq!(
        lines("funcao p(x) { saida x; retorna x; } funcao f(a, b, c) { retorna a + b + c; } saida f(p(1), p(2), p(3));"),
        vec!["1", "2", "3", "6"]
    );
}

#[test]
fn block_restores_the_scope_after_an_error() {
    let mut interpreter = Interpreter::new();
    let mut host = Machine::new();
    run(&mut interpreter, &mut host, "var a = 1;").unwrap();
    assert!(run(&mut interpreter, &mut host, "{ var a = 2; { nada; } }").is_err());
    assert_eq!(interpreter.environment.current, 0);
    run(&mut interpreter, &mut host, "saida a;").unwrap();
    assert_eq!(interpreter.output.concat(), "1\n");
}

#[test]
fn call_restores_the_scope_after_an_error() {
    let mut interpreter = Interpreter::new();
    let mut host = Machine::new();
    assert!(run(&mut interpreter, &mut host, "funcao f() { nada; } f();").is_err());
    assert_eq!(interpreter.environment.current, 0);
    assert!(interpreter.specials.is_none());
}

#[test]
fn an_interpreter_keeps_its_globals_between_runs() {
    let mut interpreter = Interpreter::new();
    let mut host = Machine::new();
    run(&mut interpreter, &mut host, "var a = 1; funcao f() { retorna a; }").unwrap();
    run(&mut interpreter, &mut host, "a = 2;").unwrap();
    run(&mut interpreter, &mut host, "saida f();").unwrap();
    assert_eq!(interpreter.output.concat(), "2\n");
}

#[test]
fn clear_writes_a_header_and_the_text() {
    assert_eq!(
        output("limpar \"a\\nb\\tc\";"),
        "\u{1b}[2J\u{1b}[1;1H\n[Fe Ferrugem vs 0.1]\nPortugol reescrito em Rust\n\na\nb\tc\n-------------------------------\n"
    );
}

#[test]
fn print_leaves_backslashes_alone() {
    assert_eq!(output("saida \"a\\nb\";"), "a\\nb\n");
}

#[test]
fn translate_turns_the_two_escapes() {
    assert_eq!(translate(&"a\\nb".to_string()), "a\nb");
    assert_eq!(translate(&"\\t\\n\\t".to_string()), "\t\n\t");
    assert_eq!(translate(&"\\\\n".to_string()), "\\\n");
    assert_eq!(translate(&"\\x\\".to_string()), "\\x\\");
    assert_eq!(translate(&"".to_string()), "");
    let twice = "a\\nb\\tc".to_string().replace("\\n", "\n").replace("\\t", "\t");
    assert_eq!(translate(&"a\\nb\\tc".to_string()), twice);
}

#[test]
fn command_is_cut_into_words() {
    assert_eq!(command_words(&"\"ls -l /tmp\"".to_string()), vec!["ls", "-l", "/tmp"]);
    assert_eq!(command_words(&"echo  a".to_string()), vec!["echo", "", "a"]);
    assert_eq!(command_words(&"".to_string()), vec![""]);
    assert_eq!(command_words(&"a\"b\"c ".to_string()), vec!["abc", ""]);
}

#[test]
fn command_function_runs_on_the_host() {
    let mut interpreter = Interpreter::new();
    let mut host = Machine::new();
    run(&mut interpreter, &mut host, "funcao lista recebe \"ls -l\"; saida lista; saida lista();").unwrap();
    assert_eq!(interpreter.output.concat(), "<fn lista>\n<ls|-l>\n");
    assert_eq!(host.commands, vec![vec!["ls".to_string(), "-l".to_string()]]);
    assert!(host.commands.len() == 1);
    assert_eq!(
        run(&mut interpreter, &mut host, "lista(1);").unwrap_err(),
        "A função 'lista' esperava 0 argumentos, mas recebeu 1"
    );
}

#[test]
fn steps_run_out() {
    let mut interpreter = Interpreter::new();
    interpreter.fuel = 1000;
    let mut host = Machine::new();
    let r = run(&mut interpreter, &mut host, "enquanto (verdadeiro) {}");
    assert_eq!(r.unwrap_err(), "Limite de passos excedido");
    assert_eq!(interpreter.fuel, 0);
    assert_eq!(interpreter.environment.current, 0);
}

#[test]
fn steps_run_out_in_a_recursion() {
    let mut interpreter = Interpreter::new();
    interpreter.fuel = 500;
    let mut host = Machine::new();
    let r = run(&mut interpreter, &mut host, "funcao f() { retorna f(); } f();");
    assert_eq!(r.unwrap_err(), "Limite de passos excedido");
}

#[test]
fn new_interpreter() {
    let interpreter = Interpreter::new();
    assert_eq!(interpreter.environment.scopes.len(), 1);
    assert_eq!(interpreter.environment.current, 0);
    assert_eq!(interpreter.fuel, u64::MAX);
    assert!(interpreter.specials.is_none());
    assert_eq!(interpreter.doc, "flowchart TD\nL3@{ shape: circle, label: \"início\"}\n");
    assert_eq!(
        interpreter.doc(),
        "```mermaid\nflowchart TD\nL3@{ shape: circle, label: \"início\"}\n\n```"
    );
}

#[test]
fn interpreter_on_an_environment() {
    let mut env = Environment::new(HashMap::new());
    env.define("a".to_string(), Value::Number(2.0f64.to_bits()));
    let mut interpreter = Interpreter::with_env(env);
    assert_eq!(interpreter.doc, "");
    let mut host = Machine::new();
    run(&mut interpreter, &mut host, "saida a + 1;").unwrap();
    assert_eq!(interpreter.output.concat(), "3\n");
}

#[test]
fn interpreter_in_a_scope_within() {
    let mut env = Environment::new(HashMap::new());
    env.define("a".to_string(), Value::Number(2.0f64.to_bits()));
    let mut interpreter = Interpreter::for_anon(env);
    assert_eq!(interpreter.environment.scopes.len(), 2);
    assert_eq!(interpreter.environment.current, 1);
    assert_eq!(interpreter.environment.scopes[1].enclosing, Some(0));
    interpreter.define("a".to_string(), Value::Number(5.0f64.to_bits()));
    assert!(matches!(interpreter.environment.get_global(&"a".to_string()), Some(Value::Number(n)) if f64::from_bits(n) == 2.0));
    assert!(matches!(interpreter.environment.get(&"a".to_string()), Some(Value::Number(n)) if f64::from_bits(n) == 5.0));
}

#[test]
fn resolve_hands_the_hop_counts_to_the_environment() {
    let mut interpreter = Interpreter::new();
    let mut locals = HashMap::new();
    locals.insert(1usize, 0usize);
    interpreter.resolve(locals);
    assert_eq!(interpreter.environment.locals.get(&1), Some(&0));
}

#[test]
fn make_function_takes_the_declaration_as_it_is() {
    let tokens = Scanner::new("funcao soma(a, b) { retorna a + b; }").scan_tokens().unwrap();
    let stmts = Parser::new(tokens).parse().unwrap();
    let interpreter = Interpreter::new();
    let f = interpreter.make_function(&stmts[0]);
    assert_eq!(f.name, "soma");
    assert_eq!(f.arity, 2);
    assert_eq!(f.parent_env, 0);
    assert_eq!(f.params[0].lexeme, "a");
    assert_eq!(f.params[1].lexeme, "b");
    assert_eq!(f.body.len(), 1);
    assert_eq!(f.body[0].to_string(), "(retorna (+ (var a) (var b)))");
}

#[test]
fn interpret_of_nothing_does_nothing() {
    let mut interpreter = Interpreter::new();
    let mut host = Machine::new();
    interpreter.interpret(&mut host, &vec![]).unwrap();
    assert_eq!(interpreter.fuel, u64::MAX);
    assert_eq!(interpreter.output.len(), 0);
}

#[test]
fn interpret_takes_a_step_for_each_statement_and_expression() {
    let tokens = Scanner::new("1; 2;").scan_tokens().unwrap();
    let stmts = Parser::new(tokens).parse().unwrap();
    let locals = Resolver::new().resolve(&stmts).unwrap();
    let mut interpreter = Interpreter::new();
    interpreter.resolve(locals);
    let mut host = Machine::new();
    interpreter.interpret(&mut host, &stmts).unwrap();
    assert_eq!(interpreter.fuel, u64::MAX - 4);
}

#[test]
fn locals_in_functions_declared_in_blocks() {
    assert_eq!(
        lines(
            "var a = \"global\"; { funcao mostra() { saida a; } mostra(); var a = \"bloco\"; mostra(); }"
        ),
        vec!["global", "global"]
    );
}

#[test]
fn a_local_that_is_read_before_it_is_bound_is_not_there() {
    // The function reads `a` of the block, which the resolver knows, while
    // the initializer of `a` still runs.
    assert_eq!(
        failure("{ var a = (funcao () { retorna a; })(); }"),
        "Variável indefinida: a"
    );
}

#[test]
fn the_host_is_handed_what_is_written_before_an_error() {
    let mut interpreter = Interpreter::new();
    let mut host = Machine::new();
    assert!(run(&mut interpreter, &mut host, "saida 1; saida nada; saida 2;").is_err());
    assert_eq!(host.written, "1\n");
    assert_eq!(interpreter.output.concat(), "1\n");
}

#[test]
fn test_run_string() {
    for exp in ["saida \"ola\";"] {
        let mut host = Machine::new();
        match run_string(&mut host, exp) {
            Ok(written) => assert_eq!(written, vec!["ola\n".to_string()]),
            Err(msg) => panic!("ERRO:\n{msg}"),
        }
    }
}

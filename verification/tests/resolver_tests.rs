use ferrugem::parser::Parser;
use ferrugem::resolver::Resolver;
use ferrugem::scanner::Scanner;
use std::collections::HashMap;

fn resolve(source: &str) -> Result<HashMap<usize, usize>, String> {
    let tokens = Scanner::new(source).scan_tokens().unwrap();
    let stmts = Parser::new(tokens).parse().unwrap();
    Resolver::new().resolve(&stmts)
}

fn hops(source: &str) -> Vec<(usize, usize)> {
    let mut found: Vec<(usize, usize)> = resolve(source).unwrap().into_iter().collect();
    found.sort();
    found
}

fn resolve_error(source: &str) -> String {
    match resolve(source) {
        Ok(_) => panic!("the resolution went through"),
        Err(message) => message,
    }
}

#[test]
fn globals_get_no_entry() {
    assert_eq!(hops("var a = 1; saida a; a = 2;"), vec![]);
    assert_eq!(hops("saida b;"), vec![]);
}

#[test]
fn local_in_its_own_scope_is_no_hop_away() {
    // Numbers: 1 is 0, the `a` that is read is 1.
    assert_eq!(hops("{ var a = 1; saida a; }"), vec![(1, 0)]);
}

#[test]
fn hops_count_the_scopes_between() {
    // 1 is 0; `a` in the innermost block is 1; `a` in the middle is 2.
    assert_eq!(hops("{ var a = 1; { { saida a; } saida a; } }"), vec![(1, 2), (2, 1)]);
}

#[test]
fn nearest_declaration_wins() {
    // 1 is 0, 2 is 1, the inner `a` is 2, the outer `a` is 3.
    assert_eq!(hops("{ var a = 1; { var a = 2; saida a; } saida a; }"), vec![(2, 0), (3, 0)]);
}

#[test]
fn a_global_of_the_same_name_is_read_in_a_local_initializer_of_another_name() {
    assert_eq!(hops("var a = 1; { var b = a; }"), vec![]);
}

#[test]
fn assignment_records_its_target() {
    // 1 is 0, 2 is 1, the assignment is 3 (its target had the number 2
    // before).
    assert_eq!(hops("{ var a = 1; { a = 2; } }"), vec![(3, 1)]);
}

#[test]
fn parameters_live_in_the_scope_of_the_body() {
    // `a` is 0, `b` is 1, the sum is 2.
    assert_eq!(hops("funcao f(a, b) { retorna a + b; }"), vec![(0, 0), (1, 0)]);
}

#[test]
fn function_sees_the_scope_around_it() {
    // 0: the value 0; the target x: 1; x read: 2; 1: 3; sum: 4;
    // assignment: 5; x read: 6; inc read: 7.
    assert_eq!(
        hops("funcao mk() { var x = 0; funcao inc() { x = x + 1; retorna x; } retorna inc; }"),
        vec![(2, 1), (5, 1), (6, 1), (7, 0)]
    );
}

#[test]
fn function_at_the_top_is_global() {
    assert_eq!(hops("funcao f() { retorna f; }"), vec![]);
}

#[test]
fn anonymous_function_has_a_scope_of_its_own() {
    assert_eq!(hops("var f = funcao (x) { retorna x; };"), vec![(0, 0)]);
}

#[test]
fn this_is_one_scope_outside_the_method() {
    // `este` is 0, the property read is 1.
    assert_eq!(hops("classe A { f() { retorna este.x; } }"), vec![(0, 1)]);
}

#[test]
fn super_is_two_scopes_outside_the_method() {
    // The superclass is 0 (global), `super.f` is 1, `este` is 3.
    assert_eq!(
        hops("classe A {} classe B < A { f() { super.f(); retorna este; } }"),
        vec![(1, 2), (3, 1)]
    );
}

#[test]
fn this_in_a_function_inside_a_method() {
    // `este` is 0.
    assert_eq!(
        hops("classe A { f() { funcao g() { retorna este; } } }"),
        vec![(0, 2)]
    );
}

#[test]
fn local_in_its_own_initializer_is_refused() {
    assert_eq!(
        resolve_error("{ var a = a; }"),
        "Não é possível ler uma variável local no seu próprio inicializador"
    );
    assert_eq!(
        resolve_error("var a = 1; { var a = a; }"),
        "Não é possível ler uma variável local no seu próprio inicializador"
    );
}

#[test]
fn global_in_its_own_initializer_is_let_through() {
    assert!(resolve("var a = a;").is_ok());
}

#[test]
fn return_at_the_top_is_refused() {
    assert_eq!(resolve_error("retorna;"), "Não é possível usar 'retorna' fora de uma função");
    assert_eq!(resolve_error("retorna 1;"), "Não é possível usar 'retorna' fora de uma função");
    assert_eq!(
        resolve_error("{ se (verdadeiro) retorna 1; }"),
        "Não é possível usar 'retorna' fora de uma função"
    );
}

#[test]
fn return_after_a_function_is_refused_again() {
    assert_eq!(
        resolve_error("funcao f() { retorna 1; } retorna 2;"),
        "Não é possível usar 'retorna' fora de uma função"
    );
}

#[test]
fn this_outside_a_class_is_refused() {
    assert_eq!(resolve_error("saida este;"), "Não é possível usar 'este' fora de uma classe");
    assert_eq!(
        resolve_error("funcao f() { retorna este; }"),
        "Não é possível usar 'este' fora de uma classe"
    );
    assert_eq!(
        resolve_error("classe A { f() {} } saida este;"),
        "Não é possível usar 'este' fora de uma classe"
    );
}

#[test]
fn super_outside_a_class_is_refused() {
    assert_eq!(resolve_error("super.f();"), "Não é possível usar 'super' fora de uma classe");
}

#[test]
fn super_without_a_superclass_is_refused() {
    assert_eq!(
        resolve_error("classe A { f() { super.f(); } }"),
        "Não é possível usar 'super' em uma classe sem superclasse"
    );
}

#[test]
fn a_name_is_declared_once_in_a_scope() {
    assert_eq!(
        resolve_error("{ var a = 1; var a = 2; }"),
        "Já existe uma variável com este nome neste escopo"
    );
    assert_eq!(
        resolve_error("funcao f(a, a) {}"),
        "Já existe uma variável com este nome neste escopo"
    );
    assert_eq!(
        resolve_error("funcao f(a) { var a = 1; }"),
        "Já existe uma variável com este nome neste escopo"
    );
    assert_eq!(
        resolve_error("{ funcao f() {} classe f {} }"),
        "Já existe uma variável com este nome neste escopo"
    );
}

#[test]
fn a_global_may_be_declared_again() {
    assert!(resolve("var a = 1; var a = 2;").is_ok());
}

#[test]
fn the_first_error_ends_the_work() {
    assert_eq!(
        resolve_error("{ var a = a; } retorna;"),
        "Não é possível ler uma variável local no seu próprio inicializador"
    );
}

#[test]
fn command_function_is_declared() {
    assert_eq!(
        resolve_error("{ funcao f recebe \"ls\"; var f = 1; }"),
        "Já existe uma variável com este nome neste escopo"
    );
    // 0 is the `f` that is read.
    assert_eq!(hops("{ funcao f recebe \"ls\"; saida f; }"), vec![(0, 0)]);
}

use candy_frontend::bigint::integer_from_usize;
use candy_frontend::builtin_functions::BuiltinFunction;
use candy_frontend::id::CountableId;
use candy_frontend::mir::{
    remove_expressions_after_panic, remove_redundant_return_references, tree_shake, Body,
    Expression, Id, IdSet, PurenessInsights,
};

fn id(n: usize) -> Id {
    Id::from_usize(n)
}

fn numbers(ids: &[Id]) -> Vec<usize> {
    ids.iter().map(|it| it.to_usize()).collect()
}

fn number(value: usize) -> Expression {
    Expression::Int(integer_from_usize(value))
}

fn call(function: usize, arguments: &[usize], responsible: usize) -> Expression {
    Expression::Call {
        function: id(function),
        arguments: arguments.iter().map(|it| id(*it)).collect(),
        responsible: id(responsible),
    }
}

fn function_capturing_zero() -> Expression {
    Expression::Function {
        original_hirs: vec![],
        parameters: vec![id(1), id(2)],
        responsible_parameter: id(3),
        body: Body {
            expressions: vec![
                (id(4), Expression::Reference(id(0))),
                (id(5), call(4, &[1], 3)),
            ],
        },
    }
}

#[test]
fn call_references_function_arguments_and_responsible() {
    assert_eq!(numbers(&call(1, &[2, 3], 4).referenced_ids()), vec![1, 2, 3, 4]);
}

#[test]
fn struct_references_keys_before_values() {
    let fields = Expression::Struct(vec![(id(1), id(2)), (id(3), id(4))]);
    assert_eq!(numbers(&fields.referenced_ids()), vec![1, 2, 3, 4]);
    assert_eq!(numbers(&number(5).referenced_ids()), Vec::<usize>::new());
}

#[test]
fn function_defines_parameters_responsible_and_body() {
    assert_eq!(numbers(&function_capturing_zero().defined_ids()), vec![1, 2, 3, 4, 5]);
    assert_eq!(numbers(&number(1).defined_ids()), Vec::<usize>::new());
}

#[test]
fn function_references_its_own_ids_too() {
    assert_eq!(numbers(&function_capturing_zero().referenced_ids()), vec![0, 4, 1, 3]);
}

#[test]
fn function_captures_only_outside_ids() {
    assert_eq!(numbers(&function_capturing_zero().captured_ids()), vec![0]);
    let repeated = Expression::List(vec![id(7), id(7), id(8)]);
    assert_eq!(numbers(&repeated.captured_ids()), vec![7, 8]);
}

#[test]
fn id_set_inserts_and_removes() {
    let mut set = IdSet::new();
    assert!(!set.contains(id(0)));
    set.insert(id(3));
    set.insert(id(0));
    assert!(set.contains(id(3)));
    assert!(set.contains(id(0)));
    assert!(!set.contains(id(2)));
    assert!(!set.contains(id(10)));
    set.remove(id(3));
    set.remove(id(10));
    assert!(!set.contains(id(3)));
    assert!(set.contains(id(0)));
}

#[test]
fn calls_of_pure_builtins_are_pure() {
    let mut pureness = PurenessInsights::new();
    pureness.visit_optimized(id(0), &Expression::Builtin(BuiltinFunction::IntAdd));
    pureness.visit_optimized(id(1), &Expression::Builtin(BuiltinFunction::Print));
    assert!(pureness.is_definition_pure(&call(0, &[2, 3], 4)));
    assert!(!pureness.is_definition_pure(&call(1, &[2], 4)));
    assert!(!pureness.is_definition_pure(&call(9, &[], 4)));
    assert!(pureness.is_function_pure(&Expression::Builtin(BuiltinFunction::TextLength)));
    assert!(!pureness.is_function_pure(&Expression::Builtin(BuiltinFunction::IfElse)));
    assert!(pureness.is_definition_deterministic(&call(0, &[2, 3], 4)));
    assert!(!pureness.is_definition_pure(&Expression::Panic { reason: id(0), responsible: id(1) }));
    assert!(pureness.pure_definitions().contains(id(0)));
}

#[test]
fn constant_definitions_capture_only_constants() {
    let mut pureness = PurenessInsights::new();
    pureness.visit_optimized(id(0), &number(4));
    assert!(pureness.is_definition_const(&function_capturing_zero()));
    assert!(!pureness.is_definition_const(&Expression::Reference(id(6))));
    pureness.visit_optimized(id(6), &call(9, &[], 0));
    assert!(!pureness.is_definition_const(&Expression::Reference(id(6))));
}

#[test]
fn parameters_are_pure_definitions() {
    let mut pureness = PurenessInsights::new();
    pureness.enter_function(&vec![id(2), id(5)], id(7));
    assert!(pureness.pure_definitions().contains(id(2)));
    assert!(pureness.pure_definitions().contains(id(5)));
    assert!(pureness.pure_definitions().contains(id(7)));
    assert!(!pureness.pure_definitions().contains(id(6)));
}

#[test]
fn tree_shaking_removes_unused_pure_expressions() {
    let mut body = Body {
        expressions: vec![
            (id(0), number(4)),
            (id(1), Expression::Tag { symbol: "Foo".to_string(), value: None }),
            (id(2), Expression::Reference(id(0))),
            (id(3), call(5, &[0], 6)),
        ],
    };
    let mut pureness = PurenessInsights::new();
    pureness.visit_optimized(id(1), &Expression::Tag { symbol: "Foo".to_string(), value: None });
    tree_shake(&mut body, &mut pureness);
    let kept: Vec<usize> = body.expressions.iter().map(|(it, _)| it.to_usize()).collect();
    assert_eq!(kept, vec![0, 3]);
    assert!(!pureness.pure_definitions().contains(id(1)));
}

#[test]
fn tree_shaking_keeps_the_result_and_what_it_needs() {
    let mut body = Body {
        expressions: vec![
            (id(0), number(1)),
            (id(1), number(2)),
            (id(2), Expression::List(vec![id(1)])),
        ],
    };
    let mut pureness = PurenessInsights::new();
    tree_shake(&mut body, &mut pureness);
    let kept: Vec<usize> = body.expressions.iter().map(|(it, _)| it.to_usize()).collect();
    assert_eq!(kept, vec![1, 2]);
}

#[test]
fn tree_shaking_forgets_what_removed_functions_define() {
    let mut body = Body {
        expressions: vec![(id(0), number(9)), (id(6), function_capturing_zero()), (id(7), number(1))],
    };
    let mut pureness = PurenessInsights::new();
    pureness.enter_function(&vec![id(1), id(2)], id(3));
    tree_shake(&mut body, &mut pureness);
    let kept: Vec<usize> = body.expressions.iter().map(|(it, _)| it.to_usize()).collect();
    assert_eq!(kept, vec![7]);
    assert!(!pureness.pure_definitions().contains(id(1)));
    assert!(!pureness.pure_definitions().contains(id(3)));
}

fn ids_of(body: &Body) -> Vec<usize> {
    body.expressions.iter().map(|(it, _)| it.to_usize()).collect()
}

#[test]
fn expressions_after_a_panic_are_removed() {
    let mut body = Body {
        expressions: vec![
            (id(0), number(1)),
            (id(1), Expression::Panic { reason: id(0), responsible: id(0) }),
            (id(2), number(2)),
            (id(6), function_capturing_zero()),
        ],
    };
    let mut pureness = PurenessInsights::new();
    pureness.visit_optimized(id(2), &number(2));
    pureness.enter_function(&vec![id(1), id(2)], id(3));
    pureness.visit_optimized(id(0), &number(1));
    remove_expressions_after_panic(&mut body, &mut pureness);
    assert_eq!(ids_of(&body), vec![0, 1]);
    assert!(!pureness.pure_definitions().contains(id(2)));
    assert!(!pureness.pure_definitions().contains(id(3)));
    assert!(pureness.pure_definitions().contains(id(0)));
}

#[test]
fn bodies_without_a_panic_stay_whole() {
    let mut body = Body { expressions: vec![(id(0), number(1)), (id(1), number(2))] };
    let mut pureness = PurenessInsights::new();
    remove_expressions_after_panic(&mut body, &mut pureness);
    assert_eq!(ids_of(&body), vec![0, 1]);
}

#[test]
fn return_references_to_the_previous_expression_are_removed() {
    let mut body = Body {
        expressions: vec![
            (id(0), number(1)),
            (id(1), Expression::Reference(id(0))),
            (id(2), Expression::Reference(id(1))),
        ],
    };
    remove_redundant_return_references(&mut body);
    assert_eq!(ids_of(&body), vec![0]);
    let mut other = Body {
        expressions: vec![(id(0), number(1)), (id(1), number(2)), (id(2), Expression::Reference(id(0)))],
    };
    remove_redundant_return_references(&mut other);
    assert_eq!(ids_of(&other), vec![0, 1, 2]);
}

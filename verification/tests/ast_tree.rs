use candy_frontend::ast::{AstError, AstString, Id, Identifier, Symbol};
use candy_frontend::ast_tree::{
    Assignment, AssignmentBody, Ast, AstKind, Call, CollectErrors, List, Match, MatchCase,
    OrPattern, Struct, Text,
};
use candy_frontend::error::{CompilerError, CompilerErrorPayload};
use candy_frontend::module::{Module, ModuleKind, Package};
use candy_frontend::position::Offset;

fn module() -> Module {
    Module::new(
        Package::Managed("Core".to_string()),
        vec!["foo".to_string()],
        ModuleKind::Code,
    )
}

fn id(local: usize) -> Id {
    Id::new(module(), local)
}

fn string(local: usize, value: &str) -> AstString {
    AstString {
        id: id(local),
        value: value.to_string(),
    }
}

fn node(local: usize, kind: AstKind) -> Ast {
    Ast {
        id: id(local),
        kind,
    }
}

fn identifier(local: usize, name: &str) -> Ast {
    node(local, AstKind::Identifier(Identifier(string(local + 100, name))))
}

fn error(local: usize, at: usize) -> Ast {
    node(
        local,
        AstKind::Error {
            errors: vec![CompilerError {
                module: module(),
                span: Offset(at)..Offset(at + 1),
                payload: CompilerErrorPayload::Ast(AstError::ExpectedParameter),
            }],
        },
    )
}

fn sample() -> Ast {
    // match x % A -> error 1, (y, B) | z -> error 2
    node(
        0,
        AstKind::Match(Match {
            expression: Box::new(identifier(1, "x")),
            cases: vec![
                node(
                    2,
                    AstKind::MatchCase(MatchCase {
                        pattern: Box::new(node(3, AstKind::Symbol(Symbol(string(103, "A"))))),
                        body: vec![error(4, 10)],
                    }),
                ),
                node(
                    5,
                    AstKind::MatchCase(MatchCase {
                        pattern: Box::new(node(
                            6,
                            AstKind::OrPattern(OrPattern(vec![
                                node(
                                    7,
                                    AstKind::List(List(vec![
                                        identifier(8, "y"),
                                        node(9, AstKind::Symbol(Symbol(string(109, "B")))),
                                    ])),
                                ),
                                identifier(10, "y"),
                            ])),
                        )),
                        body: vec![error(11, 20)],
                    }),
                ),
            ],
        }),
    )
}

#[test]
fn find_looks_at_nodes_in_order() {
    let ast = sample();
    assert_eq!(ast.find(&id(0)).map(|it| it.id.local), Some(0));
    assert_eq!(ast.find(&id(8)).map(|it| it.id.local), Some(8));
    assert_eq!(ast.find(&id(11)).map(|it| it.id.local), Some(11));
    assert!(ast.find(&id(42)).is_none());
}

#[test]
fn find_skips_texts_and_call_receivers_only_where_it_should() {
    let call = node(
        0,
        AstKind::Call(Call {
            receiver: Box::new(identifier(1, "f")),
            arguments: vec![node(2, AstKind::Text(Text(vec![identifier(3, "inner")])))],
            is_from_pipe: false,
        }),
    );
    assert_eq!(call.find(&id(1)).map(|it| it.id.local), Some(1));
    assert_eq!(call.find(&id(2)).map(|it| it.id.local), Some(2));
    assert!(call.find(&id(3)).is_none());
}

#[test]
fn errors_are_collected_in_order() {
    let mut errors = vec![];
    sample().collect_errors(&mut errors);
    assert_eq!(
        errors.iter().map(|it| it.span.start.0).collect::<Vec<_>>(),
        vec![10, 20]
    );
}

#[test]
fn errors_of_call_receivers_are_not_collected() {
    let call = node(
        0,
        AstKind::Call(Call {
            receiver: Box::new(error(1, 5)),
            arguments: vec![error(2, 7)],
            is_from_pipe: true,
        }),
    );
    let mut errors = vec![];
    vec![call].collect_errors(&mut errors);
    assert_eq!(
        errors.iter().map(|it| it.span.start.0).collect::<Vec<_>>(),
        vec![7]
    );
}

#[test]
fn captured_identifiers_group_places_by_name() {
    let pattern = AstKind::OrPattern(OrPattern(vec![
        node(
            1,
            AstKind::List(List(vec![identifier(2, "y"), identifier(3, "z")])),
        ),
        node(
            4,
            AstKind::Struct(Struct {
                fields: vec![(Some(node(5, AstKind::Symbol(Symbol(string(105, "K"))))), identifier(6, "y"))],
            }),
        ),
    ]));
    let captured = pattern.captured_identifiers();
    let names: Vec<(String, Vec<usize>)> = captured
        .iter()
        .map(|(name, ids)| (name.clone(), ids.iter().map(|it| it.local).collect()))
        .collect();
    assert_eq!(
        names,
        vec![
            ("y".to_string(), vec![102, 106]),
            ("z".to_string(), vec![103]),
        ]
    );
    let assignment = AstKind::Assignment(Assignment {
        is_public: false,
        body: AssignmentBody::Body {
            pattern: Box::new(identifier(1, "a")),
            body: vec![],
        },
    });
    assert!(assignment.captured_identifiers().is_empty());
}

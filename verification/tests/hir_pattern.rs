use candy_frontend::error::{CompilerError, CompilerErrorPayload};
use candy_frontend::hir::{CollectErrors, HirError, Pattern, PatternIdentifierId};
use candy_frontend::module::{Module, ModuleKind, Package};
use candy_frontend::position::Offset;
use num_bigint::BigUint;

fn identifier(id: usize) -> Pattern {
    Pattern::NewIdentifier(PatternIdentifierId(id))
}

fn error(name: &str, at: usize) -> CompilerError {
    CompilerError {
        module: Module::new(
            Package::Managed("Core".to_string()),
            vec!["foo".to_string()],
            ModuleKind::Code,
        ),
        span: Offset(at)..Offset(at + 1),
        payload: CompilerErrorPayload::Hir(HirError::UnknownReference {
            name: name.to_string(),
        }),
    }
}

/// `(1, a, [Foo: b])`
fn list_pattern() -> Pattern {
    Pattern::List(vec![
        Pattern::Int(BigUint::from(1u32)),
        identifier(2),
        Pattern::Struct(vec![(Pattern::Symbol("Foo".to_string()), identifier(3))]),
    ])
}

#[test]
fn a_new_identifier_is_captured() {
    let pattern = identifier(7);
    assert!(pattern.contains_captured_identifiers());
    assert_eq!(pattern.captured_identifier_count(), 1);
    assert_eq!(pattern.captured_identifiers(), vec![PatternIdentifierId(7)]);
}

#[test]
fn literals_capture_nothing() {
    for pattern in [
        Pattern::Int(BigUint::from(3u32)),
        Pattern::Text("hi".to_string()),
        Pattern::Symbol("Foo".to_string()),
    ] {
        assert!(!pattern.contains_captured_identifiers());
        assert_eq!(pattern.captured_identifier_count(), 0);
        assert_eq!(pattern.captured_identifiers(), vec![]);
    }
}

#[test]
fn lists_and_struct_values_capture_in_order() {
    let pattern = list_pattern();
    assert!(pattern.contains_captured_identifiers());
    assert_eq!(pattern.captured_identifier_count(), 2);
    assert_eq!(
        pattern.captured_identifiers(),
        vec![PatternIdentifierId(2), PatternIdentifierId(3)],
    );
}

#[test]
fn the_first_alternative_of_an_or_pattern_tells() {
    let pattern = Pattern::Or(vec![
        Pattern::List(vec![identifier(4), identifier(5)]),
        Pattern::List(vec![identifier(6)]),
    ]);
    assert!(pattern.contains_captured_identifiers());
    assert_eq!(pattern.captured_identifier_count(), 2);
    assert_eq!(
        pattern.captured_identifiers(),
        vec![PatternIdentifierId(4), PatternIdentifierId(5)],
    );
}

#[test]
fn errors_capture_nothing() {
    let pattern = Pattern::Error {
        child: Some(Box::new(identifier(1))),
        errors: vec![],
    };
    assert!(!pattern.contains_captured_identifiers());
    assert_eq!(pattern.captured_identifier_count(), 0);
    assert_eq!(pattern.captured_identifiers(), vec![]);
}

#[test]
fn struct_keys_are_counted_but_not_listed() {
    let pattern = Pattern::Struct(vec![(identifier(1), Pattern::Int(BigUint::from(2u32)))]);
    assert!(!pattern.contains_captured_identifiers());
    assert_eq!(pattern.captured_identifier_count(), 1);
    assert_eq!(pattern.captured_identifiers(), vec![]);
}

#[test]
fn pattern_errors_are_collected_in_order() {
    let pattern = Pattern::List(vec![
        Pattern::Error {
            child: None,
            errors: vec![error("a", 0)],
        },
        Pattern::Struct(vec![(
            Pattern::Error {
                child: None,
                errors: vec![error("b", 2)],
            },
            Pattern::Or(vec![Pattern::Error {
                child: None,
                errors: vec![error("c", 4), error("d", 6)],
            }]),
        )]),
    ]);
    let mut errors = vec![error("before", 10)];
    pattern.collect_errors(&mut errors);
    assert_eq!(
        errors,
        vec![
            error("before", 10),
            error("a", 0),
            error("b", 2),
            error("c", 4),
            error("d", 6),
        ],
    );
}

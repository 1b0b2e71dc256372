use candy_frontend::ast::AstError;
use candy_frontend::cst::{self, CstError};
use candy_frontend::error::{CompilerError, CompilerErrorPayload, ModuleError};
use candy_frontend::hir::HirError;
use candy_frontend::mir::MirError;
use candy_frontend::module::{Module, ModuleKind, Package};
use candy_frontend::position::Offset;

fn module() -> Module {
    Module::new(Package::Managed("Core".to_string()), vec!["foo".to_string()], ModuleKind::Code)
}

#[test]
fn messages_of_module_and_syntax_errors() {
    assert_eq!(
        CompilerErrorPayload::Module(ModuleError::InvalidUtf8).to_string(),
        "The module contains invalid UTF-8.",
    );
    assert_eq!(
        CompilerErrorPayload::Module(ModuleError::DoesNotExist).to_string(),
        "The module doesn't exist.",
    );
    assert_eq!(
        CompilerErrorPayload::Cst(CstError::ListNotClosed).to_string(),
        "The list is not closed.",
    );
    assert_eq!(
        CompilerErrorPayload::Cst(CstError::WeirdWhitespaceInIndentation).to_string(),
        "This is weird whitespace. Make sure to use indent using two spaces.",
    );
    assert_eq!(
        CompilerErrorPayload::Ast(AstError::PipeInPattern).to_string(),
        "Pipes are not allowed in patterns.",
    );
}

#[test]
fn messages_of_or_patterns_count_sub_patterns() {
    let one = AstError::OrPatternIsMissingIdentifiers {
        identifier: "x".to_string(),
        number_of_missing_captures: 1,
        all_captures: vec![],
    };
    assert_eq!(
        CompilerErrorPayload::Ast(one).to_string(),
        "`x` is missing in 1 sub-pattern of this or-pattern.",
    );
    let two = AstError::OrPatternIsMissingIdentifiers {
        identifier: "y".to_string(),
        number_of_missing_captures: 2,
        all_captures: vec![],
    };
    assert_eq!(
        CompilerErrorPayload::Ast(two).to_string(),
        "`y` is missing in 2 sub-patterns of this or-pattern.",
    );
}

#[test]
fn messages_of_lowering_errors() {
    assert_eq!(
        CompilerErrorPayload::Hir(HirError::NeedsWithWrongNumberOfArguments { num_args: 3 })
            .to_string(),
        "`needs` accepts one or two arguments, but was called with 3 arguments. Its parameters are the `condition` and an optional `message`.",
    );
    assert_eq!(
        CompilerErrorPayload::Hir(HirError::UnknownReference { name: "foo".to_string() })
            .to_string(),
        "`foo` is not in scope.",
    );
    assert_eq!(
        CompilerErrorPayload::Hir(HirError::PublicAssignmentWithSameName {
            name: "bar".to_string()
        })
        .to_string(),
        "There already exists a public assignment (:=) named `bar`.",
    );
    assert_eq!(
        CompilerErrorPayload::Mir(MirError::UseWithInvalidPath {
            module: module(),
            path: "a b".to_string(),
        })
        .to_string(),
        "Core:foo tries to `use` \"a b\", but that's an invalid path.",
    );
    assert_eq!(
        CompilerErrorPayload::Mir(MirError::UseNotStaticallyResolvable {
            containing_module: module(),
        })
        .to_string(),
        "A `use` in Core:foo is not statically resolvable.",
    );
    assert_eq!(
        CompilerErrorPayload::Mir(MirError::ModuleHasCycle {
            cycle: vec!["a".to_string(), "b".to_string(), "a".to_string()],
        })
        .to_string(),
        "There's a cycle in the used modules: a → b → a",
    );
}

#[test]
fn errors_for_whole_modules() {
    let error = CompilerError::for_whole_module(
        module(),
        CompilerErrorPayload::Module(ModuleError::IsNotCandy),
    );
    assert_eq!(error.span, Offset(0)..Offset(0));
    assert_eq!(error.payload, CompilerErrorPayload::Module(ModuleError::IsNotCandy));
    assert!(error.to_related_information().is_empty());
}

#[test]
fn related_information_points_at_captures() {
    let error = CompilerError {
        module: module(),
        span: Offset(1)..Offset(2),
        payload: CompilerErrorPayload::Ast(AstError::OrPatternIsMissingIdentifiers {
            identifier: "x".to_string(),
            number_of_missing_captures: 1,
            all_captures: vec![cst::Id(4), cst::Id(7)],
        }),
    };
    let information = error.to_related_information();
    assert_eq!(information.len(), 2);
    assert_eq!(information[0].1, cst::Id(4));
    assert_eq!(information[1].1, cst::Id(7));
    assert_eq!(information[1].2, "The identifier is bound here.");
    assert!(information[0].0.equals(&module()));
}

#[test]
fn errors_with_locations() {
    let error = CompilerError {
        module: module(),
        span: Offset(2)..Offset(3),
        payload: CompilerErrorPayload::Cst(CstError::ListNotClosed),
    };
    assert_eq!(
        error.to_string_with_location(Some("a\nbc")),
        "Core:foo:2:1 – 2:2: The list is not closed.",
    );
}

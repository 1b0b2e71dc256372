use candy_frontend::ast;
use candy_frontend::cst;
use candy_frontend::hir::{self, PatternIdentifierId};
use candy_frontend::hir_to_mir::ExecutionTarget;
use candy_frontend::id::{CountableId, IdGenerator};
use candy_frontend::lir::{BodyId, ConstantId};
use candy_frontend::mir;
use candy_frontend::module::{Module, ModuleKind, Package};

fn module() -> Module {
    Module::new(
        Package::Managed("Core".to_string()),
        vec!["foo".to_string(), "bar".to_string()],
        ModuleKind::Code,
    )
}

fn hir_id(keys: &[&str]) -> hir::Id {
    hir::Id::new(module(), keys.iter().map(|it| it.to_string()).collect())
}

#[test]
fn id_generator_counts_up() {
    let mut generator: IdGenerator<cst::Id> = IdGenerator::start_at(5);
    assert_eq!(generator.generate(), cst::Id(5));
    assert_eq!(generator.generate(), cst::Id(6));
    let mut from_zero: IdGenerator<mir::Id> = IdGenerator::default();
    assert_eq!(from_zero.generate().to_usize(), 0);
    assert_eq!(from_zero.generate().to_usize(), 1);
}

#[test]
fn countable_ids_round_trip() {
    assert_eq!(cst::Id::from_usize(7).to_usize(), 7);
    assert_eq!(PatternIdentifierId::from_usize(3), PatternIdentifierId(3));
    assert_eq!(BodyId::from_usize(9).to_usize(), 9);
}

#[test]
fn hir_id_texts() {
    let id = hir_id(&["a", "b", "c"]);
    assert_eq!(id.to_short_debug_string(), "$a:b:c");
    assert_eq!(id.to_string(), "HirId(Core:foo/bar:a:b:c)");
    assert_eq!(hir_id(&[]).to_short_debug_string(), "$");
}

#[test]
fn hir_id_parents() {
    let id = hir_id(&["a", "b"]);
    assert!(!id.is_root());
    let parent = id.parent().unwrap();
    assert_eq!(parent.keys, vec!["a".to_string()]);
    let root = parent.parent().unwrap();
    assert!(root.is_root());
    assert!(root.parent().is_none());
}

#[test]
fn hir_id_ancestry() {
    let id = hir_id(&["a", "b"]);
    let parent = id.parent().unwrap();
    assert!(parent.is_same_module_and_any_parent_of(&id));
    assert!(hir_id(&[]).is_same_module_and_any_parent_of(&id));
    assert!(!id.is_same_module_and_any_parent_of(&id));
    assert!(!id.is_same_module_and_any_parent_of(&parent));
    assert!(!hir_id(&["x"]).is_same_module_and_any_parent_of(&id));
    let other_module = hir::Id::new(
        Module::new(Package::Managed("Core".to_string()), vec![], ModuleKind::Code),
        vec!["a".to_string()],
    );
    assert!(!other_module.is_same_module_and_any_parent_of(&id));
}

#[test]
fn hir_tooling_ids() {
    assert_eq!(hir::Id::platform().to_string(), "HirId(tooling:platform::)");
    assert_eq!(hir::Id::fuzzer().to_string(), "HirId(tooling:fuzzer::)");
    assert_eq!(hir::Id::dummy().to_string(), "HirId(tooling:dummy::)");
    assert_eq!(
        hir::Id::complicated_responsibility().to_string(),
        "HirId(tooling:complicated-responsibility::)",
    );
    assert!(hir::Id::platform().is_root());
}

#[test]
fn pattern_identifier_id_texts() {
    assert_eq!(PatternIdentifierId(42).to_string(), "p$42");
    assert_eq!(PatternIdentifierId(255).to_debug_string(), "pattern_identifier_ff");
    assert_eq!(PatternIdentifierId(0).to_debug_string(), "pattern_identifier_0");
}

#[test]
fn ast_id_texts() {
    let id = ast::Id::new(module(), 12);
    assert_eq!(id.to_short_debug_string(), "$12");
    assert_eq!(id.to_string(), "AstId(Core:foo/bar:12)");
}

#[test]
fn mir_and_lir_id_texts() {
    assert_eq!(mir::Id::from_usize(3).to_string(), "$3");
    assert_eq!(candy_frontend::lir::Id::from_usize(4).to_string(), "$4");
    assert_eq!(BodyId::from_usize(5).to_string(), "body_5");
    assert_eq!(ConstantId::from_usize(6).to_string(), "%6");
}

#[test]
fn execution_target_texts() {
    let target = ExecutionTarget::Module(module());
    assert_eq!(target.to_string(), "module `Core:foo/bar`");
    let main = ExecutionTarget::MainFunction(module());
    assert_eq!(main.to_string(), "main function of module `Core:foo/bar`");
    assert_eq!(main.module().path(), &vec!["foo".to_string(), "bar".to_string()]);
}

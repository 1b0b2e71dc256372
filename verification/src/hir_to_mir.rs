use crate::module::{module_text, Module, ModuleView};
use crate::text::push_str;
use vstd::prelude::*;

verus! {

/// What a program is compiled for: running a module, or calling the main
/// function that a module exports.
pub enum ExecutionTarget {
    Module(Module),
    MainFunction(Module),
}

/// The value of an execution target.
pub enum ExecutionTargetView {
    Module(ModuleView),
    MainFunction(ModuleView),
}

impl View for ExecutionTarget {
    type V = ExecutionTargetView;

    open spec fn view(&self) -> ExecutionTargetView {
        match self {
            ExecutionTarget::Module(module) => ExecutionTargetView::Module(module@),
            ExecutionTarget::MainFunction(module) => ExecutionTargetView::MainFunction(module@),
        }
    }
}

/// The module of an execution target.
pub open spec fn target_module(target: ExecutionTargetView) -> ModuleView {
    match target {
        ExecutionTargetView::Module(module) => module,
        ExecutionTargetView::MainFunction(module) => module,
    }
}

/// The text of an execution target.
pub open spec fn target_text(target: ExecutionTargetView) -> Seq<char> {
    match target {
        ExecutionTargetView::Module(module) => "module `"@ + module_text(module) + "`"@,
        ExecutionTargetView::MainFunction(module) => "main function of module `"@ + module_text(
            module,
        ) + "`"@,
    }
}

impl ExecutionTarget {
    pub fn module(&self) -> (result: &Module)
        ensures
            result@ == target_module(self@),
    {
        match self {
            ExecutionTarget::Module(module) => module,
            ExecutionTarget::MainFunction(module) => module,
        }
    }

    /// The text of this target, as it is displayed.
    pub fn to_string(&self) -> (result: String)
        ensures
            result@ == target_text(self@),
    {
        let mut result = match self {
            ExecutionTarget::Module(_) => String::from_str("module `"),
            ExecutionTarget::MainFunction(_) => String::from_str("main function of module `"),
        };
        let module = self.module().to_string();
        push_str(&mut result, module.as_str());
        push_str(&mut result, "`");
        result
    }
}

} // verus!

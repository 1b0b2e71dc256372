use crate::mir::MirError;
use crate::module::{spec_parse, spec_resolve, use_path_text, Module, ModuleView, UsePath};
use vstd::prelude::*;

verus! {

/// The module that a `use` in the current module names, or why there is none:
/// the path is invalid, or it leaves the current package.
pub fn resolve_module(current_module: &Module, path: &str) -> (result: Result<Module, MirError>)
    ensures
        match spec_parse(path@) {
            Err(_) => result matches Err(MirError::UseWithInvalidPath { module, path: reported })
                && module@ == current_module@ && reported@ == path@,
            Ok(parsed) => match spec_resolve(parsed, current_module@) {
                Err(_) => result matches Err(
                    MirError::UseHasTooManyParentNavigations { module, path: reported },
                ) && module@ == current_module@ && reported@ == use_path_text(parsed),
                Ok(expected) => result matches Ok(module) && module@ == expected,
            },
        },
{
    let parsed = match UsePath::parse(path) {
        Ok(parsed) => parsed,
        Err(_) => {
            return Err(
                MirError::UseWithInvalidPath {
                    module: current_module.clone(),
                    path: String::from_str(path),
                },
            );
        },
    };
    match parsed.resolve_relative_to(current_module.clone()) {
        Ok(module) => Ok(module),
        Err(_) => Err(
            MirError::UseHasTooManyParentNavigations {
                module: current_module.clone(),
                path: parsed.to_string(),
            },
        ),
    }
}

} // verus!

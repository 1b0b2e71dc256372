mod module;
mod module_provider;
mod package;
mod path;
mod use_path;

pub use self::module::{
    has_candy_extension, module_for_file, module_from_path_message, module_path_from_components, module_text,
    possible_paths, push_all, Module, ModuleFromPathError, ModuleKind, ModuleView,
};
pub use self::package::{
    debug_quoted_path, has_name, package_of_directory, package_path, package_search_step,
    package_text, spec_package_search_step, Package, PackageSearchStep, PackageView,
    PackagesPath,
};
pub use self::path::{
    components, extension_dot, file_name_start, is_absolute, is_canonical_path, is_normal_part, join,
    normal, path_components, separator, spec_join, spec_strip_prefix, spec_with_extension,
    split_parts, strip_prefix, with_extension,
};
pub use self::use_path::{
    invalid_name_message, is_parsed_form, is_target_char, is_target_name, leading_dots,
    lemma_parse_then_text, lemma_text_then_parse, parent_navigation_char, spec_parse,
    spec_resolve, too_many_navigations_message, use_path_text, UsePath, UsePathView,
};
pub use self::module_provider::{
    content_as_string, content_view, contents_of, get_module_content_as_string,
    has_unique_modules, is_content_text, lemma_in_memory_text, lemma_read_after_add, lemma_read_after_remove,
    InMemoryModuleProvider, ModuleProvider, OverlayModuleProvider,
};

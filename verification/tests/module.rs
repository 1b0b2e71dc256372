use candy_frontend::module::{
    get_module_content_as_string, join, path_components, strip_prefix, with_extension,
    InMemoryModuleProvider, Module,
    ModuleFromPathError, ModuleKind, ModuleProvider, OverlayModuleProvider, Package,
    PackagesPath, UsePath,
};

fn packages() -> PackagesPath {
    PackagesPath::new("/home/user/packages".to_string())
}

#[test]
fn joining_paths() {
    assert_eq!(join("/a/b", "c"), "/a/b/c");
    assert_eq!(join("/a/b/", "c"), "/a/b/c");
    assert_eq!(join("", "c"), "c");
    assert_eq!(join("/a", "/x/y"), "/x/y");
    assert_eq!(join("/a", ""), "/a/");
}

#[test]
fn setting_extensions() {
    assert_eq!(with_extension("/a/b", "candy"), "/a/b.candy");
    assert_eq!(with_extension("/a/b.txt", "candy"), "/a/b.candy");
    assert_eq!(with_extension("/a/.hidden", "candy"), "/a/.hidden.candy");
    assert_eq!(with_extension("/a/b.tar.gz", "candy"), "/a/b.tar.candy");
    assert_eq!(with_extension("/a/b/", "candy"), "/a/b.candy");
    assert_eq!(with_extension("/a/b/.", "candy"), "/a/b.candy");
    assert_eq!(with_extension("/", "candy"), "/");
    assert_eq!(with_extension("", "candy"), "");
    assert_eq!(with_extension("/a/..", "candy"), "/a/..");
}

#[test]
fn path_components_skip_empty_parts_and_dots() {
    assert_eq!(path_components("/a//b/./c/"), vec!["a", "b", "c"]);
    assert_eq!(path_components("/"), Vec::<String>::new());
    assert_eq!(path_components("x/../y"), vec!["x", "..", "y"]);
}

#[test]
fn stripping_prefixes() {
    assert_eq!(
        strip_prefix("/home/user/packages/Core/foo.candy", "/home/user/packages"),
        Some(vec!["Core".to_string(), "foo.candy".to_string()]),
    );
    assert_eq!(strip_prefix("/home/user/packages", "/home/user/packages/"), Some(vec![]));
    assert_eq!(strip_prefix("/home/user/packagesX/a", "/home/user/packages"), None);
    assert_eq!(strip_prefix("/a/b", "a"), None);
    assert_eq!(strip_prefix("/a/b", "/"), Some(vec!["a".to_string(), "b".to_string()]));
}

#[test]
fn package_paths_and_texts() {
    let packages = packages();
    assert_eq!(Package::User("/x/y".to_string()).to_path(&packages), Some("/x/y".to_string()));
    assert_eq!(
        Package::core_package().to_path(&packages),
        Some("/home/user/packages/Core".to_string()),
    );
    assert_eq!(Package::builtins().to_string(), "Builtins");
    assert_eq!(Package::Anonymous { url: "untitled:1".to_string() }.to_path(&packages), None);
    assert_eq!(Package::Tooling("fuzzer".to_string()).to_path(&packages), None);
    assert_eq!(Package::User("/x/y".to_string()).to_string(), "\"/x/y\"");
    assert_eq!(Package::User("/x\"y".to_string()).to_string(), "\"/x\\\"y\"");
    assert_eq!(Package::Anonymous { url: "untitled:1".to_string() }.to_string(), "anonymous:untitled:1");
    assert_eq!(Package::Tooling("fuzzer".to_string()).to_string(), "tooling:fuzzer");
}

#[test]
fn packages_of_directories() {
    let packages = packages();
    assert_eq!(
        Package::for_directory(&packages, "/home/user/packages/Foo/Bar"),
        Package::Managed("Foo/Bar".to_string()),
    );
    assert_eq!(
        Package::for_directory(&packages, "/home/user/project"),
        Package::User("/home/user/project".to_string()),
    );
}

#[test]
fn modules_from_components() {
    let module = Module::from_package_and_components(
        Package::core_package(),
        vec!["Foo".to_string(), "bar.candy".to_string()],
        ModuleKind::Code,
    );
    assert_eq!(module.path(), &vec!["Foo".to_string(), "bar".to_string()]);
    let folder = Module::from_package_and_components(
        Package::core_package(),
        vec!["Foo".to_string(), "_.candy".to_string()],
        ModuleKind::Code,
    );
    assert_eq!(folder.path(), &vec!["Foo".to_string()]);
    let asset = Module::from_package_and_components(
        Package::core_package(),
        vec!["image.png".to_string()],
        ModuleKind::Asset,
    );
    assert_eq!(asset.path(), &vec!["image.png".to_string()]);
    assert_eq!(asset.kind(), ModuleKind::Asset);
}

#[test]
fn modules_from_paths() {
    let packages = packages();
    let module = Module::from_package_and_path(
        &packages,
        Package::core_package(),
        "Core/foo.candy",
        Some("/home/user/packages/Core/foo.candy"),
        ModuleKind::Code,
    )
    .unwrap();
    assert_eq!(module.to_string(), "Core:foo");
    match Module::from_package_and_path(
        &packages,
        Package::core_package(),
        "elsewhere.candy",
        Some("/tmp/elsewhere.candy"),
        ModuleKind::Code,
    ) {
        Err(ModuleFromPathError::NotInPackage(path)) => assert_eq!(path, "elsewhere.candy"),
        _ => panic!("expected the file to lie outside the package"),
    }
    match Module::from_package_and_path(
        &packages,
        Package::core_package(),
        "missing.candy",
        None,
        ModuleKind::Code,
    ) {
        Err(ModuleFromPathError::NotFound(path)) => assert_eq!(path, "missing.candy"),
        _ => panic!("expected the file to be missing"),
    }
}

#[test]
fn module_from_path_error_messages() {
    assert_eq!(
        ModuleFromPathError::NotFound("a.candy".to_string()).to_string(),
        "File `a.candy` does not exist or its path is invalid.",
    );
    assert_eq!(
        ModuleFromPathError::NotInPackage("a.candy".to_string()).to_string(),
        "File `a.candy` is not located in the package.",
    );
}

#[test]
fn possible_paths_of_modules() {
    let packages = packages();
    let code = Module::new(
        Package::core_package(),
        vec!["Foo".to_string(), "bar".to_string()],
        ModuleKind::Code,
    );
    assert_eq!(
        code.to_possible_paths(&packages),
        Some(vec![
            "/home/user/packages/Core/Foo/bar/_.candy".to_string(),
            "/home/user/packages/Core/Foo/bar.candy".to_string(),
        ]),
    );
    let asset = Module::new(
        Package::User("/project".to_string()),
        vec!["logo.png".to_string()],
        ModuleKind::Asset,
    );
    assert_eq!(asset.to_possible_paths(&packages), Some(vec!["/project/logo.png".to_string()]));
    let root = Module::from_package_name("Core".to_string());
    assert_eq!(
        root.to_possible_paths(&packages),
        Some(vec![
            "/home/user/packages/Core/_.candy".to_string(),
            "/home/user/packages/Core.candy".to_string(),
        ]),
    );
    let anonymous = Module::new(
        Package::Anonymous { url: "untitled:1".to_string() },
        vec![],
        ModuleKind::Code,
    );
    assert_eq!(anonymous.to_possible_paths(&packages), None);
}

#[test]
fn module_equality_and_texts() {
    let a = Module::new(Package::core_package(), vec!["a".to_string()], ModuleKind::Code);
    let b = Module::new(Package::core_package(), vec!["a".to_string()], ModuleKind::Code);
    let c = Module::new(Package::core_package(), vec!["a".to_string()], ModuleKind::Asset);
    assert!(a.equals(&b));
    assert!(!a.equals(&c));
    assert_eq!(a.to_string(), "Core:a");
    assert_eq!(
        Module::new(Package::User("/p".to_string()), vec![], ModuleKind::Code).to_string(),
        "\"/p\":",
    );
}

#[test]
fn parsing_use_paths() {
    match UsePath::parse("Core").unwrap() {
        UsePath::Managed(name) => assert_eq!(name, "Core"),
        _ => panic!("expected a managed package"),
    }
    match UsePath::parse(".foo").unwrap() {
        UsePath::Relative { parent_navigations, path } => {
            assert_eq!(parent_navigations, 0);
            assert_eq!(path, "foo");
        }
        _ => panic!("expected a relative path"),
    }
    match UsePath::parse("...bar.png").unwrap() {
        UsePath::Relative { parent_navigations, path } => {
            assert_eq!(parent_navigations, 2);
            assert_eq!(path, "bar.png");
        }
        _ => panic!("expected a relative path"),
    }
    assert_eq!(
        UsePath::parse("..foo/bar").err(),
        Some("The target name can only contain letters and dots.".to_string()),
    );
}

#[test]
fn use_paths_round_trip() {
    for text in ["Core", ".foo", "...bar.png", "..", "Foo2"] {
        assert_eq!(UsePath::parse(text).unwrap().to_string(), text);
    }
}

#[test]
fn resolving_use_paths() {
    let current = Module::new(
        Package::User("/project".to_string()),
        vec!["a".to_string(), "b".to_string()],
        ModuleKind::Code,
    );
    let sibling = UsePath::parse(".c").unwrap().resolve_relative_to(current.clone()).unwrap();
    assert_eq!(sibling.path(), &vec!["a".to_string(), "b".to_string(), "c".to_string()]);
    assert_eq!(sibling.kind(), ModuleKind::Code);
    let up = UsePath::parse("...logo.png").unwrap().resolve_relative_to(current.clone()).unwrap();
    assert_eq!(up.path(), &vec!["logo.png".to_string()]);
    assert_eq!(up.kind(), ModuleKind::Asset);
    let managed = UsePath::parse("Core").unwrap().resolve_relative_to(current.clone()).unwrap();
    assert!(managed.equals(&Module::from_package_name("Core".to_string())));
    assert_eq!(
        UsePath::parse("....x").unwrap().resolve_relative_to(current).err(),
        Some(
            "The path contains too many parent navigations. You can't navigate out of the current package."
                .to_string()
        ),
    );
}

#[test]
fn in_memory_provider_reads_what_was_written() {
    let a = Module::new(Package::User("/p".to_string()), vec!["a".to_string()], ModuleKind::Code);
    let b = Module::new(Package::User("/p".to_string()), vec!["b".to_string()], ModuleKind::Code);
    let mut provider = InMemoryModuleProvider::new();
    assert!(provider.get_content(&a).is_none());
    provider.add_str(&a, "123");
    assert_eq!(provider.get_content(&a).unwrap().as_ref(), &b"123".to_vec());
    assert!(provider.get_content(&b).is_none());
    provider.add(&a, b"456".to_vec());
    provider.add(&b, b"789".to_vec());
    assert_eq!(provider.get_content(&a).unwrap().as_ref(), &b"456".to_vec());
    assert_eq!(provider.get_all_modules().len(), 2);
    provider.remove(&a);
    assert!(provider.get_content(&a).is_none());
    assert_eq!(provider.get_content(&b).unwrap().as_ref(), &b"789".to_vec());
    assert_eq!(provider.get_all_modules().len(), 1);
}

#[test]
fn overlay_provider_prefers_the_overlay() {
    let a = Module::new(Package::User("/p".to_string()), vec!["a".to_string()], ModuleKind::Code);
    let b = Module::new(Package::User("/p".to_string()), vec!["b".to_string()], ModuleKind::Code);
    let mut overlay = InMemoryModuleProvider::new();
    overlay.add_str(&a, "overlay");
    let mut fallback = InMemoryModuleProvider::new();
    fallback.add_str(&a, "fallback");
    fallback.add_str(&b, "only in fallback");
    let provider = OverlayModuleProvider::new(overlay, fallback);
    assert_eq!(provider.get_content(&a).unwrap().as_ref(), &b"overlay".to_vec());
    assert_eq!(provider.get_content(&b).unwrap().as_ref(), &b"only in fallback".to_vec());
}

#[test]
fn module_content_follows_opening_changing_and_closing() {
    let module = Module::new(
        Package::User("/non/existent".to_string()),
        vec!["foo".to_string()],
        ModuleKind::Code,
    );
    let mut provider = InMemoryModuleProvider::new();
    provider.add(&module, b"123".to_vec());
    assert_eq!(get_module_content_as_string(&provider, &module).unwrap(), "123");
    provider.add(&module, b"456".to_vec());
    assert_eq!(get_module_content_as_string(&provider, &module).unwrap(), "456");
    provider.remove(&module);
    assert!(get_module_content_as_string(&provider, &module).is_none());
    provider.add(&module, vec![0xff]);
    assert!(get_module_content_as_string(&provider, &module).is_none());
}

use sway_core::namespace::{ModuleNotFound, Namespace};

fn path(names: &[&str]) -> Vec<String> {
    names.iter().map(|s| s.to_string()).collect()
}

#[test]
fn new_namespace_is_at_package_root() {
    let ns = Namespace::new("pkg".to_string(), None);
    assert_eq!(ns.current_package_name(), "pkg");
    assert_eq!(ns.mod_path(), &path(&["pkg"]));
    assert_eq!(ns.current_module().name, "pkg");
    assert_eq!(ns.current_package_root_module().mod_path, path(&["pkg"]));
    assert!(!ns.is_contract_package);
    assert!(Namespace::new("c".to_string(), Some("0x01".to_string())).is_contract_package);
}

#[test]
fn push_and_pop_submodules() {
    let mut ns = Namespace::new("pkg".to_string(), None);
    ns.push_new_submodule("a".to_string());
    ns.push_new_submodule("b".to_string());
    assert_eq!(ns.mod_path(), &path(&["pkg", "a", "b"]));
    assert_eq!(ns.current_module().name, "b");
    ns.pop_submodule();
    assert_eq!(ns.mod_path(), &path(&["pkg", "a"]));
    assert!(ns.current_module_has_submodule(&"b".to_string()));
    assert!(!ns.current_module_has_submodule(&"c".to_string()));
    ns.push_new_submodule("b".to_string());
    assert_eq!(ns.root.modules.len(), 3);
}

#[test]
fn lookup_by_absolute_path() {
    let mut ns = Namespace::new("pkg".to_string(), None);
    ns.push_new_submodule("a".to_string());
    assert_eq!(ns.lookup_module_from_absolute_path(&path(&["pkg", "a"])).unwrap().name, "a");
    assert_eq!(
        ns.lookup_module_from_absolute_path(&path(&["pkg", "z"])).err(),
        Some(ModuleNotFound)
    );
}

#[test]
fn submodule_and_external_checks() {
    let mut ns = Namespace::new("pkg".to_string(), None);
    ns.push_new_submodule("a".to_string());
    ns.push_new_submodule("b".to_string());
    assert!(ns.module_is_submodule_of(&path(&["pkg", "a"]), false));
    assert!(ns.module_is_submodule_of(&path(&["pkg"]), false));
    assert!(!ns.module_is_submodule_of(&path(&["pkg", "a", "b"]), false));
    assert!(ns.module_is_submodule_of(&path(&["pkg", "a", "b"]), true));
    assert!(!ns.module_is_submodule_of(&path(&["other", "a"]), true));
    assert!(ns.module_is_external(&path(&["std", "x"])));
    assert!(!ns.module_is_external(&path(&["pkg"])));
}

#[test]
fn prepend_module_path_appends_prefixes() {
    let mut ns = Namespace::new("pkg".to_string(), None);
    ns.push_new_submodule("a".to_string());
    assert_eq!(ns.prepend_module_path(&path(&["x", "y"])), path(&["pkg", "a", "x", "y"]));
}

#[test]
fn current_module_mut_changes_the_module() {
    let mut ns = Namespace::new("pkg".to_string(), None);
    ns.push_new_submodule("a".to_string());
    ns.current_module_mut().is_external = true;
    assert!(ns.lookup_module_from_absolute_path(&path(&["pkg", "a"])).unwrap().is_external);
}

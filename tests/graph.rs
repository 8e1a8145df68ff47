use godot_wasm::graph::{
    plan_instantiation, Bridge, ImportDecl, ImportEnv, ImportSource, LinkError, ModuleDesc, ModuleKind,
};

fn decl(ns: &str, name: &str) -> ImportDecl {
    ImportDecl { namespace: ns.to_string(), name: name.to_string() }
}

fn module(imports: Vec<ImportDecl>, exports: &[&str], deps: &[(&str, usize)]) -> ModuleDesc {
    ModuleDesc {
        kind: ModuleKind::Core,
        imports,
        exports: exports.iter().map(|s| s.to_string()).collect(),
        deps: deps.iter().map(|(n, m)| (n.to_string(), *m)).collect(),
    }
}

fn bridge(enabled: bool, ns: &str, names: &[&str]) -> Bridge {
    Bridge {
        enabled,
        namespace: ns.to_string(),
        names: names.iter().map(|s| s.to_string()).collect(),
    }
}

fn empty_env() -> ImportEnv {
    ImportEnv {
        host: vec![],
        registry: bridge(false, "godot_object_v1", &["array.new"]),
        externref: bridge(false, "godot_object_v2", &["var.is_var"]),
        wasi: vec![],
    }
}

#[test]
fn single_module_with_host_import() {
    let mut env = empty_env();
    env.host = vec![decl("host", "log"), decl("host", "tick")];
    let mods = vec![module(vec![decl("host", "tick")], &["main"], &[])];
    let plan = plan_instantiation(&env, &mods, 0).unwrap();
    assert_eq!(plan.len(), 1);
    assert_eq!(plan[0].module, 0);
    assert_eq!(plan[0].sources, vec![ImportSource::Host(1)]);
}

#[test]
fn unknown_import_is_reported() {
    let env = empty_env();
    let mods = vec![module(vec![decl("env", "missing")], &[], &[])];
    assert_eq!(
        plan_instantiation(&env, &mods, 0).err(),
        Some(LinkError::UnknownImport { module: 0, import: 0 })
    );
}

#[test]
fn sibling_without_the_export_is_unknown_import() {
    let env = empty_env();
    let mods = vec![
        module(vec![decl("lib", "absent")], &[], &[("lib", 1)]),
        module(vec![], &["present"], &[]),
    ];
    assert_eq!(
        plan_instantiation(&env, &mods, 0).err(),
        Some(LinkError::UnknownImport { module: 0, import: 0 })
    );
}

#[test]
fn diamond_dependency_instantiated_once() {
    let env = empty_env();
    // 0 imports from 1 and 2; both import from 3.
    let mods = vec![
        module(vec![decl("left", "f"), decl("right", "g")], &["main"], &[("left", 1), ("right", 2)]),
        module(vec![decl("base", "h")], &["f"], &[("base", 3)]),
        module(vec![decl("base", "h")], &["g"], &[("base", 3)]),
        module(vec![], &["h"], &[]),
    ];
    let plan = plan_instantiation(&env, &mods, 0).unwrap();
    let order: Vec<usize> = plan.iter().map(|s| s.module).collect();
    assert_eq!(order, vec![3, 1, 2, 0]);
    assert_eq!(order.iter().filter(|m| **m == 3).count(), 1);
    assert_eq!(plan[1].sources, vec![ImportSource::Sibling(3)]);
    assert_eq!(plan[2].sources, vec![ImportSource::Sibling(3)]);
    assert_eq!(plan[3].sources, vec![ImportSource::Sibling(1), ImportSource::Sibling(2)]);
}

#[test]
fn mutual_imports_fail_with_cycle() {
    let env = empty_env();
    let mods = vec![
        module(vec![decl("b", "fb")], &["fa"], &[("b", 1)]),
        module(vec![decl("a", "fa")], &["fb"], &[("a", 0)]),
    ];
    assert_eq!(plan_instantiation(&env, &mods, 0).err(), Some(LinkError::Cycle(0)));
    assert_eq!(plan_instantiation(&env, &mods, 1).err(), Some(LinkError::Cycle(1)));
}

#[test]
fn component_cannot_be_instantiated_as_core() {
    let env = empty_env();
    let mut m = module(vec![], &[], &[]);
    m.kind = ModuleKind::Component;
    assert_eq!(plan_instantiation(&env, &vec![m], 0).err(), Some(LinkError::NotCore(0)));
}

#[test]
fn resolution_priority_order() {
    let mut env = empty_env();
    env.host = vec![decl("godot_object_v1", "array.new")];
    env.registry = bridge(true, "godot_object_v1", &["array.new", "array.len"]);
    env.wasi = vec![decl("godot_object_v1", "array.len"), decl("wasi", "fd_write")];
    let mods = vec![
        module(
            vec![
                decl("godot_object_v1", "array.new"),
                decl("godot_object_v1", "array.len"),
                decl("wasi", "fd_write"),
                decl("dep", "x"),
            ],
            &[],
            &[("dep", 1)],
        ),
        module(vec![], &["x"], &[]),
    ];
    let plan = plan_instantiation(&env, &mods, 0).unwrap();
    assert_eq!(plan.len(), 2);
    assert_eq!(
        plan[1].sources,
        vec![ImportSource::Host(0), ImportSource::Registry, ImportSource::Wasi, ImportSource::Sibling(1)]
    );
}

#[test]
fn disabled_bridge_is_skipped() {
    let mut env = empty_env();
    env.externref = bridge(false, "godot_object_v2", &["var.is_var"]);
    let mods = vec![module(vec![decl("godot_object_v2", "var.is_var")], &[], &[])];
    assert_eq!(
        plan_instantiation(&env, &mods, 0).err(),
        Some(LinkError::UnknownImport { module: 0, import: 0 })
    );
    env.externref.enabled = true;
    let plan = plan_instantiation(&env, &mods, 0).unwrap();
    assert_eq!(plan[0].sources, vec![ImportSource::Externref]);
}

use hbc_transforms::ir::{
    AssignTarget, Constant, Expression, FunctionId, ObjectProperty, PropertyKey, Statement, Value,
    VarKind,
};
use hbc_transforms::metro::{MetroModule, MetroRegistry};
use hbc_transforms::module_hoist::detect::{loader_aliases, loader_call, resolve_module_id};
use hbc_transforms::module_hoist::hoist::hoist_module_loaders;
use hbc_transforms::module_hoist::kinds::LoaderKind;
use hbc_transforms::module_hoist::lazy::{
    collect_descriptor_getter_ids, is_pure_lazy_getter_body, lazy_getter_ids, lazy_getter_module,
};
use std::collections::BTreeMap;

fn integer(n: i32) -> Expression {
    Expression::Value(Value::Constant(Constant::Integer(n)))
}

fn var(n: &str) -> Expression {
    Expression::Value(Value::Variable(n.to_string()))
}

fn call(callee: &str, arg: Expression) -> Expression {
    Expression::Call { callee: Box::new(var(callee)), arguments: vec![arg] }
}

fn member(object: Expression, name: &str) -> Expression {
    Expression::member(object, name)
}

#[test]
fn module_hoist_aliases_follow_require_copies() {
    let stmts = vec![
        Statement::Assign {
            target: AssignTarget::Variable("tmp4".into()),
            value: var("require"),
        },
        Statement::Let { name: "r2".into(), value: var("tmp4"), kind: VarKind::Const },
    ];
    let a = loader_aliases(&stmts);
    assert!(a.contains("tmp4"));
    assert!(a.contains("r2"));
    assert!(a.contains("importDefault"));
}

#[test]
fn resolves_integer_and_dependency_map() {
    let deps = vec![100, 200, 300];
    assert_eq!(resolve_module_id(&integer(509), &deps), Some(509));
    let dm = Expression::Member {
        object: Box::new(var("dependencyMap")),
        property: PropertyKey::Index(1),
        optional: false,
    };
    assert_eq!(resolve_module_id(&dm, &deps), Some(200));
}

#[test]
fn module_hoist_recognizes_import_default_loader() {
    let aliases = loader_aliases(&vec![]);
    let e = call("importDefault", integer(530));
    assert_eq!(loader_call(&e, &aliases, &vec![]).map(|k| k.id), Some(530));
}

#[test]
fn detects_lazy_getter_and_ignores_eager_body() {
    let aliases = loader_aliases(&vec![]);
    // A getter arrow: single `return require(345).default`.
    let getter = vec![Statement::Return(Some(Expression::Member {
        object: Box::new(call("require", integer(345))),
        property: PropertyKey::Ident("default".into()),
        optional: false,
    }))];
    assert_eq!(lazy_getter_module(&getter, &aliases, &vec![]), Some(345));

    // An eager body with two statements is not a lazy getter.
    let eager = vec![
        Statement::Let { name: "a".into(), value: call("require", integer(345)), kind: VarKind::Const },
        Statement::Return(Some(var("a"))),
    ];
    assert_eq!(lazy_getter_module(&eager, &aliases, &vec![]), None);
}

#[test]
fn detect_tests_aliases_follow_require_copies() {
    let stmts = vec![
        Statement::Assign {
            target: AssignTarget::Variable("tmp4".into()),
            value: var("require"),
        },
        Statement::Let {
            name: "r2".into(),
            value: var("tmp4"),
            kind: VarKind::Const,
        },
    ];
    let a = loader_aliases(&stmts);
    assert_eq!(a.get("tmp4"), Some(&LoaderKind::Require));
    assert_eq!(a.get("r2"), Some(&LoaderKind::Require));
    assert_eq!(a.get("importDefault"), Some(&LoaderKind::ImportDefault));
}

#[test]
fn resolves_integer_and_dependency_map_only() {
    let deps = vec![100, 200, 300];
    assert_eq!(resolve_module_id(&integer(509), &deps), Some(509));
    let dm = Expression::Member {
        object: Box::new(var("dependencyMap")),
        property: PropertyKey::Index(1),
        optional: false,
    };
    assert_eq!(resolve_module_id(&dm, &deps), Some(200));
    let arr = Expression::Member {
        object: Box::new(var("items")),
        property: PropertyKey::Index(1),
        optional: false,
    };
    assert_eq!(resolve_module_id(&arr, &deps), None);
}

#[test]
fn detect_tests_recognizes_import_default_loader() {
    let aliases = loader_aliases(&vec![]);
    let e = call("importDefault", integer(530));
    assert_eq!(
        loader_call(&e, &aliases, &vec![]).map(|k| (k.id, k.kind)),
        Some((530, LoaderKind::ImportDefault))
    );
}

#[test]
fn detects_lazy_getter_single_and_multi_stmt() {
    let aliases = loader_aliases(&vec![]);
    let getter = vec![Statement::Return(Some(member(
        call("require", integer(345)),
        "default",
    )))];
    assert!(is_pure_lazy_getter_body(&getter, &aliases, &vec![]));
    assert_eq!(lazy_getter_ids(&getter, &aliases, &vec![]), vec![345]);

    let multi = vec![
        Statement::Let {
            name: "a".into(),
            value: call("require", integer(345)),
            kind: VarKind::Const,
        },
        Statement::Return(Some(member(var("a"), "default"))),
    ];
    assert!(is_pure_lazy_getter_body(&multi, &aliases, &vec![]));

    // Eager: non-default export is not a lazy getter.
    let eager_prop = vec![
        Statement::Let {
            name: "http".into(),
            value: member(call("importDefault", integer(530)), "HTTP"),
            kind: VarKind::Const,
        },
        Statement::Return(Some(var("http"))),
    ];
    assert!(!is_pure_lazy_getter_body(&eager_prop, &aliases, &vec![]));

    let eager = vec![
        Statement::Let {
            name: "a".into(),
            value: call("require", integer(345)),
            kind: VarKind::Const,
        },
        Statement::Expr(call("sideEffect", integer(0))),
        Statement::Return(Some(var("a"))),
    ];
    assert!(!is_pure_lazy_getter_body(&eager, &aliases, &vec![]));
}

#[test]
fn collects_getter_ids_from_get_descriptor() {
    let getter = Expression::Function {
        id: FunctionId(7),
        name: None,
        is_arrow: true,
        is_async: false,
        is_generator: false,
    };
    let desc = Expression::Object {
        properties: vec![ObjectProperty {
            key: PropertyKey::Ident("get".into()),
            value: getter,
        }],
    };
    let stmts = vec![Statement::Expr(desc)];
    let ids = collect_descriptor_getter_ids(&stmts);
    assert!(ids.contains(&7), "expected getter 7, got {ids:?}");

    let aliased = vec![
        Statement::Let {
            name: "g".into(),
            value: Expression::Function {
                id: FunctionId(8),
                name: None,
                is_arrow: true,
                is_async: false,
                is_generator: false,
            },
            kind: VarKind::Const,
        },
        Statement::Expr(Expression::Object {
            properties: vec![ObjectProperty {
                key: PropertyKey::String("get".into()),
                value: var("g"),
            }],
        }),
    ];
    let ids = collect_descriptor_getter_ids(&aliased);
    assert!(ids.contains(&8), "expected aliased getter 8, got {ids:?}");
}

fn metro_module(function_id: u32, module_id: u32, name: Option<&str>, dependencies: Vec<u32>) -> MetroModule {
    MetroModule { module_id, function_id, name: name.map(|n| n.to_string()), dependencies }
}

fn empty_registry_with_factory(
    factory_id: u32,
    module_id: u32,
    dependencies: Vec<u32>,
    names: &[(u32, &str)],
) -> MetroRegistry {
    let mut reg = MetroRegistry::new();
    reg.function_to_module.insert(factory_id, module_id);
    reg.factories.insert(factory_id, metro_module(factory_id, module_id, Some("Factory"), dependencies.clone()));
    reg.modules.insert(module_id, metro_module(factory_id, module_id, Some("Factory"), dependencies));
    for (id, name) in names {
        reg.modules.insert(*id, metro_module(0, *id, Some(name), vec![]));
    }
    reg
}

fn hoist(
    all_ir: &mut BTreeMap<u32, Vec<Statement>>,
    reg: &MetroRegistry,
    children: &BTreeMap<u32, Vec<u32>>,
) {
    hoist_module_loaders(all_ir, reg, children, &BTreeMap::new());
}

fn func(id: u32) -> Expression {
    Expression::Function {
        id: FunctionId(id),
        name: None,
        is_arrow: true,
        is_async: false,
        is_generator: false,
    }
}

fn get_descriptor(getter_id: u32) -> Expression {
    Expression::Object {
        properties: vec![ObjectProperty {
            key: PropertyKey::Ident("get".into()),
            value: func(getter_id),
        }],
    }
}

#[test]
fn hoist_rewrites_nested_import_default_and_injects() {
    let factory_id = 1u32;
    let child_id = 2u32;
    let mut all_ir = BTreeMap::new();
    all_ir.insert(factory_id, vec![Statement::Expr(var("noop"))]);
    all_ir.insert(
        child_id,
        vec![
            Statement::Let {
                name: "http".into(),
                value: member(call("importDefault", integer(530)), "HTTP"),
                kind: VarKind::Const,
            },
            Statement::Return(Some(var("http"))),
        ],
    );
    let reg = empty_registry_with_factory(factory_id, 10, vec![530], &[(530, "HTTPUtils")]);
    let mut children = BTreeMap::new();
    children.insert(factory_id, vec![child_id]);
    hoist(&mut all_ir, &reg, &children);

    let factory = all_ir.get(&factory_id).unwrap();
    assert!(
        matches!(
            &factory[0],
            Statement::Let {
                value: Expression::Call { .. },
                ..
            }
        ),
        "factory should start with injected loader binding: {:?}",
        factory[0]
    );
    let child = all_ir.get(&child_id).unwrap();
    match &child[0] {
        Statement::Let {
            value: Expression::Member { object, .. },
            ..
        } => {
            assert!(
                matches!(object.as_ref(), Expression::Value(Value::Variable(_))),
                "importDefault(530) should be rewritten to a binding, got {object:?}"
            );
        }
        other => panic!("unexpected child stmt: {other:?}"),
    }
}

#[test]
fn mixed_require_and_import_default_stay_distinct() {
    let factory_id = 1u32;
    let mut all_ir = BTreeMap::new();
    all_ir.insert(
        factory_id,
        vec![
            Statement::Expr(call("require", integer(530))),
            Statement::Expr(member(call("importDefault", integer(530)), "foo")),
        ],
    );
    let reg = empty_registry_with_factory(factory_id, 10, vec![530], &[(530, "M")]);
    hoist(&mut all_ir, &reg, &BTreeMap::new());
    let factory = all_ir.get(&factory_id).unwrap();
    let injected: Vec<_> = factory
        .iter()
        .take_while(|s| {
            matches!(
                s,
                Statement::Let {
                    value: Expression::Call { .. },
                    ..
                }
            )
        })
        .collect();
    assert_eq!(
        injected.len(),
        2,
        "expected distinct bindings for require vs importDefault, got {factory:?}"
    );
}

#[test]
fn reuses_existing_assign_binding() {
    let factory_id = 1u32;
    let mut all_ir = BTreeMap::new();
    all_ir.insert(
        factory_id,
        vec![
            Statement::Assign {
                target: AssignTarget::Variable("HTTPUtils".into()),
                value: call("require", integer(530)),
            },
            Statement::Expr(member(call("require", integer(530)), "post")),
        ],
    );
    let reg = empty_registry_with_factory(factory_id, 10, vec![530], &[(530, "HTTPUtils")]);
    hoist(&mut all_ir, &reg, &BTreeMap::new());
    let factory = all_ir.get(&factory_id).unwrap();
    assert!(
        matches!(
            &factory[0],
            Statement::Assign {
                value: Expression::Call { .. },
                ..
            }
        ),
        "should reuse assign binding: {:?}",
        factory[0]
    );
    match &factory[1] {
        Statement::Expr(Expression::Member { object, .. }) => {
            assert_eq!(
                object.as_ref(),
                &Expression::Value(Value::Variable("HTTPUtils".into()))
            );
        }
        other => panic!("expected rewritten member: {other:?}"),
    }
}

#[test]
fn does_not_hoist_lazy_getter_module() {
    let factory_id = 1u32;
    let getter_id = 2u32;
    let mut all_ir = BTreeMap::new();
    all_ir.insert(factory_id, vec![Statement::Expr(var("noop"))]);
    all_ir.insert(
        getter_id,
        vec![Statement::Return(Some(member(
            call("require", integer(99)),
            "default",
        )))],
    );
    let reg = empty_registry_with_factory(factory_id, 10, vec![99], &[(99, "Lazy")]);
    let mut children = BTreeMap::new();
    children.insert(factory_id, vec![getter_id]);
    hoist(&mut all_ir, &reg, &children);
    let factory = all_ir.get(&factory_id).unwrap();
    assert!(
        !matches!(
            factory.first(),
            Some(Statement::Let {
                value: Expression::Call { .. },
                ..
            })
        ),
        "lazy-only module must not be injected: {factory:?}"
    );
    let getter = all_ir.get(&getter_id).unwrap();
    assert!(
        matches!(
            getter.first(),
            Some(Statement::Return(Some(Expression::Member { object, .. })))
                if matches!(object.as_ref(), Expression::Call { .. })
        ),
        "lazy getter body must keep loader call: {getter:?}"
    );
}

fn factory_has_injected_loader(factory: &[Statement]) -> bool {
    factory.iter().any(|s| {
        matches!(
            s,
            Statement::Let {
                value: Expression::Call { .. },
                ..
            }
        )
    })
}

fn is_loader_member_call(e: &Expression) -> bool {
    matches!(
        e,
        Expression::Member { object, .. } if matches!(object.as_ref(), Expression::Call { .. })
    )
}

#[test]
fn does_not_hoist_multistmt_define_property_getter() {
    let factory_id = 1u32;
    let getter_id = 2u32;
    let mut all_ir = BTreeMap::new();
    all_ir.insert(
        factory_id,
        vec![Statement::Expr(Expression::Call {
            callee: Box::new(Expression::Member {
                object: Box::new(var("Object")),
                property: PropertyKey::Ident("defineProperty".into()),
                optional: false,
            }),
            arguments: vec![
                var("obj"),
                Expression::Value(Value::Constant(Constant::String(
                    "ProgressBarAndroid".into(),
                ))),
                get_descriptor(getter_id),
            ],
        })],
    );
    all_ir.insert(
        getter_id,
        vec![
            Statement::Expr(member(call("require", integer(131)), "default")),
            Statement::Return(Some(member(call("require", integer(405)), "default"))),
        ],
    );
    let reg = empty_registry_with_factory(
        factory_id,
        10,
        vec![131, 405],
        &[(131, "warnOnce"), (405, "ProgressBarAndroid")],
    );
    let mut children = BTreeMap::new();
    children.insert(factory_id, vec![getter_id]);
    hoist(&mut all_ir, &reg, &children);

    let factory = all_ir.get(&factory_id).unwrap();
    assert!(
        !factory_has_injected_loader(factory),
        "multi-stmt getter must not inject eager imports: {factory:?}"
    );
    let getter = all_ir.get(&getter_id).unwrap();
    assert!(
        matches!(&getter[0], Statement::Expr(e) if is_loader_member_call(e)),
        "warnOnce require must stay in getter: {getter:?}"
    );
    assert!(
        matches!(&getter[1], Statement::Return(Some(e)) if is_loader_member_call(e)),
        "ProgressBar require must stay in getter: {getter:?}"
    );
}

#[test]
fn does_not_hoist_multistmt_object_literal_getter() {
    let factory_id = 1u32;
    let getter_id = 2u32;
    let mut all_ir = BTreeMap::new();
    all_ir.insert(
        factory_id,
        vec![Statement::Let {
            name: "obj".into(),
            value: get_descriptor(getter_id),
            kind: VarKind::Const,
        }],
    );
    all_ir.insert(
        getter_id,
        vec![
            Statement::Expr(call("require", integer(131))),
            Statement::Return(Some(member(call("require", integer(405)), "default"))),
        ],
    );
    let reg = empty_registry_with_factory(
        factory_id,
        10,
        vec![131, 405],
        &[(131, "warnOnce"), (405, "ProgressBarAndroid")],
    );
    let mut children = BTreeMap::new();
    children.insert(factory_id, vec![getter_id]);
    hoist(&mut all_ir, &reg, &children);
    assert!(
        !factory_has_injected_loader(all_ir.get(&factory_id).unwrap()),
        "object-literal get: must keep loaders lazy"
    );
}

#[test]
fn does_not_hoist_getter_via_descriptor_variable() {
    let factory_id = 1u32;
    let getter_id = 2u32;
    let mut all_ir = BTreeMap::new();
    all_ir.insert(
        factory_id,
        vec![
            Statement::Let {
                name: "desc".into(),
                value: get_descriptor(getter_id),
                kind: VarKind::Const,
            },
            Statement::Expr(Expression::Call {
                callee: Box::new(var("defineProperty")),
                arguments: vec![var("obj"), var("name"), var("desc")],
            }),
        ],
    );
    all_ir.insert(
        getter_id,
        vec![
            Statement::Expr(member(call("require", integer(131)), "default")),
            Statement::Return(Some(member(call("require", integer(405)), "default"))),
        ],
    );
    let reg = empty_registry_with_factory(
        factory_id,
        10,
        vec![131, 405],
        &[(131, "warnOnce"), (405, "ProgressBarAndroid")],
    );
    let mut children = BTreeMap::new();
    children.insert(factory_id, vec![getter_id]);
    hoist(&mut all_ir, &reg, &children);
    assert!(
        !factory_has_injected_loader(all_ir.get(&factory_id).unwrap()),
        "descriptor-var get: must keep loaders lazy"
    );
}

#[test]
fn does_not_reuse_child_param_as_hoist_binding() {
    let factory_id = 1u32;
    let child_id = 2u32;
    let mut all_ir = BTreeMap::new();
    all_ir.insert(
        factory_id,
        vec![Statement::Expr(member(
            call("importDefault", integer(530)),
            "HTTP",
        ))],
    );
    all_ir.insert(child_id, vec![Statement::Expr(var("noop"))]);
    let reg = empty_registry_with_factory(factory_id, 10, vec![530], &[(530, "HTTPUtils")]);
    let mut children = BTreeMap::new();
    children.insert(factory_id, vec![child_id]);
    let mut params = BTreeMap::new();
    params.insert(child_id, vec!["HTTPUtils".into()]);
    hoist_module_loaders(&mut all_ir, &reg, &children, &params);

    let factory = all_ir.get(&factory_id).unwrap();
    match &factory[0] {
        Statement::Let { name, .. } => {
            assert_ne!(
                name, "HTTPUtils",
                "must not shadow child param HTTPUtils, got {factory:?}"
            );
        }
        other => panic!("expected injected binding, got {other:?}"),
    }
}

#[test]
fn does_not_treat_sibling_factory_as_descendant() {
    let factory_a = 1u32;
    let factory_b = 2u32;
    let mut all_ir = BTreeMap::new();
    all_ir.insert(factory_a, vec![Statement::Expr(var("noop"))]);
    all_ir.insert(
        factory_b,
        vec![Statement::Expr(member(call("require", integer(99)), "default"))],
    );
    let mut reg = empty_registry_with_factory(factory_a, 10, vec![], &[]);
        reg.function_to_module.insert(factory_b, 20);
    reg.factories.insert(factory_b, metro_module(factory_b, 20, Some("Sibling"), vec![99]));
    reg.modules.insert(20, metro_module(factory_b, 20, Some("Sibling"), vec![99]));
    // Exotic: parent_function edge from B → A. B is still a Metro factory.
    let mut children = BTreeMap::new();
    children.insert(factory_a, vec![factory_b]);
    hoist(&mut all_ir, &reg, &children);

    let a = all_ir.get(&factory_a).unwrap();
    assert!(
        !factory_has_injected_loader(a),
        "A must not hoist B's require: {a:?}"
    );
    // B is its own factory: it may hoist internally, but A's body stays a noop.
    assert!(
        matches!(&a[0], Statement::Expr(e) if matches!(e, Expression::Value(Value::Variable(n)) if n == "noop")),
        "A must remain its own body, got {a:?}"
    );
}

#[test]
fn a_name_given_to_two_loads_stays_with_the_first() {
    let factory_id = 1u32;
    let bind = |name: &str, value: Expression| Statement::Assign {
        target: AssignTarget::Variable(name.into()),
        value,
    };
    let mut all_ir = BTreeMap::new();
    all_ir.insert(
        factory_id,
        vec![
            bind("x", call("require", integer(530))),
            bind("x", call("importDefault", integer(530))),
            Statement::Expr(member(call("require", integer(530)), "a")),
            Statement::Expr(member(call("importDefault", integer(530)), "b")),
        ],
    );
    let reg = empty_registry_with_factory(factory_id, 10, vec![530], &[(530, "M")]);
    hoist(&mut all_ir, &reg, &BTreeMap::new());
    assert_eq!(
        all_ir.get(&factory_id).unwrap(),
        &vec![
            Statement::Let {
                name: "MDefault".into(),
                value: call("importDefault", integer(530)),
                kind: VarKind::Const,
            },
            bind("x", call("require", integer(530))),
            bind("x", var("MDefault")),
            Statement::Expr(member(var("x"), "a")),
            Statement::Expr(member(var("MDefault"), "b")),
        ]
    );
}

#[test]
fn a_factory_is_no_lazy_getter() {
    let factory_id = 1u32;
    let mut all_ir = BTreeMap::new();
    all_ir.insert(factory_id, vec![Statement::Return(Some(call("require", integer(7))))]);
    let reg = empty_registry_with_factory(factory_id, 10, vec![7], &[(7, "M")]);
    hoist(&mut all_ir, &reg, &BTreeMap::new());
    assert_eq!(
        all_ir.get(&factory_id).unwrap(),
        &vec![
            Statement::Let {
                name: "M".into(),
                value: call("require", integer(7)),
                kind: VarKind::Const,
            },
            Statement::Return(Some(var("M"))),
        ]
    );
}

#[test]
fn a_binding_takes_no_name_of_a_class() {
    let factory_id = 1u32;
    let mut all_ir = BTreeMap::new();
    let class = Statement::Class {
        name: "M".into(),
        super_class: None,
        constructor: None,
        methods: vec![],
    };
    all_ir.insert(
        factory_id,
        vec![class.clone(), Statement::Expr(member(call("require", integer(7)), "a"))],
    );
    let reg = empty_registry_with_factory(factory_id, 10, vec![7], &[(7, "M")]);
    hoist(&mut all_ir, &reg, &BTreeMap::new());
    assert_eq!(
        all_ir.get(&factory_id).unwrap(),
        &vec![
            Statement::Let {
                name: "_mod7".into(),
                value: call("require", integer(7)),
                kind: VarKind::Const,
            },
            class,
            Statement::Expr(member(var("_mod7"), "a")),
        ]
    );
}

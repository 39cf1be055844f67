use hbc_transforms::codegen::esm_imports::consolidate_imports;
use hbc_transforms::codegen::esm_lines::{
    dedupe_import_bindings, parse_import_line, resolve_import_declaration_collisions,
};
use hbc_transforms::codegen::esm_names::{
    collect_closure_renames, is_bad_module_binding, is_generic_import_binding,
};
use hbc_transforms::codegen::esm_promote::{body_calls_require, dedupe_function_export_collisions};
use hbc_transforms::codegen::esm_specifiers::bindings_of_line;
use hbc_transforms::codegen::words::{replace_whole_word, sanitize_import_name, sanitize_loop_var};
use hbc_transforms::codegen::{Codegen, CodegenOptions};
use hbc_transforms::ir::{
    AssignTarget, Constant, Expression, FunctionId, ObjectProperty, PropertyKey, Statement, Value,
    VarKind,
};
use hbc_transforms::names::{is_valid_identifier, sanitize_identifier};
use std::collections::BTreeMap;
use std::sync::Arc;

fn var(n: &str) -> Expression {
    Expression::Value(Value::Variable(n.into()))
}

fn integer(n: i32) -> Expression {
    Expression::constant(Constant::Integer(n))
}

fn text(s: &str) -> Expression {
    Expression::constant(Constant::String(s.into()))
}

fn call(f: &str, arguments: Vec<Expression>) -> Expression {
    Expression::Call { callee: Box::new(var(f)), arguments }
}

fn member(object: Expression, name: &str) -> Expression {
    Expression::Member {
        object: Box::new(object),
        property: PropertyKey::Ident(name.into()),
        optional: false,
    }
}

fn lets(n: &str, value: Expression) -> Statement {
    Statement::Let { name: n.into(), value, kind: VarKind::Const }
}

fn export(name: &str, value: Expression) -> Statement {
    Statement::Assign {
        target: AssignTarget::Member { object: var("exports"), property: name.into() },
        value,
    }
}

fn dependency(i: i64) -> Expression {
    Expression::Member {
        object: Box::new(var("dependencyMap")),
        property: PropertyKey::Index(i),
        optional: false,
    }
}

fn show(e: &Expression) -> String {
    Codegen::new(CodegenOptions::new()).generate_expr(e)
}

fn esm(names: Vec<(u32, &str)>) -> Codegen {
    let mut m = BTreeMap::new();
    for (i, n) in names {
        m.insert(i, n.to_string());
    }
    Codegen::new(CodegenOptions::new()).with_esm_mode(m)
}

#[test]
fn imports_carry_the_absolute_id_of_a_dependency() {
    let mut ids = BTreeMap::new();
    ids.insert(0u32, 530u32);
    let mut g = esm(vec![(0, "HTTPUtils")]).with_esm_module_meta(ids);
    let out = g.generate_esm_module(
        &vec![
            lets("send", member(call("require", vec![dependency(0)]), "sendRequest")),
            export("run", call("send", vec![])),
        ],
        7,
        Some("runner"),
    );
    assert_eq!(
        out,
        "// Module 7 (runner)\n\
         import { sendRequest as send } from \"HTTPUtils\" /* 530 */;\n\n\n\
         export const run = send();\n"
    );
}

#[test]
fn a_module_that_only_reexports_is_one_line() {
    let mut g = esm(vec![]);
    let out = g.generate_esm_module(
        &vec![
            lets("source", call("require", vec![integer(3)])),
            lets("keys", Expression::call(member(var("Object"), "keys"), vec![var("source")])),
            Statement::Expr(Expression::call(member(var("keys"), "forEach"), vec![var("copy")])),
        ],
        9,
        None,
    );
    assert_eq!(out, "// Module 9\nexport * from \"module_3\";\n");
}

#[test]
fn two_captures_of_one_module_share_a_binding_and_two_modules_do_not() {
    let mut ids = BTreeMap::new();
    ids.insert(0u32, 10u32);
    ids.insert(1u32, 11u32);
    let g = esm(vec![(0, "slice"), (1, "slice")]).with_esm_module_meta(ids);
    let renames = g.import_binding_renames(&vec![
        lets("closure_0", call("require", vec![dependency(0)])),
        lets("closure_1", call("require", vec![dependency(0)])),
        lets("closure_2", call("require", vec![dependency(1)])),
    ]);
    assert_eq!(renames.get("closure_0").map(|s| s.as_str()), Some("slice"));
    assert_eq!(renames.get("closure_1").map(|s| s.as_str()), Some("slice"));
    assert_eq!(renames.get("closure_2").map(|s| s.as_str()), Some("slice2"));
}

#[test]
fn a_getter_of_a_descriptor_gives_the_exported_value() {
    let mut bodies = BTreeMap::new();
    bodies.insert(4u32, "function get() {\n  return value;\n}".to_string());
    let mut g = esm(vec![]).with_inline_bodies(Arc::new(bodies));
    let descriptor = Expression::Object {
        properties: vec![ObjectProperty {
            key: PropertyKey::Ident("get".into()),
            value: Expression::Function {
                id: FunctionId(4),
                name: None,
                is_arrow: false,
                is_async: false,
                is_generator: false,
            },
        }],
    };
    let out = g.generate_esm_module(
        &vec![
            lets("value", call("make", vec![])),
            lets("desc", descriptor),
            Statement::Expr(Expression::call(
                member(var("Object"), "defineProperty"),
                vec![var("exports"), text("answer"), var("desc")],
            )),
        ],
        1,
        None,
    );
    assert_eq!(
        out,
        "// Module 1\nconst value = make();\n\nexport const answer = value;\n"
    );
}

#[test]
fn a_loader_that_is_still_called_is_bound() {
    let mut g = esm(vec![]);
    let out = g.generate_esm_module(
        &vec![Statement::Return(Some(call("f", vec![call("require", vec![var("x")])])))],
        1,
        None,
    );
    assert_eq!(
        out,
        "// Module 1\nconst require = globalThis.__r;\n\nreturn f(require(x));\n"
    );
}

#[test]
fn calls_of_the_loader_are_told_from_other_names() {
    let lines = |s: &str| vec![s.to_string()];
    assert!(body_calls_require(&lines("x = require(3);")));
    assert!(body_calls_require(&lines("x = require (3);")));
    assert!(!body_calls_require(&lines("x.require(3);")));
    assert!(!body_calls_require(&lines("my_require(3); \u{e9}require(4)")));
    assert!(!body_calls_require(&lines("const require = load; require(3);")));
    assert!(body_calls_require(&lines("require == 1; require(3);")));
}

#[test]
fn import_bindings_become_unique() {
    let mut imports = vec![
        "import alpha from \"one\";".to_string(),
        "import * as alpha from \"two\";".to_string(),
        "import { x as alpha } from \"alpha\";".to_string(),
        "import { b } from \"three\";".to_string(),
    ];
    dedupe_import_bindings(&mut imports);
    assert_eq!(
        imports,
        [
            "import \"one\";",
            "import \"two\";",
            "import { x as alpha } from \"alpha\";",
            "import { b } from \"three\";",
        ]
    );
    assert_eq!(parse_import_line(&imports[0]).0, None);
}

#[test]
fn an_exported_function_is_promoted_once() {
    let mut body = vec![
        "async function load(x) {\n  return x;\n}\n".to_string(),
        "function walk(x) {\n}\n".to_string(),
    ];
    let mut exports = vec![
        "export const load = load;".to_string(),
        "export const walk = walk;".to_string(),
        "export const other = 1;".to_string(),
    ];
    dedupe_function_export_collisions(&mut body, &mut exports);
    assert_eq!(body[0], "export async function load(x) {\n  return x;\n}\n");
    assert_eq!(body[1], "export function walk(x) {\n}\n");
    assert_eq!(exports, ["export const other = 1;"]);
}

#[test]
fn jsx_attributes_are_written_the_short_way() {
    let element = Expression::JSXElement {
        tag: "View".into(),
        attributes: vec![
            ("title".into(), text("a \"b\"\n")),
            ("open".into(), Expression::constant(Constant::Bool(true))),
            ("count".into(), integer(2)),
            ("...".into(), var("rest")),
            ("...".into(), Expression::Spread(Box::new(var("more")))),
        ],
        children: vec![
            text("hi"),
            Expression::JSXElement { tag: String::new(), attributes: vec![], children: vec![] },
        ],
    };
    assert_eq!(
        show(&element),
        "<View title=\"a \\\"b\\\"\\n\" open count={2} {...rest} {...more}>{\"hi\"}<></></View>"
    );
}

#[test]
fn names_of_modules_become_bindings() {
    assert_eq!(sanitize_import_name("react-native"), "reactNative");
    assert_eq!(sanitize_import_name("@babel/runtime/helpers/interop"), "interop");
    assert_eq!(sanitize_import_name("get ActivityIndicator"), "getActivityIndicator");
    assert_eq!(sanitize_import_name("3d.view"), "_3dView");
    assert_eq!(sanitize_import_name("default"), "");
    assert_eq!(sanitize_import_name("x"), "");
    assert_eq!(sanitize_import_name("a/"), "");
}

#[test]
fn sanitized_names_are_identifiers() {
    for name in ["get Foo", "3d", "a-b.c", "\u{e9}t\u{e9}"] {
        assert!(is_valid_identifier(&sanitize_identifier(name)), "{name}");
    }
    assert_eq!(sanitize_identifier("get Foo"), "get_Foo");
    assert_eq!(sanitize_identifier("$valid_1"), "$valid_1");
    assert_eq!(sanitize_identifier(""), "");
}

#[test]
fn only_whole_words_are_replaced() {
    assert_eq!(
        replace_whole_word("closure_1 + closure_12 + $closure_1.closure_1", "closure_1", "x"),
        "x + closure_12 + $closure_1.x"
    );
    assert_eq!(replace_whole_word("aaa a", "a", "b"), "aaa b");
    assert_eq!(replace_whole_word("abc", "", "x"), "abc");
}

#[test]
fn placeholders_are_told_from_names() {
    for name in ["closure_3", "r12", "tmp", "obj4", "arr", "fetchResult2"] {
        assert!(is_generic_import_binding(name), "{name}");
    }
    for name in ["r", "tmpx", "objective", "Results"] {
        assert!(!is_generic_import_binding(name), "{name}");
    }
    assert!(is_bad_module_binding("exports"));
    assert!(!is_bad_module_binding("HTTPUtils"));
    assert_eq!(sanitize_loop_var("r10023", "item"), "item");
    assert_eq!(sanitize_loop_var("row", "item"), "row");
}

#[test]
fn every_name_of_a_list_counts_as_a_binding() {
    let mut imports = vec![
        "import { x, y } from \"M\";".to_string(),
        "import x from \"N\";".to_string(),
    ];
    dedupe_import_bindings(&mut imports);
    assert_eq!(imports, ["import { x, y } from \"M\";", "import \"N\";"]);
    assert_eq!(bindings_of_line(&imports[0]), ["x", "y"]);
    let once = imports.clone();
    dedupe_import_bindings(&mut imports);
    assert_eq!(imports, once);
}

#[test]
fn a_collapsed_header_stays_collapsed() {
    let lines = vec![
        "import { x } from \"M\" /* 1 */;".to_string(),
        "import a from \"N\" /* 2 */;".to_string(),
        "import { y as z,x } from \"M\" /* 3 */;".to_string(),
        "import a from \"N\" /* 4 */;".to_string(),
    ];
    let once = consolidate_imports(lines);
    assert_eq!(
        once,
        ["import { x, y as z } from \"M\" /* 1 */;", "import a from \"N\" /* 2 */;"]
    );
    assert_eq!(consolidate_imports(once.clone()), once);
}

#[test]
fn a_write_inside_an_expression_keeps_an_import_from_being_assigned() {
    let mut g = esm(vec![(0, "slice")]);
    let write = Expression::Assignment { target: Box::new(var("x")), value: Box::new(integer(2)) };
    let out = g.generate_esm_module(
        &vec![
            lets("x", call("require", vec![dependency(0)])),
            Statement::Return(Some(call("f", vec![write]))),
        ],
        1,
        None,
    );
    assert!(out.contains("import x_mod from \"slice\""), "{out}");
    assert!(out.contains("let x = x_mod;"), "{out}");
}

#[test]
fn a_module_binding_takes_no_name_that_holds_something_else() {
    let g = esm(vec![(0, "slice")]);
    let taken = g.import_binding_renames(&vec![
        lets("slice", integer(1)),
        lets("closure_0", call("require", vec![dependency(0)])),
    ]);
    assert_eq!(taken.get("closure_0").map(|s| s.as_str()), Some("slice2"));
    let same = g.import_binding_renames(&vec![
        lets("slice", call("require", vec![dependency(0)])),
        lets("closure_0", call("require", vec![dependency(0)])),
    ]);
    assert_eq!(same.get("closure_0").map(|s| s.as_str()), Some("slice"));
}

#[test]
fn a_closure_takes_no_name_that_a_list_imports() {
    let free = vec!["import closure_0 from \"_typeof\";".to_string()];
    assert_eq!(
        collect_closure_renames(&free),
        vec![("closure_0".to_string(), "_typeof".to_string())]
    );
    let taken = vec![
        "import { x as _typeof } from \"m\";".to_string(),
        "import closure_0 from \"_typeof\";".to_string(),
    ];
    assert_eq!(collect_closure_renames(&taken), vec![]);
}

#[test]
fn a_list_that_loses_a_name_only_loads_its_module() {
    let collide = |line: &str, body: &str| {
        let mut imports = vec![line.to_string()];
        resolve_import_declaration_collisions(&mut imports, &vec![body.to_string()], &mut vec![]);
        imports
    };
    assert_eq!(
        collide("import { x as a, y as b } from \"M\";", "let b = 1;\n"),
        ["import \"M\";"]
    );
    assert_eq!(collide("import { x, y } from \"M\";", "let x = 1;\n"), ["import \"M\";"]);
    assert_eq!(
        collide("import { x, y } from \"M\";", "let z = 1;\n"),
        ["import { x, y } from \"M\";"]
    );
}

#[test]
fn a_list_without_a_source_name_counts_as_a_binding() {
    let mut imports = vec![
        "import { as b } from \"M\";".to_string(),
        "import { as b } from \"N\";".to_string(),
    ];
    assert_eq!(parse_import_line(&imports[0]).0.as_deref(), Some("b"));
    assert_eq!(bindings_of_line(&imports[0]), ["b"]);
    dedupe_import_bindings(&mut imports);
    assert_eq!(imports, ["import { as b } from \"M\";", "import \"N\";"]);
}

#[test]
fn a_string_name_with_a_brace_is_collapsed_once() {
    let lines = vec![
        "import { \"a}b\" as c } from \"M\";".to_string(),
        "import { d } from \"M\";".to_string(),
    ];
    let once = consolidate_imports(lines);
    assert_eq!(consolidate_imports(once.clone()), once);
}

#[test]
fn an_indented_function_is_promoted() {
    let mut body = vec!["function outer() {\n  function inner() {\n  }\n}\n".to_string()];
    let mut exports = vec!["export const inner = 1;".to_string()];
    dedupe_function_export_collisions(&mut body, &mut exports);
    assert_eq!(body[0], "function outer() {\n  export function inner() {\n  }\n}\n");
    assert!(exports.is_empty());
}

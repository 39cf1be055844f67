use hbc_transforms::codegen::esm_classify::EsmClassification;
use hbc_transforms::codegen::esm_imports::consolidate_imports;
use hbc_transforms::codegen::esm_lines::{
    declared_name, dedupe_import_bindings, parse_import_line, resolve_import_declaration_collisions,
};
use hbc_transforms::codegen::esm_patterns::format_named_import;
use hbc_transforms::codegen::{Codegen, CodegenOptions};
use hbc_transforms::dict::NameSet;
use hbc_transforms::ir::{Constant, Expression, Value};
use hbc_transforms::names::sanitize_identifier;

fn require_call(id: i32) -> Expression {
    Expression::Call {
        callee: Box::new(Expression::Value(Value::Variable("require".into()))),
        arguments: vec![Expression::Value(Value::Constant(Constant::Integer(id)))],
    }
}

#[test]
fn a_name_written_once_stays_a_plain_import() {
    let cg = Codegen::new(CodegenOptions::new());
    let rebound = NameSet::new();
    match cg.import_classification("invariant", &require_call(31), &rebound) {
        Some(EsmClassification::Import(line)) => {
            assert!(line.starts_with("import invariant from "), "{line}");
        }
        _ => panic!("expected a plain import"),
    }
}

#[test]
fn a_rebound_name_gets_its_own_binding_and_a_local_alias() {
    // Hermes reuses one register for both halves of the interop dance, so the
    // module writes to the name again after the load. An import binding cannot
    // be assigned to, so the import takes a private name and the module keeps a
    // local it owns.
    let cg = Codegen::new(CodegenOptions::new());
    let mut rebound = NameSet::new();
    rebound.insert("invariant");
    match cg.import_classification("invariant", &require_call(31), &rebound) {
        Some(EsmClassification::ImportAndBody(imp, body)) => {
            assert!(imp.starts_with("import invariant_mod from "), "{imp}");
            assert_eq!(body, "let invariant = invariant_mod;\n");
        }
        _ => panic!("expected an import plus a local alias"),
    }
}

#[test]
fn parses_every_emitted_import_form() {
    let cases = [
        ("import foo from \"mod\";", (Some("foo"), Some("mod"))),
        ("import { foo } from \"mod\";", (Some("foo"), Some("mod"))),
        ("import { bar as foo } from \"mod\";", (Some("foo"), Some("mod"))),
        ("import { default as foo } from \"mod\";", (Some("foo"), Some("mod"))),
        ("import * as foo from \"mod\";", (Some("foo"), Some("mod"))),
        ("import \"mod\";", (None, Some("mod"))),
    ];
    for (line, want) in cases {
        let (binding, module) = parse_import_line(line);
        assert_eq!((binding.as_deref(), module.as_deref()), want, "parsing {line}");
    }
}

#[test]
fn identical_imports_collapse() {
    let mut imports = vec![
        "import polyfillGlobal from \"polyfillGlobal\";".to_string(),
        "import polyfillGlobal from \"polyfillGlobal\";".to_string(),
    ];
    dedupe_import_bindings(&mut imports);
    assert_eq!(imports, ["import polyfillGlobal from \"polyfillGlobal\";"]);
}

#[test]
fn conflicting_binding_is_demoted_to_a_side_effect_import() {
    // Two IR variables named `toPropertyKey`, importing different modules.
    let mut imports = vec![
        "import toPropertyKey from \"toPropertyKey\";".to_string(),
        "import toPropertyKey from \"infoLog\";".to_string(),
    ];
    dedupe_import_bindings(&mut imports);
    assert_eq!(
        imports,
        [
            "import toPropertyKey from \"toPropertyKey\";",
            "import \"infoLog\";",
        ]
    );
}

#[test]
fn the_module_the_name_came_from_keeps_the_binding() {
    // The conflicting import comes first here, so order must not decide it.
    let mut imports = vec![
        "import toPropertyKey from \"module_503\";".to_string(),
        "import toPropertyKey from \"toPropertyKey\";".to_string(),
    ];
    dedupe_import_bindings(&mut imports);
    assert_eq!(
        imports,
        [
            "import \"module_503\";",
            "import toPropertyKey from \"toPropertyKey\";",
        ]
    );
}

#[test]
fn distinct_bindings_are_left_alone() {
    let imports = vec![
        "import a from \"one\";".to_string(),
        "import { x as b } from \"two\";".to_string(),
        "import \"three\";".to_string(),
    ];
    let mut deduped = imports.clone();
    dedupe_import_bindings(&mut deduped);
    assert_eq!(deduped, imports);
}

#[test]
fn declared_names_are_read_from_top_level_only() {
    assert_eq!(declared_name("export const Foo = x;").as_deref(), Some("Foo"));
    assert_eq!(declared_name("function Foo(a) {").as_deref(), Some("Foo"));
    assert_eq!(declared_name("export async function* Foo(a) {").as_deref(), Some("Foo"));
    assert_eq!(declared_name("class Foo extends Bar {").as_deref(), Some("Foo"));
    assert_eq!(declared_name("let Foo;").as_deref(), Some("Foo"));
    // Nested in another declaration, so it introduces no top-level name.
    assert_eq!(declared_name("  const Foo = x;").as_deref(), None);
    assert_eq!(declared_name("export { Foo } from \"m\";").as_deref(), None);
    assert_eq!(declared_name("export default x;").as_deref(), None);
}

// A barrel binds a dependency under its own name and re-exports it, which
// the classifier spells out longhand as a colliding `export const`.
#[test]
fn longhand_reexport_becomes_a_real_reexport() {
    let mut imports = vec!["import DrawerActions from \"DrawerActions\";".to_string()];
    let mut exports = vec!["export const DrawerActions = DrawerActions.default;".to_string()];
    resolve_import_declaration_collisions(&mut imports, &vec![], &mut exports);
    assert_eq!(exports, ["export { default as DrawerActions } from \"DrawerActions\";"]);
    // The import stays: the body may still use the binding.
    assert_eq!(imports, ["import DrawerActions from \"DrawerActions\";"]);
}

#[test]
fn reexport_keeps_the_property_name() {
    let mut imports = vec!["import StackActions from \"StackActions\";".to_string()];
    let mut exports = vec!["export const StackActions = StackActions.StackActions;".to_string()];
    resolve_import_declaration_collisions(&mut imports, &vec![], &mut exports);
    assert_eq!(exports, ["export { StackActions } from \"StackActions\";"]);
}

#[test]
fn initializer_may_come_from_a_different_import() {
    let mut imports = vec![
        "import checksum from \"checksum\";".to_string(),
        "import EAN2 from \"EAN2\";".to_string(),
    ];
    let mut exports = vec!["export const EAN2 = checksum.default;".to_string()];
    resolve_import_declaration_collisions(&mut imports, &vec![], &mut exports);
    assert_eq!(exports, ["export { default as EAN2 } from \"checksum\";"]);
}

#[test]
fn a_local_value_is_exported_without_redeclaring_it() {
    let mut imports = vec!["import Constants from \"Constants\";".to_string()];
    let mut exports = vec!["export const Constants = obj;".to_string()];
    resolve_import_declaration_collisions(&mut imports, &vec![], &mut exports);
    assert_eq!(exports, ["export { obj as Constants };"]);
}

#[test]
fn an_inexpressible_initializer_demotes_the_import() {
    let mut imports = vec!["import Button from \"Facebook\";".to_string()];
    let mut exports = vec!["export const Button = require(3003).ShareAsset;".to_string()];
    resolve_import_declaration_collisions(&mut imports, &vec![], &mut exports);
    // The declaration keeps the name, the dependency stays visible.
    assert_eq!(exports, ["export const Button = require(3003).ShareAsset;"]);
    assert_eq!(imports, ["import \"Facebook\";"]);
}

#[test]
fn a_body_declaration_takes_the_name_from_the_import() {
    let mut imports = vec!["import getIteratorFn from \"getIteratorFn\";".to_string()];
    let body = vec!["function getIteratorFn(iterable) {
  return null;
}
".to_string()];
    let mut exports: Vec<String> = vec![];
    resolve_import_declaration_collisions(&mut imports, &body, &mut exports);
    assert_eq!(imports, ["import \"getIteratorFn\";"]);
}

#[test]
fn non_colliding_declarations_are_left_alone() {
    let mut imports = vec!["import dep from \"dep\";".to_string()];
    let body = vec!["function helper() {}
".to_string()];
    let mut exports = vec!["export const value = dep.default;".to_string()];
    let (i0, e0) = (imports.clone(), exports.clone());
    resolve_import_declaration_collisions(&mut imports, &body, &mut exports);
    assert_eq!((imports, exports), (i0, e0));
}

#[test]
fn collapses_exact_duplicate_default_imports() {
    let input = vec![
        "import _curry2 from \"_curry2\" /* 3251 */;".to_string(),
        "import _curry2 from \"_curry2\" /* 3251 */;".to_string(),
        "import _curry2 from \"_curry2\" /* 3251 */;".to_string(),
    ];
    assert_eq!(
        consolidate_imports(input),
        vec!["import _curry2 from \"_curry2\" /* 3251 */;".to_string()]
    );
}

#[test]
fn merges_named_imports_of_same_module() {
    let input = vec![
        "import { sendRequest } from \"HTTPUtils\" /* 530 */;".to_string(),
        "import { healthcheck } from \"HTTPUtils\" /* 530 */;".to_string(),
    ];
    assert_eq!(
        consolidate_imports(input),
        vec!["import { sendRequest, healthcheck } from \"HTTPUtils\" /* 530 */;".to_string()]
    );
}

#[test]
fn keeps_distinct_sources_separate_and_ordered() {
    let input = vec![
        "import a from \"A\" /* 1 */;".to_string(),
        "import { x } from \"B\" /* 2 */;".to_string(),
        "import a from \"A\" /* 1 */;".to_string(),
        "import { y } from \"B\" /* 2 */;".to_string(),
    ];
    assert_eq!(
        consolidate_imports(input),
        vec![
            "import a from \"A\" /* 1 */;".to_string(),
            "import { x, y } from \"B\" /* 2 */;".to_string(),
        ]
    );
}

#[test]
fn collapses_same_binding_different_ids_keeping_first() {
    // Module-name inference gave 3 distinct dependency ids the same name; the
    // body already uses one `_curry2` local, so the header must be one valid
    // import, keeping the first id as the remap hint.
    let input = vec![
        "import _curry2 from \"_curry2\" /* 3100 */;".to_string(),
        "import _curry2 from \"_curry2\" /* 3159 */;".to_string(),
        "import _curry2 from \"_curry2\" /* 3192 */;".to_string(),
    ];
    assert_eq!(
        consolidate_imports(input),
        vec!["import _curry2 from \"_curry2\" /* 3100 */;".to_string()]
    );
}

#[test]
fn merges_same_specifier_different_ids_keeping_first() {
    let input = vec![
        "import { x } from \"M\" /* 1 */;".to_string(),
        "import { y } from \"M\" /* 2 */;".to_string(),
    ];
    assert_eq!(
        consolidate_imports(input),
        vec!["import { x, y } from \"M\" /* 1 */;".to_string()]
    );
}

#[test]
fn keeps_distinct_bindings_of_same_module() {
    // Different local bindings from the same module are distinct imports.
    let input = vec![
        "import a from \"M\" /* 1 */;".to_string(),
        "import b from \"M\" /* 1 */;".to_string(),
    ];
    assert_eq!(
        consolidate_imports(input),
        vec![
            "import a from \"M\" /* 1 */;".to_string(),
            "import b from \"M\" /* 1 */;".to_string(),
        ]
    );
}

#[test]
fn spaced_default_binding_sanitizes() {
    let local = sanitize_identifier("get ActivityIndicator");
    assert_eq!(local, "get_ActivityIndicator");
    let s = format!("import {local} from \"get ActivityIndicator\";");
    assert!(s.contains("import get_ActivityIndicator from"));
    assert!(!s.contains("import get ActivityIndicator from"));
}

#[test]
fn spaced_named_export_uses_string_name() {
    let s = format_named_import("get Foo", "get_Foo", "mod", None);
    assert_eq!(s, "import { \"get Foo\" as get_Foo } from \"mod\";");
}

#[test]
fn valid_named_shorthand() {
    let s = format_named_import("AppRegistry", "AppRegistry", "react-native", None);
    assert_eq!(s, "import { AppRegistry } from \"react-native\";");
}

#[test]
fn named_import_carries_id_comment() {
    let s = format_named_import("sendRequest", "sendRequest", "HTTPUtils", Some(530));
    assert_eq!(s, "import { sendRequest } from \"HTTPUtils\" /* 530 */;");
}

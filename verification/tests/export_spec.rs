use nyar_mir::export_spec::{
    parse_export_spec_from_annotations, snake_case_to_camel_case, HirArgument, HirAttribute, HirExportSpec,
    HirExpr, HirExprKind, HirLiteral, HirStringLiteral, HirStringSegment,
};
use nyar_mir::names::NamePath;

fn path(parts: &[&str]) -> NamePath {
    NamePath::new(parts.iter().map(|p| p.to_string()).collect())
}

fn text(value: &str) -> HirExpr {
    HirExpr {
        kind: HirExprKind::Literal(HirLiteral::String(HirStringLiteral {
            segments: vec![HirStringSegment::Text(value.to_string())],
        })),
    }
}

fn keyed(key: &str, value: HirExpr) -> HirArgument {
    HirArgument { key: Some(key.to_string()), value }
}

fn positional(value: HirExpr) -> HirArgument {
    HirArgument { key: None, value }
}

fn attribute(name: &[&str], arguments: Vec<HirArgument>) -> HirAttribute {
    HirAttribute { name: path(name), arguments }
}

#[test]
fn snake_case_to_camel_case_examples() {
    assert_eq!(snake_case_to_camel_case("two_sum"), "twoSum");
    assert_eq!(snake_case_to_camel_case("max_sub_array"), "maxSubArray");
    assert_eq!(snake_case_to_camel_case("api_ping"), "apiPing");
}

#[test]
fn camel_case_edge_cases() {
    assert_eq!(snake_case_to_camel_case(""), "");
    assert_eq!(snake_case_to_camel_case("plain"), "plain");
    assert_eq!(snake_case_to_camel_case("_leading"), "Leading");
    assert_eq!(snake_case_to_camel_case("double__under"), "doubleUnder");
    assert_eq!(snake_case_to_camel_case("trailing_"), "trailing");
    assert_eq!(snake_case_to_camel_case("stra_ße"), "straSSe");
}

#[test]
fn bare_export_uses_default_partition() {
    let spec = parse_export_spec_from_annotations(&[attribute(&["export"], vec![])]).expect("export spec");
    assert_eq!(spec.partitions, vec!["default".to_string()]);
    assert_eq!(spec.export_name, None);
    assert_eq!(spec.export_case, None);
    assert_eq!(spec.primary_partition(), "default");
}

#[test]
fn no_export_attribute_gives_none() {
    assert!(parse_export_spec_from_annotations(&[attribute(&["inline"], vec![])]).is_none());
    assert!(parse_export_spec_from_annotations(&[]).is_none());
}

#[test]
fn path_partition_name_and_case() {
    let annotations = vec![
        attribute(&["inline"], vec![]),
        attribute(
            &["core", "export"],
            vec![
                positional(HirExpr { kind: HirExprKind::Path(path(&["unity", "runtime"])) }),
                keyed("name", text("twoSum")),
                keyed("case", text("camelCase")),
            ],
        ),
        attribute(&["export"], vec![positional(text("ignored"))]),
    ];
    let spec = parse_export_spec_from_annotations(&annotations).expect("export spec");
    assert_eq!(spec.partitions, vec!["unity.runtime".to_string()]);
    assert_eq!(spec.primary_partition(), "unity.runtime");
    assert_eq!(spec.export_name, Some("twoSum".to_string()));
    assert_eq!(spec.export_case, Some("camelCase".to_string()));
    assert_eq!(spec.resolve_exported_name(&"two_sum".to_string()), "twoSum");
}

#[test]
fn keyed_arguments_without_partition_default() {
    let annotations = vec![attribute(&["export"], vec![keyed("case", text("camelCase"))])];
    let spec = parse_export_spec_from_annotations(&annotations).expect("export spec");
    assert_eq!(spec.partitions, vec!["default".to_string()]);
    assert_eq!(spec.resolve_exported_name(&"max_sub_array".to_string()), "maxSubArray");
}

#[test]
fn other_key_names_the_export_once() {
    let annotations = vec![attribute(
        &["export"],
        vec![keyed("first", HirExpr { kind: HirExprKind::Other }), keyed("second", HirExpr { kind: HirExprKind::Other })],
    )];
    let spec = parse_export_spec_from_annotations(&annotations).expect("export spec");
    assert_eq!(spec.export_name, Some("first".to_string()));
}

#[test]
fn interpolated_literal_is_not_a_partition() {
    let interpolated = HirExpr {
        kind: HirExprKind::Literal(HirLiteral::String(HirStringLiteral {
            segments: vec![
                HirStringSegment::Text("a".to_string()),
                HirStringSegment::Interpolation(Box::new(HirExpr { kind: HirExprKind::Other })),
            ],
        })),
    };
    let annotations = vec![attribute(&["export"], vec![positional(interpolated), positional(text("wasm"))])];
    let spec = parse_export_spec_from_annotations(&annotations).expect("export spec");
    assert_eq!(spec.partitions, vec!["wasm".to_string()]);
}

#[test]
fn exported_name_casing_rules() {
    let spec = |case: Option<&str>| HirExportSpec {
        partitions: vec![],
        export_name: None,
        export_case: case.map(|c| c.to_string()),
    };
    let local = "api_ping".to_string();
    assert_eq!(spec(None).resolve_exported_name(&local), "api_ping");
    assert_eq!(spec(Some("snake_case")).resolve_exported_name(&local), "api_ping");
    assert_eq!(spec(Some("camelCase")).resolve_exported_name(&local), "apiPing");
    assert_eq!(spec(Some("Custom")).resolve_exported_name(&local), "Custom");
    assert_eq!(spec(None).primary_partition(), "default");
}

use agentcorp::schema::{resolve_ref, schema_type, strip_definitions_prefix};
use agentcorp::web::brand_colors;

const DEFS: &str = r#"{"Llm": {"type": "object"}, "Port": {"type": "integer"}}"#;

#[test]
fn ref_prefix_is_stripped() {
    assert_eq!(strip_definitions_prefix("#/definitions/Llm"), "Llm");
    assert_eq!(strip_definitions_prefix("Llm"), "Llm");
    assert_eq!(strip_definitions_prefix("#/other/Llm"), "#/other/Llm");
}

#[test]
fn direct_ref_resolves_to_definition() {
    let schema = r##"{"$ref": "#/definitions/Llm"}"##;
    assert_eq!(resolve_ref(schema, DEFS), r#"{"type":"object"}"#);
}

#[test]
fn unknown_ref_keeps_schema() {
    let schema = r##"{"$ref": "#/definitions/Missing"}"##;
    assert_eq!(resolve_ref(schema, DEFS), schema);
}

#[test]
fn all_of_takes_first_known_ref() {
    let schema = r##"{"allOf": [{"$ref": "#/definitions/Missing"}, {"$ref": "#/definitions/Port"}]}"##;
    assert_eq!(resolve_ref(schema, DEFS), r#"{"type":"integer"}"#);
    let none = r##"{"allOf": [{"description": "x"}]}"##;
    assert_eq!(resolve_ref(none, DEFS), none);
}

#[test]
fn plain_schema_is_itself() {
    let schema = r#"{"type": "boolean"}"#;
    assert_eq!(resolve_ref(schema, DEFS), schema);
}

#[test]
fn schema_types_default_to_string() {
    assert_eq!(schema_type(r#"{"type": "integer"}"#), "integer");
    assert_eq!(schema_type(r#"{"description": "d"}"#), "string");
    assert_eq!(schema_type(r#"{"type": 5}"#), "string");
}

#[test]
fn palette_has_sixteen_shades() {
    let colors = brand_colors();
    assert_eq!(colors.len(), 16);
    assert_eq!(colors[0], (10, "#030108"));
    assert_eq!(colors[15], (160, "#FCFBFF"));
}

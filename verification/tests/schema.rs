use ghidra_mcp::names::sanitize;
use ghidra_mcp::schema::{
    default_method, default_type, json_type, parse, RawParam, RawSchema, RawTool, ToolDef,
};
use serde_json::Value;

fn text(v: &Value, key: &str) -> Option<String> {
    v.get(key).map(|s| s.as_str().expect("a string").to_owned())
}

fn items(v: &Value, key: &str) -> Vec<Value> {
    match v.get(key) {
        Some(list) => list.as_array().expect("an array").clone(),
        None => Vec::new(),
    }
}

fn raw_param(v: &Value) -> RawParam {
    RawParam {
        name: text(v, "name").expect("a parameter has a name"),
        kind: text(v, "type").unwrap_or_else(default_type),
        description: text(v, "description"),
        required: v.get("required").map_or(false, |r| r.as_bool().unwrap()),
    }
}

fn raw_tool(v: &Value) -> RawTool {
    RawTool {
        path: text(v, "path").expect("a tool has a path"),
        method: text(v, "method").unwrap_or_else(default_method),
        name: text(v, "name"),
        description: text(v, "description").unwrap_or_default(),
        category: text(v, "category").unwrap_or_default(),
        params: items(v, "params").iter().map(raw_param).collect(),
    }
}

fn schema(json: &str) -> Vec<ToolDef> {
    let v: Value = serde_json::from_str(json).expect("schema parses");
    parse(RawSchema {
        tools: items(&v, "tools").iter().map(raw_tool).collect(),
    })
}

fn names(json: &str) -> Vec<String> {
    schema(json).into_iter().map(|t| t.name).collect()
}

#[test]
fn a_tool_becomes_an_mcp_tool_with_a_json_schema() {
    let t = schema(
        r#"{"tools":[{"path":"/decompile_function","method":"POST",
             "description":"Decompile","category":"function",
             "params":[{"name":"address","type":"string","required":true,
                        "description":"Entry point"},
                       {"name":"timeout","type":"integer","required":false}]}]}"#,
    );
    assert_eq!(t.len(), 1);
    assert_eq!(t[0].name, "decompile_function");
    assert_eq!(t[0].endpoint, "/decompile_function");
    assert_eq!(t[0].http_method, "POST");

    let props = t[0].input_schema["properties"].as_object().unwrap();
    assert_eq!(props["address"]["type"], "string");
    assert_eq!(props["address"]["description"], "Entry point");
    assert_eq!(props["timeout"]["type"], "integer");

    let req = t[0].input_schema["required"].as_array().unwrap();
    assert!(req.contains(&Value::String("address".into())));
    assert!(!req.contains(&Value::String("timeout".into())));
}

#[test]
fn colliding_names_are_suffixed_not_dropped() {
    let t = schema(
        r#"{"tools":[{"path":"/get/thing","params":[]},
                     {"path":"/get_thing","params":[]}]}"#,
    );
    assert_eq!(t.len(), 2, "neither tool may be dropped");
    assert_eq!(t[0].name, "get_thing");
    assert_eq!(t[1].name, "get_thing_2");
    assert_eq!(t[0].endpoint, "/get/thing");
    assert_eq!(t[1].endpoint, "/get_thing");
}

#[test]
fn method_defaults_to_get_and_missing_params_are_an_empty_object() {
    let t = schema(r#"{"tools":[{"path":"/check_connection"}]}"#);
    assert_eq!(t[0].http_method, "GET");
    assert!(t[0].input_schema["properties"]
        .as_object()
        .unwrap()
        .is_empty());
    assert!(t[0].input_schema["required"].as_array().unwrap().is_empty());
}

#[test]
fn unknown_types_degrade_to_string_rather_than_being_omitted() {
    let t = schema(
        r#"{"tools":[{"path":"/x","params":[
             {"name":"a","type":"any"},{"name":"b","type":"address"}]}]}"#,
    );
    let props = t[0].input_schema["properties"].as_object().unwrap();
    assert_eq!(props["a"]["type"], "string");
    assert_eq!(props["b"]["type"], "string");
}

#[test]
fn an_empty_schema_is_not_an_error() {
    assert!(schema(r#"{"tools":[]}"#).is_empty());
    assert!(schema(r#"{}"#).is_empty());
}

#[test]
fn the_whole_schema_is_as_written() {
    let t = schema(
        r#"{"tools":[{"path":"/x","params":[
             {"name":"a","type":"number","required":true,"description":"first"},
             {"name":"b","description":""},
             {"name":"c","type":"array","required":true}]}]}"#,
    );
    let expected: Value = serde_json::from_str(
        r#"{"type":"object",
            "properties":{"a":{"type":"number","description":"first"},
                          "b":{"type":"string"},
                          "c":{"type":"array"}},
            "required":["a","c"]}"#,
    )
    .unwrap();
    assert_eq!(Value::Object(t[0].input_schema.clone()), expected);
}

#[test]
fn a_later_parameter_of_one_name_counts() {
    let t = schema(
        r#"{"tools":[{"path":"/x","params":[
             {"name":"a","type":"integer","required":true,"description":"old"},
             {"name":"a","type":"boolean","required":true}]}]}"#,
    );
    let expected: Value = serde_json::from_str(
        r#"{"type":"object","properties":{"a":{"type":"boolean"}},"required":["a","a"]}"#,
    )
    .unwrap();
    assert_eq!(Value::Object(t[0].input_schema.clone()), expected);
}

#[test]
fn description_and_method_are_carried_over() {
    let t = schema(
        r#"{"tools":[{"path":"//y","method":"PUT","name":"why","description":"Because"}]}"#,
    );
    assert_eq!(t[0].name, "why");
    assert_eq!(t[0].description, "Because");
    assert_eq!(t[0].endpoint, "//y");
    assert_eq!(t[0].http_method, "PUT");
}

#[test]
fn suffixes_count_up_and_skip_names_in_use() {
    assert_eq!(
        names(
            r#"{"tools":[{"path":"/a"},{"path":"/a_2"},{"path":"a"},{"path":"/a"},
                         {"path":"/a_2"}]}"#
        ),
        ["a", "a_2", "a_3", "a_4", "a_2_2"]
    );
}

#[test]
fn a_suffix_has_as_many_digits_as_it_needs() {
    let tools: Vec<String> = (0..12).map(|_| r#"{"path":"/a"}"#.to_owned()).collect();
    let all = names(&format!(r#"{{"tools":[{}]}}"#, tools.join(",")));
    assert_eq!(all[8], "a_9");
    assert_eq!(all[9], "a_10");
    assert_eq!(all[11], "a_12");
}

#[test]
fn a_name_of_which_nothing_is_left_becomes_tool() {
    assert_eq!(
        names(r#"{"tools":[{"path":"/"},{"path":"/x","name":"///"},{"path":"/_$_"}]}"#),
        ["tool", "tool_2", "tool_3"]
    );
}

#[test]
fn earlier_names_do_not_depend_on_later_tools() {
    let short = names(r#"{"tools":[{"path":"/a"},{"path":"/b"}]}"#);
    let long = names(r#"{"tools":[{"path":"/a"},{"path":"/b"},{"path":"/a"},{"path":"/b"}]}"#);
    assert_eq!(long[..2], short[..]);
    assert_eq!(long[2..], ["a_2", "b_2"]);
}

#[test]
fn sanitizing_yields_identifiers() {
    assert_eq!(sanitize("/get/thing"), "get_thing");
    assert_eq!(sanitize("///a b-c__"), "a_b-c");
    assert_eq!(sanitize("_/x"), "x");
    assert_eq!(sanitize("gr\u{fc}n"), "gr_n");
    assert_eq!(sanitize("a/"), "a");
    assert_eq!(sanitize(""), "");
    assert_eq!(sanitize("____"), "");
    assert_eq!(sanitize("A-9_z"), "A-9_z");
}

#[test]
fn sanitizing_twice_is_sanitizing_once() {
    for raw in ["/get/thing", "/_/x", "\u{1f600}a", "-_-"] {
        let once = sanitize(raw);
        assert_eq!(sanitize(&once), once);
    }
}

#[test]
fn json_schema_types_are_kept() {
    for t in ["integer", "boolean", "number", "object", "array", "string"] {
        assert_eq!(json_type(t), t);
    }
    for t in ["any", "address", "json", "Integer", ""] {
        assert_eq!(json_type(t), "string");
    }
}

#[test]
fn defaults_are_get_and_string() {
    assert_eq!(default_method(), "GET");
    assert_eq!(default_type(), "string");
}

#[test]
fn a_cloned_tool_is_the_same_tool() {
    let t = schema(r#"{"tools":[{"path":"/x","params":[{"name":"a","required":true}]}]}"#);
    let copy = t[0].clone();
    assert_eq!(copy.name, t[0].name);
    assert_eq!(copy.endpoint, t[0].endpoint);
    assert_eq!(copy.http_method, t[0].http_method);
    assert_eq!(copy.description, t[0].description);
    assert_eq!(copy.input_schema, t[0].input_schema);
    assert_eq!(copy.input_schema.len(), 3);
}

//! The `/mcp/schema` contract: the Ghidra server describes its endpoints, and the
//! description becomes MCP tools at run time.
//!
//! No tool is listed here: a tool that is added on the server's side appears with
//! no change to the bridge.

use vstd::hash_set::StringHashSet;
use vstd::prelude::*;

use crate::json::{
    clone_object, empty_object, insert_member, list_value, members_of, no_members, object_value,
    text_value, value_of, Json,
};
use crate::names::{allocate, allocated, candidate, decimal, identifier, sanitize, sanitized};
use crate::text::same_text;

verus! {

/// The description as the server sends it.
#[derive(Debug)]
pub struct RawSchema {
    pub tools: Vec<RawTool>,
}

/// One endpoint as the server describes it.
#[derive(Debug)]
pub struct RawTool {
    pub path: String,
    pub method: String,
    pub name: Option<String>,
    pub description: String,
    pub category: String,
    pub params: Vec<RawParam>,
}

/// One parameter of an endpoint; `kind` is the server's word for its type.
#[derive(Debug)]
pub struct RawParam {
    pub name: String,
    pub kind: String,
    pub description: Option<String>,
    pub required: bool,
}

/// One tool, resolved: the name that MCP clients see, the JSON Schema that they
/// validate against, and the HTTP call to make on the server.
#[derive(Debug)]
pub struct ToolDef {
    pub name: String,
    pub description: String,
    pub endpoint: String,
    pub http_method: String,
    pub input_schema: serde_json::Map<String, serde_json::Value>,
}

impl Clone for ToolDef {
    fn clone(&self) -> (copy: Self)
        ensures
            copy.name@ == self.name@,
            copy.description@ == self.description@,
            copy.endpoint@ == self.endpoint@,
            copy.http_method@ == self.http_method@,
            members_of(copy.input_schema) == members_of(self.input_schema),
    {
        ToolDef {
            name: self.name.clone(),
            description: self.description.clone(),
            endpoint: self.endpoint.clone(),
            http_method: self.http_method.clone(),
            input_schema: clone_object(&self.input_schema),
        }
    }
}

/// The JSON Schema type for the server's word: the word itself where JSON Schema
/// has it, and `string` for every other one.
pub open spec fn json_type_of(t: Seq<char>) -> Seq<char> {
    if t == "integer"@ || t == "boolean"@ || t == "number"@ || t == "object"@ || t == "array"@ {
        t
    } else {
        "string"@
    }
}

/// The schema of one parameter: its type, and its description unless that is
/// absent or empty.
pub open spec fn param_schema(p: RawParam) -> Map<Seq<char>, Json> {
    let typed = no_members().insert("type"@, Json::Text(json_type_of(p.kind@)));
    match p.description {
        Some(d) if d@.len() > 0 => typed.insert("description"@, Json::Text(d@)),
        _ => typed,
    }
}

/// The parameters by name; of two with one name the later counts.
pub open spec fn properties(params: Seq<RawParam>) -> Map<Seq<char>, Json>
    decreases params.len(),
{
    if params.len() == 0 {
        no_members()
    } else {
        let last = params.last();
        properties(params.drop_last()).insert(last.name@, Json::Object(param_schema(last)))
    }
}

/// The names of the required parameters, in their order.
pub open spec fn required_names(params: Seq<RawParam>) -> Seq<Json> {
    params.filter(|p: RawParam| p.required).map_values(|p: RawParam| Json::Text(p.name@))
}

/// The JSON Schema for an endpoint's parameters.
pub open spec fn input_schema_of(params: Seq<RawParam>) -> Map<Seq<char>, Json> {
    no_members().insert("type"@, Json::Text("object"@)).insert(
        "properties"@,
        Json::Object(properties(params)),
    ).insert("required"@, Json::List(required_names(params)))
}

/// The name that a tool asks for: its own or else its path, sanitized, and `tool`
/// where nothing is left.
pub open spec fn base_name(t: RawTool) -> Seq<char> {
    let raw = match t.name {
        Some(name) => name@,
        None => t.path@,
    };
    if sanitized(raw).len() == 0 {
        "tool"@
    } else {
        sanitized(raw)
    }
}

/// The names of the tools, each allocated among those before it.
pub open spec fn tool_names(tools: Seq<RawTool>) -> Seq<Seq<char>>
    decreases tools.len(),
{
    if tools.len() == 0 {
        Seq::empty()
    } else {
        let before = tool_names(tools.drop_last());
        before.push(allocated(before.to_set(), base_name(tools.last())))
    }
}

/// `d` is the tool for the endpoint `t`, under `name`.
pub open spec fn resolves(d: ToolDef, t: RawTool, name: Seq<char>) -> bool {
    &&& d.name@ == name
    &&& d.description@ == t.description@
    &&& d.endpoint@ == t.path@
    &&& d.http_method@ == t.method@
    &&& members_of(d.input_schema) == input_schema_of(t.params@)
}

/// The HTTP method of an endpoint that names none.
pub fn default_method() -> (method: String)
    ensures
        method@ == "GET"@,
{
    "GET".to_owned()
}

/// The type of a parameter that names none.
pub fn default_type() -> (kind: String)
    ensures
        kind@ == "string"@,
{
    "string".to_owned()
}

/// Map the server's loose type vocabulary onto JSON Schema types.
///
/// `address` and `json` are transported as strings; `any` has no counterpart and
/// becomes a string as well, since a schema without a type would let a client
/// send anything.
pub fn json_type(t: &str) -> (r: &'static str)
    ensures
        r@ == json_type_of(t@),
        r@ == t@ || r@ == "string"@,
        t@ == "integer"@ || t@ == "boolean"@ || t@ == "number"@ || t@ == "object"@ || t@
            == "array"@ ==> r@ == t@,
        r@ == "integer"@ || r@ == "boolean"@ || r@ == "number"@ || r@ == "object"@ || r@ == "array"@
            || r@ == "string"@,
{
    if same_text(t, "integer") {
        "integer"
    } else if same_text(t, "boolean") {
        "boolean"
    } else if same_text(t, "number") {
        "number"
    } else if same_text(t, "object") {
        "object"
    } else if same_text(t, "array") {
        "array"
    } else {
        "string"
    }
}

/// The schema of one parameter.
fn describe_param(p: &RawParam) -> (schema: serde_json::Map<String, serde_json::Value>)
    ensures
        members_of(schema) == param_schema(*p),
{
    let mut schema = empty_object();
    insert_member(
        &mut schema,
        "type".to_owned(),
        text_value(json_type(p.kind.as_str()).to_owned()),
    );
    if let Some(d) = &p.description {
        if !d.as_str().is_empty() {
            insert_member(&mut schema, "description".to_owned(), text_value(d.clone()));
        }
    }
    schema
}

/// The JSON Schema for an endpoint's parameters.
fn describe_params(params: &Vec<RawParam>) -> (schema: serde_json::Map<
    String,
    serde_json::Value,
>)
    ensures
        members_of(schema) == input_schema_of(params@),
{
    let mut by_name = empty_object();
    let mut required: Vec<serde_json::Value> = Vec::new();
    let mut i: usize = 0;
    while i < params.len()
        invariant
            i <= params@.len(),
            members_of(by_name) == properties(params@.take(i as int)),
            required@.map_values(|v: serde_json::Value| value_of(v)) == required_names(
                params@.take(i as int),
            ),
        decreases params@.len() - i,
    {
        let p = &params[i];
        assert(params@.take(i + 1).drop_last() =~= params@.take(i as int));
        insert_member(&mut by_name, p.name.clone(), object_value(describe_param(p)));
        if p.required {
            required.push(text_value(p.name.clone()));
        }
        proof {
            assert(params@.take(i + 1) =~= params@.take(i as int).push(*p));
            lemma_required_push(params@.take(i as int), *p);
            assert(required@.map_values(|v: serde_json::Value| value_of(v)) =~= required_names(
                params@.take(i + 1),
            ));
        }
        i = i + 1;
    }
    assert(params@.take(i as int) =~= params@);
    let mut schema = empty_object();
    insert_member(&mut schema, "type".to_owned(), text_value("object".to_owned()));
    insert_member(&mut schema, "properties".to_owned(), object_value(by_name));
    insert_member(&mut schema, "required".to_owned(), list_value(required));
    schema
}

/// Turn the server's description into tools, with no name used twice.
///
/// Of endpoints that ask for one name the first keeps it and the others get the
/// suffixes `_2`, `_3`, and so on: dropping one would silently remove a
/// capability.
pub fn parse(raw: RawSchema) -> (out: Vec<ToolDef>)
    ensures
        out@.len() == raw.tools@.len(),
        forall|i: int|
            0 <= i < out@.len() ==> resolves(
                #[trigger] out@[i],
                raw.tools@[i],
                tool_names(raw.tools@)[i],
            ),
        forall|i: int|
            0 <= i < out@.len() ==> {
                &&& (#[trigger] out@[i]).name@ == tool_names(raw.tools@)[i]
                &&& out@[i].description@ == raw.tools@[i].description@
                &&& out@[i].endpoint@ == raw.tools@[i].path@
                &&& out@[i].http_method@ == raw.tools@[i].method@
                &&& members_of(out@[i].input_schema) == input_schema_of(raw.tools@[i].params@)
                &&& members_of(out@[i].input_schema)["type"@] == Json::Text("object"@)
                &&& members_of(out@[i].input_schema)["properties"@] is Object
                &&& members_of(out@[i].input_schema)["required"@] is List
            },
        forall|i: int, n: Seq<char>|
            0 <= i < out@.len() ==> (#[trigger] members_of(
                out@[i].input_schema,
            )["properties"@]->Object_0.contains_key(n) <==> exists|j: int|
                0 <= j < raw.tools@[i].params@.len() && (
                #[trigger] raw.tools@[i].params@[j]).name@ == n),
        forall|i: int, n: Seq<char>|
            0 <= i < out@.len() ==> (#[trigger] members_of(
                out@[i].input_schema,
            )["required"@]->List_0.contains(Json::Text(n)) <==> exists|j: int|
                0 <= j < raw.tools@[i].params@.len() && (
                #[trigger] raw.tools@[i].params@[j]).required && raw.tools@[i].params@[j].name@
                    == n),
        forall|i: int, j: int|
            0 <= i < j < out@.len() ==> (#[trigger] out@[i]).name@ != (#[trigger] out@[j]).name@,
{
    let ghost tools = raw.tools@;
    let mut used = StringHashSet::new();
    let mut out: Vec<ToolDef> = Vec::with_capacity(raw.tools.len());
    proof {
        assert(tool_names(tools.take(0)).to_set() =~= Set::empty());
        lemma_names_of_prefix(tools, 0);
    }
    for t in it: raw.tools
        invariant
            it.seq() == tools,
            out@.len() == it.index(),
            tools.len() <= usize::MAX,
            used@ == tool_names(tools.take(it.index() as int)).to_set(),
            forall|j: int|
                0 <= j < out@.len() ==> resolves(
                    #[trigger] out@[j],
                    tools[j],
                    tool_names(tools)[j],
                ),
    {
        proof {
            let k = it.index() as int;
            let before = tool_names(tools.take(k));
            lemma_names_of_prefix(tools, k);
            lemma_names_of_prefix(tools, k + 1);
            assert(tools.take(k + 1).drop_last() =~= tools.take(k));
            before.lemma_cardinality_of_set();
            vstd::seq_lib::seq_to_set_is_finite(before);
            let added = allocated(before.to_set(), base_name(t));
            assert(tool_names(tools.take(k + 1)) == before.push(added));
            lemma_set_of_push(before, added);
            assert(tool_names(tools.take(k + 1))[k] == tool_names(tools)[k]);
        }
        let asked = match &t.name {
            Some(name) => sanitize(name.as_str()),
            None => sanitize(t.path.as_str()),
        };
        let base = if asked.as_str().is_empty() {
            "tool".to_owned()
        } else {
            asked
        };
        let name = allocate(&mut used, base.as_str());
        let input_schema = describe_params(&t.params);
        out.push(
            ToolDef {
                name,
                description: t.description,
                endpoint: t.path,
                http_method: t.method,
                input_schema,
            },
        );
    }
    proof {
        lemma_names_of_prefix(tools, 0);
        law_names_are_distinct(tools);
        assert forall|i: int| 0 <= i < out@.len() implies {
            &&& members_of((#[trigger] out@[i]).input_schema)["type"@] == Json::Text("object"@)
            &&& members_of(out@[i].input_schema)["properties"@] is Object
            &&& members_of(out@[i].input_schema)["required"@] is List
        } by {
            law_members_of_an_input_schema(tools[i].params@);
        }
        assert forall|i: int, n: Seq<char>| 0 <= i < out@.len() implies (#[trigger] members_of(
            out@[i].input_schema,
        )["properties"@]->Object_0.contains_key(n) <==> exists|j: int|
            0 <= j < tools[i].params@.len() && (#[trigger] tools[i].params@[j]).name@ == n) by {
            law_input_schema_describes_the_parameters(tools[i].params@, n);
        }
        assert forall|i: int, n: Seq<char>| 0 <= i < out@.len() implies (#[trigger] members_of(
            out@[i].input_schema,
        )["required"@]->List_0.contains(Json::Text(n)) <==> exists|j: int|
            0 <= j < tools[i].params@.len() && (#[trigger] tools[i].params@[j]).required
                && tools[i].params@[j].name@ == n) by {
            law_input_schema_describes_the_parameters(tools[i].params@, n);
        }
    }
    out
}

proof fn lemma_required_push(params: Seq<RawParam>, p: RawParam)
    ensures
        required_names(params.push(p)) == if p.required {
            required_names(params).push(Json::Text(p.name@))
        } else {
            required_names(params)
        },
{
    reveal(Seq::filter);
    let wanted = |p: RawParam| p.required;
    assert(params.push(p).drop_last() =~= params);
    assert(params.push(p).filter(wanted) == if p.required {
        params.filter(wanted).push(p)
    } else {
        params.filter(wanted)
    });
    if p.required {
        assert(required_names(params.push(p)) =~= required_names(params).push(
            Json::Text(p.name@),
        ));
    }
}

proof fn lemma_set_of_push(names: Seq<Seq<char>>, name: Seq<char>)
    ensures
        names.push(name).to_set() == names.to_set().insert(name),
{
    assert forall|n: Seq<char>| #[trigger]
        names.push(name).contains(n) == (names.contains(n) || n == name) by {
        if names.contains(n) {
            let i = choose|i: int| 0 <= i < names.len() && names[i] == n;
            assert(names.push(name)[i] == n);
        }
        if n == name {
            assert(names.push(name)[names.len() as int] == n);
        }
    }
    assert(names.push(name).to_set() =~= names.to_set().insert(name));
}

/// There is one name for each tool, and the first `k` names are those of the first
/// `k` tools.
proof fn lemma_names_of_prefix(tools: Seq<RawTool>, k: int)
    requires
        0 <= k <= tools.len(),
    ensures
        tool_names(tools).len() == tools.len(),
        tool_names(tools.take(k)).len() == k,
        tool_names(tools.take(k)) == tool_names(tools).take(k),
    decreases tools.len(),
{
    if tools.len() == 0 {
        assert(tools.take(k) =~= tools);
        assert(tool_names(tools).take(k) =~= tool_names(tools));
    } else if k == tools.len() {
        lemma_names_of_prefix(tools.drop_last(), 0);
        assert(tools.take(k) =~= tools);
        assert(tool_names(tools).take(k) =~= tool_names(tools));
    } else {
        lemma_names_of_prefix(tools.drop_last(), k);
        assert(tools.drop_last().take(k) =~= tools.take(k));
        assert(tool_names(tools).take(k) =~= tool_names(tools.drop_last()).take(k));
    }
}

/// No two tools have one name.
pub proof fn law_names_are_distinct(tools: Seq<RawTool>)
    ensures
        tool_names(tools).no_duplicates(),
    decreases tools.len(),
{
    if tools.len() > 0 {
        let before = tool_names(tools.drop_last());
        law_names_are_distinct(tools.drop_last());
        vstd::seq_lib::seq_to_set_is_finite(before);
        crate::names::law_allocated_name_is_the_first_free(
            before.to_set(),
            base_name(tools.last()),
        );
        let name = tool_names(tools).last();
        assert forall|i: int| 0 <= i < before.len() implies before[i] != name by {
            assert(before.contains(before[i]));
        }
    }
}

/// Every tool's name is an identifier, whatever the server calls the endpoint.
pub proof fn law_names_are_identifiers(tools: Seq<RawTool>, i: int)
    requires
        0 <= i < tools.len(),
    ensures
        identifier(tool_names(tools)[i]),
    decreases tools.len(),
{
    lemma_names_of_prefix(tools, 0);
    lemma_names_of_prefix(tools.drop_last(), 0);
    if i < tools.len() - 1 {
        law_names_are_identifiers(tools.drop_last(), i);
        assert(tool_names(tools)[i] == tool_names(tools.drop_last())[i]);
    } else {
        let t = tools.last();
        let raw = match t.name {
            Some(name) => name@,
            None => t.path@,
        };
        crate::names::law_sanitized_is_an_identifier(raw);
        assert(identifier("tool"@)) by {
            reveal_strlit("tool");
        }
        crate::names::law_allocated_name_is_an_identifier(
            tool_names(tools.drop_last()).to_set(),
            base_name(t),
        );
    }
}

/// A tool's name does not depend on the tools that come after it.
pub proof fn law_names_do_not_depend_on_later_tools(tools: Seq<RawTool>, later: Seq<RawTool>)
    ensures
        tool_names(tools + later).take(tools.len() as int) == tool_names(tools),
{
    lemma_names_of_prefix(tools + later, tools.len() as int);
    assert((tools + later).take(tools.len() as int) =~= tools);
}

/// The tool that asks for a name first gets it; one that asks for a name in use
/// gets it with a number behind it.
pub proof fn law_collisions_are_suffixed(tools: Seq<RawTool>, i: int)
    requires
        0 <= i < tools.len(),
    ensures
        ({
            let before = tool_names(tools).take(i);
            let base = base_name(tools[i]);
            if before.contains(base) {
                exists|k: nat| k >= 2 && tool_names(tools)[i] == #[trigger] candidate(base, k)
            } else {
                tool_names(tools)[i] == base
            }
        }),
{
    let before = tool_names(tools).take(i);
    let base = base_name(tools[i]);
    lemma_names_of_prefix(tools, i);
    lemma_names_of_prefix(tools, i + 1);
    assert(tools.take(i + 1).drop_last() =~= tools.take(i));
    assert(tools.take(i + 1).last() == tools[i]);
    assert(tool_names(tools)[i] == tool_names(tools.take(i + 1))[i]);
    assert(tool_names(tools)[i] == allocated(before.to_set(), base));
    vstd::seq_lib::seq_to_set_is_finite(before);
    if before.contains(base) {
        crate::names::law_allocated_name_is_the_first_free(before.to_set(), base);
        let k = choose|k: nat|
            #[trigger] crate::names::first_free(before.to_set(), base, k) && allocated(
                before.to_set(),
                base,
            ) == candidate(base, k);
        assert(candidate(base, 1) == base);
        assert(k >= 2);
    } else {
        crate::names::law_free_base_is_kept(before.to_set(), base);
    }
}

/// A tool has a property exactly for each name that one of its parameters has.
pub proof fn law_properties_are_the_parameters(params: Seq<RawParam>, name: Seq<char>)
    ensures
        properties(params).contains_key(name) <==> exists|i: int|
            0 <= i < params.len() && (#[trigger] params[i]).name@ == name,
    decreases params.len(),
{
    if params.len() > 0 {
        let shorter = params.drop_last();
        law_properties_are_the_parameters(shorter, name);
        if properties(params).contains_key(name) {
            if params.last().name@ == name {
                assert(params[params.len() - 1].name@ == name);
            } else {
                let i = choose|i: int|
                    0 <= i < shorter.len() && (#[trigger] shorter[i]).name@ == name;
                assert(params[i].name@ == name);
            }
        }
        if exists|i: int| 0 <= i < params.len() && (#[trigger] params[i]).name@ == name {
            let i = choose|i: int| 0 <= i < params.len() && (#[trigger] params[i]).name@ == name;
            if i < shorter.len() {
                assert(shorter[i].name@ == name);
            }
        }
    }
}

/// A property holds the schema of the last parameter of its name.
pub proof fn law_last_parameter_of_a_name_counts(params: Seq<RawParam>, i: int)
    requires
        0 <= i < params.len(),
        forall|j: int| i < j < params.len() ==> (#[trigger] params[j]).name@ != params[i].name@,
    ensures
        properties(params)[params[i].name@] == Json::Object(param_schema(params[i])),
    decreases params.len(),
{
    if i < params.len() - 1 {
        let shorter = params.drop_last();
        assert forall|j: int| i < j < shorter.len() implies (#[trigger] shorter[j]).name@
            != shorter[i].name@ by {
            assert(params[j].name@ != params[i].name@);
        }
        law_last_parameter_of_a_name_counts(shorter, i);
        assert(params[params.len() - 1].name@ != params[i].name@);
    }
}

/// A name is listed as required exactly if a parameter of that name is required.
pub proof fn law_required_lists_the_required_parameters(params: Seq<RawParam>, name: Seq<char>)
    ensures
        required_names(params).contains(Json::Text(name)) <==> exists|i: int|
            0 <= i < params.len() && (#[trigger] params[i]).required && params[i].name@ == name,
    decreases params.len(),
{
    if params.len() == 0 {
        reveal(Seq::filter);
        assert(required_names(params) =~= Seq::<Json>::empty());
    } else {
        let shorter = params.drop_last();
        let last = params.last();
        law_required_lists_the_required_parameters(shorter, name);
        assert(shorter.push(last) =~= params);
        lemma_required_push(shorter, last);
        let listed = required_names(shorter);
        if last.required {
            assert(listed.push(Json::Text(last.name@)).contains(Json::Text(name)) == (
            listed.contains(Json::Text(name)) || last.name@ == name)) by {
                let longer = listed.push(Json::Text(last.name@));
                assert(longer[listed.len() as int] == Json::Text(last.name@));
                if listed.contains(Json::Text(name)) {
                    let i = choose|i: int| 0 <= i < listed.len() && listed[i] == Json::Text(name);
                    assert(longer[i] == Json::Text(name));
                }
                if longer.contains(Json::Text(name)) && last.name@ != name {
                    let i = choose|i: int| 0 <= i < longer.len() && longer[i] == Json::Text(name);
                    assert(listed[i] == Json::Text(name));
                }
            }
        }
        if exists|i: int|
            0 <= i < shorter.len() && (#[trigger] shorter[i]).required && shorter[i].name@ == name {
            let i = choose|i: int|
                0 <= i < shorter.len() && (#[trigger] shorter[i]).required && shorter[i].name@
                    == name;
            assert(params[i].required);
        }
        if last.required && last.name@ == name {
            assert(params[params.len() - 1].required);
        }
    }
}

/// Every parameter has a type, and it is one that JSON Schema knows.
pub proof fn law_every_parameter_is_typed(p: RawParam)
    ensures
        param_schema(p).contains_key("type"@),
        param_schema(p)["type"@] == Json::Text(json_type_of(p.kind@)),
        ({
            let t = json_type_of(p.kind@);
            t == "integer"@ || t == "boolean"@ || t == "number"@ || t == "object"@ || t == "array"@
                || t == "string"@
        }),
{
    reveal_strlit("type");
    reveal_strlit("description");
    assert("type"@.len() != "description"@.len());
}

/// A tool makes the call that the server described: its endpoint, HTTP method and
/// description are the server's, to the letter.
pub proof fn law_tool_makes_the_described_call(d: ToolDef, t: RawTool, name: Seq<char>)
    requires
        resolves(d, t, name),
    ensures
        d.name@ == name,
        d.endpoint@ == t.path@,
        d.http_method@ == t.method@,
        d.description@ == t.description@,
        members_of(d.input_schema) == input_schema_of(t.params@),
{
}

/// The words of JSON Schema are kept, and every other word becomes `string`.
pub proof fn law_json_types(t: Seq<char>)
    ensures
        t == "integer"@ ==> json_type_of(t) == t,
        t == "boolean"@ ==> json_type_of(t) == t,
        t == "number"@ ==> json_type_of(t) == t,
        t == "object"@ ==> json_type_of(t) == t,
        t == "array"@ ==> json_type_of(t) == t,
        !seq!["integer"@, "boolean"@, "number"@, "object"@, "array"@].contains(t) ==> json_type_of(
            t,
        ) == "string"@,
{
    let known = seq!["integer"@, "boolean"@, "number"@, "object"@, "array"@];
    assert(known[0] == "integer"@ && known[1] == "boolean"@ && known[2] == "number"@ && known[3]
        == "object"@ && known[4] == "array"@);
}

/// An input schema has a type, which is `object`, the properties, which are an
/// object, the required names, which are a list, and nothing else.
pub proof fn law_members_of_an_input_schema(params: Seq<RawParam>)
    ensures
        forall|key: Seq<char>| #[trigger]
            input_schema_of(params).contains_key(key) <==> key == "type"@ || key == "properties"@
                || key == "required"@,
        input_schema_of(params)["type"@] == Json::Text("object"@),
        input_schema_of(params)["properties"@] is Object,
        input_schema_of(params)["required"@] is List,
{
    lemma_member_names();
}

/// An input schema has a property exactly for each name of a parameter, and lists a
/// name as required exactly if a parameter of that name is required.
pub proof fn law_input_schema_describes_the_parameters(params: Seq<RawParam>, n: Seq<char>)
    ensures
        input_schema_of(params)["properties"@]->Object_0.contains_key(n) <==> exists|j: int|
            0 <= j < params.len() && (#[trigger] params[j]).name@ == n,
        input_schema_of(params)["required"@]->List_0.contains(Json::Text(n)) <==> exists|j: int|
            0 <= j < params.len() && (#[trigger] params[j]).required && params[j].name@ == n,
{
    lemma_member_names();
    law_properties_are_the_parameters(params, n);
    law_required_lists_the_required_parameters(params, n);
}

/// Without parameters there are no properties, and nothing is required.
pub proof fn law_input_schema_without_parameters()
    ensures
        input_schema_of(Seq::empty())["properties"@] == Json::Object(
            Map::<Seq<char>, Json>::empty(),
        ),
        input_schema_of(Seq::empty())["required"@] == Json::List(Seq::<Json>::empty()),
{
    lemma_member_names();
    reveal(Seq::filter);
    assert(required_names(Seq::empty()) =~= Seq::<Json>::empty());
}

/// One more parameter adds its name to the end of the required ones if it is
/// required, and a property under its name: the type, and the description unless it
/// is absent or empty. Every other property stays as it is.
pub proof fn law_input_schema_of_one_more_parameter(params: Seq<RawParam>, p: RawParam)
    ensures
        input_schema_of(params.push(p))["required"@]->List_0 == if p.required {
            input_schema_of(params)["required"@]->List_0.push(Json::Text(p.name@))
        } else {
            input_schema_of(params)["required"@]->List_0
        },
        forall|n: Seq<char>|
            n != p.name@ ==> (#[trigger] input_schema_of(
                params.push(p),
            )["properties"@]->Object_0.contains_key(n) <==> input_schema_of(
                params,
            )["properties"@]->Object_0.contains_key(n)),
        forall|n: Seq<char>|
            n != p.name@ ==> #[trigger] input_schema_of(params.push(p))["properties"@]->Object_0[n]
                == input_schema_of(params)["properties"@]->Object_0[n],
        input_schema_of(params.push(p))["properties"@]->Object_0.contains_key(p.name@),
        ({
            let own = input_schema_of(params.push(p))["properties"@]->Object_0[p.name@];
            let described = p.description is Some && p.description->0@.len() > 0;
            &&& own is Object
            &&& forall|key: Seq<char>| #[trigger]
                own->Object_0.contains_key(key) <==> key == "type"@ || key == "description"@
                    && described
            &&& own->Object_0["type"@] == Json::Text(
                if seq!["integer"@, "boolean"@, "number"@, "object"@, "array"@].contains(p.kind@) {
                    p.kind@
                } else {
                    "string"@
                },
            )
            &&& described ==> own->Object_0["description"@] == Json::Text(p.description->0@)
        }),
{
    lemma_member_names();
    lemma_required_push(params, p);
    assert(params.push(p).drop_last() =~= params);
    assert(params.push(p).last() == p);
    law_json_types(p.kind@);
}

/// The names of members differ.
proof fn lemma_member_names()
    ensures
        "type"@ != "properties"@,
        "type"@ != "required"@,
        "properties"@ != "required"@,
        "type"@ != "description"@,
{
    reveal_strlit("type");
    reveal_strlit("properties");
    reveal_strlit("required");
    reveal_strlit("description");
    assert("type"@.len() == 4 && "properties"@.len() == 10 && "required"@.len() == 8);
    assert("description"@.len() == 11);
}

/// A tool asks for its own name or else for its path, sanitized, or for `tool` where
/// nothing is left. It gets that name, or where a tool before it has that, the first
/// of `name_2`, `name_3` and so on that none has.
pub proof fn law_tool_name(tools: Seq<RawTool>, i: int) -> (k: nat)
    requires
        0 <= i < tools.len(),
    ensures
        tool_names(tools).len() == tools.len(),
        k >= 1,
        ({
            let asked = sanitized(
                match tools[i].name {
                    Some(name) => name@,
                    None => tools[i].path@,
                },
            );
            let base = if asked.len() == 0 {
                "tool"@
            } else {
                asked
            };
            let before = tool_names(tools).take(i);
            &&& tool_names(tools)[i] == if k == 1 {
                base
            } else {
                base + seq!['_'] + decimal(k)
            }
            &&& !before.contains(tool_names(tools)[i])
            &&& k >= 2 ==> before.contains(base)
            &&& forall|j: nat|
                2 <= j < k ==> before.contains(base + seq!['_'] + #[trigger] decimal(j))
        }),
{
    let before = tool_names(tools).take(i);
    lemma_names_of_prefix(tools, i);
    lemma_names_of_prefix(tools, i + 1);
    assert(tools.take(i + 1).drop_last() =~= tools.take(i));
    assert(tools.take(i + 1).last() == tools[i]);
    assert(tool_names(tools)[i] == tool_names(tools.take(i + 1))[i]);
    vstd::seq_lib::seq_to_set_is_finite(before);
    let k = crate::names::law_names_are_tried_in_order(before.to_set(), base_name(tools[i]));
    assert forall|j: nat| 2 <= j < k implies before.contains(
        base_name(tools[i]) + seq!['_'] + #[trigger] decimal(j),
    ) by {
        assert(before.to_set().contains(base_name(tools[i]) + seq!['_'] + decimal(j)));
    }
    k
}

} // verus!

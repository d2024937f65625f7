//! The MCP server's own documents: the JSON-RPC envelope check, the
//! initialize result, the declarations of its resource, tools and
//! prompts, the prompt messages, and the texts its tools answer with.
use vstd::prelude::*;

use crate::api::{id_json, json_rpc_error, opt_json_view};
use crate::context::PrefixMap;
use crate::counts::{opt_str_view, rows_view};
use crate::documents::{data_body_spec, data_topic_body, jstr};
use crate::fragments::FragmentPage;
use crate::json::{array_of, object_of, str_eq, Json, JsonValue};
use crate::text::{dec, owned, push_all, u64_dec};

verus! {

pub const MCP_PROTOCOL_VERSION: &'static str = "2025-06-18";

/// The one resource: the live agent manifest.
pub const MANIFEST_URI: &'static str = "manifest://semantic-web/current";

pub const SERVER_VERSION: &'static str = "0.1.0";

// ---------------------------------------------------------------------------
// building blocks
// ---------------------------------------------------------------------------

fn text(s: &str) -> (r: Json)
    ensures
        r@ == jstr(s@),
{
    Json::string(s)
}

fn number(digits: &str) -> (r: Json)
    ensures
        r@ == JsonValue::Number(digits@),
{
    Json::Number(owned(digits))
}

fn object1(k1: &str, v1: Json) -> (r: Json)
    ensures
        r@ == JsonValue::Object(seq![(k1@, v1@)]),
{
    let ghost x1 = v1@;
    let mut es: Vec<(String, Json)> = Vec::new();
    es.push((owned(k1), v1));
    let r = object_of(es);
    assert(r@->Object_0 =~= seq![(k1@, x1)]);
    r
}

fn object2(k1: &str, v1: Json, k2: &str, v2: Json) -> (r: Json)
    ensures
        r@ == JsonValue::Object(seq![(k1@, v1@), (k2@, v2@)]),
{
    let ghost (x1, x2) = (v1@, v2@);
    let mut es: Vec<(String, Json)> = Vec::new();
    es.push((owned(k1), v1));
    es.push((owned(k2), v2));
    let r = object_of(es);
    assert(r@->Object_0 =~= seq![(k1@, x1), (k2@, x2)]);
    r
}

fn object3(k1: &str, v1: Json, k2: &str, v2: Json, k3: &str, v3: Json) -> (r: Json)
    ensures
        r@ == JsonValue::Object(seq![(k1@, v1@), (k2@, v2@), (k3@, v3@)]),
{
    let ghost (x1, x2, x3) = (v1@, v2@, v3@);
    let mut es: Vec<(String, Json)> = Vec::new();
    es.push((owned(k1), v1));
    es.push((owned(k2), v2));
    es.push((owned(k3), v3));
    let r = object_of(es);
    assert(r@->Object_0 =~= seq![(k1@, x1), (k2@, x2), (k3@, x3)]);
    r
}

fn object4(k1: &str, v1: Json, k2: &str, v2: Json, k3: &str, v3: Json, k4: &str, v4: Json) -> (r: Json)
    ensures
        r@ == JsonValue::Object(seq![(k1@, v1@), (k2@, v2@), (k3@, v3@), (k4@, v4@)]),
{
    let ghost (x1, x2, x3, x4) = (v1@, v2@, v3@, v4@);
    let mut es: Vec<(String, Json)> = Vec::new();
    es.push((owned(k1), v1));
    es.push((owned(k2), v2));
    es.push((owned(k3), v3));
    es.push((owned(k4), v4));
    let r = object_of(es);
    assert(r@->Object_0 =~= seq![(k1@, x1), (k2@, x2), (k3@, x3), (k4@, x4)]);
    r
}

fn object5(k1: &str, v1: Json, k2: &str, v2: Json, k3: &str, v3: Json, k4: &str, v4: Json, k5: &str, v5: Json) -> (r:
    Json)
    ensures
        r@ == JsonValue::Object(seq![(k1@, v1@), (k2@, v2@), (k3@, v3@), (k4@, v4@), (k5@, v5@)]),
{
    let ghost (x1, x2, x3, x4, x5) = (v1@, v2@, v3@, v4@, v5@);
    let mut es: Vec<(String, Json)> = Vec::new();
    es.push((owned(k1), v1));
    es.push((owned(k2), v2));
    es.push((owned(k3), v3));
    es.push((owned(k4), v4));
    es.push((owned(k5), v5));
    let r = object_of(es);
    assert(r@->Object_0 =~= seq![(k1@, x1), (k2@, x2), (k3@, x3), (k4@, x4), (k5@, x5)]);
    r
}

fn array1(a: Json) -> (r: Json)
    ensures
        r@ == JsonValue::Array(seq![a@]),
{
    let ghost xa = a@;
    let mut xs: Vec<Json> = Vec::new();
    xs.push(a);
    let r = array_of(xs);
    assert(r@->Array_0 =~= seq![xa]);
    r
}

fn array2(a: Json, b: Json) -> (r: Json)
    ensures
        r@ == JsonValue::Array(seq![a@, b@]),
{
    let ghost (xa, xb) = (a@, b@);
    let mut xs: Vec<Json> = Vec::new();
    xs.push(a);
    xs.push(b);
    let r = array_of(xs);
    assert(r@->Array_0 =~= seq![xa, xb]);
    r
}

fn array3(a: Json, b: Json, c: Json) -> (r: Json)
    ensures
        r@ == JsonValue::Array(seq![a@, b@, c@]),
{
    let ghost (xa, xb, xc) = (a@, b@, c@);
    let mut xs: Vec<Json> = Vec::new();
    xs.push(a);
    xs.push(b);
    xs.push(c);
    let r = array_of(xs);
    assert(r@->Array_0 =~= seq![xa, xb, xc]);
    r
}

// ---------------------------------------------------------------------------
// the JSON-RPC envelope
// ---------------------------------------------------------------------------

/// A JSON-RPC 2.0 error answer.
pub open spec fn rpc_error_spec(id: Option<JsonValue>, code: int, message: Seq<char>) -> JsonValue {
    JsonValue::Object(
        seq![
            ("jsonrpc"@, jstr("2.0"@)),
            ("id"@, id_json(id)),
            ("error"@, JsonValue::Object(seq![
                ("code"@, JsonValue::Number(crate::text::dec_int(code))),
                ("message"@, jstr(message)),
            ])),
        ],
    )
}

/// The envelope check: a request whose "jsonrpc" member is not "2.0" is
/// answered "Invalid Request" (-32600) under its id; any other goes on,
/// with its id handed back.
pub fn check_rpc_version(jsonrpc: &str, id: Option<Json>) -> (r: Result<Option<Json>, Json>)
    ensures
        r is Ok <==> jsonrpc@ == "2.0"@,
        r matches Ok(i) ==> i == id,
        r matches Err(e) ==> e@ == rpc_error_spec(opt_json_view(id), -32600, "Invalid Request"@),
{
    if str_eq(jsonrpc, "2.0") {
        Ok(id)
    } else {
        Err(json_rpc_error(id, -32600, "Invalid Request"))
    }
}

// ---------------------------------------------------------------------------
// initialize
// ---------------------------------------------------------------------------

pub open spec fn unchanging_spec() -> JsonValue {
    JsonValue::Object(seq![("listChanged"@, JsonValue::Bool(false))])
}

/// The result of "initialize": protocol version, capabilities (resources,
/// tools and prompts, none of whose lists change) and server info.
pub open spec fn initialize_spec() -> JsonValue {
    JsonValue::Object(
        seq![
            ("protocolVersion"@, jstr(MCP_PROTOCOL_VERSION@)),
            ("capabilities"@, JsonValue::Object(seq![
                ("resources"@, unchanging_spec()),
                ("tools"@, unchanging_spec()),
                ("prompts"@, unchanging_spec()),
            ])),
            ("serverInfo"@, JsonValue::Object(seq![
                ("name"@, jstr("semantic-web"@)),
                ("version"@, jstr(SERVER_VERSION@)),
            ])),
        ],
    )
}

fn unchanging() -> (r: Json)
    ensures
        r@ == unchanging_spec(),
{
    object1("listChanged", Json::Bool(false))
}

pub fn initialize_result() -> (r: Json)
    ensures
        r@ == initialize_spec(),
{
    object3(
        "protocolVersion",
        text(MCP_PROTOCOL_VERSION),
        "capabilities",
        object3("resources", unchanging(), "tools", unchanging(), "prompts", unchanging()),
        "serverInfo",
        object2("name", text("semantic-web"), "version", text(SERVER_VERSION)),
    )
}

// ---------------------------------------------------------------------------
// resources
// ---------------------------------------------------------------------------

pub open spec fn resources_spec() -> JsonValue {
    JsonValue::Object(
        seq![
            ("resources"@, JsonValue::Array(seq![JsonValue::Object(seq![
                ("uri"@, jstr(MANIFEST_URI@)),
                ("name"@, jstr("Agent manifest (live)"@)),
                ("description"@, jstr(
                    "Live ontology surface: classes, predicates, cardinalities, descriptions, SHACL shapes, example SPARQL, topics."@,
                )),
                ("mimeType"@, jstr("application/json"@)),
            ])])),
        ],
    )
}

/// The result of "resources/list".
pub fn resources_list() -> (r: Json)
    ensures
        r@ == resources_spec(),
{
    object1(
        "resources",
        array1(
            object4(
                "uri",
                text(MANIFEST_URI),
                "name",
                text("Agent manifest (live)"),
                "description",
                text(
                    "Live ontology surface: classes, predicates, cardinalities, descriptions, SHACL shapes, example SPARQL, topics.",
                ),
                "mimeType",
                text("application/json"),
            ),
        ),
    )
}

/// "resources/read" serves the manifest resource only: any other uri is
/// answered "unknown resource: <uri>" (-32602) under the request's id.
pub fn check_resource(uri: &str, id: Option<Json>) -> (r: Result<Option<Json>, Json>)
    ensures
        r is Ok <==> uri@ == MANIFEST_URI@,
        r matches Ok(i) ==> i == id,
        r matches Err(e) ==> e@ == rpc_error_spec(opt_json_view(id), -32602, "unknown resource: "@ + uri@),
{
    if str_eq(uri, MANIFEST_URI) {
        Ok(id)
    } else {
        let mut m = owned("unknown resource: ");
        push_all(&mut m, uri);
        Err(json_rpc_error(id, -32602, m.as_str()))
    }
}

pub open spec fn manifest_contents_spec(text: Seq<char>) -> JsonValue {
    JsonValue::Object(
        seq![
            ("contents"@, JsonValue::Array(seq![JsonValue::Object(seq![
                ("uri"@, jstr(MANIFEST_URI@)),
                ("mimeType"@, jstr("application/json"@)),
                ("text"@, jstr(text)),
            ])])),
        ],
    )
}

/// The result of reading the manifest resource, whose JSON text is
/// `manifest_text`.
pub fn manifest_contents(manifest_text: String) -> (r: Json)
    ensures
        r@ == manifest_contents_spec(manifest_text@),
{
    object1(
        "contents",
        array1(
            object3(
                "uri",
                text(MANIFEST_URI),
                "mimeType",
                text("application/json"),
                "text",
                Json::Str(manifest_text),
            ),
        ),
    )
}

// ---------------------------------------------------------------------------
// tools
// ---------------------------------------------------------------------------

pub open spec fn typed_spec(t: Seq<char>) -> JsonValue {
    JsonValue::Object(seq![("type"@, jstr(t))])
}

pub open spec fn described_spec(t: Seq<char>, d: Seq<char>) -> JsonValue {
    JsonValue::Object(seq![("type"@, jstr(t)), ("description"@, jstr(d))])
}

/// A topic argument: one of the two canonical topics.
pub open spec fn topic_choice_spec() -> JsonValue {
    JsonValue::Object(
        seq![
            ("type"@, jstr("string"@)),
            ("enum"@, JsonValue::Array(seq![jstr("/topics/data"@), jstr("/topics/schema"@)])),
        ],
    )
}

/// An input schema without required members.
pub open spec fn open_schema_spec(properties: JsonValue) -> JsonValue {
    JsonValue::Object(seq![("type"@, jstr("object"@)), ("properties"@, properties)])
}

/// An input schema with required members.
pub open spec fn schema_spec(properties: JsonValue, required: JsonValue) -> JsonValue {
    JsonValue::Object(seq![("type"@, jstr("object"@)), ("properties"@, properties), ("required"@, required)])
}

pub open spec fn tool_spec(name: Seq<char>, description: Seq<char>, schema: JsonValue) -> JsonValue {
    JsonValue::Object(seq![("name"@, jstr(name)), ("description"@, jstr(description)), ("inputSchema"@, schema)])
}

pub open spec fn search_graph_tool_spec() -> JsonValue {
    tool_spec(
        "search_graph"@,
        "Triple Pattern Fragment lookup over the semantic graph. Leave positions out to treat them as wildcards. Returns compacted JSON-LD statements (one per line)."@,
        open_schema_spec(JsonValue::Object(seq![
            ("subject"@, described_spec("string"@, "URI (optional)"@)),
            ("predicate"@, described_spec("string"@, "URI (optional)"@)),
            ("object"@, described_spec("string"@, "URI or literal (optional)"@)),
            ("graph"@, described_spec("string"@, "named graph URI (optional)"@)),
            ("limit"@, JsonValue::Object(seq![
                ("type"@, jstr("integer"@)),
                ("minimum"@, JsonValue::Number("1"@)),
                ("maximum"@, JsonValue::Number("1000"@)),
                ("default"@, JsonValue::Number("20"@)),
            ])),
        ])),
    )
}

pub open spec fn sparql_query_tool_spec() -> JsonValue {
    tool_spec(
        "sparql_query"@,
        "Run a read-only SPARQL query (SELECT/ASK/DESCRIBE/CONSTRUCT) against the graph. Results are SPARQL JSON."@,
        schema_spec(
            JsonValue::Object(seq![("query"@, described_spec("string"@, "SPARQL query string"@))]),
            JsonValue::Array(seq![jstr("query"@)]),
        ),
    )
}

pub open spec fn get_manifest_tool_spec() -> JsonValue {
    tool_spec(
        "get_manifest"@,
        "The live agent manifest: classes, predicates, cardinalities, human descriptions, SHACL shapes, schema fingerprint and example SPARQL. The planning surface -- read this first."@,
        open_schema_spec(JsonValue::Object(Seq::empty())),
    )
}

pub open spec fn get_topic_tool_spec() -> JsonValue {
    tool_spec(
        "get_topic"@,
        "Full content of a WebSub topic: '/topics/data' (all triples as NDJSON) or '/topics/schema' (the schema surface)."@,
        schema_spec(
            JsonValue::Object(seq![("topic"@, topic_choice_spec())]),
            JsonValue::Array(seq![jstr("topic"@)]),
        ),
    )
}

pub open spec fn insert_triple_tool_spec() -> JsonValue {
    tool_spec(
        "insert_triple"@,
        "Write one triple. Requires the configured write token (SEMWEB_WRITE_TOKEN) when the deployment gates writes."@,
        schema_spec(
            JsonValue::Object(seq![
                ("subject"@, typed_spec("string"@)),
                ("predicate"@, typed_spec("string"@)),
                ("object"@, typed_spec("string"@)),
                ("graph"@, described_spec("string"@, "optional named graph"@)),
                ("token"@, described_spec("string"@, "write bearer token (optional)"@)),
            ]),
            JsonValue::Array(seq![jstr("subject"@), jstr("predicate"@), jstr("object"@)]),
        ),
    )
}

pub open spec fn subscribe_tool_spec() -> JsonValue {
    tool_spec(
        "subscribe"@,
        "Subscribe a callback URL to WebSub push notifications for '/topics/data' or '/topics/schema'. The callback must be a reachable HTTP(S) endpoint implementing the WebSub subscriber contract (echo the hub.challenge on GET)."@,
        schema_spec(
            JsonValue::Object(seq![
                ("topic"@, topic_choice_spec()),
                ("callback"@, typed_spec("string"@)),
                ("secret"@, typed_spec("string"@)),
                ("lease_seconds"@, typed_spec("integer"@)),
            ]),
            JsonValue::Array(seq![jstr("topic"@), jstr("callback"@)]),
        ),
    )
}

/// The result of "tools/list": the six tools with their input schemas.
pub open spec fn tools_spec() -> JsonValue {
    JsonValue::Object(
        seq![
            ("tools"@, JsonValue::Array(seq![
                search_graph_tool_spec(),
                sparql_query_tool_spec(),
                get_manifest_tool_spec(),
                get_topic_tool_spec(),
                insert_triple_tool_spec(),
                subscribe_tool_spec(),
            ])),
        ],
    )
}

fn typed(t: &str) -> (r: Json)
    ensures
        r@ == typed_spec(t@),
{
    object1("type", text(t))
}

fn described(t: &str, d: &str) -> (r: Json)
    ensures
        r@ == described_spec(t@, d@),
{
    object2("type", text(t), "description", text(d))
}

fn topic_choice() -> (r: Json)
    ensures
        r@ == topic_choice_spec(),
{
    object2("type", text("string"), "enum", array2(text("/topics/data"), text("/topics/schema")))
}

fn open_schema(properties: Json) -> (r: Json)
    ensures
        r@ == open_schema_spec(properties@),
{
    object2("type", text("object"), "properties", properties)
}

fn schema(properties: Json, required: Json) -> (r: Json)
    ensures
        r@ == schema_spec(properties@, required@),
{
    object3("type", text("object"), "properties", properties, "required", required)
}

fn tool(name: &str, description: &str, input_schema: Json) -> (r: Json)
    ensures
        r@ == tool_spec(name@, description@, input_schema@),
{
    object3("name", text(name), "description", text(description), "inputSchema", input_schema)
}

fn search_graph_tool() -> (r: Json)
    ensures
        r@ == search_graph_tool_spec(),
{
    tool(
        "search_graph",
        "Triple Pattern Fragment lookup over the semantic graph. Leave positions out to treat them as wildcards. Returns compacted JSON-LD statements (one per line).",
        open_schema(
            object5(
                "subject",
                described("string", "URI (optional)"),
                "predicate",
                described("string", "URI (optional)"),
                "object",
                described("string", "URI or literal (optional)"),
                "graph",
                described("string", "named graph URI (optional)"),
                "limit",
                object4(
                    "type",
                    text("integer"),
                    "minimum",
                    number("1"),
                    "maximum",
                    number("1000"),
                    "default",
                    number("20"),
                ),
            ),
        ),
    )
}

fn sparql_query_tool() -> (r: Json)
    ensures
        r@ == sparql_query_tool_spec(),
{
    tool(
        "sparql_query",
        "Run a read-only SPARQL query (SELECT/ASK/DESCRIBE/CONSTRUCT) against the graph. Results are SPARQL JSON.",
        schema(object1("query", described("string", "SPARQL query string")), array1(text("query"))),
    )
}

fn get_manifest_tool() -> (r: Json)
    ensures
        r@ == get_manifest_tool_spec(),
{
    tool(
        "get_manifest",
        "The live agent manifest: classes, predicates, cardinalities, human descriptions, SHACL shapes, schema fingerprint and example SPARQL. The planning surface -- read this first.",
        open_schema(Json::empty_object()),
    )
}

fn get_topic_tool() -> (r: Json)
    ensures
        r@ == get_topic_tool_spec(),
{
    tool(
        "get_topic",
        "Full content of a WebSub topic: '/topics/data' (all triples as NDJSON) or '/topics/schema' (the schema surface).",
        schema(object1("topic", topic_choice()), array1(text("topic"))),
    )
}

fn insert_triple_tool() -> (r: Json)
    ensures
        r@ == insert_triple_tool_spec(),
{
    tool(
        "insert_triple",
        "Write one triple. Requires the configured write token (SEMWEB_WRITE_TOKEN) when the deployment gates writes.",
        schema(
            object5(
                "subject",
                typed("string"),
                "predicate",
                typed("string"),
                "object",
                typed("string"),
                "graph",
                described("string", "optional named graph"),
                "token",
                described("string", "write bearer token (optional)"),
            ),
            array3(text("subject"), text("predicate"), text("object")),
        ),
    )
}

fn subscribe_tool() -> (r: Json)
    ensures
        r@ == subscribe_tool_spec(),
{
    tool(
        "subscribe",
        "Subscribe a callback URL to WebSub push notifications for '/topics/data' or '/topics/schema'. The callback must be a reachable HTTP(S) endpoint implementing the WebSub subscriber contract (echo the hub.challenge on GET).",
        schema(
            object4(
                "topic",
                topic_choice(),
                "callback",
                typed("string"),
                "secret",
                typed("string"),
                "lease_seconds",
                typed("integer"),
            ),
            array2(text("topic"), text("callback")),
        ),
    )
}

pub fn tools_list() -> (r: Json)
    ensures
        r@ == tools_spec(),
{
    let mut xs: Vec<Json> = Vec::new();
    let t1 = search_graph_tool();
    let t2 = sparql_query_tool();
    let t3 = get_manifest_tool();
    let t4 = get_topic_tool();
    let t5 = insert_triple_tool();
    let t6 = subscribe_tool();
    let ghost tv = seq![t1@, t2@, t3@, t4@, t5@, t6@];
    xs.push(t1);
    xs.push(t2);
    xs.push(t3);
    xs.push(t4);
    xs.push(t5);
    xs.push(t6);
    let arr = array_of(xs);
    assert(arr@->Array_0 =~= tv);
    object1("tools", arr)
}

// ---------------------------------------------------------------------------
// prompts
// ---------------------------------------------------------------------------

pub open spec fn prompt_spec(name: Seq<char>, description: Seq<char>, argument: Seq<char>, argument_description: Seq<
    char,
>, required: bool) -> JsonValue {
    JsonValue::Object(
        seq![
            ("name"@, jstr(name)),
            ("description"@, jstr(description)),
            ("arguments"@, JsonValue::Array(seq![JsonValue::Object(seq![
                ("name"@, jstr(argument)),
                ("description"@, jstr(argument_description)),
                ("required"@, JsonValue::Bool(required)),
            ])])),
        ],
    )
}

/// The result of "prompts/list": the two guided prompts and their
/// arguments.
pub open spec fn prompts_spec() -> JsonValue {
    JsonValue::Object(
        seq![
            ("prompts"@, JsonValue::Array(seq![
                prompt_spec(
                    "explore_graph"@,
                    "Guided exploration: read the manifest, then inspect the data."@,
                    "focus"@,
                    "Optional class or topic to focus on"@,
                    false,
                ),
                prompt_spec(
                    "answer_from_graph"@,
                    "Answer a user question using only the graph: manifest for grounding, fragments/SPARQL for facts."@,
                    "question"@,
                    "The user's question"@,
                    true,
                ),
            ])),
        ],
    )
}

fn prompt(name: &str, description: &str, argument: &str, argument_description: &str, required: bool) -> (r: Json)
    ensures
        r@ == prompt_spec(name@, description@, argument@, argument_description@, required),
{
    object3(
        "name",
        text(name),
        "description",
        text(description),
        "arguments",
        array1(
            object3(
                "name",
                text(argument),
                "description",
                text(argument_description),
                "required",
                Json::Bool(required),
            ),
        ),
    )
}

pub fn prompts_list() -> (r: Json)
    ensures
        r@ == prompts_spec(),
{
    object1(
        "prompts",
        array2(
            prompt(
                "explore_graph",
                "Guided exploration: read the manifest, then inspect the data.",
                "focus",
                "Optional class or topic to focus on",
                false,
            ),
            prompt(
                "answer_from_graph",
                "Answer a user question using only the graph: manifest for grounding, fragments/SPARQL for facts.",
                "question",
                "The user's question",
                true,
            ),
        ),
    )
}

/// The guided-exploration text, focused on `focus`.
pub open spec fn explore_text(focus: Seq<char>) -> Seq<char> {
    "You are exploring a semantic knowledge graph.\n1. Call get_manifest first: it lists the classes, predicates, their human descriptions, SHACL constraints and a schema fingerprint.\n2. Pick the classes relevant to "@
        + focus
        + " and use search_graph with those predicates, or run the manifest's exampleQuery via sparql_query.\n3. Report what exists, citing the URIs you actually saw.\nNever invent terms that are not in the manifest."@
}

/// The grounded-answer text for `question`.
pub open spec fn answer_text(question: Seq<char>) -> Seq<char> {
    "Answer the question: \""@ + question
        + "\"\nUse only the semantic graph: get_manifest for grounding (what terms exist and what they mean), search_graph/sparql_query for facts. If the graph does not contain the answer, say so explicitly."@
}

/// A prompt's messages: one user message holding `t`.
pub open spec fn messages_spec(t: Seq<char>) -> JsonValue {
    JsonValue::Object(
        seq![
            ("messages"@, JsonValue::Array(seq![JsonValue::Object(seq![
                ("role"@, jstr("user"@)),
                ("content"@, JsonValue::Object(seq![("type"@, jstr("text"@)), ("text"@, jstr(t))])),
            ])])),
        ],
    )
}

/// What "prompts/get" answers for the prompt `name` with its arguments:
/// the focus defaults to "the whole graph", the question to nothing; an
/// unknown prompt is an error (-32602) without an id.
pub open spec fn prompt_get_spec(name: Seq<char>, focus: Option<Seq<char>>, question: Option<Seq<char>>) -> JsonValue {
    if name == "explore_graph"@ {
        messages_spec(
            explore_text(
                match focus {
                    Some(f) => f,
                    None => "the whole graph"@,
                },
            ),
        )
    } else if name == "answer_from_graph"@ {
        messages_spec(
            answer_text(
                match question {
                    Some(q) => q,
                    None => Seq::empty(),
                },
            ),
        )
    } else {
        rpc_error_spec(None, -32602, "unknown prompt: "@ + name)
    }
}

fn messages(t: String) -> (r: Json)
    ensures
        r@ == messages_spec(t@),
{
    object1(
        "messages",
        array1(object2("role", text("user"), "content", object2("type", text("text"), "text", Json::Str(t)))),
    )
}

pub fn prompt_get(name: &str, focus: Option<&str>, question: Option<&str>) -> (r: Json)
    ensures
        r@ == prompt_get_spec(name@, opt_str_view(focus), opt_str_view(question)),
{
    if str_eq(name, "explore_graph") {
        let f = match focus {
            Some(f) => f,
            None => "the whole graph",
        };
        let mut t = owned(
            "You are exploring a semantic knowledge graph.\n1. Call get_manifest first: it lists the classes, predicates, their human descriptions, SHACL constraints and a schema fingerprint.\n2. Pick the classes relevant to ",
        );
        push_all(&mut t, f);
        push_all(
            &mut t,
            " and use search_graph with those predicates, or run the manifest's exampleQuery via sparql_query.\n3. Report what exists, citing the URIs you actually saw.\nNever invent terms that are not in the manifest.",
        );
        messages(t)
    } else if str_eq(name, "answer_from_graph") {
        let q = match question {
            Some(q) => q,
            None => "",
        };
        let mut t = owned("Answer the question: \"");
        push_all(&mut t, q);
        push_all(
            &mut t,
            "\"\nUse only the semantic graph: get_manifest for grounding (what terms exist and what they mean), search_graph/sparql_query for facts. If the graph does not contain the answer, say so explicitly.",
        );
        proof {
            reveal_strlit("");
        }
        messages(t)
    } else {
        let mut m = owned("unknown prompt: ");
        push_all(&mut m, name);
        json_rpc_error(None, -32602, m.as_str())
    }
}

// ---------------------------------------------------------------------------
// tool texts
// ---------------------------------------------------------------------------

pub open spec fn bool_text(b: bool) -> Seq<char> {
    if b {
        "true"@
    } else {
        "false"@
    }
}

/// The search tool's text: one compacted JSON-LD statement per line, then
/// the count estimate and whether more follow.
pub open spec fn search_text_spec(extra: Seq<(Seq<char>, Seq<char>)>, bindings: Seq<JsonValue>, total: u64, has_more: bool) -> Seq<
    char,
> {
    data_body_spec(extra, bindings) + "\n[count_estimate: "@ + dec(total as nat) + ", has_more: "@ + bool_text(has_more)
        + "]"@
}

pub fn search_graph_text(page: &FragmentPage, prefixes: &PrefixMap) -> (r: String)
    ensures
        r@ == search_text_spec(prefixes@, rows_view(page.bindings@), page.total, page.has_more),
{
    let mut body = data_topic_body(page.bindings.as_slice(), prefixes);
    push_all(&mut body, "\n[count_estimate: ");
    let n = u64_dec(page.total);
    push_all(&mut body, n.as_str());
    push_all(&mut body, ", has_more: ");
    if page.has_more {
        push_all(&mut body, "true");
    } else {
        push_all(&mut body, "false");
    }
    push_all(&mut body, "]");
    body
}

/// The subscribe tool's answer: the subscription was accepted and will be
/// verified asynchronously.
pub open spec fn subscribe_text_spec(topic: Seq<char>, callback: Seq<char>) -> Seq<char> {
    "subscription accepted for "@ + topic + " -> "@ + callback
        + "; the hub will verify intent by GETing the callback with hub.challenge (202-accepted)"@
}

pub fn subscribe_accepted_text(topic: &str, callback: &str) -> (r: String)
    ensures
        r@ == subscribe_text_spec(topic@, callback@),
{
    let mut t = owned("subscription accepted for ");
    push_all(&mut t, topic);
    push_all(&mut t, " -> ");
    push_all(&mut t, callback);
    push_all(&mut t, "; the hub will verify intent by GETing the callback with hub.challenge (202-accepted)");
    t
}

} // verus!

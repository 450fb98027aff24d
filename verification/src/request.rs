//! The outbound chat-completions request: the fixed tool declarations and
//! the request body, modelled as `Json` values.

use vstd::prelude::*;
use vstd::string::*;
use crate::json::Json;
use crate::message::{UIMessage, text_views, join_nl, join_text_parts};

verus! {

pub open spec fn is_str(j: Json, s: Seq<char>) -> bool {
    j matches Json::Str(v) && v@ == s
}

/// A JSON-schema string: `{"type": "string"}`, with an optional
/// description.
pub open spec fn is_string_schema(j: Json, desc: Option<Seq<char>>) -> bool {
    match j {
        Json::Obj(fs) => match desc {
            Some(d) => fs@.len() == 2 && fs@[0].0@ == "type"@ && is_str(fs@[0].1, "string"@)
                && fs@[1].0@ == "description"@ && is_str(fs@[1].1, d),
            None => fs@.len() == 1 && fs@[0].0@ == "type"@ && is_str(fs@[0].1, "string"@),
        },
        _ => false,
    }
}

/// The parameter schema of the display/append tools: one required string
/// property `xml`.
pub open spec fn is_xml_params(j: Json, xml_desc: Option<Seq<char>>) -> bool {
    match j {
        Json::Obj(fs) => fs@.len() == 3 && fs@[0].0@ == "type"@ && is_str(fs@[0].1, "object"@)
            && fs@[1].0@ == "properties"@ && (match fs@[1].1 {
            Json::Obj(ps) => ps@.len() == 1 && ps@[0].0@ == "xml"@ && is_string_schema(
                ps@[0].1,
                xml_desc,
            ),
            _ => false,
        }) && fs@[2].0@ == "required"@ && (match fs@[2].1 {
            Json::Arr(a) => a@.len() == 1 && is_str(a@[0], "xml"@),
            _ => false,
        }),
        _ => false,
    }
}

/// The operation kind: a string restricted to update/add/delete.
pub open spec fn is_enum_string_schema(j: Json) -> bool {
    match j {
        Json::Obj(fs) => fs@.len() == 2 && fs@[0].0@ == "type"@ && is_str(fs@[0].1, "string"@)
            && fs@[1].0@ == "enum"@ && (match fs@[1].1 {
            Json::Arr(a) => a@.len() == 3 && is_str(a@[0], "update"@) && is_str(a@[1], "add"@)
                && is_str(a@[2], "delete"@),
            _ => false,
        }),
        _ => false,
    }
}

/// One edit operation: its kind, the cell id, and the optional new XML.
pub open spec fn is_operation_items(j: Json) -> bool {
    match j {
        Json::Obj(fs) => fs@.len() == 3 && fs@[0].0@ == "type"@ && is_str(fs@[0].1, "object"@)
            && fs@[1].0@ == "properties"@ && (match fs@[1].1 {
            Json::Obj(ps) => ps@.len() == 3 && ps@[0].0@ == "type"@ && is_enum_string_schema(
                ps@[0].1,
            ) && ps@[1].0@ == "cell_id"@ && is_string_schema(ps@[1].1, None) && ps@[2].0@
                == "new_xml"@ && is_string_schema(ps@[2].1, None),
            _ => false,
        }) && fs@[2].0@ == "required"@ && (match fs@[2].1 {
            Json::Arr(a) => a@.len() == 2 && is_str(a@[0], "type"@) && is_str(a@[1], "cell_id"@),
            _ => false,
        }),
        _ => false,
    }
}

/// The parameter schema of the edit tool: a required array of operations.
pub open spec fn is_edit_params(j: Json) -> bool {
    match j {
        Json::Obj(fs) => fs@.len() == 3 && fs@[0].0@ == "type"@ && is_str(fs@[0].1, "object"@)
            && fs@[1].0@ == "properties"@ && (match fs@[1].1 {
            Json::Obj(ps) => ps@.len() == 1 && ps@[0].0@ == "operations"@ && (match ps@[0].1 {
                Json::Obj(os) => os@.len() == 2 && os@[0].0@ == "type"@ && is_str(
                    os@[0].1,
                    "array"@,
                ) && os@[1].0@ == "items"@ && is_operation_items(os@[1].1),
                _ => false,
            }),
            _ => false,
        }) && fs@[2].0@ == "required"@ && (match fs@[2].1 {
            Json::Arr(a) => a@.len() == 1 && is_str(a@[0], "operations"@),
            _ => false,
        }),
        _ => false,
    }
}

/// The `{"type": "function", "function": {...}}` wrapper: where the shape
/// and the name and description match, the parameter schema within.
pub open spec fn tool_params(j: Json, name: Seq<char>, desc: Seq<char>) -> Option<Json> {
    match j {
        Json::Obj(fs) => if fs@.len() == 2 && fs@[0].0@ == "type"@ && is_str(
            fs@[0].1,
            "function"@,
        ) && fs@[1].0@ == "function"@ {
            match fs@[1].1 {
                Json::Obj(gs) => if gs@.len() == 3 && gs@[0].0@ == "name"@ && is_str(
                    gs@[0].1,
                    name,
                ) && gs@[1].0@ == "description"@ && is_str(gs@[1].1, desc) && gs@[2].0@
                    == "parameters"@ {
                    Some(gs@[2].1)
                } else {
                    None
                },
                _ => None,
            }
        } else {
            None
        },
        _ => None,
    }
}

/// The fixed declaration of the three callable tools.
pub open spec fn spec_tools_ok(ts: Seq<Json>) -> bool {
    &&& ts.len() == 3
    &&& match tool_params(
        ts[0],
        "display_diagram"@,
        "Display a diagram on draw.io. Pass ONLY the mxCell elements - wrapper tags and root cells are added automatically."@,
    ) {
        Some(p) => is_xml_params(p, Some("XML string to be displayed on draw.io"@)),
        None => false,
    }
    &&& match tool_params(
        ts[1],
        "edit_diagram"@,
        "Edit the current diagram by ID-based operations (update/add/delete cells)."@,
    ) {
        Some(p) => is_edit_params(p),
        None => false,
    }
    &&& match tool_params(
        ts[2],
        "append_diagram"@,
        "Continue generating diagram XML when previous display_diagram output was truncated."@,
    ) {
        Some(p) => is_xml_params(p, None),
        None => false,
    }
}

fn sjson(s: &str) -> (r: Json)
    ensures
        is_str(r, s@),
{
    Json::Str(s.to_owned())
}

fn string_schema(desc: Option<&str>) -> (r: Json)
    ensures
        is_string_schema(
            r,
            match desc {
                Some(d) => Some(d@),
                None => None,
            },
        ),
{
    let mut fs: Vec<(String, Json)> = Vec::new();
    fs.push(("type".to_owned(), sjson("string")));
    match desc {
        Some(d) => {
            fs.push(("description".to_owned(), sjson(d)));
        },
        None => {},
    }
    Json::Obj(fs)
}

fn xml_params(xml_desc: Option<&str>) -> (r: Json)
    ensures
        is_xml_params(
            r,
            match xml_desc {
                Some(d) => Some(d@),
                None => None,
            },
        ),
{
    let mut ps: Vec<(String, Json)> = Vec::new();
    ps.push(("xml".to_owned(), string_schema(xml_desc)));
    let mut req: Vec<Json> = Vec::new();
    req.push(sjson("xml"));
    let mut fs: Vec<(String, Json)> = Vec::new();
    fs.push(("type".to_owned(), sjson("object")));
    fs.push(("properties".to_owned(), Json::Obj(ps)));
    fs.push(("required".to_owned(), Json::Arr(req)));
    Json::Obj(fs)
}

fn edit_params() -> (r: Json)
    ensures
        is_edit_params(r),
{
    let mut enum_vals: Vec<Json> = Vec::new();
    enum_vals.push(sjson("update"));
    enum_vals.push(sjson("add"));
    enum_vals.push(sjson("delete"));
    let mut type_fs: Vec<(String, Json)> = Vec::new();
    type_fs.push(("type".to_owned(), sjson("string")));
    type_fs.push(("enum".to_owned(), Json::Arr(enum_vals)));
    let mut item_ps: Vec<(String, Json)> = Vec::new();
    item_ps.push(("type".to_owned(), Json::Obj(type_fs)));
    item_ps.push(("cell_id".to_owned(), string_schema(None)));
    item_ps.push(("new_xml".to_owned(), string_schema(None)));
    let mut item_req: Vec<Json> = Vec::new();
    item_req.push(sjson("type"));
    item_req.push(sjson("cell_id"));
    let mut items: Vec<(String, Json)> = Vec::new();
    items.push(("type".to_owned(), sjson("object")));
    items.push(("properties".to_owned(), Json::Obj(item_ps)));
    items.push(("required".to_owned(), Json::Arr(item_req)));
    let mut ops: Vec<(String, Json)> = Vec::new();
    ops.push(("type".to_owned(), sjson("array")));
    ops.push(("items".to_owned(), Json::Obj(items)));
    let mut ps: Vec<(String, Json)> = Vec::new();
    ps.push(("operations".to_owned(), Json::Obj(ops)));
    let mut req: Vec<Json> = Vec::new();
    req.push(sjson("operations"));
    let mut fs: Vec<(String, Json)> = Vec::new();
    fs.push(("type".to_owned(), sjson("object")));
    fs.push(("properties".to_owned(), Json::Obj(ps)));
    fs.push(("required".to_owned(), Json::Arr(req)));
    Json::Obj(fs)
}

fn tool_wrapper(name: &str, desc: &str, params: Json) -> (r: Json)
    ensures
        tool_params(r, name@, desc@) == Some(params),
{
    let mut gs: Vec<(String, Json)> = Vec::new();
    gs.push(("name".to_owned(), sjson(name)));
    gs.push(("description".to_owned(), sjson(desc)));
    gs.push(("parameters".to_owned(), params));
    let mut fs: Vec<(String, Json)> = Vec::new();
    fs.push(("type".to_owned(), sjson("function")));
    fs.push(("function".to_owned(), Json::Obj(gs)));
    Json::Obj(fs)
}

/// The tool declarations sent with every request: display_diagram,
/// edit_diagram and append_diagram, each with its JSON-schema parameters.
/// The declaration is static and derives from no user input.
pub fn create_tools() -> (r: Vec<Json>)
    ensures
        spec_tools_ok(r@),
{
    let mut out: Vec<Json> = Vec::new();
    out.push(
        tool_wrapper(
            "display_diagram",
            "Display a diagram on draw.io. Pass ONLY the mxCell elements - wrapper tags and root cells are added automatically.",
            xml_params(Some("XML string to be displayed on draw.io")),
        ),
    );
    out.push(
        tool_wrapper(
            "edit_diagram",
            "Edit the current diagram by ID-based operations (update/add/delete cells).",
            edit_params(),
        ),
    );
    out.push(
        tool_wrapper(
            "append_diagram",
            "Continue generating diagram XML when previous display_diagram output was truncated.",
            xml_params(None),
        ),
    );
    out
}

/// `{"role": ..., "content": ...}`.
pub open spec fn is_role_content(j: Json, role: Seq<char>, content: Seq<char>) -> bool {
    match j {
        Json::Obj(fs) => fs@.len() == 2 && fs@[0].0@ == "role"@ && is_str(fs@[0].1, role)
            && fs@[1].0@ == "content"@ && is_str(fs@[1].1, content),
        _ => false,
    }
}

/// The `messages` array of the request: the system prompt first, the
/// diagram context as a second system message where one exists, then every
/// UI message flattened to its role and joined text.
pub open spec fn messages_ok(
    ms: Seq<Json>,
    prompt: Seq<char>,
    xmlctx: Seq<char>,
    ui: Seq<UIMessage>,
) -> bool {
    let pre: int = if xmlctx.len() > 0 {
        2
    } else {
        1
    };
    &&& ms.len() == pre + ui.len()
    &&& is_role_content(ms[0], "system"@, prompt)
    &&& (xmlctx.len() > 0 ==> is_role_content(ms[1], "system"@, xmlctx))
    &&& forall|i: int|
        0 <= i < ui.len() ==> is_role_content(
            ms[pre + i],
            ui[i].role@,
            join_nl(text_views(ui[i].parts@)),
        )
}

fn role_content(role: &str, content: String) -> (r: Json)
    ensures
        is_role_content(r, role@, content@),
{
    let mut fs: Vec<(String, Json)> = Vec::new();
    fs.push(("role".to_owned(), sjson(role)));
    fs.push(("content".to_owned(), Json::Str(content)));
    Json::Obj(fs)
}

/// The whole request body: model, messages, the fixed tools, stream: true.
pub open spec fn request_body_ok(
    r: Json,
    model: Seq<char>,
    prompt: Seq<char>,
    xmlctx: Seq<char>,
    ui: Seq<UIMessage>,
) -> bool {
    match r {
        Json::Obj(fs) => fs@.len() == 4 && fs@[0].0@ == "model"@ && is_str(fs@[0].1, model)
            && fs@[1].0@ == "messages"@ && (match fs@[1].1 {
            Json::Arr(ms) => messages_ok(ms@, prompt, xmlctx, ui),
            _ => false,
        }) && fs@[2].0@ == "tools"@ && (match fs@[2].1 {
            Json::Arr(ts) => spec_tools_ok(ts@),
            _ => false,
        }) && fs@[3].0@ == "stream"@ && fs@[3].1 == Json::Bool(true),
        _ => false,
    }
}

/// Assemble the outbound chat-completions request body.
#[verifier::loop_isolation(false)]
pub fn build_request_body(
    model_id: &String,
    system_prompt: String,
    xml_context: &String,
    ui_messages: &Vec<UIMessage>,
) -> (r: Json)
    ensures
        request_body_ok(r, model_id@, system_prompt@, xml_context@, ui_messages@),
{
    let mut ms: Vec<Json> = Vec::new();
    ms.push(role_content("system", system_prompt));
    let ghost pre: int = if xml_context@.len() > 0 {
        2
    } else {
        1
    };
    if !xml_context.as_str().is_empty() {
        ms.push(role_content("system", xml_context.clone()));
    }
    let n = ui_messages.len();
    let mut i: usize = 0;
    while i < n
        invariant
            i <= n,
            n == ui_messages@.len(),
            ms@.len() == pre + i,
            is_role_content(ms@[0], "system"@, system_prompt@),
            xml_context@.len() > 0 ==> is_role_content(ms@[1], "system"@, xml_context@),
            forall|j: int|
                0 <= j < i ==> is_role_content(
                    ms@[pre + j],
                    ui_messages@[j].role@,
                    join_nl(text_views(ui_messages@[j].parts@)),
                ),
        decreases n - i,
    {
        let m = &ui_messages[i];
        let content = join_text_parts(&m.parts);
        ms.push(role_content(m.role.as_str(), content));
        i += 1;
    }
    let tools = create_tools();
    let mut fs: Vec<(String, Json)> = Vec::new();
    fs.push(("model".to_owned(), Json::Str(model_id.clone())));
    fs.push(("messages".to_owned(), Json::Arr(ms)));
    fs.push(("tools".to_owned(), Json::Arr(tools)));
    fs.push(("stream".to_owned(), Json::Bool(true)));
    Json::Obj(fs)
}

} // verus!

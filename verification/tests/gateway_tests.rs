use ai_chat_gateway::config::EnvMap;
use ai_chat_gateway::gateway::{prepare_chat_request, ChatRequestPayload};
use ai_chat_gateway::json::Json;
use ai_chat_gateway::message::{MessagePart, UIMessage};
use ai_chat_gateway::prompt::{build_xml_context, get_system_prompt};
use ai_chat_gateway::request::create_tools;

fn env(pairs: &[(&str, &str)]) -> EnvMap {
    EnvMap {
        vars: pairs
            .iter()
            .map(|(k, v)| (k.to_string(), v.to_string()))
            .collect(),
    }
}

fn payload(code: Option<&str>) -> ChatRequestPayload {
    ChatRequestPayload {
        messages: vec![UIMessage {
            role: "user".to_string(),
            parts: vec![MessagePart::Text { text: "draw a box".to_string() }],
        }],
        xml: None,
        previous_xml: None,
        session_id: None,
        access_code: code.map(|s| s.to_string()),
    }
}

fn get<'a>(j: &'a Json, key: &str) -> &'a Json {
    j.get(key).expect(key)
}

fn as_str(j: &Json) -> &str {
    match j {
        Json::Str(s) => s.as_str(),
        _ => panic!("not a string"),
    }
}

#[test]
fn listed_code_proceeds_unlisted_or_absent_fails_before_start() {
    let e = env(&[
        ("ACCESS_CODE_LIST", "A1, B2"),
        ("AI_PROVIDER", "openai"),
        ("AI_MODEL", "gpt-4o"),
        ("OPENAI_API_KEY", "k"),
    ]);
    assert!(prepare_chat_request(&payload(Some("B2")), None, None, None, None, None, &e).is_ok());
    let err = prepare_chat_request(&payload(Some("x")), None, None, None, None, None, &e)
        .unwrap_err();
    assert_eq!(err, "Invalid or missing access code");
    let err2 = prepare_chat_request(&payload(None), None, None, None, None, None, &e).unwrap_err();
    assert_eq!(err2, "Invalid or missing access code");
}

#[test]
fn prepared_request_carries_endpoint_credential_and_body() {
    let e = env(&[("AI_PROVIDER", "openai"), ("AI_MODEL", "gpt-4o"), ("OPENAI_API_KEY", "k")]);
    let p = prepare_chat_request(&payload(None), None, None, None, None, None, &e).unwrap();
    assert_eq!(p.url, "https://api.openai.com/v1/chat/completions");
    assert_eq!(p.api_key, "k");
    assert_eq!(as_str(get(&p.body, "model")), "gpt-4o");
    assert_eq!(get(&p.body, "stream"), &Json::Bool(true));
    match get(&p.body, "messages") {
        Json::Arr(ms) => {
            assert_eq!(ms.len(), 2);
            assert_eq!(as_str(get(&ms[0], "role")), "system");
            assert_eq!(as_str(get(&ms[1], "role")), "user");
            assert_eq!(as_str(get(&ms[1], "content")), "draw a box");
        },
        _ => panic!("messages is not an array"),
    }
}

#[test]
fn missing_credential_is_a_distinct_error() {
    let e = env(&[("AI_PROVIDER", "openai"), ("AI_MODEL", "gpt-4o")]);
    let err = prepare_chat_request(&payload(None), None, None, None, None, None, &e).unwrap_err();
    assert_eq!(err, "OpenAI API key not configured");
}

#[test]
fn base_url_override_and_defaults() {
    let e = env(&[("AI_PROVIDER", "deepseek"), ("AI_MODEL", "ds"), ("DEEPSEEK_API_KEY", "k")]);
    let p = prepare_chat_request(&payload(None), None, None, None, None, None, &e).unwrap();
    assert_eq!(p.url, "https://api.deepseek.com/v1/chat/completions");
    let p2 = prepare_chat_request(
        &payload(None),
        None,
        None,
        None,
        Some("http://localhost:11434/v1".to_string()),
        None,
        &e,
    )
    .unwrap();
    assert_eq!(p2.url, "http://localhost:11434/v1/chat/completions");
}

#[test]
fn xml_context_becomes_a_second_system_message() {
    let e = env(&[("AI_PROVIDER", "openai"), ("AI_MODEL", "m"), ("OPENAI_API_KEY", "k")]);
    let mut pl = payload(None);
    pl.xml = Some("<mxCell id=\"2\"/>".to_string());
    pl.previous_xml = Some("<mxCell id=\"1\"/>".to_string());
    let p = prepare_chat_request(&pl, None, None, None, None, None, &e).unwrap();
    match get(&p.body, "messages") {
        Json::Arr(ms) => {
            assert_eq!(ms.len(), 3);
            let ctx = as_str(get(&ms[1], "content"));
            assert_eq!(
                ctx,
                "Previous diagram XML:\n```xml\n<mxCell id=\"1\"/>\n```\n\n\
Current diagram XML:\n```xml\n<mxCell id=\"2\"/>\n```"
            );
        },
        _ => panic!("messages is not an array"),
    }
}

#[test]
fn system_prompt_carries_minimal_style_banner_on_demand() {
    let plain = get_system_prompt("m", false);
    let minimal = get_system_prompt("m", true);
    assert!(plain.starts_with("You are an expert diagram creation assistant"));
    assert!(minimal.starts_with("## ⚠️ MINIMAL STYLE MODE ACTIVE ⚠️\n\n"));
    assert!(minimal.ends_with(&plain));
}

#[test]
fn xml_context_is_empty_without_a_current_diagram() {
    let prev = "<mxCell/>".to_string();
    assert_eq!(build_xml_context(None, Some(&prev)), "");
    let cur = "<mxCell/>".to_string();
    assert_eq!(
        build_xml_context(Some(&cur), None),
        "Current diagram XML:\n```xml\n<mxCell/>\n```"
    );
}

#[test]
fn tools_declare_the_three_diagram_functions() {
    let tools = create_tools();
    assert_eq!(tools.len(), 3);
    let names: Vec<String> = tools
        .iter()
        .map(|t| as_str(get(get(t, "function"), "name")).to_string())
        .collect();
    assert_eq!(names, vec!["display_diagram", "edit_diagram", "append_diagram"]);
    for t in &tools {
        assert_eq!(as_str(get(t, "type")), "function");
        let f = get(t, "function");
        assert!(f.get("description").is_some());
        let params = get(f, "parameters");
        assert_eq!(as_str(get(params, "type")), "object");
    }
    let edit = get(get(&tools[1], "function"), "parameters");
    match get(get(edit, "properties"), "operations") {
        Json::Obj(_) => {},
        _ => panic!("operations schema missing"),
    }
}

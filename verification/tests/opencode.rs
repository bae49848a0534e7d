use ocwatch::agent_trait::CodingAgent;
use ocwatch::keyed::KeyMap;
use ocwatch::opencode::adapter::OpenCodeAgent;
use ocwatch::opencode::client::{
    allow_patch, debug_query, refusal, reply_outcome, ApiReply, Method, OcClient, OcEvent, OcSession,
    OcSessionStatus, OcTime,
};
use ocwatch::types::SessionState;

fn statuses() -> KeyMap<OcSessionStatus> {
    let mut map = KeyMap::new();
    map.insert("a".to_string(), OcSessionStatus { status: Some("busy".to_string()) });
    map.insert("b".to_string(), OcSessionStatus { status: None });
    map.insert("c".to_string(), OcSessionStatus { status: Some("strange".to_string()) });
    map
}

fn oc_session(id: &str, created: u64) -> OcSession {
    OcSession {
        id: id.to_string(),
        slug: "happy-panda".to_string(),
        project_id: "global".to_string(),
        directory: "/srv".to_string(),
        parent_id: None,
        title: "a task".to_string(),
        version: "1.4.3".to_string(),
        time: OcTime { created, updated: created },
    }
}

#[test]
fn requests_to_an_instance() {
    let client = OcClient::new("http://localhost:4096//");
    assert_eq!(client.base_url, "http://localhost:4096");
    let list = client.list_sessions();
    assert_eq!(list.method, Method::Get);
    assert_eq!(list.url, "http://localhost:4096/session");
    assert_eq!(list.body, None);
    assert_eq!(client.get_session_statuses().url, "http://localhost:4096/session/status");
    assert_eq!(client.get_session("x").url, "http://localhost:4096/session/x");
    let abort = client.abort_session("x");
    assert_eq!(abort.method, Method::Post);
    assert_eq!(abort.url, "http://localhost:4096/session/x/abort");
    let patch = client.update_session("x", allow_patch());
    assert_eq!(patch.method, Method::Patch);
    assert_eq!(patch.path, "/session/x");
    assert_eq!(patch.body.as_deref(), Some("{\"permission\":[{\"action\":\"allow\"}]}"));
    assert_eq!(client.subscribe_events().url, "http://localhost:4096/event");
}

#[test]
fn messages_are_json() {
    let client = OcClient::new("http://h");
    let request = client.send_message("x", "say \"hi\"\\\n\u{1}\u{8}\u{c}\r\tä\u{7f}");
    assert_eq!(request.method, Method::Post);
    assert_eq!(request.path, "/session/x/message");
    assert_eq!(
        request.body.as_deref(),
        Some(
            "{\"parts\":[{\"text\":\"say \\\"hi\\\"\\\\\\n\\u0001\\b\\f\\r\\tä\u{7f}\",\"type\":\"text\"}]}"
        )
    );
    let value: serde_json::Value = serde_json::from_str(&request.body.unwrap()).unwrap();
    assert_eq!(value["parts"][0]["text"], "say \"hi\"\\\n\u{1}\u{8}\u{c}\r\tä\u{7f}");
}

#[test]
fn outcomes_of_requests() {
    let client = OcClient::new("http://h");
    let list = client.list_sessions();
    let ok = ApiReply::Answered { code: 204, body: "[]".to_string() };
    assert_eq!(reply_outcome(&list, ok), Ok("[]".to_string()));
    assert_eq!(
        reply_outcome(&list, ApiReply::NotSent),
        Err("GET http://h/session failed".to_string())
    );
    let missing = ApiReply::Answered { code: 404, body: "gone".to_string() };
    assert_eq!(
        reply_outcome(&list, missing),
        Err("GET /session returned 404 Not Found".to_string())
    );
    let patch = client.update_session("x", "{}");
    let broken = ApiReply::Answered { code: 500, body: "why".to_string() };
    assert_eq!(
        reply_outcome(&patch, broken),
        Err("PATCH /session/x returned 500 Internal Server Error: why".to_string())
    );
    let message = client.send_message("x", "hi");
    let odd = ApiReply::Answered { code: 799, body: String::new() };
    assert_eq!(
        reply_outcome(&message, odd),
        Err("POST /session/x/message returned 799 <unknown status code>".to_string())
    );
    assert_eq!(refusal(&list, "418 odd", "why"), "GET /session returned 418 odd");
    assert_eq!(refusal(&patch, "418 odd", "why"), "PATCH /session/x returned 418 odd: why");
    let redirect = ApiReply::Answered { code: 300, body: String::new() };
    assert!(reply_outcome(&list, redirect).is_err());
}

#[test]
fn states_by_status() {
    let known = statuses();
    assert_eq!(OcClient::session_state_from_status("a", &known), SessionState::Busy);
    assert_eq!(OcClient::session_state_from_status("b", &known), SessionState::Idle);
    assert_eq!(OcClient::session_state_from_status("c", &known), SessionState::Unknown);
    assert_eq!(OcClient::session_state_from_status("d", &known), SessionState::Idle);
}

#[test]
fn events_without_a_type_are_messages() {
    let event = OcEvent::received(String::new(), "{}".to_string());
    assert_eq!(event.event_type, "message");
    assert_eq!(event.data, "{}");
    let event = OcEvent::received("ping".to_string(), String::new());
    assert_eq!(event.event_type, "ping");
}

#[test]
fn uptime_of_a_session() {
    assert_eq!(oc_session("a", 1_000).uptime_secs(4_999), 3);
    assert_eq!(oc_session("a", 5_000).uptime_secs(1_000), 0);
}

#[test]
fn sessions_in_a_summary() {
    let sessions = vec![oc_session("a", 1_000), oc_session("d", 2_000)];
    let summary = debug_query(&sessions, &statuses(), 11_000);
    assert_eq!(summary.len(), 2);
    assert_eq!(summary[0].id, "a");
    assert_eq!(summary[0].title, "a task");
    assert_eq!(summary[0].directory, "/srv");
    assert_eq!(summary[0].state, "Busy");
    assert_eq!(summary[0].uptime_secs, 10);
    assert_eq!(summary[1].state, "Idle");
    assert_eq!(summary[1].uptime_secs, 9);
}

#[test]
fn opencode_is_a_coding_agent() {
    let agent = OpenCodeAgent::new();
    assert_eq!(agent.agent_type(), "opencode");
    assert_eq!(agent.get_status("a", &statuses()), SessionState::Busy);
    assert_eq!(agent.status_request("http://h/").url, "http://h/session/status");
    assert_eq!(agent.send_message("x", "http://h", "hi").path, "/session/x/message");
    let approve = agent.approve("x", "http://h");
    assert_eq!(approve.method, Method::Patch);
    assert_eq!(approve.body.as_deref(), Some("{\"permission\":{\"action\":\"allow\"}}"));
}

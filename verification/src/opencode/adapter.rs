//! OpenCode as a coding agent.

use vstd::prelude::*;

use crate::agent_trait::CodingAgent;
use crate::keyed::KeyMap;
use crate::opencode::client::{
    base_of, message_json, request_of, session_path, state_in, ApiRequest, Method, OcClient,
    OcSessionStatus,
};
use crate::types::SessionState;

verus! {

/// OpenCode.
#[derive(Clone, Copy, Debug)]
pub struct OpenCodeAgent;

impl OpenCodeAgent {
    pub fn new() -> (r: OpenCodeAgent)
        ensures
            r == OpenCodeAgent,
    {
        OpenCodeAgent
    }
}

impl Default for OpenCodeAgent {
    fn default() -> (r: OpenCodeAgent)
        ensures
            r == OpenCodeAgent,
    {
        OpenCodeAgent::new()
    }
}

impl CodingAgent for OpenCodeAgent {
    fn status_request(&self, oc_base_url: &str) -> (r: ApiRequest)
        ensures
            r@ == request_of(base_of(oc_base_url@), Method::Get, "/session/status"@, None),
    {
        OcClient::new(oc_base_url).get_session_statuses()
    }

    fn get_status(&self, session_id: &str, statuses: &KeyMap<OcSessionStatus>) -> (r: SessionState)
        ensures
            r == state_in(statuses@, session_id@),
    {
        OcClient::session_state_from_status(session_id, statuses)
    }

    fn send_message(&self, session_id: &str, oc_base_url: &str, message: &str) -> (r: ApiRequest)
        ensures
            r@ == request_of(
                base_of(oc_base_url@),
                Method::Post,
                session_path(session_id@) + "/message"@,
                Some(message_json(message@)),
            ),
    {
        OcClient::new(oc_base_url).send_message(session_id, message)
    }

    fn approve(&self, session_id: &str, oc_base_url: &str) -> (r: ApiRequest)
        ensures
            r@ == request_of(
                base_of(oc_base_url@),
                Method::Patch,
                session_path(session_id@),
                Some("{\"permission\":{\"action\":\"allow\"}}"@),
            ),
    {
        OcClient::new(oc_base_url).update_session(
            session_id,
            "{\"permission\":{\"action\":\"allow\"}}",
        )
    }

    fn agent_type(&self) -> (r: &'static str)
        ensures
            r@ == "opencode"@,
    {
        "opencode"
    }
}

} // verus!

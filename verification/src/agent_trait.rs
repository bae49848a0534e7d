//! What a coding agent has to offer.

use vstd::prelude::*;

use crate::keyed::KeyMap;
use crate::opencode::client::{ApiRequest, OcSessionStatus};
use crate::types::SessionState;

verus! {

/// What the stream of an agent tells.
#[derive(Clone, Debug)]
pub enum AgentEvent {
    /// A session changed its state.
    StatusChanged { session_id: String, new_state: SessionState },
    /// A session asks for a permission.
    PermissionAsked { session_id: String, tool: String, description: String },
    /// The agent is still there.
    Heartbeat,
    /// The stream failed.
    Error { message: String },
}

/// A coding agent with an HTTP interface. Finding its instances and reaching
/// them is not its business.
pub trait CodingAgent {
    /// The request for the states of sessions.
    fn status_request(&self, oc_base_url: &str) -> (r: ApiRequest);

    /// The state of a session, by the answer to that request.
    fn get_status(&self, session_id: &str, statuses: &KeyMap<OcSessionStatus>) -> (r: SessionState);

    /// The request that sends a message to a session.
    fn send_message(&self, session_id: &str, oc_base_url: &str, message: &str) -> (r: ApiRequest);

    /// The request that approves what a session asks for.
    fn approve(&self, session_id: &str, oc_base_url: &str) -> (r: ApiRequest);

    /// The name of the kind of agent.
    fn agent_type(&self) -> (r: &'static str);
}

} // verus!

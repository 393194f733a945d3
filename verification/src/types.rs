//! The data model: leaf endpoint configurations, agent configurations, the
//! aggregate server configuration, and audit entries.
//!
//! Every type has a spec-level view reached through `deep_view`, and a
//! hand-written `Clone` whose contract says the copy stands for the same
//! view. Timestamps are milliseconds since the Unix epoch.

use vstd::prelude::*;

use crate::idmap::IdMap;
use crate::value::{ConfigValue, Jv};

verus! {

/// Transport used to reach a leaf endpoint.
#[derive(Debug, PartialEq)]
pub enum McpTransport {
    Stdio { command: String, args: Vec<String>, env: Option<Vec<(String, String)>> },
    Https { url: String, headers: Option<Vec<(String, String)>> },
}

/// Spec-level view of [`McpTransport`].
pub enum McpTransportView {
    Stdio { command: Seq<char>, args: Seq<Seq<char>>, env: Option<Seq<(Seq<char>, Seq<char>)>> },
    Https { url: Seq<char>, headers: Option<Seq<(Seq<char>, Seq<char>)>> },
}

impl DeepView for McpTransport {
    type V = McpTransportView;

    open spec fn deep_view(&self) -> McpTransportView {
        match self {
            McpTransport::Stdio { command, args, env } => McpTransportView::Stdio {
                command: command@,
                args: args.deep_view(),
                env: env.deep_view(),
            },
            McpTransport::Https { url, headers } => McpTransportView::Https {
                url: url@,
                headers: headers.deep_view(),
            },
        }
    }
}

/// Configuration of one leaf endpoint.
#[derive(Debug, PartialEq)]
pub struct LeafMcpConfig {
    pub id: String,
    pub name: Option<String>,
    pub description: Option<String>,
    pub transport: McpTransport,
    /// The endpoint runs co-located with an agent rather than the server.
    pub is_local: bool,
    /// Agents may reach the endpoint directly.
    pub reachable_by_agent: bool,
    /// Open-ended configuration payload.
    pub config: ConfigValue,
}

/// Spec-level view of [`LeafMcpConfig`].
pub struct LeafMcpConfigView {
    pub id: Seq<char>,
    pub name: Option<Seq<char>>,
    pub description: Option<Seq<char>>,
    pub transport: McpTransportView,
    pub is_local: bool,
    pub reachable_by_agent: bool,
    pub config: Jv,
}

impl DeepView for LeafMcpConfig {
    type V = LeafMcpConfigView;

    open spec fn deep_view(&self) -> LeafMcpConfigView {
        LeafMcpConfigView {
            id: self.id@,
            name: self.name.deep_view(),
            description: self.description.deep_view(),
            transport: self.transport.deep_view(),
            is_local: self.is_local,
            reachable_by_agent: self.reachable_by_agent,
            config: self.config.dv(),
        }
    }
}

/// A tool offered by an endpoint.
#[derive(Debug, PartialEq)]
pub struct McpTool {
    pub name: String,
    pub description: String,
    /// Schema of the tool's parameters.
    pub parameters: ConfigValue,
}

/// Spec-level view of [`McpTool`].
pub struct McpToolView {
    pub name: Seq<char>,
    pub description: Seq<char>,
    pub parameters: Jv,
}

impl DeepView for McpTool {
    type V = McpToolView;

    open spec fn deep_view(&self) -> McpToolView {
        McpToolView {
            name: self.name@,
            description: self.description@,
            parameters: self.parameters.dv(),
        }
    }
}

/// Configuration of one agent consumer.
#[derive(Debug, PartialEq)]
pub struct AgentConfig {
    pub agent_id: String,
    pub name: Option<String>,
    pub description: Option<String>,
    /// Identifiers of the targets this agent is allowed to use.
    pub allowed_mcp_ids: Vec<String>,
    /// Whether the agent is currently connected.
    pub is_connected: bool,
    /// When the agent was last seen, if ever.
    pub last_seen: Option<i64>,
    /// Open-ended configuration payload.
    pub config: ConfigValue,
}

/// Spec-level view of [`AgentConfig`].
pub struct AgentConfigView {
    pub agent_id: Seq<char>,
    pub name: Option<Seq<char>>,
    pub description: Option<Seq<char>>,
    pub allowed_mcp_ids: Seq<Seq<char>>,
    pub is_connected: bool,
    pub last_seen: Option<i64>,
    pub config: Jv,
}

impl DeepView for AgentConfig {
    type V = AgentConfigView;

    open spec fn deep_view(&self) -> AgentConfigView {
        AgentConfigView {
            agent_id: self.agent_id@,
            name: self.name.deep_view(),
            description: self.description.deep_view(),
            allowed_mcp_ids: self.allowed_mcp_ids.deep_view(),
            is_connected: self.is_connected,
            last_seen: self.last_seen,
            config: self.config.dv(),
        }
    }
}

/// Metadata of the whole configuration.
#[derive(Debug, PartialEq)]
pub struct ServerMetadata {
    pub version: String,
    pub created_at: i64,
    pub last_modified: i64,
}

/// Spec-level view of [`ServerMetadata`].
pub struct ServerMetadataView {
    pub version: Seq<char>,
    pub created_at: i64,
    pub last_modified: i64,
}

impl DeepView for ServerMetadata {
    type V = ServerMetadataView;

    open spec fn deep_view(&self) -> ServerMetadataView {
        ServerMetadataView {
            version: self.version@,
            created_at: self.created_at,
            last_modified: self.last_modified,
        }
    }
}

/// The aggregate root: every leaf endpoint, every agent, and the metadata.
#[derive(Debug, PartialEq)]
pub struct ServerConfig {
    pub leaf_mcps: IdMap<LeafMcpConfig>,
    pub agents: IdMap<AgentConfig>,
    pub metadata: ServerMetadata,
}

/// Spec-level view of [`ServerConfig`].
pub struct ServerConfigView {
    pub leaf_mcps: Seq<(Seq<char>, LeafMcpConfigView)>,
    pub agents: Seq<(Seq<char>, AgentConfigView)>,
    pub metadata: ServerMetadataView,
}

impl DeepView for ServerConfig {
    type V = ServerConfigView;

    open spec fn deep_view(&self) -> ServerConfigView {
        ServerConfigView {
            leaf_mcps: self.leaf_mcps.dv(),
            agents: self.agents.dv(),
            metadata: self.metadata.deep_view(),
        }
    }
}

/// `post` is `pre` with at most the last-modified stamp changed.
pub open spec fn touched_only_last_modified(pre: ServerConfigView, post: ServerConfigView) -> bool {
    &&& post.leaf_mcps == pre.leaf_mcps
    &&& post.agents == pre.agents
    &&& post.metadata.version == pre.metadata.version
    &&& post.metadata.created_at == pre.metadata.created_at
}

impl ServerConfig {
    /// Both maps have pairwise-distinct keys.
    pub open spec fn wf(&self) -> bool {
        self.leaf_mcps.wf() && self.agents.wf()
    }

    /// The view of an empty configuration created at time `now`.
    pub open spec fn empty_view_at(version: Seq<char>, now: i64) -> ServerConfigView {
        ServerConfigView {
            leaf_mcps: Seq::empty(),
            agents: Seq::empty(),
            metadata: ServerMetadataView { version: version, created_at: now, last_modified: now },
        }
    }

    /// An empty configuration stamped with the given creation time.
    pub fn new_at(now: i64) -> (r: Self)
        ensures
            r.deep_view() == ServerConfig::empty_view_at("0.1.0"@, now),
            r.wf(),
    {
        ServerConfig {
            leaf_mcps: IdMap::new(),
            agents: IdMap::new(),
            metadata: ServerMetadata {
                version: String::from_str("0.1.0"),
                created_at: now,
                last_modified: now,
            },
        }
    }

    /// Stamp the configuration as modified now.
    pub fn update_last_modified(&mut self)
        ensures
            touched_only_last_modified(old(self).deep_view(), final(self).deep_view()),
            final(self).wf() == old(self).wf(),
    {
        let t = crate::ext::now_millis();
        self.metadata.last_modified = t;
    }
}

impl Default for ServerConfig {
    /// An empty configuration stamped with the current time.
    fn default() -> (r: Self)
        ensures
            r.deep_view() == ServerConfig::empty_view_at(
                "0.1.0"@,
                r.deep_view().metadata.created_at,
            ),
            r.wf(),
    {
        let now = crate::ext::now_millis();
        ServerConfig::new_at(now)
    }
}

/// The kind of action recorded by an audit entry.
#[derive(Debug, Clone, Copy, PartialEq, Eq, Structural)]
pub enum AuditAction {
    Create,
    Read,
    Update,
    Delete,
    AddAllowedMcp,
    RemoveAllowedMcp,
}

/// What an audit entry is about.
#[derive(Debug, PartialEq)]
pub enum AuditTarget {
    LeafMcp { id: String },
    Agent { id: String },
    AgentAllowedMcp { agent_id: String, mcp_id: String },
    Server,
}

/// Spec-level view of [`AuditTarget`].
pub enum AuditTargetView {
    LeafMcp { id: Seq<char> },
    Agent { id: Seq<char> },
    AgentAllowedMcp { agent_id: Seq<char>, mcp_id: Seq<char> },
    Server,
}

impl DeepView for AuditTarget {
    type V = AuditTargetView;

    open spec fn deep_view(&self) -> AuditTargetView {
        match self {
            AuditTarget::LeafMcp { id } => AuditTargetView::LeafMcp { id: id@ },
            AuditTarget::Agent { id } => AuditTargetView::Agent { id: id@ },
            AuditTarget::AgentAllowedMcp { agent_id, mcp_id } => AuditTargetView::AgentAllowedMcp {
                agent_id: agent_id@,
                mcp_id: mcp_id@,
            },
            AuditTarget::Server => AuditTargetView::Server,
        }
    }
}

/// One immutable record of an action taken against the configuration.
#[derive(Debug, PartialEq)]
pub struct AuditLogEntry {
    pub id: String,
    pub timestamp: i64,
    pub action: AuditAction,
    /// Who acted, when known.
    pub actor: Option<String>,
    pub target: AuditTarget,
    /// Free-text justification, when given.
    pub reason: Option<String>,
    /// Structured details of the action.
    pub details: ConfigValue,
}

/// Spec-level view of [`AuditLogEntry`].
pub struct AuditLogEntryView {
    pub id: Seq<char>,
    pub timestamp: i64,
    pub action: AuditAction,
    pub actor: Option<Seq<char>>,
    pub target: AuditTargetView,
    pub reason: Option<Seq<char>>,
    pub details: Jv,
}

impl DeepView for AuditLogEntry {
    type V = AuditLogEntryView;

    open spec fn deep_view(&self) -> AuditLogEntryView {
        AuditLogEntryView {
            id: self.id@,
            timestamp: self.timestamp,
            action: self.action,
            actor: self.actor.deep_view(),
            target: self.target.deep_view(),
            reason: self.reason.deep_view(),
            details: self.details.dv(),
        }
    }
}

/// Request to register a leaf endpoint.
#[derive(Debug, PartialEq)]
pub struct CreateLeafMcpRequest {
    pub id: String,
    pub config: LeafMcpConfig,
    pub reason: Option<String>,
    /// Confirmation flag; a request without it is rejected at the boundary.
    pub should_create: bool,
}

/// Request to apply a partial update to a leaf endpoint.
#[derive(Debug, PartialEq)]
pub struct UpdateLeafMcpRequest {
    /// The partial document to merge.
    pub config: ConfigValue,
    pub reason: Option<String>,
    pub should_update: bool,
}

/// Request to unregister a leaf endpoint.
#[derive(Debug, PartialEq)]
pub struct DeleteLeafMcpRequest {
    pub reason: Option<String>,
    pub should_delete_mcp: bool,
}

/// Request to register an agent.
#[derive(Debug, PartialEq)]
pub struct CreateAgentRequest {
    pub agent_id: String,
    pub allowed_mcp_ids: Vec<String>,
    pub should_create: bool,
}

/// Request to apply a partial update to an agent.
#[derive(Debug, PartialEq)]
pub struct UpdateAgentRequest {
    /// The partial document to merge.
    pub config: ConfigValue,
    pub reason: Option<String>,
    pub should_update: bool,
}

/// Request to grant an agent one more allowed target.
#[derive(Debug, PartialEq)]
pub struct AddAgentAllowedMcpRequest {
    pub mcp_id: String,
    pub reason: Option<String>,
    pub should_add_mcp_id: bool,
}

/// Request to withdraw an allowed target from an agent.
#[derive(Debug, PartialEq)]
pub struct RemoveAgentAllowedMcpRequest {
    pub mcp_id: String,
    pub reason: Option<String>,
    pub should_remove_mcp_id: bool,
}

/// Request to unregister an agent.
#[derive(Debug, PartialEq)]
pub struct DeleteAgentRequest {
    pub reason: Option<String>,
    pub should_delete_mcp: bool,
}

/// A message relayed between an agent and the server on the forwarding
/// channel.
#[derive(Debug, PartialEq)]
pub enum ForwardingMessage {
    Request {
        request_id: String,
        url_params: String,
        headers: Vec<(String, String)>,
        body: Option<String>,
    },
    Response {
        request_id: String,
        status_code: u16,
        headers: Vec<(String, String)>,
        body: Option<String>,
    },
}

/// Clone an optional string; the copy has the same view.
pub fn clone_opt_string(o: &Option<String>) -> (r: Option<String>)
    ensures
        r.deep_view() == o.deep_view(),
{
    match o {
        Some(s) => Some(s.clone()),
        None => None,
    }
}

/// Clone a vector of strings; the copy has the same view.
pub fn clone_string_vec(v: &Vec<String>) -> (r: Vec<String>)
    ensures
        r.deep_view() == v.deep_view(),
{
    let n = v.len();
    let mut out: Vec<String> = Vec::new();
    let mut i: usize = 0;
    while i < n
        invariant
            n == v@.len(),
            0 <= i <= n,
            out@.len() == i,
            forall|t: int| #![trigger out@[t]] 0 <= t < i ==> out@[t]@ == v@[t]@,
        decreases n - i,
    {
        out.push(v[i].clone());
        i = i + 1;
    }
    proof {
        assert(out.deep_view() =~= v.deep_view());
    }
    out
}

/// Clone a vector of string pairs; the copy has the same view.
pub fn clone_string_pairs(v: &Vec<(String, String)>) -> (r: Vec<(String, String)>)
    ensures
        r.deep_view() == v.deep_view(),
{
    let n = v.len();
    let mut out: Vec<(String, String)> = Vec::new();
    let mut i: usize = 0;
    while i < n
        invariant
            n == v@.len(),
            0 <= i <= n,
            out@.len() == i,
            forall|t: int|
                #![trigger out@[t]]
                0 <= t < i ==> out@[t].0@ == v@[t].0@ && out@[t].1@ == v@[t].1@,
        decreases n - i,
    {
        out.push((v[i].0.clone(), v[i].1.clone()));
        i = i + 1;
    }
    proof {
        assert(out.deep_view() =~= v.deep_view());
    }
    out
}

fn clone_opt_string_pairs(o: &Option<Vec<(String, String)>>) -> (r: Option<Vec<(String, String)>>)
    ensures
        r.deep_view() == o.deep_view(),
{
    match o {
        Some(v) => Some(clone_string_pairs(v)),
        None => None,
    }
}

impl Clone for McpTransport {
    /// Deep copy; the copy has the same view.
    fn clone(&self) -> (r: Self)
        ensures
            r.deep_view() == self.deep_view(),
    {
        match self {
            McpTransport::Stdio { command, args, env } => McpTransport::Stdio {
                command: command.clone(),
                args: clone_string_vec(args),
                env: clone_opt_string_pairs(env),
            },
            McpTransport::Https { url, headers } => McpTransport::Https {
                url: url.clone(),
                headers: clone_opt_string_pairs(headers),
            },
        }
    }
}

impl Clone for LeafMcpConfig {
    /// Deep copy; the copy has the same view.
    fn clone(&self) -> (r: Self)
        ensures
            r.deep_view() == self.deep_view(),
    {
        LeafMcpConfig {
            id: self.id.clone(),
            name: clone_opt_string(&self.name),
            description: clone_opt_string(&self.description),
            transport: self.transport.clone(),
            is_local: self.is_local,
            reachable_by_agent: self.reachable_by_agent,
            config: self.config.clone(),
        }
    }
}

impl Clone for McpTool {
    /// Deep copy; the copy has the same view.
    fn clone(&self) -> (r: Self)
        ensures
            r.deep_view() == self.deep_view(),
    {
        McpTool {
            name: self.name.clone(),
            description: self.description.clone(),
            parameters: self.parameters.clone(),
        }
    }
}

impl Clone for AgentConfig {
    /// Deep copy; the copy has the same view.
    fn clone(&self) -> (r: Self)
        ensures
            r.deep_view() == self.deep_view(),
    {
        AgentConfig {
            agent_id: self.agent_id.clone(),
            name: clone_opt_string(&self.name),
            description: clone_opt_string(&self.description),
            allowed_mcp_ids: clone_string_vec(&self.allowed_mcp_ids),
            is_connected: self.is_connected,
            last_seen: if let Some(t) = self.last_seen {
                Some(t)
            } else {
                None
            },
            config: self.config.clone(),
        }
    }
}

impl Clone for ServerMetadata {
    /// Deep copy; the copy has the same view.
    fn clone(&self) -> (r: Self)
        ensures
            r.deep_view() == self.deep_view(),
    {
        ServerMetadata {
            version: self.version.clone(),
            created_at: self.created_at,
            last_modified: self.last_modified,
        }
    }
}

impl Clone for AuditTarget {
    /// Deep copy; the copy has the same view.
    fn clone(&self) -> (r: Self)
        ensures
            r.deep_view() == self.deep_view(),
    {
        match self {
            AuditTarget::LeafMcp { id } => AuditTarget::LeafMcp { id: id.clone() },
            AuditTarget::Agent { id } => AuditTarget::Agent { id: id.clone() },
            AuditTarget::AgentAllowedMcp { agent_id, mcp_id } => AuditTarget::AgentAllowedMcp {
                agent_id: agent_id.clone(),
                mcp_id: mcp_id.clone(),
            },
            AuditTarget::Server => AuditTarget::Server,
        }
    }
}

impl Clone for AuditLogEntry {
    /// Deep copy; the copy has the same view.
    fn clone(&self) -> (r: Self)
        ensures
            r.deep_view() == self.deep_view(),
    {
        AuditLogEntry {
            id: self.id.clone(),
            timestamp: self.timestamp,
            action: self.action,
            actor: clone_opt_string(&self.actor),
            target: self.target.clone(),
            reason: clone_opt_string(&self.reason),
            details: self.details.clone(),
        }
    }
}

impl Clone for ServerConfig {
    /// Deep copy; the copy has the same view.
    fn clone(&self) -> (r: Self)
        ensures
            r.deep_view() == self.deep_view(),
            r.wf() == self.wf(),
    {
        let nl = self.leaf_mcps.len();
        let mut leaf_entries: Vec<(String, LeafMcpConfig)> = Vec::new();
        let mut i: usize = 0;
        while i < nl
            invariant
                nl == self.leaf_mcps.dv().len(),
                0 <= i <= nl,
                leaf_entries@.len() == i,
                forall|t: int|
                    #![trigger leaf_entries@[t]]
                    0 <= t < i ==> leaf_entries@[t].0@ == self.leaf_mcps.dv()[t].0
                        && leaf_entries@[t].1.deep_view() == self.leaf_mcps.dv()[t].1,
            decreases nl - i,
        {
            let k = self.leaf_mcps.key_at(i).clone();
            let v = self.leaf_mcps.val_at(i).clone();
            leaf_entries.push((k, v));
            i = i + 1;
        }
        let na = self.agents.len();
        let mut agent_entries: Vec<(String, AgentConfig)> = Vec::new();
        let mut j: usize = 0;
        while j < na
            invariant
                na == self.agents.dv().len(),
                0 <= j <= na,
                agent_entries@.len() == j,
                forall|t: int|
                    #![trigger agent_entries@[t]]
                    0 <= t < j ==> agent_entries@[t].0@ == self.agents.dv()[t].0
                        && agent_entries@[t].1.deep_view() == self.agents.dv()[t].1,
            decreases na - j,
        {
            let k = self.agents.key_at(j).clone();
            let v = self.agents.val_at(j).clone();
            agent_entries.push((k, v));
            j = j + 1;
        }
        let r = ServerConfig {
            leaf_mcps: IdMap { entries: leaf_entries },
            agents: IdMap { entries: agent_entries },
            metadata: self.metadata.clone(),
        };
        proof {
            assert(r.leaf_mcps.dv() =~= self.leaf_mcps.dv());
            assert(r.agents.dv() =~= self.agents.dv());
        }
        r
    }
}

} // verus!

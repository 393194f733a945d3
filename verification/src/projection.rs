//! The per-agent remote configuration projection: the authorization
//! boundary a forwarding layer consults.
//!
//! For each identifier in an agent's allow-list, the projection resolves it
//! against leaf endpoints first, then agents, and includes whichever is
//! found; an identifier that resolves to neither is silently omitted. An
//! agent is never shown a target outside its allow-list.

use vstd::prelude::*;

use crate::errors::{MceptionError, MceptionResult, StorageError};
use crate::kv::{kv_get, kv_has_key};
use crate::service::{AuditStorage, ConfigService, ConfigStorage};
use crate::types::{
    AgentConfig, AgentConfigView, LeafMcpConfig, LeafMcpConfigView, ServerConfig, ServerConfigView,
};

verus! {

/// One target visible to an agent: a leaf endpoint or another agent.
#[derive(Debug, PartialEq)]
pub enum RemoteTarget {
    Leaf(LeafMcpConfig),
    Agent(AgentConfig),
}

/// Spec-level view of [`RemoteTarget`].
pub enum RemoteTargetView {
    Leaf(LeafMcpConfigView),
    Agent(AgentConfigView),
}

impl DeepView for RemoteTarget {
    type V = RemoteTargetView;

    open spec fn deep_view(&self) -> RemoteTargetView {
        match self {
            RemoteTarget::Leaf(l) => RemoteTargetView::Leaf(l.deep_view()),
            RemoteTarget::Agent(a) => RemoteTargetView::Agent(a.deep_view()),
        }
    }
}

/// The filtered view of the configuration visible to one agent.
#[derive(Debug, PartialEq)]
pub struct RemoteProjection {
    pub agent_id: String,
    /// The resolved targets, keyed by identifier, in allow-list order.
    pub mcps: Vec<(String, RemoteTarget)>,
    /// The configuration's last-modified stamp at projection time.
    pub last_updated: i64,
    /// The configuration's schema version.
    pub version: String,
}

/// Spec-level view of [`RemoteProjection`].
pub struct RemoteProjectionView {
    pub agent_id: Seq<char>,
    pub mcps: Seq<(Seq<char>, RemoteTargetView)>,
    pub last_updated: i64,
    pub version: Seq<char>,
}

impl DeepView for RemoteProjection {
    type V = RemoteProjectionView;

    open spec fn deep_view(&self) -> RemoteProjectionView {
        RemoteProjectionView {
            agent_id: self.agent_id@,
            mcps: self.mcps.deep_view(),
            last_updated: self.last_updated,
            version: self.version@,
        }
    }
}

/// Resolve each identifier against leaf endpoints first, then agents,
/// keeping allow-list order and omitting identifiers that resolve to
/// neither.
pub open spec fn resolve_targets(c: ServerConfigView, ids: Seq<Seq<char>>) -> Seq<
    (Seq<char>, RemoteTargetView),
>
    decreases ids.len(),
{
    if ids.len() == 0 {
        Seq::empty()
    } else {
        let rest = resolve_targets(c, ids.drop_last());
        let id = ids.last();
        if kv_has_key(c.leaf_mcps, id) {
            rest.push((id, RemoteTargetView::Leaf(kv_get(c.leaf_mcps, id)->Some_0)))
        } else if kv_has_key(c.agents, id) {
            rest.push((id, RemoteTargetView::Agent(kv_get(c.agents, id)->Some_0)))
        } else {
            rest
        }
    }
}

/// The projection an agent is entitled to see.
pub open spec fn projection_view(c: ServerConfigView, agent_id: Seq<char>) -> RemoteProjectionView {
    RemoteProjectionView {
        agent_id: agent_id,
        mcps: resolve_targets(c, kv_get(c.agents, agent_id)->Some_0.allowed_mcp_ids),
        last_updated: c.metadata.last_modified,
        version: c.metadata.version,
    }
}

/// Build the remote projection for one agent of the given configuration.
pub fn agent_remote_projection(config: &ServerConfig, agent_id: &str) -> (r: Option<
    RemoteProjection,
>)
    ensures
        match r {
            Some(p) => kv_has_key(config.deep_view().agents, agent_id@) && p.deep_view()
                == projection_view(config.deep_view(), agent_id@),
            None => !kv_has_key(config.deep_view().agents, agent_id@),
        },
{
    let agent = match config.agents.get(agent_id) {
        Some(a) => a.clone(),
        None => {
            return None;
        },
    };
    let ids = &agent.allowed_mcp_ids;
    let n = ids.len();
    let mut mcps: Vec<(String, RemoteTarget)> = Vec::new();
    let mut i: usize = 0;
    while i < n
        invariant
            n == ids@.len(),
            0 <= i <= n,
            mcps.deep_view() == resolve_targets(
                config.deep_view(),
                ids.deep_view().take(i as int),
            ),
        decreases n - i,
    {
        proof {
            assert(ids.deep_view().take(i as int + 1).drop_last() =~= ids.deep_view().take(
                i as int,
            ));
            assert(ids.deep_view().take(i as int + 1).last() == ids.deep_view()[i as int]);
        }
        let id = &ids[i];
        match config.leaf_mcps.get(id.as_str()) {
            Some(l) => {
                mcps.push((id.clone(), RemoteTarget::Leaf(l.clone())));
                proof {
                    assert(mcps.deep_view() =~= resolve_targets(
                        config.deep_view(),
                        ids.deep_view().take(i as int + 1),
                    ));
                }
            },
            None => {
                match config.agents.get(id.as_str()) {
                    Some(a) => {
                        mcps.push((id.clone(), RemoteTarget::Agent(a.clone())));
                        proof {
                            assert(mcps.deep_view() =~= resolve_targets(
                                config.deep_view(),
                                ids.deep_view().take(i as int + 1),
                            ));
                        }
                    },
                    None => {
                        proof {
                            assert(mcps.deep_view() =~= resolve_targets(
                                config.deep_view(),
                                ids.deep_view().take(i as int + 1),
                            ));
                        }
                    },
                }
            },
        }
        i = i + 1;
    }
    proof {
        assert(ids.deep_view().take(n as int) =~= ids.deep_view());
    }
    Some(
        RemoteProjection {
            agent_id: String::from_str(agent_id),
            mcps,
            last_updated: config.metadata.last_modified,
            version: config.metadata.version.clone(),
        },
    )
}

impl<C: ConfigStorage, A: AuditStorage> ConfigService<C, A> {
    /// The remote configuration for one agent: only the targets its
    /// allow-list grants, with the configuration's metadata stamp.
    pub fn get_agent_remote_config(&self, agent_id: &str) -> (r: MceptionResult<RemoteProjection>)
        ensures
            ({
                let c = self.config.deep_view();
                &&& kv_has_key(c.agents, agent_id@) ==> match r {
                    Ok(p) => p.deep_view() == projection_view(c, agent_id@),
                    Err(_) => false,
                }
                &&& !kv_has_key(c.agents, agent_id@) ==> (r matches Err(
                    MceptionError::Storage(StorageError::NotFound(_)),
                ))
            }),
    {
        match agent_remote_projection(&self.config, agent_id) {
            Some(p) => Ok(p),
            None => Err(
                MceptionError::Storage(StorageError::NotFound(String::from_str("agent not found"))),
            ),
        }
    }
}

} // verus!

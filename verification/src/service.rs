//! The configuration service: owner of the live in-memory configuration.
//!
//! Every mutating operation validates first (violations leave the state
//! untouched), applies the edit in memory, stamps the modification time,
//! then appends one audit entry and persists the whole configuration. The
//! audit and persistence steps go through the pluggable storage traits and
//! may fail after the in-memory edit took effect; the error is returned to
//! the caller and the in-memory state keeps the mutation. Read operations
//! also record a read audit entry, but swallow any failure to do so.

use vstd::prelude::*;

use crate::errors::{MceptionError, MceptionResult, StorageError, ValidationError};
use crate::kv::{kv_get, kv_has_key, kv_remove, kv_set};
use crate::strutil::{check_id_valid, id_valid, str_eq};
use crate::types::{
    AgentConfig, AgentConfigView, AuditAction, AuditLogEntry, AuditTarget, LeafMcpConfig,
    ServerConfig, ServerConfigView,
};
use crate::value::{ConfigValue, Jv, jv_merge, merge_value};

verus! {

/// Pluggable whole-configuration persistence.
pub trait ConfigStorage {
    /// Load the persisted configuration, or a fresh default when none is
    /// persisted yet.
    fn load_config(&mut self) -> Result<ServerConfig, MceptionError>;

    /// Persist the whole configuration, overwriting the previous document.
    fn save_config(&mut self, config: &ServerConfig) -> Result<(), MceptionError>;

    /// Whether a persisted document exists.
    fn config_exists(&mut self) -> Result<bool, MceptionError>;

    /// Copy the persisted document to a timestamped backup location and
    /// return that location.
    fn backup_config(&mut self) -> Result<String, MceptionError>;
}

/// Pluggable append-only audit persistence.
pub trait AuditStorage {
    /// Append one entry to the durable log.
    fn append_entry(&mut self, entry: &AuditLogEntry) -> Result<(), MceptionError>;

    /// Load the full history.
    fn load_entries(&mut self) -> Result<Vec<AuditLogEntry>, MceptionError>;
}

/// The metadata keeps its identity across a mutation: only the
/// last-modified stamp may move.
pub open spec fn meta_continued(pre: ServerConfigView, post: ServerConfigView) -> bool {
    &&& post.metadata.version == pre.metadata.version
    &&& post.metadata.created_at == pre.metadata.created_at
}

/// `id` names an existing leaf endpoint or agent.
pub open spec fn target_exists(c: ServerConfigView, id: Seq<char>) -> bool {
    kv_has_key(c.leaf_mcps, id) || kv_has_key(c.agents, id)
}

/// Every identifier in `ids` names an existing leaf endpoint or agent.
pub open spec fn all_targets_exist(c: ServerConfigView, ids: Seq<Seq<char>>) -> bool {
    forall|i: int| 0 <= i < ids.len() ==> target_exists(c, ids[i])
}

/// `id` occurs in `ids`.
pub open spec fn seq_contains_str(ids: Seq<Seq<char>>, id: Seq<char>) -> bool {
    exists|i: int| 0 <= i < ids.len() && ids[i] == id
}

/// `ids` with every occurrence of `id` removed, order kept.
pub open spec fn seq_remove_id(ids: Seq<Seq<char>>, id: Seq<char>) -> Seq<Seq<char>>
    decreases ids.len(),
{
    if ids.len() == 0 {
        Seq::empty()
    } else {
        let rest = seq_remove_id(ids.drop_last(), id);
        if ids.last() == id {
            rest
        } else {
            rest.push(ids.last())
        }
    }
}

/// The agent with `id` struck from its allow-list.
pub open spec fn agent_without_target(a: AgentConfigView, id: Seq<char>) -> AgentConfigView {
    AgentConfigView { allowed_mcp_ids: seq_remove_id(a.allowed_mcp_ids, id), ..a }
}

/// Every agent with `id` struck from its allow-list.
pub open spec fn agents_without_target(
    agents: Seq<(Seq<char>, AgentConfigView)>,
    id: Seq<char>,
) -> Seq<(Seq<char>, AgentConfigView)> {
    Seq::new(
        agents.len(),
        |i: int|
            if 0 <= i < agents.len() {
                (agents[i].0, agent_without_target(agents[i].1, id))
            } else {
                arbitrary()
            },
    )
}

/// The agent an agent-creation request stands for: empty metadata, not
/// connected, never seen, an empty payload.
pub open spec fn new_agent_view(agent_id: Seq<char>, ids: Seq<Seq<char>>) -> AgentConfigView {
    AgentConfigView {
        agent_id: agent_id,
        name: None,
        description: None,
        allowed_mcp_ids: ids,
        is_connected: false,
        last_seen: None,
        config: Jv::Obj(Seq::empty()),
    }
}

/// Does `id` occur in the string list?
fn vec_contains_str(ids: &Vec<String>, id: &str) -> (r: bool)
    ensures
        r == seq_contains_str(ids.deep_view(), id@),
{
    let n = ids.len();
    let mut i: usize = 0;
    while i < n
        invariant
            n == ids@.len(),
            0 <= i <= n,
            forall|t: int| 0 <= t < i ==> ids.deep_view()[t] != id@,
        decreases n - i,
    {
        if str_eq(ids[i].as_str(), id) {
            assert(ids.deep_view()[i as int] == id@);
            return true;
        }
        i = i + 1;
    }
    false
}

/// The string list with every occurrence of `id` removed.
fn remove_id_vec(ids: &Vec<String>, id: &str) -> (r: Vec<String>)
    ensures
        r.deep_view() == seq_remove_id(ids.deep_view(), id@),
{
    let n = ids.len();
    let mut out: Vec<String> = Vec::new();
    let mut i: usize = 0;
    while i < n
        invariant
            n == ids@.len(),
            0 <= i <= n,
            out.deep_view() == seq_remove_id(ids.deep_view().take(i as int), id@),
        decreases n - i,
    {
        proof {
            assert(ids.deep_view().take(i as int + 1).drop_last() =~= ids.deep_view().take(
                i as int,
            ));
            assert(ids.deep_view().take(i as int + 1).last() == ids.deep_view()[i as int]);
        }
        if !str_eq(ids[i].as_str(), id) {
            out.push(ids[i].clone());
            proof {
                assert(out.deep_view() =~= seq_remove_id(
                    ids.deep_view().take(i as int + 1),
                    id@,
                ));
            }
        }
        i = i + 1;
    }
    proof {
        assert(ids.deep_view().take(n as int) =~= ids.deep_view());
    }
    out
}

fn err_invalid_format(msg: &str) -> (r: MceptionError)
    ensures
        r matches MceptionError::Validation(ValidationError::InvalidFormat(_)),
{
    MceptionError::Validation(ValidationError::InvalidFormat(String::from_str(msg)))
}

fn err_not_found(msg: &str) -> (r: MceptionError)
    ensures
        r matches MceptionError::Storage(StorageError::NotFound(_)),
{
    MceptionError::Storage(StorageError::NotFound(String::from_str(msg)))
}

fn err_already_exists(msg: &str) -> (r: MceptionError)
    ensures
        r matches MceptionError::Storage(StorageError::AlreadyExists(_)),
{
    MceptionError::Storage(StorageError::AlreadyExists(String::from_str(msg)))
}

/// The configuration service: the live configuration and its two storage
/// backends.
pub struct ConfigService<C: ConfigStorage, A: AuditStorage> {
    pub config: ServerConfig,
    pub config_storage: C,
    pub audit_storage: A,
}

impl<C: ConfigStorage, A: AuditStorage> ConfigService<C, A> {
    /// A service over the given backends, holding a fresh default
    /// configuration until one is loaded.
    pub fn new(config_storage: C, audit_storage: A) -> (r: Self)
        ensures
            r.config.deep_view() == ServerConfig::empty_view_at(
                "0.1.0"@,
                r.config.deep_view().metadata.created_at,
            ),
            r.config.wf(),
    {
        ConfigService { config: ServerConfig::default(), config_storage, audit_storage }
    }

    /// Replace the live configuration with the persisted one. On failure
    /// the live configuration is untouched; a loaded configuration with
    /// duplicate identifiers is rejected as corrupt.
    pub fn load_configuration(&mut self) -> (r: MceptionResult<()>)
        ensures
            r is Err ==> final(self).config == old(self).config,
            r is Ok ==> final(self).config.wf(),
    {
        match self.config_storage.load_config() {
            Ok(cfg) => {
                if cfg.leaf_mcps.keys_unique() && cfg.agents.keys_unique() {
                    self.config = cfg;
                    Ok(())
                } else {
                    Err(
                        MceptionError::Storage(
                            StorageError::Corruption(
                                String::from_str("duplicate identifiers in loaded configuration"),
                            ),
                        ),
                    )
                }
            },
            Err(e) => Err(e),
        }
    }

    /// Persist the live configuration.
    pub fn save_configuration(&mut self) -> (r: MceptionResult<()>)
        ensures
            final(self).config == old(self).config,
    {
        match self.config_storage.save_config(&self.config) {
            Ok(u) => Ok(u),
            Err(e) => Err(e),
        }
    }

    /// A copy of the live configuration.
    pub fn get_configuration(&self) -> (r: ServerConfig)
        ensures
            r.deep_view() == self.config.deep_view(),
            r.wf() == self.config.wf(),
    {
        self.config.clone()
    }

    /// Delegate a backup of the persisted document to the config store.
    pub fn backup_configuration(&mut self) -> (r: MceptionResult<String>)
        ensures
            final(self).config == old(self).config,
    {
        self.config_storage.backup_config()
    }

    /// Append one audit entry describing an action, stamped with a fresh
    /// identifier and the current time. The live configuration is
    /// untouched.
    fn audit_log(
        &mut self,
        action: AuditAction,
        target: AuditTarget,
        actor: Option<String>,
        reason: Option<String>,
        details: ConfigValue,
    ) -> (r: MceptionResult<()>)
        ensures
            final(self).config == old(self).config,
    {
        let entry = AuditLogEntry {
            id: crate::ext::new_uuid(),
            timestamp: crate::ext::now_millis(),
            action,
            actor,
            target,
            reason,
            details,
        };
        match self.audit_storage.append_entry(&entry) {
            Ok(u) => Ok(u),
            Err(e) => Err(e),
        }
    }

    /// Register a new leaf endpoint under `id`.
    ///
    /// A blank identifier is rejected as invalid, a taken one as already
    /// existing; both leave the state untouched. Otherwise the endpoint is
    /// appended to the leaf map and the modification time moves, whatever
    /// the audit and persistence steps then return.
    pub fn create_leaf_mcp(
        &mut self,
        id: String,
        config: LeafMcpConfig,
        actor: Option<String>,
        reason: Option<String>,
    ) -> (r: MceptionResult<()>)
        ensures
            ({
                let pre = old(self).config.deep_view();
                let post = final(self).config.deep_view();
                &&& !id_valid(id@) ==> post == pre && (r matches Err(
                    MceptionError::Validation(ValidationError::InvalidFormat(_)),
                ))
                &&& id_valid(id@) && kv_has_key(pre.leaf_mcps, id@) ==> post == pre && (r matches
                Err(MceptionError::Storage(StorageError::AlreadyExists(_))))
                &&& id_valid(id@) && !kv_has_key(pre.leaf_mcps, id@) ==> {
                    &&& post.leaf_mcps == pre.leaf_mcps.push((id@, config.deep_view()))
                    &&& post.agents == pre.agents
                    &&& meta_continued(pre, post)
                }
                &&& r is Ok ==> id_valid(id@) && !kv_has_key(pre.leaf_mcps, id@)
            }),
            old(self).config.wf() ==> final(self).config.wf(),
    {
        if !check_id_valid(id.as_str()) {
            return Err(err_invalid_format("MCP ID cannot be empty"));
        }
        if self.config.leaf_mcps.contains_key(id.as_str()) {
            return Err(err_already_exists("a leaf MCP with this ID already exists"));
        }
        let details = crate::convert::leaf_to_value(&config);
        let target = AuditTarget::LeafMcp { id: id.clone() };
        self.config.leaf_mcps.insert_new(id, config);
        self.config.update_last_modified();
        match self.audit_log(AuditAction::Create, target, actor, reason, details) {
            Ok(u) => u,
            Err(e) => {
                return Err(e);
            },
        }
        match self.save_configuration() {
            Ok(u) => u,
            Err(e) => {
                return Err(e);
            },
        }
        Ok(())
    }

    /// Read one leaf endpoint configuration. A read audit entry is
    /// attempted; its failure never fails the read.
    pub fn get_leaf_mcp(&mut self, id: &str, actor: Option<String>) -> (r: MceptionResult<
        LeafMcpConfig,
    >)
        ensures
            final(self).config == old(self).config,
            ({
                let m = old(self).config.deep_view().leaf_mcps;
                &&& kv_has_key(m, id@) ==> match r {
                    Ok(c) => kv_get(m, id@) == Some(c.deep_view()),
                    Err(_) => false,
                }
                &&& !kv_has_key(m, id@) ==> (r matches Err(
                    MceptionError::Storage(StorageError::NotFound(_)),
                ))
            }),
    {
        let found = match self.config.leaf_mcps.get(id) {
            Some(v) => Some(v.clone()),
            None => None,
        };
        match found {
            Some(c) => {
                let _audit = self.audit_log(
                    AuditAction::Read,
                    AuditTarget::LeafMcp { id: String::from_str(id) },
                    actor,
                    None,
                    ConfigValue::Null,
                );
                Ok(c)
            },
            None => Err(err_not_found("leaf MCP not found")),
        }
    }

    /// List every leaf endpoint with its identifier, in registration
    /// order. A read audit entry is attempted and its failure swallowed.
    pub fn list_leaf_mcps(&mut self, actor: Option<String>) -> (r: MceptionResult<
        Vec<(String, LeafMcpConfig)>,
    >)
        ensures
            final(self).config == old(self).config,
            match r {
                Ok(v) => v.deep_view() == old(self).config.deep_view().leaf_mcps,
                Err(_) => false,
            },
    {
        let n = self.config.leaf_mcps.len();
        let mut out: Vec<(String, LeafMcpConfig)> = Vec::new();
        let mut i: usize = 0;
        while i < n
            invariant
                self.config == old(self).config,
                n == self.config.leaf_mcps.dv().len(),
                0 <= i <= n,
                out@.len() == i,
                forall|t: int|
                    #![trigger out@[t]]
                    0 <= t < i ==> out@[t].0@ == self.config.leaf_mcps.dv()[t].0
                        && out@[t].1.deep_view() == self.config.leaf_mcps.dv()[t].1,
            decreases n - i,
        {
            let k = self.config.leaf_mcps.key_at(i).clone();
            let v = self.config.leaf_mcps.val_at(i).clone();
            out.push((k, v));
            i = i + 1;
        }
        proof {
            assert(out.deep_view() =~= self.config.leaf_mcps.dv());
        }
        let _audit = self.audit_log(
            AuditAction::Read,
            AuditTarget::Server,
            actor,
            None,
            ConfigValue::Null,
        );
        Ok(out)
    }

    /// Apply a partial update to a leaf endpoint: an object patch is
    /// shallow-merged onto the endpoint's structured form and the result
    /// reconstructed; reconstruction failure rejects the update and leaves
    /// the endpoint exactly as it was. A patch that is not an object
    /// changes nothing but the modification time.
    pub fn update_leaf_mcp(
        &mut self,
        id: &str,
        updates: ConfigValue,
        actor: Option<String>,
        reason: Option<String>,
    ) -> (r: MceptionResult<()>)
        ensures
            ({
                let pre = old(self).config.deep_view();
                let post = final(self).config.deep_view();
                let merged = jv_merge(
                    crate::convert::jv_of_leaf(kv_get(pre.leaf_mcps, id@)->Some_0),
                    updates.dv(),
                );
                &&& !kv_has_key(pre.leaf_mcps, id@) ==> post == pre && (r matches Err(
                    MceptionError::Storage(StorageError::NotFound(_)),
                ))
                &&& kv_has_key(pre.leaf_mcps, id@) && !(updates.dv() is Obj) ==> {
                    &&& post.leaf_mcps == pre.leaf_mcps
                    &&& post.agents == pre.agents
                    &&& meta_continued(pre, post)
                }
                &&& kv_has_key(pre.leaf_mcps, id@) && updates.dv() is Obj && crate::convert::leaf_of_jv(
                    merged,
                ) is Some ==> {
                    &&& post.leaf_mcps == kv_set(
                        pre.leaf_mcps,
                        id@,
                        crate::convert::leaf_of_jv(merged)->Some_0,
                    )
                    &&& post.agents == pre.agents
                    &&& meta_continued(pre, post)
                }
                &&& kv_has_key(pre.leaf_mcps, id@) && updates.dv() is Obj && crate::convert::leaf_of_jv(
                    merged,
                ) is None ==> post == pre && (r matches Err(
                    MceptionError::Validation(ValidationError::InvalidFormat(_)),
                ))
                &&& r is Ok ==> kv_has_key(pre.leaf_mcps, id@) && (updates.dv() is Obj
                    ==> crate::convert::leaf_of_jv(merged) is Some)
            }),
            old(self).config.wf() ==> final(self).config.wf(),
    {
        let cur = match self.config.leaf_mcps.get(id) {
            Some(v) => v.clone(),
            None => {
                return Err(err_not_found("leaf MCP not found"));
            },
        };
        let is_obj = match &updates {
            ConfigValue::Obj(_) => true,
            _ => false,
        };
        if is_obj {
            let base = crate::convert::leaf_to_value(&cur);
            let merged = merge_value(base, &updates);
            match crate::convert::leaf_from_value(&merged) {
                Some(newleaf) => {
                    self.config.leaf_mcps.set_val(id, newleaf);
                },
                None => {
                    return Err(err_invalid_format("merged leaf MCP configuration is invalid"));
                },
            }
        }
        self.config.update_last_modified();
        let target = AuditTarget::LeafMcp { id: String::from_str(id) };
        match self.audit_log(AuditAction::Update, target, actor, reason, updates) {
            Ok(u) => u,
            Err(e) => {
                return Err(e);
            },
        }
        match self.save_configuration() {
            Ok(u) => u,
            Err(e) => {
                return Err(e);
            },
        }
        Ok(())
    }

    /// Unregister a leaf endpoint. Every agent that allowed it loses it
    /// from its allow-list in the same edit, silently; only the deletion
    /// itself is audited.
    pub fn delete_leaf_mcp(&mut self, id: &str, actor: Option<String>, reason: Option<String>) -> (r:
        MceptionResult<()>)
        ensures
            ({
                let pre = old(self).config.deep_view();
                let post = final(self).config.deep_view();
                &&& !kv_has_key(pre.leaf_mcps, id@) ==> post == pre && (r matches Err(
                    MceptionError::Storage(StorageError::NotFound(_)),
                ))
                &&& kv_has_key(pre.leaf_mcps, id@) ==> {
                    &&& post.leaf_mcps == kv_remove(pre.leaf_mcps, id@)
                    &&& post.agents == agents_without_target(pre.agents, id@)
                    &&& meta_continued(pre, post)
                }
                &&& r is Ok ==> kv_has_key(pre.leaf_mcps, id@)
            }),
            old(self).config.wf() ==> final(self).config.wf(),
    {
        let removed = match self.config.leaf_mcps.remove(id) {
            Some(c) => c,
            None => {
                proof {
                    crate::kv::lemma_kv_remove_absent(old(self).config.leaf_mcps.dv(), id@);
                }
                return Err(err_not_found("leaf MCP not found"));
            },
        };
        let details = crate::convert::leaf_to_value(&removed);
        let ghost mid_leafs = self.config.leaf_mcps.dv();
        let ghost pre_agents = self.config.agents.dv();
        let n = self.config.agents.len();
        let mut j: usize = 0;
        while j < n
            invariant
                n == self.config.agents.dv().len(),
                n == pre_agents.len(),
                0 <= j <= n,
                self.config.leaf_mcps.dv() == mid_leafs,
                old(self).config.leaf_mcps.wf() ==> self.config.leaf_mcps.wf(),
                self.config.metadata == old(self).config.metadata,
                forall|t: int|
                    0 <= t < j ==> self.config.agents.dv()[t] == (
                    pre_agents[t].0,
                    agent_without_target(pre_agents[t].1, id@),
                ),
                forall|t: int| j <= t < n ==> self.config.agents.dv()[t] == pre_agents[t],
            decreases n - j,
        {
            let current = self.config.agents.val_at(j).clone();
            let new_ids = remove_id_vec(&current.allowed_mcp_ids, id);
            let replacement = AgentConfig { allowed_mcp_ids: new_ids, ..current };
            self.config.agents.set_val_at(j, replacement);
            j = j + 1;
        }
        proof {
            assert(self.config.agents.dv() =~= agents_without_target(pre_agents, id@));
            assert forall|x: int, y: int|
                0 <= x < y < self.config.agents.dv().len() implies self.config.agents.dv()[x].0
                != self.config.agents.dv()[y].0 || !crate::kv::kv_keys_unique(pre_agents) by {
                if crate::kv::kv_keys_unique(pre_agents) {
                    assert(pre_agents[x].0 != pre_agents[y].0);
                }
            }
        }
        self.config.update_last_modified();
        let target = AuditTarget::LeafMcp { id: String::from_str(id) };
        match self.audit_log(AuditAction::Delete, target, actor, reason, details) {
            Ok(u) => u,
            Err(e) => {
                return Err(e);
            },
        }
        match self.save_configuration() {
            Ok(u) => u,
            Err(e) => {
                return Err(e);
            },
        }
        Ok(())
    }

    /// Register a new agent with the given allow-list.
    ///
    /// A blank identifier is rejected as invalid, a taken one as already
    /// existing; an allow-list entry that names neither a leaf endpoint nor
    /// an agent is rejected as invalid. Violations leave the state
    /// untouched; otherwise the agent is appended to the agent map with
    /// empty metadata and an empty payload.
    pub fn create_agent(
        &mut self,
        agent_id: String,
        allowed_mcp_ids: Vec<String>,
        actor: Option<String>,
    ) -> (r: MceptionResult<()>)
        ensures
            ({
                let pre = old(self).config.deep_view();
                let post = final(self).config.deep_view();
                &&& !id_valid(agent_id@) ==> post == pre && (r matches Err(
                    MceptionError::Validation(ValidationError::InvalidFormat(_)),
                ))
                &&& id_valid(agent_id@) && kv_has_key(pre.agents, agent_id@) ==> post == pre && (r
                matches Err(MceptionError::Storage(StorageError::AlreadyExists(_))))
                &&& id_valid(agent_id@) && !kv_has_key(pre.agents, agent_id@)
                    && !all_targets_exist(pre, allowed_mcp_ids.deep_view()) ==> post == pre && (r
                matches Err(MceptionError::Validation(ValidationError::InvalidFormat(_))))
                &&& id_valid(agent_id@) && !kv_has_key(pre.agents, agent_id@) && all_targets_exist(
                    pre,
                    allowed_mcp_ids.deep_view(),
                ) ==> {
                    &&& post.agents == pre.agents.push(
                        (agent_id@, new_agent_view(agent_id@, allowed_mcp_ids.deep_view())),
                    )
                    &&& post.leaf_mcps == pre.leaf_mcps
                    &&& meta_continued(pre, post)
                }
                &&& r is Ok ==> id_valid(agent_id@) && !kv_has_key(pre.agents, agent_id@)
                    && all_targets_exist(pre, allowed_mcp_ids.deep_view())
            }),
            old(self).config.wf() ==> final(self).config.wf(),
    {
        if !check_id_valid(agent_id.as_str()) {
            return Err(err_invalid_format("Agent ID cannot be empty"));
        }
        if self.config.agents.contains_key(agent_id.as_str()) {
            return Err(err_already_exists("an agent with this ID already exists"));
        }
        let n = allowed_mcp_ids.len();
        let mut i: usize = 0;
        while i < n
            invariant
                self.config == old(self).config,
                id_valid(agent_id@),
                !kv_has_key(old(self).config.deep_view().agents, agent_id@),
                n == allowed_mcp_ids@.len(),
                0 <= i <= n,
                forall|t: int|
                    0 <= t < i ==> target_exists(
                        old(self).config.deep_view(),
                        allowed_mcp_ids.deep_view()[t],
                    ),
            decreases n - i,
        {
            let mcp_id = allowed_mcp_ids[i].as_str();
            if !self.config.leaf_mcps.contains_key(mcp_id) && !self.config.agents.contains_key(
                mcp_id,
            ) {
                assert(!target_exists(
                    old(self).config.deep_view(),
                    allowed_mcp_ids.deep_view()[i as int],
                ));
                return Err(err_invalid_format("an allowed MCP ID does not exist"));
            }
            i = i + 1;
        }
        let agent = AgentConfig {
            agent_id: agent_id.clone(),
            name: None,
            description: None,
            allowed_mcp_ids: allowed_mcp_ids,
            is_connected: false,
            last_seen: None,
            config: ConfigValue::empty_object(),
        };
        let details = crate::convert::agent_to_value(&agent);
        let target = AuditTarget::Agent { id: agent_id.clone() };
        self.config.agents.insert_new(agent_id, agent);
        self.config.update_last_modified();
        match self.audit_log(AuditAction::Create, target, actor, None, details) {
            Ok(u) => u,
            Err(e) => {
                return Err(e);
            },
        }
        match self.save_configuration() {
            Ok(u) => u,
            Err(e) => {
                return Err(e);
            },
        }
        Ok(())
    }

    /// Read one agent configuration. A read audit entry is attempted; its
    /// failure never fails the read.
    pub fn get_agent(&mut self, agent_id: &str, actor: Option<String>) -> (r: MceptionResult<
        AgentConfig,
    >)
        ensures
            final(self).config == old(self).config,
            ({
                let m = old(self).config.deep_view().agents;
                &&& kv_has_key(m, agent_id@) ==> match r {
                    Ok(c) => kv_get(m, agent_id@) == Some(c.deep_view()),
                    Err(_) => false,
                }
                &&& !kv_has_key(m, agent_id@) ==> (r matches Err(
                    MceptionError::Storage(StorageError::NotFound(_)),
                ))
            }),
    {
        let found = match self.config.agents.get(agent_id) {
            Some(v) => Some(v.clone()),
            None => None,
        };
        match found {
            Some(c) => {
                let _audit = self.audit_log(
                    AuditAction::Read,
                    AuditTarget::Agent { id: String::from_str(agent_id) },
                    actor,
                    None,
                    ConfigValue::Null,
                );
                Ok(c)
            },
            None => Err(err_not_found("agent not found")),
        }
    }

    /// List every agent with its identifier, in registration order. A read
    /// audit entry is attempted and its failure swallowed.
    pub fn list_agents(&mut self, actor: Option<String>) -> (r: MceptionResult<
        Vec<(String, AgentConfig)>,
    >)
        ensures
            final(self).config == old(self).config,
            match r {
                Ok(v) => v.deep_view() == old(self).config.deep_view().agents,
                Err(_) => false,
            },
    {
        let n = self.config.agents.len();
        let mut out: Vec<(String, AgentConfig)> = Vec::new();
        let mut i: usize = 0;
        while i < n
            invariant
                self.config == old(self).config,
                n == self.config.agents.dv().len(),
                0 <= i <= n,
                out@.len() == i,
                forall|t: int|
                    #![trigger out@[t]]
                    0 <= t < i ==> out@[t].0@ == self.config.agents.dv()[t].0
                        && out@[t].1.deep_view() == self.config.agents.dv()[t].1,
            decreases n - i,
        {
            let k = self.config.agents.key_at(i).clone();
            let v = self.config.agents.val_at(i).clone();
            out.push((k, v));
            i = i + 1;
        }
        proof {
            assert(out.deep_view() =~= self.config.agents.dv());
        }
        let _audit = self.audit_log(
            AuditAction::Read,
            AuditTarget::Server,
            actor,
            None,
            ConfigValue::Null,
        );
        Ok(out)
    }

    /// Apply a partial update to an agent, with the same shallow-merge and
    /// reconstruct-or-reject semantics as leaf updates.
    pub fn update_agent(
        &mut self,
        agent_id: &str,
        updates: ConfigValue,
        actor: Option<String>,
        reason: Option<String>,
    ) -> (r: MceptionResult<()>)
        ensures
            ({
                let pre = old(self).config.deep_view();
                let post = final(self).config.deep_view();
                let merged = jv_merge(
                    crate::convert::jv_of_agent(kv_get(pre.agents, agent_id@)->Some_0),
                    updates.dv(),
                );
                &&& !kv_has_key(pre.agents, agent_id@) ==> post == pre && (r matches Err(
                    MceptionError::Storage(StorageError::NotFound(_)),
                ))
                &&& kv_has_key(pre.agents, agent_id@) && !(updates.dv() is Obj) ==> {
                    &&& post.leaf_mcps == pre.leaf_mcps
                    &&& post.agents == pre.agents
                    &&& meta_continued(pre, post)
                }
                &&& kv_has_key(pre.agents, agent_id@) && updates.dv() is Obj
                    && crate::convert::agent_of_jv(merged) is Some ==> {
                    &&& post.agents == kv_set(
                        pre.agents,
                        agent_id@,
                        crate::convert::agent_of_jv(merged)->Some_0,
                    )
                    &&& post.leaf_mcps == pre.leaf_mcps
                    &&& meta_continued(pre, post)
                }
                &&& kv_has_key(pre.agents, agent_id@) && updates.dv() is Obj
                    && crate::convert::agent_of_jv(merged) is None ==> post == pre && (r matches
                Err(MceptionError::Validation(ValidationError::InvalidFormat(_))))
                &&& r is Ok ==> kv_has_key(pre.agents, agent_id@) && (updates.dv() is Obj
                    ==> crate::convert::agent_of_jv(merged) is Some)
            }),
            old(self).config.wf() ==> final(self).config.wf(),
    {
        let cur = match self.config.agents.get(agent_id) {
            Some(v) => v.clone(),
            None => {
                return Err(err_not_found("agent not found"));
            },
        };
        let is_obj = match &updates {
            ConfigValue::Obj(_) => true,
            _ => false,
        };
        if is_obj {
            let base = crate::convert::agent_to_value(&cur);
            let merged = merge_value(base, &updates);
            match crate::convert::agent_from_value(&merged) {
                Some(newagent) => {
                    self.config.agents.set_val(agent_id, newagent);
                },
                None => {
                    return Err(err_invalid_format("merged agent configuration is invalid"));
                },
            }
        }
        self.config.update_last_modified();
        let target = AuditTarget::Agent { id: String::from_str(agent_id) };
        match self.audit_log(AuditAction::Update, target, actor, reason, updates) {
            Ok(u) => u,
            Err(e) => {
                return Err(e);
            },
        }
        match self.save_configuration() {
            Ok(u) => u,
            Err(e) => {
                return Err(e);
            },
        }
        Ok(())
    }

    /// Unregister an agent. Other agents' allow-lists are left as they
    /// are.
    pub fn delete_agent(&mut self, agent_id: &str, actor: Option<String>, reason: Option<String>) -> (r:
        MceptionResult<()>)
        ensures
            ({
                let pre = old(self).config.deep_view();
                let post = final(self).config.deep_view();
                &&& !kv_has_key(pre.agents, agent_id@) ==> post == pre && (r matches Err(
                    MceptionError::Storage(StorageError::NotFound(_)),
                ))
                &&& kv_has_key(pre.agents, agent_id@) ==> {
                    &&& post.agents == kv_remove(pre.agents, agent_id@)
                    &&& post.leaf_mcps == pre.leaf_mcps
                    &&& meta_continued(pre, post)
                }
                &&& r is Ok ==> kv_has_key(pre.agents, agent_id@)
            }),
            old(self).config.wf() ==> final(self).config.wf(),
    {
        let removed = match self.config.agents.remove(agent_id) {
            Some(c) => c,
            None => {
                proof {
                    crate::kv::lemma_kv_remove_absent(old(self).config.agents.dv(), agent_id@);
                }
                return Err(err_not_found("agent not found"));
            },
        };
        let details = crate::convert::agent_to_value(&removed);
        self.config.update_last_modified();
        let target = AuditTarget::Agent { id: String::from_str(agent_id) };
        match self.audit_log(AuditAction::Delete, target, actor, reason, details) {
            Ok(u) => u,
            Err(e) => {
                return Err(e);
            },
        }
        match self.save_configuration() {
            Ok(u) => u,
            Err(e) => {
                return Err(e);
            },
        }
        Ok(())
    }

    /// Grant an agent one more allowed target.
    ///
    /// The target must name an existing leaf endpoint or agent, the agent
    /// must exist, and the grant must be new; otherwise the matching error
    /// is returned and the state untouched.
    pub fn add_agent_allowed_mcp(
        &mut self,
        agent_id: &str,
        mcp_id: &str,
        actor: Option<String>,
        reason: Option<String>,
    ) -> (r: MceptionResult<()>)
        ensures
            ({
                let pre = old(self).config.deep_view();
                let post = final(self).config.deep_view();
                let agent = kv_get(pre.agents, agent_id@)->Some_0;
                &&& !target_exists(pre, mcp_id@) ==> post == pre && (r matches Err(
                    MceptionError::Validation(ValidationError::InvalidFormat(_)),
                ))
                &&& target_exists(pre, mcp_id@) && !kv_has_key(pre.agents, agent_id@) ==> post
                    == pre && (r matches Err(MceptionError::Storage(StorageError::NotFound(_))))
                &&& target_exists(pre, mcp_id@) && kv_has_key(pre.agents, agent_id@)
                    && seq_contains_str(agent.allowed_mcp_ids, mcp_id@) ==> post == pre && (r
                matches Err(MceptionError::Storage(StorageError::AlreadyExists(_))))
                &&& target_exists(pre, mcp_id@) && kv_has_key(pre.agents, agent_id@)
                    && !seq_contains_str(agent.allowed_mcp_ids, mcp_id@) ==> {
                    &&& post.agents == kv_set(
                        pre.agents,
                        agent_id@,
                        (AgentConfigView {
                            allowed_mcp_ids: agent.allowed_mcp_ids.push(mcp_id@),
                            ..agent
                        }),
                    )
                    &&& post.leaf_mcps == pre.leaf_mcps
                    &&& meta_continued(pre, post)
                }
                &&& r is Ok ==> target_exists(pre, mcp_id@) && kv_has_key(pre.agents, agent_id@)
                    && !seq_contains_str(agent.allowed_mcp_ids, mcp_id@)
            }),
            old(self).config.wf() ==> final(self).config.wf(),
    {
        if !self.config.leaf_mcps.contains_key(mcp_id) && !self.config.agents.contains_key(
            mcp_id,
        ) {
            return Err(err_invalid_format("the MCP ID to allow does not exist"));
        }
        let cur = match self.config.agents.get(agent_id) {
            Some(v) => v.clone(),
            None => {
                return Err(err_not_found("agent not found"));
            },
        };
        if vec_contains_str(&cur.allowed_mcp_ids, mcp_id) {
            return Err(err_already_exists("this MCP is already allowed for the agent"));
        }
        let mut updated = cur;
        updated.allowed_mcp_ids.push(String::from_str(mcp_id));
        proof {
            assert(updated.allowed_mcp_ids.deep_view() =~= kv_get(
                old(self).config.deep_view().agents,
                agent_id@,
            )->Some_0.allowed_mcp_ids.push(mcp_id@));
        }
        self.config.agents.set_val(agent_id, updated);
        self.config.update_last_modified();
        let details = ConfigValue::Obj(
            vec![(String::from_str("mcp_id"), ConfigValue::Str(String::from_str(mcp_id)))],
        );
        let target = AuditTarget::AgentAllowedMcp {
            agent_id: String::from_str(agent_id),
            mcp_id: String::from_str(mcp_id),
        };
        match self.audit_log(AuditAction::AddAllowedMcp, target, actor, reason, details) {
            Ok(u) => u,
            Err(e) => {
                return Err(e);
            },
        }
        match self.save_configuration() {
            Ok(u) => u,
            Err(e) => {
                return Err(e);
            },
        }
        Ok(())
    }

    /// Withdraw an allowed target from an agent.
    ///
    /// A missing agent, or a target the agent does not currently allow, is
    /// reported as not found and leaves the state untouched.
    pub fn remove_agent_allowed_mcp(
        &mut self,
        agent_id: &str,
        mcp_id: &str,
        actor: Option<String>,
        reason: Option<String>,
    ) -> (r: MceptionResult<()>)
        ensures
            ({
                let pre = old(self).config.deep_view();
                let post = final(self).config.deep_view();
                let agent = kv_get(pre.agents, agent_id@)->Some_0;
                &&& !kv_has_key(pre.agents, agent_id@) ==> post == pre && (r matches Err(
                    MceptionError::Storage(StorageError::NotFound(_)),
                ))
                &&& kv_has_key(pre.agents, agent_id@) && !seq_contains_str(
                    agent.allowed_mcp_ids,
                    mcp_id@,
                ) ==> post == pre && (r matches Err(
                    MceptionError::Storage(StorageError::NotFound(_)),
                ))
                &&& kv_has_key(pre.agents, agent_id@) && seq_contains_str(
                    agent.allowed_mcp_ids,
                    mcp_id@,
                ) ==> {
                    &&& post.agents == kv_set(
                        pre.agents,
                        agent_id@,
                        agent_without_target(agent, mcp_id@),
                    )
                    &&& post.leaf_mcps == pre.leaf_mcps
                    &&& meta_continued(pre, post)
                }
                &&& r is Ok ==> kv_has_key(pre.agents, agent_id@) && seq_contains_str(
                    agent.allowed_mcp_ids,
                    mcp_id@,
                )
            }),
            old(self).config.wf() ==> final(self).config.wf(),
    {
        let cur = match self.config.agents.get(agent_id) {
            Some(v) => v.clone(),
            None => {
                return Err(err_not_found("agent not found"));
            },
        };
        if !vec_contains_str(&cur.allowed_mcp_ids, mcp_id) {
            return Err(err_not_found("this MCP is not allowed for the agent"));
        }
        let new_ids = remove_id_vec(&cur.allowed_mcp_ids, mcp_id);
        let updated = AgentConfig { allowed_mcp_ids: new_ids, ..cur };
        self.config.agents.set_val(agent_id, updated);
        self.config.update_last_modified();
        let details = ConfigValue::Obj(
            vec![(String::from_str("mcp_id"), ConfigValue::Str(String::from_str(mcp_id)))],
        );
        let target = AuditTarget::AgentAllowedMcp {
            agent_id: String::from_str(agent_id),
            mcp_id: String::from_str(mcp_id),
        };
        match self.audit_log(AuditAction::RemoveAllowedMcp, target, actor, reason, details) {
            Ok(u) => u,
            Err(e) => {
                return Err(e);
            },
        }
        match self.save_configuration() {
            Ok(u) => u,
            Err(e) => {
                return Err(e);
            },
        }
        Ok(())
    }

    /// The full audit history, as the audit store hands it out.
    pub fn get_audit_logs(&mut self) -> (r: MceptionResult<Vec<AuditLogEntry>>)
        ensures
            final(self).config == old(self).config,
    {
        self.audit_storage.load_entries()
    }
}

} // verus!

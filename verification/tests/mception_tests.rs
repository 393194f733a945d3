//! End-to-end tests of the configuration and audit service, run against
//! in-memory storage backends that use the library's own document and log
//! formats.

use mception_server::audit_query::filter_audit_entries;
use mception_server::codec::{parse_text, render_value};
use mception_server::errors::{MceptionError, StorageError, ValidationError};
use mception_server::projection::RemoteTarget;
use mception_server::service::{AuditStorage, ConfigService, ConfigStorage};
use mception_server::store::{
    FileConfigStorage, parse_audit_log, parse_config_document, render_audit_line,
    render_config_document,
};
use mception_server::types::{
    AuditAction, AuditLogEntry, AuditTarget, LeafMcpConfig, McpTransport, ServerConfig,
};
use mception_server::value::ConfigValue;

struct MemConfig {
    doc: Option<String>,
    saves: usize,
}

impl ConfigStorage for MemConfig {
    fn load_config(&mut self) -> Result<ServerConfig, MceptionError> {
        match &self.doc {
            Some(s) => match parse_config_document(s.as_str()) {
                Some(c) => Ok(c),
                None => Err(MceptionError::Storage(StorageError::Corruption(String::from(
                    "bad document",
                )))),
            },
            None => Ok(ServerConfig::default()),
        }
    }

    fn save_config(&mut self, config: &ServerConfig) -> Result<(), MceptionError> {
        self.doc = Some(render_config_document(config));
        self.saves += 1;
        Ok(())
    }

    fn config_exists(&mut self) -> Result<bool, MceptionError> {
        Ok(self.doc.is_some())
    }

    fn backup_config(&mut self) -> Result<String, MceptionError> {
        match &self.doc {
            Some(_) => Ok(String::from("backup-location")),
            None => Err(MceptionError::Storage(StorageError::NotFound(String::from(
                "nothing persisted",
            )))),
        }
    }
}

struct MemAudit {
    text: String,
    fail_appends: bool,
}

impl AuditStorage for MemAudit {
    fn append_entry(&mut self, entry: &AuditLogEntry) -> Result<(), MceptionError> {
        if self.fail_appends {
            return Err(MceptionError::Storage(StorageError::Io(String::from("sink closed"))));
        }
        self.text.push_str(render_audit_line(entry).as_str());
        Ok(())
    }

    fn load_entries(&mut self) -> Result<Vec<AuditLogEntry>, MceptionError> {
        match parse_audit_log(self.text.as_str()) {
            Some(es) => Ok(es),
            None => Err(MceptionError::Storage(StorageError::Corruption(String::from(
                "bad log line",
            )))),
        }
    }
}

struct DupConfig;

impl ConfigStorage for DupConfig {
    fn load_config(&mut self) -> Result<ServerConfig, MceptionError> {
        let mut c = ServerConfig::default();
        c.leaf_mcps.entries.push((String::from("a"), sample_leaf("a")));
        c.leaf_mcps.entries.push((String::from("a"), sample_leaf("a")));
        Ok(c)
    }
    fn save_config(&mut self, _config: &ServerConfig) -> Result<(), MceptionError> {
        Ok(())
    }
    fn config_exists(&mut self) -> Result<bool, MceptionError> {
        Ok(true)
    }
    fn backup_config(&mut self) -> Result<String, MceptionError> {
        Ok(String::new())
    }
}

fn new_service() -> ConfigService<MemConfig, MemAudit> {
    ConfigService::new(
        MemConfig { doc: None, saves: 0 },
        MemAudit { text: String::new(), fail_appends: false },
    )
}

fn sample_leaf(name: &str) -> LeafMcpConfig {
    LeafMcpConfig {
        id: String::from(name),
        name: Some(String::from(name)),
        description: Some(String::from("a sample endpoint")),
        transport: McpTransport::Stdio {
            command: String::from("run-server"),
            args: vec![String::from("--fast"), String::from("-v")],
            env: Some(vec![(String::from("MODE"), String::from("test"))]),
        },
        is_local: false,
        reachable_by_agent: true,
        config: ConfigValue::Obj(vec![(String::from("retries"), ConfigValue::Int(3))]),
    }
}

fn sample_entry(id: &str, ts: i64, action: AuditAction) -> AuditLogEntry {
    AuditLogEntry {
        id: String::from(id),
        timestamp: ts,
        action,
        actor: Some(String::from("admin")),
        target: AuditTarget::LeafMcp { id: String::from("leaf1") },
        reason: None,
        details: ConfigValue::Null,
    }
}

#[test]
fn create_leaf_then_get_returns_config() {
    let mut svc = new_service();
    let leaf = sample_leaf("leaf1");
    svc.create_leaf_mcp(String::from("leaf1"), sample_leaf("leaf1"), None, None).unwrap();
    let got = svc.get_leaf_mcp("leaf1", None).unwrap();
    assert_eq!(got, leaf);
}

#[test]
fn create_leaf_duplicate_already_exists_and_unchanged() {
    let mut svc = new_service();
    svc.create_leaf_mcp(String::from("leaf1"), sample_leaf("leaf1"), None, None).unwrap();
    let mut other = sample_leaf("leaf1");
    other.description = Some(String::from("an impostor"));
    let r = svc.create_leaf_mcp(String::from("leaf1"), other, None, None);
    assert!(matches!(r, Err(MceptionError::Storage(StorageError::AlreadyExists(_)))));
    let got = svc.get_leaf_mcp("leaf1", None).unwrap();
    assert_eq!(got, sample_leaf("leaf1"));
}

#[test]
fn create_leaf_empty_id_invalid_format() {
    let mut svc = new_service();
    let r = svc.create_leaf_mcp(String::from(""), sample_leaf("x"), None, None);
    assert!(matches!(r, Err(MceptionError::Validation(ValidationError::InvalidFormat(_)))));
}

#[test]
fn create_leaf_whitespace_id_invalid_format() {
    let mut svc = new_service();
    let r = svc.create_leaf_mcp(String::from("   "), sample_leaf("x"), None, None);
    assert!(matches!(r, Err(MceptionError::Validation(ValidationError::InvalidFormat(_)))));
}

#[test]
fn update_leaf_changes_only_description() {
    let mut svc = new_service();
    svc.create_leaf_mcp(String::from("leaf1"), sample_leaf("leaf1"), None, None).unwrap();
    let patch = ConfigValue::Obj(vec![(
        String::from("description"),
        ConfigValue::Str(String::from("x")),
    )]);
    svc.update_leaf_mcp("leaf1", patch, None, None).unwrap();
    let got = svc.get_leaf_mcp("leaf1", None).unwrap();
    let mut expected = sample_leaf("leaf1");
    expected.description = Some(String::from("x"));
    assert_eq!(got, expected);
}

#[test]
fn update_leaf_bad_patch_rejected_and_unchanged() {
    let mut svc = new_service();
    svc.create_leaf_mcp(String::from("leaf1"), sample_leaf("leaf1"), None, None).unwrap();
    let patch = ConfigValue::Obj(vec![(String::from("transport"), ConfigValue::Int(5))]);
    let r = svc.update_leaf_mcp("leaf1", patch, None, None);
    assert!(matches!(r, Err(MceptionError::Validation(ValidationError::InvalidFormat(_)))));
    let got = svc.get_leaf_mcp("leaf1", None).unwrap();
    assert_eq!(got, sample_leaf("leaf1"));
}

#[test]
fn update_leaf_missing_not_found() {
    let mut svc = new_service();
    let r = svc.update_leaf_mcp("ghost", ConfigValue::Null, None, None);
    assert!(matches!(r, Err(MceptionError::Storage(StorageError::NotFound(_)))));
}

#[test]
fn create_agent_requires_existing_targets() {
    let mut svc = new_service();
    let r = svc.create_agent(String::from("a"), vec![String::from("leaf1")], None);
    assert!(matches!(r, Err(MceptionError::Validation(ValidationError::InvalidFormat(_)))));
    svc.create_leaf_mcp(String::from("leaf1"), sample_leaf("leaf1"), None, None).unwrap();
    svc.create_agent(String::from("a"), vec![String::from("leaf1")], None).unwrap();
    let agent = svc.get_agent("a", None).unwrap();
    assert_eq!(agent.allowed_mcp_ids, vec![String::from("leaf1")]);
    assert!(!agent.is_connected);
    assert_eq!(agent.last_seen, None);
}

#[test]
fn delete_leaf_cascades_from_allow_lists() {
    let mut svc = new_service();
    svc.create_leaf_mcp(String::from("leaf1"), sample_leaf("leaf1"), None, None).unwrap();
    svc.create_leaf_mcp(String::from("leaf2"), sample_leaf("leaf2"), None, None).unwrap();
    svc.create_agent(
        String::from("a"),
        vec![String::from("leaf1"), String::from("leaf2")],
        None,
    ).unwrap();
    svc.delete_leaf_mcp("leaf1", None, None).unwrap();
    let agent = svc.get_agent("a", None).unwrap();
    assert_eq!(agent.allowed_mcp_ids, vec![String::from("leaf2")]);
    let r = svc.get_leaf_mcp("leaf1", None);
    assert!(matches!(r, Err(MceptionError::Storage(StorageError::NotFound(_)))));
}

#[test]
fn add_allowed_twice_already_exists() {
    let mut svc = new_service();
    svc.create_leaf_mcp(String::from("leaf1"), sample_leaf("leaf1"), None, None).unwrap();
    svc.create_agent(String::from("a"), vec![], None).unwrap();
    svc.add_agent_allowed_mcp("a", "leaf1", None, None).unwrap();
    let r = svc.add_agent_allowed_mcp("a", "leaf1", None, None);
    assert!(matches!(r, Err(MceptionError::Storage(StorageError::AlreadyExists(_)))));
}

#[test]
fn remove_allowed_absent_not_found() {
    let mut svc = new_service();
    svc.create_leaf_mcp(String::from("leaf1"), sample_leaf("leaf1"), None, None).unwrap();
    svc.create_agent(String::from("a"), vec![], None).unwrap();
    let r = svc.remove_agent_allowed_mcp("a", "leafX", None, None);
    assert!(matches!(r, Err(MceptionError::Storage(StorageError::NotFound(_)))));
    svc.add_agent_allowed_mcp("a", "leaf1", None, None).unwrap();
    svc.remove_agent_allowed_mcp("a", "leaf1", None, None).unwrap();
    let agent = svc.get_agent("a", None).unwrap();
    assert!(agent.allowed_mcp_ids.is_empty());
}

#[test]
fn audit_filter_by_action_sorts_desc_and_limits() {
    let entries = vec![
        sample_entry("e1", 1, AuditAction::Create),
        sample_entry("e2", 2, AuditAction::Create),
        sample_entry("e3", 3, AuditAction::Update),
        sample_entry("e4", 4, AuditAction::Delete),
        sample_entry("e5", 5, AuditAction::Read),
    ];
    let r = filter_audit_entries(entries, None, Some(String::from("create")), None, None);
    assert_eq!(r.len(), 2);
    assert_eq!(r[0].id, String::from("e2"));
    assert_eq!(r[1].id, String::from("e1"));
    let entries2 = vec![
        sample_entry("e1", 1, AuditAction::Create),
        sample_entry("e2", 2, AuditAction::Create),
        sample_entry("e3", 3, AuditAction::Update),
        sample_entry("e4", 4, AuditAction::Delete),
        sample_entry("e5", 5, AuditAction::Read),
    ];
    let r2 = filter_audit_entries(entries2, Some(1), Some(String::from("create")), None, None);
    assert_eq!(r2.len(), 1);
    assert_eq!(r2[0].id, String::from("e2"));
}

#[test]
fn audit_filter_by_target_and_actor() {
    let mut e1 = sample_entry("e1", 1, AuditAction::Create);
    e1.target = AuditTarget::Agent { id: String::from("a") };
    let mut e2 = sample_entry("e2", 2, AuditAction::Create);
    e2.actor = None;
    let entries = vec![e1, e2];
    let by_target = filter_audit_entries(
        entries,
        None,
        None,
        Some(String::from("leafmcp")),
        None,
    );
    assert_eq!(by_target.len(), 1);
    assert_eq!(by_target[0].id, String::from("e2"));
    let mut e3 = sample_entry("e3", 3, AuditAction::Read);
    e3.actor = None;
    let entries2 = vec![sample_entry("e1", 1, AuditAction::Create), e3];
    let by_actor = filter_audit_entries(entries2, None, None, None, Some(String::from("ADM")));
    assert_eq!(by_actor.len(), 1);
    assert_eq!(by_actor[0].id, String::from("e1"));
}

#[test]
fn remote_projection_includes_only_existing_granted_targets() {
    let mut svc = new_service();
    svc.create_leaf_mcp(String::from("leaf1"), sample_leaf("leaf1"), None, None).unwrap();
    svc.create_leaf_mcp(String::from("leaf2"), sample_leaf("leaf2"), None, None).unwrap();
    svc.create_agent(
        String::from("a"),
        vec![String::from("leaf1"), String::from("leaf2")],
        None,
    ).unwrap();
    svc.delete_leaf_mcp("leaf2", None, None).unwrap();
    let p = svc.get_agent_remote_config("a").unwrap();
    assert_eq!(p.agent_id, String::from("a"));
    assert_eq!(p.mcps.len(), 1);
    assert_eq!(p.mcps[0].0, String::from("leaf1"));
    assert_eq!(p.mcps[0].1, RemoteTarget::Leaf(sample_leaf("leaf1")));
    let missing = svc.get_agent_remote_config("ghost");
    assert!(matches!(missing, Err(MceptionError::Storage(StorageError::NotFound(_)))));
}

#[test]
fn config_document_round_trip() {
    let mut svc = new_service();
    svc.create_leaf_mcp(String::from("leaf1"), sample_leaf("leaf1"), None, None).unwrap();
    svc.create_agent(String::from("a"), vec![String::from("leaf1")], None).unwrap();
    let snapshot = svc.get_configuration();
    let doc = render_config_document(&snapshot);
    let reloaded = parse_config_document(doc.as_str()).unwrap();
    assert_eq!(reloaded, snapshot);
}

#[test]
fn persist_and_reload_through_service() {
    let mut svc = new_service();
    svc.create_leaf_mcp(String::from("leaf1"), sample_leaf("leaf1"), None, None).unwrap();
    svc.create_agent(String::from("a"), vec![String::from("leaf1")], None).unwrap();
    let before = svc.get_configuration();
    svc.load_configuration().unwrap();
    let after = svc.get_configuration();
    assert_eq!(before, after);
}

#[test]
fn audit_line_round_trip() {
    let entry = sample_entry("e1", 42, AuditAction::AddAllowedMcp);
    let line = render_audit_line(&entry);
    let parsed = parse_audit_log(line.as_str()).unwrap();
    assert_eq!(parsed.len(), 1);
    assert_eq!(parsed[0], entry);
}

#[test]
fn audit_log_skips_blank_lines() {
    let e1 = sample_entry("e1", 1, AuditAction::Create);
    let e2 = sample_entry("e2", 2, AuditAction::Delete);
    let mut text = String::new();
    text.push_str(render_audit_line(&e1).as_str());
    text.push_str("   \n\n");
    text.push_str(render_audit_line(&e2).as_str());
    let parsed = parse_audit_log(text.as_str()).unwrap();
    assert_eq!(parsed.len(), 2);
    assert_eq!(parsed[0], e1);
    assert_eq!(parsed[1], e2);
}

#[test]
fn audit_log_bad_line_fails_whole_load() {
    let e1 = sample_entry("e1", 1, AuditAction::Create);
    let mut text = String::new();
    text.push_str(render_audit_line(&e1).as_str());
    text.push_str("not a log line\n");
    assert!(parse_audit_log(text.as_str()).is_none());
}

#[test]
fn value_round_trip_with_escapes_and_negatives() {
    let v = ConfigValue::Obj(vec![
        (String::from("text"), ConfigValue::Str(String::from("line\nbreak \"quoted\" \\slash"))),
        (String::from("negative"), ConfigValue::Int(i64::MIN)),
        (String::from("big"), ConfigValue::Int(9223372036854775807)),
        (
            String::from("mixed"),
            ConfigValue::Arr(vec![
                ConfigValue::Null,
                ConfigValue::Bool(true),
                ConfigValue::Bool(false),
                ConfigValue::Int(0),
                ConfigValue::Str(String::new()),
                ConfigValue::Arr(vec![]),
                ConfigValue::Obj(vec![]),
            ]),
        ),
    ]);
    let text = render_value(&v);
    let parsed = parse_text(text.as_str()).unwrap();
    assert_eq!(parsed, v);
}

#[test]
fn parse_rejects_trailing_garbage() {
    assert!(parse_text("nullnull").is_none());
    assert!(parse_text("{\"a\":1} ").is_none());
    assert!(parse_text("").is_none());
    assert!(parse_text("[1,]").is_none());
}

#[test]
fn parse_accepts_conventional_escapes() {
    let parsed = parse_text("\"a\\tb\\u0041\"").unwrap();
    assert_eq!(parsed, ConfigValue::Str(String::from("a\tbA")));
}

#[test]
fn audit_append_failure_fails_mutation_but_keeps_memory() {
    let mut svc = new_service();
    svc.audit_storage.fail_appends = true;
    let r = svc.create_leaf_mcp(String::from("leaf1"), sample_leaf("leaf1"), None, None);
    assert!(matches!(r, Err(MceptionError::Storage(StorageError::Io(_)))));
    let got = svc.get_leaf_mcp("leaf1", None).unwrap();
    assert_eq!(got, sample_leaf("leaf1"));
    assert_eq!(svc.config_storage.saves, 0);
}

#[test]
fn mutations_audit_and_persist() {
    let mut svc = new_service();
    svc.create_leaf_mcp(String::from("leaf1"), sample_leaf("leaf1"), None, None).unwrap();
    svc.create_agent(String::from("a"), vec![String::from("leaf1")], None).unwrap();
    assert_eq!(svc.config_storage.saves, 2);
    let logs = svc.get_audit_logs().unwrap();
    let creations: Vec<&AuditLogEntry> = logs
        .iter()
        .filter(|e| matches!(e.action, AuditAction::Create))
        .collect();
    assert_eq!(creations.len(), 2);
}

#[test]
fn listing_returns_all_entries() {
    let mut svc = new_service();
    svc.create_leaf_mcp(String::from("leaf1"), sample_leaf("leaf1"), None, None).unwrap();
    svc.create_leaf_mcp(String::from("leaf2"), sample_leaf("leaf2"), None, None).unwrap();
    let leafs = svc.list_leaf_mcps(None).unwrap();
    assert_eq!(leafs.len(), 2);
    assert_eq!(leafs[0].0, String::from("leaf1"));
    assert_eq!(leafs[1].0, String::from("leaf2"));
    let agents = svc.list_agents(None).unwrap();
    assert!(agents.is_empty());
}

#[test]
fn delete_agent_leaves_other_allow_lists() {
    let mut svc = new_service();
    svc.create_agent(String::from("a"), vec![], None).unwrap();
    svc.create_agent(String::from("b"), vec![String::from("a")], None).unwrap();
    svc.delete_agent("a", None, None).unwrap();
    let b = svc.get_agent("b", None).unwrap();
    assert_eq!(b.allowed_mcp_ids, vec![String::from("a")]);
    let r = svc.get_agent("a", None);
    assert!(matches!(r, Err(MceptionError::Storage(StorageError::NotFound(_)))));
}

#[test]
fn backup_path_embeds_compact_timestamp() {
    let store = FileConfigStorage::new(String::from("data/config.json"));
    let path = store.backup_path_at(947638923004);
    assert_eq!(path, String::from("data/config.json.backup.20000112_010203"));
}

#[test]
fn backup_without_document_not_found() {
    let mut svc = new_service();
    let r = svc.backup_configuration();
    assert!(matches!(r, Err(MceptionError::Storage(StorageError::NotFound(_)))));
    svc.create_leaf_mcp(String::from("leaf1"), sample_leaf("leaf1"), None, None).unwrap();
    assert_eq!(svc.backup_configuration().unwrap(), String::from("backup-location"));
}

#[test]
fn error_messages_name_their_class() {
    let e = MceptionError::Storage(StorageError::NotFound(String::from("thing")));
    assert_eq!(e.message(), String::from("Storage error: Resource not found: thing"));
    let v = MceptionError::Validation(ValidationError::InvalidFormat(String::from("bad")));
    assert_eq!(v.message(), String::from("Validation error: Invalid format: bad"));
}

#[test]
fn update_agent_merges_partially() {
    let mut svc = new_service();
    svc.create_agent(String::from("a"), vec![], None).unwrap();
    let patch = ConfigValue::Obj(vec![
        (String::from("is_connected"), ConfigValue::Bool(true)),
        (String::from("last_seen"), ConfigValue::Int(777)),
    ]);
    svc.update_agent("a", patch, None, None).unwrap();
    let a = svc.get_agent("a", None).unwrap();
    assert!(a.is_connected);
    assert_eq!(a.last_seen, Some(777));
    assert_eq!(a.agent_id, String::from("a"));
}

#[test]
fn non_object_patch_changes_nothing() {
    let mut svc = new_service();
    svc.create_leaf_mcp(String::from("leaf1"), sample_leaf("leaf1"), None, None).unwrap();
    svc.update_leaf_mcp("leaf1", ConfigValue::Int(7), None, None).unwrap();
    let got = svc.get_leaf_mcp("leaf1", None).unwrap();
    assert_eq!(got, sample_leaf("leaf1"));
}

#[test]
fn audit_entries_carry_generated_ids() {
    let mut svc = new_service();
    svc.create_leaf_mcp(String::from("leaf1"), sample_leaf("leaf1"), None, None).unwrap();
    let logs = svc.get_audit_logs().unwrap();
    assert_eq!(logs.len(), 1);
    assert_eq!(logs[0].id.len(), 36);
    assert!(matches!(logs[0].action, AuditAction::Create));
}

#[test]
fn loading_duplicate_ids_is_corruption() {
    let mut svc = ConfigService::new(DupConfig, MemAudit { text: String::new(), fail_appends: false });
    let r = svc.load_configuration();
    assert!(matches!(r, Err(MceptionError::Storage(StorageError::Corruption(_)))));
}

#[test]
fn malformed_document_does_not_parse() {
    assert!(parse_config_document("not a document").is_none());
    assert!(parse_config_document("{\"leaf_mcps\":{}}").is_none());
}

#[test]
fn loading_missing_document_gives_default() {
    let mut svc = new_service();
    svc.load_configuration().unwrap();
    let c = svc.get_configuration();
    assert_eq!(c.metadata.version, String::from("0.1.0"));
    assert!(svc.list_leaf_mcps(None).unwrap().is_empty());
}

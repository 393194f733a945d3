//! Conversions between the typed resources and the open-ended structured
//! value, in both directions, with the round-trip laws.
//!
//! Partial updates are applied to the full structured form of a resource and
//! the result is reconstructed; reconstruction fails when a required field is
//! missing or has the wrong shape, and ignores unknown keys. Optional fields
//! may be absent or null.

use vstd::prelude::*;

use crate::kv::{kv_get, lemma_kv_get_at, lemma_kv_get_none};
use crate::types::{
    AgentConfig, AgentConfigView, AuditAction, AuditLogEntry, AuditLogEntryView, AuditTarget,
    AuditTargetView, LeafMcpConfig, LeafMcpConfigView, McpTransport, McpTransportView,
    ServerConfig, ServerConfigView, ServerMetadata, ServerMetadataView, clone_opt_string,
    clone_string_pairs, clone_string_vec,
};
use crate::value::{ConfigValue, Jv, arr_dv, obj_dv};

verus! {

/// The structured form of an optional string: the string, or null.
pub open spec fn jv_of_opt_str(o: Option<Seq<char>>) -> Jv {
    match o {
        Some(s) => Jv::Str(s),
        None => Jv::Null,
    }
}

/// The structured form of an optional timestamp: the number, or null.
pub open spec fn jv_of_opt_time(o: Option<i64>) -> Jv {
    match o {
        Some(t) => Jv::Int(t as int),
        None => Jv::Null,
    }
}

/// The structured form of a string list.
pub open spec fn jv_of_str_seq(ss: Seq<Seq<char>>) -> Jv {
    Jv::Arr(
        Seq::new(
            ss.len(),
            |i: int|
                if 0 <= i < ss.len() {
                    Jv::Str(ss[i])
                } else {
                    arbitrary()
                },
        ),
    )
}

/// The structured form of a string-to-string map.
pub open spec fn jv_of_str_pairs(ps: Seq<(Seq<char>, Seq<char>)>) -> Jv {
    Jv::Obj(
        Seq::new(
            ps.len(),
            |i: int|
                if 0 <= i < ps.len() {
                    (ps[i].0, Jv::Str(ps[i].1))
                } else {
                    arbitrary()
                },
        ),
    )
}

/// The structured form of an optional string-to-string map.
pub open spec fn jv_of_opt_pairs(o: Option<Seq<(Seq<char>, Seq<char>)>>) -> Jv {
    match o {
        Some(ps) => jv_of_str_pairs(ps),
        None => Jv::Null,
    }
}

/// The structured form of a transport descriptor, tagged by `type`.
pub open spec fn jv_of_transport(t: McpTransportView) -> Jv {
    match t {
        McpTransportView::Stdio { command, args, env } => Jv::Obj(
            seq![
                ("type"@, Jv::Str("stdio"@)),
                ("command"@, Jv::Str(command)),
                ("args"@, jv_of_str_seq(args)),
                ("env"@, jv_of_opt_pairs(env)),
            ],
        ),
        McpTransportView::Https { url, headers } => Jv::Obj(
            seq![
                ("type"@, Jv::Str("https"@)),
                ("url"@, Jv::Str(url)),
                ("headers"@, jv_of_opt_pairs(headers)),
            ],
        ),
    }
}

/// The structured form of a leaf endpoint configuration.
pub open spec fn jv_of_leaf(l: LeafMcpConfigView) -> Jv {
    Jv::Obj(
        seq![
            ("id"@, Jv::Str(l.id)),
            ("name"@, jv_of_opt_str(l.name)),
            ("description"@, jv_of_opt_str(l.description)),
            ("transport"@, jv_of_transport(l.transport)),
            ("is_local"@, Jv::Bool(l.is_local)),
            ("reachable_by_agent"@, Jv::Bool(l.reachable_by_agent)),
            ("config"@, l.config),
        ],
    )
}

/// The structured form of an agent configuration.
pub open spec fn jv_of_agent(a: AgentConfigView) -> Jv {
    Jv::Obj(
        seq![
            ("agent_id"@, Jv::Str(a.agent_id)),
            ("name"@, jv_of_opt_str(a.name)),
            ("description"@, jv_of_opt_str(a.description)),
            ("allowed_mcp_ids"@, jv_of_str_seq(a.allowed_mcp_ids)),
            ("is_connected"@, Jv::Bool(a.is_connected)),
            ("last_seen"@, jv_of_opt_time(a.last_seen)),
            ("config"@, a.config),
        ],
    )
}

/// An optional string field: absent or null is `None`, a string is `Some`,
/// anything else is invalid.
pub open spec fn opt_str_field(ms: Seq<(Seq<char>, Jv)>, k: Seq<char>) -> Option<
    Option<Seq<char>>,
> {
    match kv_get(ms, k) {
        None => Some(None),
        Some(Jv::Null) => Some(None),
        Some(Jv::Str(s)) => Some(Some(s)),
        Some(_) => None,
    }
}

/// An optional timestamp field: absent or null is `None`, a number in the
/// timestamp range is `Some`, anything else is invalid.
pub open spec fn opt_time_field(ms: Seq<(Seq<char>, Jv)>, k: Seq<char>) -> Option<Option<i64>> {
    match kv_get(ms, k) {
        None => Some(None),
        Some(Jv::Null) => Some(None),
        Some(Jv::Int(t)) => if i64::MIN <= t <= i64::MAX {
            Some(Some(t as i64))
        } else {
            None
        },
        Some(_) => None,
    }
}

/// A string list, when every element is a string.
pub open spec fn str_seq_of_jv(v: Jv) -> Option<Seq<Seq<char>>>
    decreases v,
{
    match v {
        Jv::Arr(es) => str_seq_of_elems(es),
        _ => None,
    }
}

/// Helper of [`str_seq_of_jv`], over the element list.
pub open spec fn str_seq_of_elems(es: Seq<Jv>) -> Option<Seq<Seq<char>>>
    decreases es.len(),
{
    if es.len() == 0 {
        Some(Seq::empty())
    } else {
        match (str_seq_of_elems(es.drop_last()), es.last()) {
            (Some(init), Jv::Str(s)) => Some(init.push(s)),
            _ => None,
        }
    }
}

/// A string-to-string map, when every value is a string.
pub open spec fn str_pairs_of_jv(v: Jv) -> Option<Seq<(Seq<char>, Seq<char>)>>
    decreases v,
{
    match v {
        Jv::Obj(ms) => str_pairs_of_members(ms),
        _ => None,
    }
}

/// Helper of [`str_pairs_of_jv`], over the member list.
pub open spec fn str_pairs_of_members(ms: Seq<(Seq<char>, Jv)>) -> Option<
    Seq<(Seq<char>, Seq<char>)>,
>
    decreases ms.len(),
{
    if ms.len() == 0 {
        Some(Seq::empty())
    } else {
        match (str_pairs_of_members(ms.drop_last()), ms.last().1) {
            (Some(init), Jv::Str(s)) => Some(init.push((ms.last().0, s))),
            _ => None,
        }
    }
}

/// An optional string-to-string map field.
pub open spec fn opt_pairs_field(ms: Seq<(Seq<char>, Jv)>, k: Seq<char>) -> Option<
    Option<Seq<(Seq<char>, Seq<char>)>>,
> {
    match kv_get(ms, k) {
        None => Some(None),
        Some(Jv::Null) => Some(None),
        Some(v) => match str_pairs_of_jv(v) {
            Some(ps) => Some(Some(ps)),
            None => None,
        },
    }
}

/// Reconstruct a transport descriptor from its structured form.
pub open spec fn transport_of_jv(v: Jv) -> Option<McpTransportView> {
    match v {
        Jv::Obj(ms) => match kv_get(ms, "type"@) {
            Some(Jv::Str(tag)) => if tag == "stdio"@ {
                match (kv_get(ms, "command"@), kv_get(ms, "args"@), opt_pairs_field(ms, "env"@)) {
                    (Some(Jv::Str(command)), Some(argsv), Some(env)) => match str_seq_of_jv(
                        argsv,
                    ) {
                        Some(args) => Some(
                            McpTransportView::Stdio { command: command, args: args, env: env },
                        ),
                        None => None,
                    },
                    _ => None,
                }
            } else if tag == "https"@ {
                match (kv_get(ms, "url"@), opt_pairs_field(ms, "headers"@)) {
                    (Some(Jv::Str(url)), Some(headers)) => Some(
                        McpTransportView::Https { url: url, headers: headers },
                    ),
                    _ => None,
                }
            } else {
                None
            },
            _ => None,
        },
        _ => None,
    }
}

/// Reconstruct a leaf endpoint configuration from its structured form.
pub open spec fn leaf_of_jv(v: Jv) -> Option<LeafMcpConfigView> {
    match v {
        Jv::Obj(ms) => match (
            kv_get(ms, "id"@),
            kv_get(ms, "transport"@),
            kv_get(ms, "is_local"@),
            kv_get(ms, "reachable_by_agent"@),
            kv_get(ms, "config"@),
        ) {
            (
                Some(Jv::Str(id)),
                Some(tv),
                Some(Jv::Bool(is_local)),
                Some(Jv::Bool(reachable)),
                Some(cfg),
            ) => match (
                transport_of_jv(tv),
                opt_str_field(ms, "name"@),
                opt_str_field(ms, "description"@),
            ) {
                (Some(transport), Some(name), Some(description)) => Some(
                    LeafMcpConfigView {
                        id: id,
                        name: name,
                        description: description,
                        transport: transport,
                        is_local: is_local,
                        reachable_by_agent: reachable,
                        config: cfg,
                    },
                ),
                _ => None,
            },
            _ => None,
        },
        _ => None,
    }
}

/// Reconstruct an agent configuration from its structured form.
pub open spec fn agent_of_jv(v: Jv) -> Option<AgentConfigView> {
    match v {
        Jv::Obj(ms) => match (
            kv_get(ms, "agent_id"@),
            kv_get(ms, "allowed_mcp_ids"@),
            kv_get(ms, "is_connected"@),
            kv_get(ms, "config"@),
        ) {
            (Some(Jv::Str(agent_id)), Some(idsv), Some(Jv::Bool(is_connected)), Some(cfg)) => match (
                str_seq_of_jv(idsv),
                opt_str_field(ms, "name"@),
                opt_str_field(ms, "description"@),
                opt_time_field(ms, "last_seen"@),
            ) {
                (Some(ids), Some(name), Some(description), Some(last_seen)) => Some(
                    AgentConfigView {
                        agent_id: agent_id,
                        name: name,
                        description: description,
                        allowed_mcp_ids: ids,
                        is_connected: is_connected,
                        last_seen: last_seen,
                        config: cfg,
                    },
                ),
                _ => None,
            },
            _ => None,
        },
        _ => None,
    }
}

fn value_of_opt_str(o: &Option<String>) -> (r: ConfigValue)
    ensures
        r.dv() == jv_of_opt_str(o.deep_view()),
{
    match o {
        Some(s) => ConfigValue::Str(s.clone()),
        None => ConfigValue::Null,
    }
}

fn value_of_str_vec(v: &Vec<String>) -> (r: ConfigValue)
    ensures
        r.dv() == jv_of_str_seq(v.deep_view()),
{
    let n = v.len();
    let mut out: Vec<ConfigValue> = Vec::new();
    let mut i: usize = 0;
    while i < n
        invariant
            n == v@.len(),
            0 <= i <= n,
            out@.len() == i,
            forall|t: int| #![trigger out@[t]] 0 <= t < i ==> out@[t].dv() == Jv::Str(v@[t]@),
        decreases n - i,
    {
        out.push(ConfigValue::Str(v[i].clone()));
        i = i + 1;
    }
    let r = ConfigValue::Arr(out);
    proof {
        assert(arr_dv(out@) =~= jv_of_str_seq(v.deep_view())->Arr_0);
    }
    r
}

fn value_of_pairs(ps: &Vec<(String, String)>) -> (r: ConfigValue)
    ensures
        r.dv() == jv_of_str_pairs(ps.deep_view()),
{
    let n = ps.len();
    let mut out: Vec<(String, ConfigValue)> = Vec::new();
    let mut i: usize = 0;
    while i < n
        invariant
            n == ps@.len(),
            0 <= i <= n,
            out@.len() == i,
            forall|t: int|
                #![trigger out@[t]]
                0 <= t < i ==> out@[t].0@ == ps@[t].0@ && out@[t].1.dv() == Jv::Str(ps@[t].1@),
        decreases n - i,
    {
        out.push((ps[i].0.clone(), ConfigValue::Str(ps[i].1.clone())));
        i = i + 1;
    }
    let r = ConfigValue::Obj(out);
    proof {
        assert(obj_dv(out@) =~= jv_of_str_pairs(ps.deep_view())->Obj_0);
    }
    r
}

fn value_of_opt_pairs(o: &Option<Vec<(String, String)>>) -> (r: ConfigValue)
    ensures
        r.dv() == jv_of_opt_pairs(o.deep_view()),
{
    match o {
        Some(ps) => value_of_pairs(ps),
        None => ConfigValue::Null,
    }
}

/// The structured form of a transport descriptor.
pub fn transport_to_value(t: &McpTransport) -> (r: ConfigValue)
    ensures
        r.dv() == jv_of_transport(t.deep_view()),
{
    match t {
        McpTransport::Stdio { command, args, env } => {
            let mut out: Vec<(String, ConfigValue)> = Vec::new();
            out.push((String::from_str("type"), ConfigValue::Str(String::from_str("stdio"))));
            out.push((String::from_str("command"), ConfigValue::Str(command.clone())));
            out.push((String::from_str("args"), value_of_str_vec(args)));
            out.push((String::from_str("env"), value_of_opt_pairs(env)));
            let r = ConfigValue::Obj(out);
            proof {
                assert(obj_dv(out@) =~= jv_of_transport(t.deep_view())->Obj_0);
            }
            r
        },
        McpTransport::Https { url, headers } => {
            let mut out: Vec<(String, ConfigValue)> = Vec::new();
            out.push((String::from_str("type"), ConfigValue::Str(String::from_str("https"))));
            out.push((String::from_str("url"), ConfigValue::Str(url.clone())));
            out.push((String::from_str("headers"), value_of_opt_pairs(headers)));
            let r = ConfigValue::Obj(out);
            proof {
                assert(obj_dv(out@) =~= jv_of_transport(t.deep_view())->Obj_0);
            }
            r
        },
    }
}

/// The structured form of a leaf endpoint configuration.
pub fn leaf_to_value(l: &LeafMcpConfig) -> (r: ConfigValue)
    ensures
        r.dv() == jv_of_leaf(l.deep_view()),
{
    let mut out: Vec<(String, ConfigValue)> = Vec::new();
    out.push((String::from_str("id"), ConfigValue::Str(l.id.clone())));
    out.push((String::from_str("name"), value_of_opt_str(&l.name)));
    out.push((String::from_str("description"), value_of_opt_str(&l.description)));
    out.push((String::from_str("transport"), transport_to_value(&l.transport)));
    out.push((String::from_str("is_local"), ConfigValue::Bool(l.is_local)));
    out.push((String::from_str("reachable_by_agent"), ConfigValue::Bool(l.reachable_by_agent)));
    out.push((String::from_str("config"), l.config.clone()));
    let r = ConfigValue::Obj(out);
    proof {
        assert(obj_dv(out@) =~= jv_of_leaf(l.deep_view())->Obj_0);
    }
    r
}

/// The structured form of an agent configuration.
pub fn agent_to_value(a: &AgentConfig) -> (r: ConfigValue)
    ensures
        r.dv() == jv_of_agent(a.deep_view()),
{
    let mut out: Vec<(String, ConfigValue)> = Vec::new();
    out.push((String::from_str("agent_id"), ConfigValue::Str(a.agent_id.clone())));
    out.push((String::from_str("name"), value_of_opt_str(&a.name)));
    out.push((String::from_str("description"), value_of_opt_str(&a.description)));
    out.push((String::from_str("allowed_mcp_ids"), value_of_str_vec(&a.allowed_mcp_ids)));
    out.push((String::from_str("is_connected"), ConfigValue::Bool(a.is_connected)));
    out.push(
        (
            String::from_str("last_seen"),
            match a.last_seen {
                Some(ts) => ConfigValue::Int(ts),
                None => ConfigValue::Null,
            },
        ),
    );
    out.push((String::from_str("config"), a.config.clone()));
    let r = ConfigValue::Obj(out);
    proof {
        assert(obj_dv(out@) =~= jv_of_agent(a.deep_view())->Obj_0);
    }
    r
}

/// A prefix that already failed keeps the whole element list failing.
proof fn lemma_str_elems_none_extends(es: Seq<Jv>, i: int)
    requires
        0 <= i <= es.len(),
        str_seq_of_elems(es.take(i)) is None,
    ensures
        str_seq_of_elems(es) is None,
    decreases es.len() - i,
{
    if i < es.len() {
        assert(es.take(i + 1).drop_last() =~= es.take(i));
        lemma_str_elems_none_extends(es, i + 1);
    } else {
        assert(es.take(i) =~= es);
    }
}

/// A prefix that already failed keeps the whole member list failing.
proof fn lemma_str_members_none_extends(ms: Seq<(Seq<char>, Jv)>, i: int)
    requires
        0 <= i <= ms.len(),
        str_pairs_of_members(ms.take(i)) is None,
    ensures
        str_pairs_of_members(ms) is None,
    decreases ms.len() - i,
{
    if i < ms.len() {
        assert(ms.take(i + 1).drop_last() =~= ms.take(i));
        lemma_str_members_none_extends(ms, i + 1);
    } else {
        assert(ms.take(i) =~= ms);
    }
}

/// Reconstruct a string list from a structured value.
fn str_vec_from_value(v: &ConfigValue) -> (r: Option<Vec<String>>)
    ensures
        match r {
            Some(ss) => str_seq_of_jv(v.dv()) == Some(ss.deep_view()),
            None => str_seq_of_jv(v.dv()) is None,
        },
{
    match v {
        ConfigValue::Arr(es) => {
            let n = es.len();
            let mut out: Vec<String> = Vec::new();
            let mut i: usize = 0;
            while i < n
                invariant
                    v.dv() == Jv::Arr(arr_dv(es@)),
                    n == es@.len(),
                    0 <= i <= n,
                    str_seq_of_elems(arr_dv(es@).take(i as int)) == Some(out.deep_view()),
                decreases n - i,
            {
                proof {
                    assert(arr_dv(es@).take(i as int + 1).drop_last() =~= arr_dv(es@).take(
                        i as int,
                    ));
                }
                match &es[i] {
                    ConfigValue::Str(s) => {
                        out.push(s.clone());
                    },
                    _ => {
                        proof {
                            lemma_str_elems_none_extends(arr_dv(es@), i as int + 1);
                        }
                        return None;
                    },
                }
                i = i + 1;
            }
            proof {
                assert(arr_dv(es@).take(n as int) =~= arr_dv(es@));
            }
            Some(out)
        },
        _ => None,
    }
}

/// Reconstruct a string-to-string map from a structured value.
fn pairs_from_value(v: &ConfigValue) -> (r: Option<Vec<(String, String)>>)
    ensures
        match r {
            Some(ps) => str_pairs_of_jv(v.dv()) == Some(ps.deep_view()),
            None => str_pairs_of_jv(v.dv()) is None,
        },
{
    match v {
        ConfigValue::Obj(ms) => {
            let n = ms.len();
            let mut out: Vec<(String, String)> = Vec::new();
            let mut i: usize = 0;
            while i < n
                invariant
                    v.dv() == Jv::Obj(obj_dv(ms@)),
                    n == ms@.len(),
                    0 <= i <= n,
                    str_pairs_of_members(obj_dv(ms@).take(i as int)) == Some(out.deep_view()),
                decreases n - i,
            {
                proof {
                    assert(obj_dv(ms@).take(i as int + 1).drop_last() =~= obj_dv(ms@).take(
                        i as int,
                    ));
                }
                match &ms[i].1 {
                    ConfigValue::Str(s) => {
                        out.push((ms[i].0.clone(), s.clone()));
                    },
                    _ => {
                        proof {
                            lemma_str_members_none_extends(obj_dv(ms@), i as int + 1);
                        }
                        return None;
                    },
                }
                i = i + 1;
            }
            proof {
                assert(obj_dv(ms@).take(n as int) =~= obj_dv(ms@));
            }
            Some(out)
        },
        _ => None,
    }
}

/// Reconstruct an optional string field of an object.
fn opt_str_from(v: &ConfigValue, k: &str) -> (r: Option<Option<String>>)
    ensures
        v.dv() is Obj ==> match r {
            Some(o) => opt_str_field(v.dv()->Obj_0, k@) == Some(o.deep_view()),
            None => opt_str_field(v.dv()->Obj_0, k@) is None,
        },
{
    match v.obj_get(k) {
        None => Some(None),
        Some(ConfigValue::Null) => Some(None),
        Some(ConfigValue::Str(s)) => Some(Some(s.clone())),
        Some(_) => None,
    }
}

/// Reconstruct an optional string-to-string map field of an object.
fn opt_pairs_from(v: &ConfigValue, k: &str) -> (r: Option<Option<Vec<(String, String)>>>)
    ensures
        v.dv() is Obj ==> match r {
            Some(o) => opt_pairs_field(v.dv()->Obj_0, k@) == Some(o.deep_view()),
            None => opt_pairs_field(v.dv()->Obj_0, k@) is None,
        },
{
    match v.obj_get(k) {
        None => Some(None),
        Some(ConfigValue::Null) => Some(None),
        Some(other) => match pairs_from_value(other) {
            Some(ps) => Some(Some(ps)),
            None => None,
        },
    }
}

/// Reconstruct a transport descriptor from a structured value.
pub fn transport_from_value(v: &ConfigValue) -> (r: Option<McpTransport>)
    ensures
        match r {
            Some(t) => transport_of_jv(v.dv()) == Some(t.deep_view()),
            None => transport_of_jv(v.dv()) is None,
        },
{
    if let ConfigValue::Obj(_ms) = v {
        match v.obj_get("type") {
            Some(ConfigValue::Str(tag)) => {
                if crate::strutil::str_eq(tag.as_str(), "stdio") {
                    let command = match v.obj_get("command") {
                        Some(ConfigValue::Str(c)) => c.clone(),
                        _ => {
                            return None;
                        },
                    };
                    let args = match v.obj_get("args") {
                        Some(a) => match str_vec_from_value(a) {
                            Some(ss) => ss,
                            None => {
                                return None;
                            },
                        },
                        None => {
                            return None;
                        },
                    };
                    let env = match opt_pairs_from(v, "env") {
                        Some(e) => e,
                        None => {
                            return None;
                        },
                    };
                    Some(McpTransport::Stdio { command, args, env })
                } else if crate::strutil::str_eq(tag.as_str(), "https") {
                    let url = match v.obj_get("url") {
                        Some(ConfigValue::Str(u)) => u.clone(),
                        _ => {
                            return None;
                        },
                    };
                    let headers = match opt_pairs_from(v, "headers") {
                        Some(h) => h,
                        None => {
                            return None;
                        },
                    };
                    Some(McpTransport::Https { url, headers })
                } else {
                    None
                }
            },
            _ => None,
        }
    } else {
        None
    }
}

/// Reconstruct a leaf endpoint configuration from a structured value.
pub fn leaf_from_value(v: &ConfigValue) -> (r: Option<LeafMcpConfig>)
    ensures
        match r {
            Some(l) => leaf_of_jv(v.dv()) == Some(l.deep_view()),
            None => leaf_of_jv(v.dv()) is None,
        },
{
    if let ConfigValue::Obj(_ms) = v {
        let id = match v.obj_get("id") {
            Some(ConfigValue::Str(s)) => s.clone(),
            _ => {
                return None;
            },
        };
        let transport = match v.obj_get("transport") {
            Some(tv) => match transport_from_value(tv) {
                Some(t) => t,
                None => {
                    return None;
                },
            },
            None => {
                return None;
            },
        };
        let is_local = match v.obj_get("is_local") {
            Some(ConfigValue::Bool(b)) => *b,
            _ => {
                return None;
            },
        };
        let reachable_by_agent = match v.obj_get("reachable_by_agent") {
            Some(ConfigValue::Bool(b)) => *b,
            _ => {
                return None;
            },
        };
        let config = match v.obj_get("config") {
            Some(c) => c.clone(),
            None => {
                return None;
            },
        };
        let name = match opt_str_from(v, "name") {
            Some(o) => o,
            None => {
                return None;
            },
        };
        let description = match opt_str_from(v, "description") {
            Some(o) => o,
            None => {
                return None;
            },
        };
        Some(
            LeafMcpConfig {
                id,
                name,
                description,
                transport,
                is_local,
                reachable_by_agent,
                config,
            },
        )
    } else {
        None
    }
}

/// Reconstruct an agent configuration from a structured value.
pub fn agent_from_value(v: &ConfigValue) -> (r: Option<AgentConfig>)
    ensures
        match r {
            Some(a) => agent_of_jv(v.dv()) == Some(a.deep_view()),
            None => agent_of_jv(v.dv()) is None,
        },
{
    if let ConfigValue::Obj(_ms) = v {
        let agent_id = match v.obj_get("agent_id") {
            Some(ConfigValue::Str(s)) => s.clone(),
            _ => {
                return None;
            },
        };
        let allowed_mcp_ids = match v.obj_get("allowed_mcp_ids") {
            Some(a) => match str_vec_from_value(a) {
                Some(ss) => ss,
                None => {
                    return None;
                },
            },
            None => {
                return None;
            },
        };
        let is_connected = match v.obj_get("is_connected") {
            Some(ConfigValue::Bool(b)) => *b,
            _ => {
                return None;
            },
        };
        let config = match v.obj_get("config") {
            Some(c) => c.clone(),
            None => {
                return None;
            },
        };
        let name = match opt_str_from(v, "name") {
            Some(o) => o,
            None => {
                return None;
            },
        };
        let description = match opt_str_from(v, "description") {
            Some(o) => o,
            None => {
                return None;
            },
        };
        let last_seen = match v.obj_get("last_seen") {
            None => None,
            Some(ConfigValue::Null) => None,
            Some(ConfigValue::Int(t)) => Some(*t),
            Some(_) => {
                return None;
            },
        };
        Some(
            AgentConfig {
                agent_id,
                name,
                description,
                allowed_mcp_ids,
                is_connected,
                last_seen,
                config,
            },
        )
    } else {
        None
    }
}

/// Two character sequences of different lengths differ.
proof fn seq_ne_len(a: Seq<char>, b: Seq<char>)
    requires
        a.len() != b.len(),
    ensures
        a != b,
{
    if a == b {
        assert(a.len() == b.len());
    }
}

/// Two character sequences differing at one position differ.
proof fn seq_ne_at(a: Seq<char>, b: Seq<char>, i: int)
    requires
        0 <= i < a.len(),
        0 <= i < b.len(),
        a[i] != b[i],
    ensures
        a != b,
{
    if a == b {
        assert(a[i] == b[i]);
    }
}

/// The structured form of the metadata.
pub open spec fn jv_of_metadata(md: ServerMetadataView) -> Jv {
    Jv::Obj(
        seq![
            ("version"@, Jv::Str(md.version)),
            ("created_at"@, Jv::Int(md.created_at as int)),
            ("last_modified"@, Jv::Int(md.last_modified as int)),
        ],
    )
}

/// The structured form of the leaf endpoint map.
pub open spec fn jv_of_leaf_map(m: Seq<(Seq<char>, LeafMcpConfigView)>) -> Seq<(Seq<char>, Jv)> {
    Seq::new(
        m.len(),
        |i: int|
            if 0 <= i < m.len() {
                (m[i].0, jv_of_leaf(m[i].1))
            } else {
                arbitrary()
            },
    )
}

/// The structured form of the agent map.
pub open spec fn jv_of_agent_map(m: Seq<(Seq<char>, AgentConfigView)>) -> Seq<(Seq<char>, Jv)> {
    Seq::new(
        m.len(),
        |i: int|
            if 0 <= i < m.len() {
                (m[i].0, jv_of_agent(m[i].1))
            } else {
                arbitrary()
            },
    )
}

/// The structured form of the whole configuration.
pub open spec fn jv_of_config(c: ServerConfigView) -> Jv {
    Jv::Obj(
        seq![
            ("leaf_mcps"@, Jv::Obj(jv_of_leaf_map(c.leaf_mcps))),
            ("agents"@, Jv::Obj(jv_of_agent_map(c.agents))),
            ("metadata"@, jv_of_metadata(c.metadata)),
        ],
    )
}

/// Reconstruct the metadata from its structured form.
pub open spec fn metadata_of_jv(v: Jv) -> Option<ServerMetadataView> {
    match v {
        Jv::Obj(ms) => match (
            kv_get(ms, "version"@),
            kv_get(ms, "created_at"@),
            kv_get(ms, "last_modified"@),
        ) {
            (Some(Jv::Str(version)), Some(Jv::Int(ca)), Some(Jv::Int(lm))) => if i64::MIN <= ca
                <= i64::MAX && i64::MIN <= lm <= i64::MAX {
                Some(
                    ServerMetadataView {
                        version: version,
                        created_at: ca as i64,
                        last_modified: lm as i64,
                    },
                )
            } else {
                None
            },
            _ => None,
        },
        _ => None,
    }
}

/// Reconstruct the leaf map from object members, later duplicates of a key
/// replacing earlier ones.
pub open spec fn leaf_map_of_members(ms: Seq<(Seq<char>, Jv)>) -> Option<
    Seq<(Seq<char>, LeafMcpConfigView)>,
>
    decreases ms.len(),
{
    if ms.len() == 0 {
        Some(Seq::empty())
    } else {
        match (leaf_map_of_members(ms.drop_last()), leaf_of_jv(ms.last().1)) {
            (Some(acc), Some(l)) => Some(crate::kv::kv_set(acc, ms.last().0, l)),
            _ => None,
        }
    }
}

/// Reconstruct the agent map from object members.
pub open spec fn agent_map_of_members(ms: Seq<(Seq<char>, Jv)>) -> Option<
    Seq<(Seq<char>, AgentConfigView)>,
>
    decreases ms.len(),
{
    if ms.len() == 0 {
        Some(Seq::empty())
    } else {
        match (agent_map_of_members(ms.drop_last()), agent_of_jv(ms.last().1)) {
            (Some(acc), Some(a)) => Some(crate::kv::kv_set(acc, ms.last().0, a)),
            _ => None,
        }
    }
}

/// Reconstruct the whole configuration from its structured form.
pub open spec fn config_of_jv(v: Jv) -> Option<ServerConfigView> {
    match v {
        Jv::Obj(top) => match (
            kv_get(top, "leaf_mcps"@),
            kv_get(top, "agents"@),
            kv_get(top, "metadata"@),
        ) {
            (Some(Jv::Obj(lm)), Some(Jv::Obj(am)), Some(mv)) => match (
                leaf_map_of_members(lm),
                agent_map_of_members(am),
                metadata_of_jv(mv),
            ) {
                (Some(leafs), Some(agents), Some(md)) => Some(
                    ServerConfigView { leaf_mcps: leafs, agents: agents, metadata: md },
                ),
                _ => None,
            },
            _ => None,
        },
        _ => None,
    }
}

/// A string list survives the trip through its structured form.
pub proof fn lemma_str_seq_round_trip(ss: Seq<Seq<char>>)
    ensures
        str_seq_of_jv(jv_of_str_seq(ss)) == Some(ss),
    decreases ss.len(),
{
    let es = jv_of_str_seq(ss)->Arr_0;
    if ss.len() == 0 {
        assert(es =~= Seq::<Jv>::empty());
        assert(str_seq_of_elems(es) == Some(Seq::<Seq<char>>::empty()));
        assert(ss =~= Seq::<Seq<char>>::empty());
    } else {
        lemma_str_seq_round_trip(ss.drop_last());
        let shorter = jv_of_str_seq(ss.drop_last())->Arr_0;
        assert(es.drop_last() =~= shorter);
        assert(es.last() == Jv::Str(ss.last()));
        assert(ss.drop_last().push(ss.last()) =~= ss);
    }
}

/// A string-to-string map survives the trip through its structured form.
pub proof fn lemma_str_pairs_round_trip(ps: Seq<(Seq<char>, Seq<char>)>)
    ensures
        str_pairs_of_jv(jv_of_str_pairs(ps)) == Some(ps),
    decreases ps.len(),
{
    let ms = jv_of_str_pairs(ps)->Obj_0;
    if ps.len() == 0 {
        assert(ms =~= Seq::<(Seq<char>, Jv)>::empty());
        assert(str_pairs_of_members(ms) == Some(Seq::<(Seq<char>, Seq<char>)>::empty()));
        assert(ps =~= Seq::<(Seq<char>, Seq<char>)>::empty());
    } else {
        lemma_str_pairs_round_trip(ps.drop_last());
        let shorter = jv_of_str_pairs(ps.drop_last())->Obj_0;
        assert(ms.drop_last() =~= shorter);
        assert(ms.last() == (ps.last().0, Jv::Str(ps.last().1)));
        assert(ps.drop_last().push(ps.last()) =~= ps);
    }
}

/// A transport descriptor survives the trip through its structured form.
pub proof fn lemma_transport_round_trip(t: McpTransportView)
    ensures
        transport_of_jv(jv_of_transport(t)) == Some(t),
{
    reveal_strlit("type");
    reveal_strlit("command");
    reveal_strlit("args");
    reveal_strlit("env");
    reveal_strlit("url");
    reveal_strlit("headers");
    reveal_strlit("stdio");
    reveal_strlit("https");
    match t {
        McpTransportView::Stdio { command, args, env } => {
            let ms = jv_of_transport(t)->Obj_0;
            lemma_kv_get_at(ms, "type"@, 0);
            seq_ne_len("type"@, "command"@);
            lemma_kv_get_at(ms, "command"@, 1);
            seq_ne_at("type"@, "args"@, 0);
            seq_ne_len("command"@, "args"@);
            lemma_kv_get_at(ms, "args"@, 2);
            seq_ne_len("type"@, "env"@);
            seq_ne_len("command"@, "env"@);
            seq_ne_len("args"@, "env"@);
            lemma_kv_get_at(ms, "env"@, 3);
            lemma_str_seq_round_trip(args);
            match env {
                Some(ps) => {
                    lemma_str_pairs_round_trip(ps);
                },
                None => {
                },
            }
        },
        McpTransportView::Https { url, headers } => {
            let ms = jv_of_transport(t)->Obj_0;
            seq_ne_at("stdio"@, "https"@, 0);
            lemma_kv_get_at(ms, "type"@, 0);
            seq_ne_len("type"@, "url"@);
            lemma_kv_get_at(ms, "url"@, 1);
            seq_ne_len("type"@, "headers"@);
            seq_ne_len("url"@, "headers"@);
            lemma_kv_get_at(ms, "headers"@, 2);
            match headers {
                Some(ps) => {
                    lemma_str_pairs_round_trip(ps);
                },
                None => {
                },
            }
        },
    }
}

/// A leaf endpoint configuration survives the trip through its structured
/// form: reconstructing the rendered form gives back the same value.
pub proof fn lemma_leaf_round_trip(l: LeafMcpConfigView)
    ensures
        leaf_of_jv(jv_of_leaf(l)) == Some(l),
{
    reveal_strlit("id");
    reveal_strlit("name");
    reveal_strlit("description");
    reveal_strlit("transport");
    reveal_strlit("is_local");
    reveal_strlit("reachable_by_agent");
    reveal_strlit("config");
    let ms = jv_of_leaf(l)->Obj_0;
    let keys = seq!["id"@, "name"@, "description"@, "transport"@, "is_local"@,
        "reachable_by_agent"@, "config"@];
    assert forall|x: int, y: int| 0 <= x < y < 7 implies keys[x] != keys[y] by {
        seq_ne_len(keys[x], keys[y]);
    }
    lemma_kv_get_at(ms, "id"@, 0);
    lemma_kv_get_at(ms, "name"@, 1);
    lemma_kv_get_at(ms, "description"@, 2);
    lemma_kv_get_at(ms, "transport"@, 3);
    lemma_kv_get_at(ms, "is_local"@, 4);
    lemma_kv_get_at(ms, "reachable_by_agent"@, 5);
    lemma_kv_get_at(ms, "config"@, 6);
    lemma_transport_round_trip(l.transport);
}

/// An agent configuration survives the trip through its structured form.
pub proof fn lemma_agent_round_trip(a: AgentConfigView)
    ensures
        agent_of_jv(jv_of_agent(a)) == Some(a),
{
    reveal_strlit("agent_id");
    reveal_strlit("name");
    reveal_strlit("description");
    reveal_strlit("allowed_mcp_ids");
    reveal_strlit("is_connected");
    reveal_strlit("last_seen");
    reveal_strlit("config");
    let ms = jv_of_agent(a)->Obj_0;
    let keys = seq!["agent_id"@, "name"@, "description"@, "allowed_mcp_ids"@,
        "is_connected"@, "last_seen"@, "config"@];
    assert forall|x: int, y: int| 0 <= x < y < 7 implies keys[x] != keys[y] by {
        seq_ne_len(keys[x], keys[y]);
    }
    lemma_kv_get_at(ms, "agent_id"@, 0);
    lemma_kv_get_at(ms, "name"@, 1);
    lemma_kv_get_at(ms, "description"@, 2);
    lemma_kv_get_at(ms, "allowed_mcp_ids"@, 3);
    lemma_kv_get_at(ms, "is_connected"@, 4);
    lemma_kv_get_at(ms, "last_seen"@, 5);
    lemma_kv_get_at(ms, "config"@, 6);
    lemma_str_seq_round_trip(a.allowed_mcp_ids);
}

/// The structured form of the metadata.
pub fn metadata_to_value(md: &ServerMetadata) -> (r: ConfigValue)
    ensures
        r.dv() == jv_of_metadata(md.deep_view()),
{
    let mut out: Vec<(String, ConfigValue)> = Vec::new();
    out.push((String::from_str("version"), ConfigValue::Str(md.version.clone())));
    out.push((String::from_str("created_at"), ConfigValue::Int(md.created_at)));
    out.push((String::from_str("last_modified"), ConfigValue::Int(md.last_modified)));
    let r = ConfigValue::Obj(out);
    proof {
        assert(obj_dv(out@) =~= jv_of_metadata(md.deep_view())->Obj_0);
    }
    r
}

/// Reconstruct the metadata from a structured value.
pub fn metadata_from_value(v: &ConfigValue) -> (r: Option<ServerMetadata>)
    ensures
        match r {
            Some(md) => metadata_of_jv(v.dv()) == Some(md.deep_view()),
            None => metadata_of_jv(v.dv()) is None,
        },
{
    if let ConfigValue::Obj(_ms) = v {
        let version = match v.obj_get("version") {
            Some(ConfigValue::Str(s)) => s.clone(),
            _ => {
                return None;
            },
        };
        let created_at = match v.obj_get("created_at") {
            Some(ConfigValue::Int(t)) => *t,
            _ => {
                return None;
            },
        };
        let last_modified = match v.obj_get("last_modified") {
            Some(ConfigValue::Int(t)) => *t,
            _ => {
                return None;
            },
        };
        Some(ServerMetadata { version, created_at, last_modified })
    } else {
        None
    }
}

/// The structured form of the whole configuration.
pub fn config_to_value(c: &ServerConfig) -> (r: ConfigValue)
    ensures
        r.dv() == jv_of_config(c.deep_view()),
{
    let nl = c.leaf_mcps.len();
    let mut leafs: Vec<(String, ConfigValue)> = Vec::new();
    let mut i: usize = 0;
    while i < nl
        invariant
            nl == c.leaf_mcps.dv().len(),
            0 <= i <= nl,
            leafs@.len() == i,
            obj_dv(leafs@) =~= jv_of_leaf_map(c.leaf_mcps.dv()).take(i as int),
        decreases nl - i,
    {
        let k = c.leaf_mcps.key_at(i).clone();
        let lv = leaf_to_value(c.leaf_mcps.val_at(i));
        let ghost prev = leafs@;
        leafs.push((k, lv));
        proof {
            assert forall|t: int| 0 <= t < i + 1 implies obj_dv(leafs@)[t] == jv_of_leaf_map(
                c.leaf_mcps.dv(),
            ).take(i as int + 1)[t] by {
                if t < i {
                    assert(leafs@[t] == prev[t]);
                    assert(obj_dv(prev)[t] == jv_of_leaf_map(c.leaf_mcps.dv()).take(i as int)[t]);
                } else {
                    assert(leafs@[t] == (leafs@[i as int].0, leafs@[i as int].1));
                }
            }
            assert(obj_dv(leafs@) =~= jv_of_leaf_map(c.leaf_mcps.dv()).take(i as int + 1));
        }
        i = i + 1;
    }
    let na = c.agents.len();
    let mut agents: Vec<(String, ConfigValue)> = Vec::new();
    let mut j: usize = 0;
    while j < na
        invariant
            na == c.agents.dv().len(),
            0 <= j <= na,
            agents@.len() == j,
            obj_dv(agents@) =~= jv_of_agent_map(c.agents.dv()).take(j as int),
        decreases na - j,
    {
        let k = c.agents.key_at(j).clone();
        let av = agent_to_value(c.agents.val_at(j));
        let ghost prev = agents@;
        agents.push((k, av));
        proof {
            assert forall|t: int| 0 <= t < j + 1 implies obj_dv(agents@)[t] == jv_of_agent_map(
                c.agents.dv(),
            ).take(j as int + 1)[t] by {
                if t < j {
                    assert(agents@[t] == prev[t]);
                    assert(obj_dv(prev)[t] == jv_of_agent_map(c.agents.dv()).take(j as int)[t]);
                } else {
                    assert(agents@[t] == (agents@[j as int].0, agents@[j as int].1));
                }
            }
            assert(obj_dv(agents@) =~= jv_of_agent_map(c.agents.dv()).take(j as int + 1));
        }
        j = j + 1;
    }
    let mut top: Vec<(String, ConfigValue)> = Vec::new();
    top.push((String::from_str("leaf_mcps"), ConfigValue::Obj(leafs)));
    top.push((String::from_str("agents"), ConfigValue::Obj(agents)));
    top.push((String::from_str("metadata"), metadata_to_value(&c.metadata)));
    let r = ConfigValue::Obj(top);
    proof {
        assert(jv_of_leaf_map(c.leaf_mcps.dv()).take(nl as int) =~= jv_of_leaf_map(
            c.leaf_mcps.dv(),
        ));
        assert(jv_of_agent_map(c.agents.dv()).take(na as int) =~= jv_of_agent_map(c.agents.dv()));
        assert(obj_dv(top@) =~= jv_of_config(c.deep_view())->Obj_0);
    }
    r
}

/// Reconstruct the whole configuration from a structured value; the maps
/// of the result have pairwise-distinct keys, later duplicates in the
/// document replacing earlier ones.
pub fn config_from_value(v: &ConfigValue) -> (r: Option<ServerConfig>)
    ensures
        match r {
            Some(c) => config_of_jv(v.dv()) == Some(c.deep_view()) && c.wf(),
            None => config_of_jv(v.dv()) is None,
        },
{
    if let ConfigValue::Obj(_top) = v {
        let leafs_v = match v.obj_get("leaf_mcps") {
            Some(x) => x,
            None => {
                return None;
            },
        };
        let agents_v = match v.obj_get("agents") {
            Some(x) => x,
            None => {
                return None;
            },
        };
        let md_v = match v.obj_get("metadata") {
            Some(x) => x,
            None => {
                return None;
            },
        };
        let metadata = match metadata_from_value(md_v) {
            Some(md) => md,
            None => {
                return None;
            },
        };
        let leaf_map = match leafs_v {
            ConfigValue::Obj(lms) => match leaf_map_from_members(lms) {
                Some(m) => m,
                None => {
                    return None;
                },
            },
            _ => {
                return None;
            },
        };
        let agent_map = match agents_v {
            ConfigValue::Obj(ams) => match agent_map_from_members(ams) {
                Some(m) => m,
                None => {
                    return None;
                },
            },
            _ => {
                return None;
            },
        };
        Some(ServerConfig { leaf_mcps: leaf_map, agents: agent_map, metadata })
    } else {
        None
    }
}

/// Reconstruct the leaf endpoint map from object members.
fn leaf_map_from_members(ms: &Vec<(String, ConfigValue)>) -> (r: Option<
    crate::idmap::IdMap<LeafMcpConfig>,
>)
    ensures
        match r {
            Some(m) => leaf_map_of_members(obj_dv(ms@)) == Some(m.dv()) && m.wf(),
            None => leaf_map_of_members(obj_dv(ms@)) is None,
        },
{
    let mut out: crate::idmap::IdMap<LeafMcpConfig> = crate::idmap::IdMap::new();
    let n = ms.len();
    let mut i: usize = 0;
    while i < n
        invariant
            n == ms@.len(),
            0 <= i <= n,
            out.wf(),
            leaf_map_of_members(obj_dv(ms@).take(i as int)) == Some(out.dv()),
        decreases n - i,
    {
        proof {
            assert(obj_dv(ms@).take(i as int + 1).drop_last() =~= obj_dv(ms@).take(i as int));
            assert(obj_dv(ms@).take(i as int + 1).last() == obj_dv(ms@)[i as int]);
        }
        match leaf_from_value(&ms[i].1) {
            Some(l) => {
                out.upsert(ms[i].0.clone(), l);
            },
            None => {
                proof {
                    lemma_leaf_members_none_extends(obj_dv(ms@), i as int + 1);
                }
                return None;
            },
        }
        i = i + 1;
    }
    proof {
        assert(obj_dv(ms@).take(n as int) =~= obj_dv(ms@));
    }
    Some(out)
}

/// Reconstruct the agent map from object members.
fn agent_map_from_members(ms: &Vec<(String, ConfigValue)>) -> (r: Option<
    crate::idmap::IdMap<AgentConfig>,
>)
    ensures
        match r {
            Some(m) => agent_map_of_members(obj_dv(ms@)) == Some(m.dv()) && m.wf(),
            None => agent_map_of_members(obj_dv(ms@)) is None,
        },
{
    let mut out: crate::idmap::IdMap<AgentConfig> = crate::idmap::IdMap::new();
    let n = ms.len();
    let mut i: usize = 0;
    while i < n
        invariant
            n == ms@.len(),
            0 <= i <= n,
            out.wf(),
            agent_map_of_members(obj_dv(ms@).take(i as int)) == Some(out.dv()),
        decreases n - i,
    {
        proof {
            assert(obj_dv(ms@).take(i as int + 1).drop_last() =~= obj_dv(ms@).take(i as int));
            assert(obj_dv(ms@).take(i as int + 1).last() == obj_dv(ms@)[i as int]);
        }
        match agent_from_value(&ms[i].1) {
            Some(a) => {
                out.upsert(ms[i].0.clone(), a);
            },
            None => {
                proof {
                    lemma_agent_members_none_extends(obj_dv(ms@), i as int + 1);
                }
                return None;
            },
        }
        i = i + 1;
    }
    proof {
        assert(obj_dv(ms@).take(n as int) =~= obj_dv(ms@));
    }
    Some(out)
}

/// A prefix that already failed keeps the whole leaf map failing.
proof fn lemma_leaf_members_none_extends(ms: Seq<(Seq<char>, Jv)>, i: int)
    requires
        0 <= i <= ms.len(),
        leaf_map_of_members(ms.take(i)) is None,
    ensures
        leaf_map_of_members(ms) is None,
    decreases ms.len() - i,
{
    if i < ms.len() {
        assert(ms.take(i + 1).drop_last() =~= ms.take(i));
        lemma_leaf_members_none_extends(ms, i + 1);
    } else {
        assert(ms.take(i) =~= ms);
    }
}

/// A prefix that already failed keeps the whole agent map failing.
proof fn lemma_agent_members_none_extends(ms: Seq<(Seq<char>, Jv)>, i: int)
    requires
        0 <= i <= ms.len(),
        agent_map_of_members(ms.take(i)) is None,
    ensures
        agent_map_of_members(ms) is None,
    decreases ms.len() - i,
{
    if i < ms.len() {
        assert(ms.take(i + 1).drop_last() =~= ms.take(i));
        lemma_agent_members_none_extends(ms, i + 1);
    } else {
        assert(ms.take(i) =~= ms);
    }
}

/// The metadata survives the trip through its structured form.
pub proof fn lemma_metadata_round_trip(md: ServerMetadataView)
    ensures
        metadata_of_jv(jv_of_metadata(md)) == Some(md),
{
    reveal_strlit("version");
    reveal_strlit("created_at");
    reveal_strlit("last_modified");
    let ms = jv_of_metadata(md)->Obj_0;
    seq_ne_len("version"@, "created_at"@);
    lemma_kv_get_at(ms, "version"@, 0);
    lemma_kv_get_at(ms, "created_at"@, 1);
    seq_ne_len("version"@, "last_modified"@);
    seq_ne_len("created_at"@, "last_modified"@);
    lemma_kv_get_at(ms, "last_modified"@, 2);
}

/// A leaf map with distinct keys survives the trip through its structured
/// form.
pub proof fn lemma_leaf_map_round_trip(m: Seq<(Seq<char>, LeafMcpConfigView)>)
    requires
        crate::kv::kv_keys_unique(m),
    ensures
        leaf_map_of_members(jv_of_leaf_map(m)) == Some(m),
    decreases m.len(),
{
    if m.len() == 0 {
        assert(jv_of_leaf_map(m) =~= Seq::<(Seq<char>, Jv)>::empty());
        assert(m =~= Seq::<(Seq<char>, LeafMcpConfigView)>::empty());
    } else {
        let shorter = m.drop_last();
        assert(crate::kv::kv_keys_unique(shorter)) by {
            assert(forall|t: int| 0 <= t < shorter.len() ==> shorter[t] == m[t]);
        }
        lemma_leaf_map_round_trip(shorter);
        assert(jv_of_leaf_map(m).drop_last() =~= jv_of_leaf_map(shorter));
        assert(jv_of_leaf_map(m).last() == (m.last().0, jv_of_leaf(m.last().1)));
        lemma_leaf_round_trip(m.last().1);
        assert(forall|t: int| 0 <= t < shorter.len() ==> #[trigger] shorter[t].0 != m.last().0);
        crate::kv::lemma_kv_set_absent(shorter, m.last().0, m.last().1);
        assert(shorter.push(m.last()) =~= m);
        assert(shorter.push((m.last().0, m.last().1)) =~= shorter.push(m.last()));
    }
}

/// An agent map with distinct keys survives the trip through its
/// structured form.
pub proof fn lemma_agent_map_round_trip(m: Seq<(Seq<char>, AgentConfigView)>)
    requires
        crate::kv::kv_keys_unique(m),
    ensures
        agent_map_of_members(jv_of_agent_map(m)) == Some(m),
    decreases m.len(),
{
    if m.len() == 0 {
        assert(jv_of_agent_map(m) =~= Seq::<(Seq<char>, Jv)>::empty());
        assert(m =~= Seq::<(Seq<char>, AgentConfigView)>::empty());
    } else {
        let shorter = m.drop_last();
        assert(crate::kv::kv_keys_unique(shorter)) by {
            assert(forall|t: int| 0 <= t < shorter.len() ==> shorter[t] == m[t]);
        }
        lemma_agent_map_round_trip(shorter);
        assert(jv_of_agent_map(m).drop_last() =~= jv_of_agent_map(shorter));
        assert(jv_of_agent_map(m).last() == (m.last().0, jv_of_agent(m.last().1)));
        lemma_agent_round_trip(m.last().1);
        assert(forall|t: int| 0 <= t < shorter.len() ==> #[trigger] shorter[t].0 != m.last().0);
        crate::kv::lemma_kv_set_absent(shorter, m.last().0, m.last().1);
        assert(shorter.push(m.last()) =~= m);
        assert(shorter.push((m.last().0, m.last().1)) =~= shorter.push(m.last()));
    }
}

/// A configuration with distinct keys in both maps survives the trip
/// through its structured form.
pub proof fn lemma_config_round_trip(c: ServerConfigView)
    requires
        crate::kv::kv_keys_unique(c.leaf_mcps),
        crate::kv::kv_keys_unique(c.agents),
    ensures
        config_of_jv(jv_of_config(c)) == Some(c),
{
    reveal_strlit("leaf_mcps");
    reveal_strlit("agents");
    reveal_strlit("metadata");
    let top = jv_of_config(c)->Obj_0;
    seq_ne_len("leaf_mcps"@, "agents"@);
    seq_ne_len("leaf_mcps"@, "metadata"@);
    seq_ne_len("agents"@, "metadata"@);
    lemma_kv_get_at(top, "leaf_mcps"@, 0);
    lemma_kv_get_at(top, "agents"@, 1);
    lemma_kv_get_at(top, "metadata"@, 2);
    lemma_leaf_map_round_trip(c.leaf_mcps);
    lemma_agent_map_round_trip(c.agents);
    lemma_metadata_round_trip(c.metadata);
}

/// The structured form of an audit action: its stable name.
pub open spec fn jv_of_action(a: AuditAction) -> Jv {
    Jv::Str(crate::audit_query::action_name(a))
}

/// Reconstruct an audit action from its stable name.
pub open spec fn action_of_jv(v: Jv) -> Option<AuditAction> {
    match v {
        Jv::Str(s) => if s == "create"@ {
            Some(AuditAction::Create)
        } else if s == "read"@ {
            Some(AuditAction::Read)
        } else if s == "update"@ {
            Some(AuditAction::Update)
        } else if s == "delete"@ {
            Some(AuditAction::Delete)
        } else if s == "addallowedmcp"@ {
            Some(AuditAction::AddAllowedMcp)
        } else if s == "removeallowedmcp"@ {
            Some(AuditAction::RemoveAllowedMcp)
        } else {
            None
        },
        _ => None,
    }
}

/// The structured form of an audit target, tagged by `type`.
pub open spec fn jv_of_target(t: AuditTargetView) -> Jv {
    match t {
        AuditTargetView::LeafMcp { id } => Jv::Obj(
            seq![("type"@, Jv::Str("leaf_mcp"@)), ("id"@, Jv::Str(id))],
        ),
        AuditTargetView::Agent { id } => Jv::Obj(
            seq![("type"@, Jv::Str("agent"@)), ("id"@, Jv::Str(id))],
        ),
        AuditTargetView::AgentAllowedMcp { agent_id, mcp_id } => Jv::Obj(
            seq![
                ("type"@, Jv::Str("agent_allowed_mcp"@)),
                ("agent_id"@, Jv::Str(agent_id)),
                ("mcp_id"@, Jv::Str(mcp_id)),
            ],
        ),
        AuditTargetView::Server => Jv::Obj(seq![("type"@, Jv::Str("server"@))]),
    }
}

/// Reconstruct an audit target from its structured form.
pub open spec fn target_of_jv(v: Jv) -> Option<AuditTargetView> {
    match v {
        Jv::Obj(ms) => match kv_get(ms, "type"@) {
            Some(Jv::Str(tag)) => if tag == "leaf_mcp"@ {
                match kv_get(ms, "id"@) {
                    Some(Jv::Str(id)) => Some(AuditTargetView::LeafMcp { id: id }),
                    _ => None,
                }
            } else if tag == "agent"@ {
                match kv_get(ms, "id"@) {
                    Some(Jv::Str(id)) => Some(AuditTargetView::Agent { id: id }),
                    _ => None,
                }
            } else if tag == "agent_allowed_mcp"@ {
                match (kv_get(ms, "agent_id"@), kv_get(ms, "mcp_id"@)) {
                    (Some(Jv::Str(agent_id)), Some(Jv::Str(mcp_id))) => Some(
                        AuditTargetView::AgentAllowedMcp { agent_id: agent_id, mcp_id: mcp_id },
                    ),
                    _ => None,
                }
            } else if tag == "server"@ {
                Some(AuditTargetView::Server)
            } else {
                None
            },
            _ => None,
        },
        _ => None,
    }
}

/// The structured form of one audit entry.
pub open spec fn jv_of_entry(e: AuditLogEntryView) -> Jv {
    Jv::Obj(
        seq![
            ("id"@, Jv::Str(e.id)),
            ("timestamp"@, Jv::Int(e.timestamp as int)),
            ("action"@, jv_of_action(e.action)),
            ("actor"@, jv_of_opt_str(e.actor)),
            ("target"@, jv_of_target(e.target)),
            ("reason"@, jv_of_opt_str(e.reason)),
            ("details"@, e.details),
        ],
    )
}

/// Reconstruct one audit entry from its structured form.
pub open spec fn entry_of_jv(v: Jv) -> Option<AuditLogEntryView> {
    match v {
        Jv::Obj(ms) => match (
            kv_get(ms, "id"@),
            kv_get(ms, "timestamp"@),
            kv_get(ms, "action"@),
            kv_get(ms, "target"@),
            kv_get(ms, "details"@),
        ) {
            (Some(Jv::Str(id)), Some(Jv::Int(ts)), Some(av), Some(tv), Some(details)) => if
                i64::MIN <= ts <= i64::MAX {
                match (
                    action_of_jv(av),
                    target_of_jv(tv),
                    opt_str_field(ms, "actor"@),
                    opt_str_field(ms, "reason"@),
                ) {
                    (Some(action), Some(target), Some(actor), Some(reason)) => Some(
                        AuditLogEntryView {
                            id: id,
                            timestamp: ts as i64,
                            action: action,
                            actor: actor,
                            target: target,
                            reason: reason,
                            details: details,
                        },
                    ),
                    _ => None,
                }
            } else {
                None
            },
            _ => None,
        },
        _ => None,
    }
}

/// The structured form of one audit entry.
pub fn entry_to_value(e: &AuditLogEntry) -> (r: ConfigValue)
    ensures
        r.dv() == jv_of_entry(e.deep_view()),
{
    let action_str = crate::audit_query::action_name_str(e.action);
    let target_val: ConfigValue = match &e.target {
        AuditTarget::LeafMcp { id } => {
            let mut ms: Vec<(String, ConfigValue)> = Vec::new();
            ms.push((String::from_str("type"), ConfigValue::Str(String::from_str("leaf_mcp"))));
            ms.push((String::from_str("id"), ConfigValue::Str(id.clone())));
            let tv = ConfigValue::Obj(ms);
            proof {
                assert(obj_dv(ms@) =~= jv_of_target(e.target.deep_view())->Obj_0);
            }
            tv
        },
        AuditTarget::Agent { id } => {
            let mut ms: Vec<(String, ConfigValue)> = Vec::new();
            ms.push((String::from_str("type"), ConfigValue::Str(String::from_str("agent"))));
            ms.push((String::from_str("id"), ConfigValue::Str(id.clone())));
            let tv = ConfigValue::Obj(ms);
            proof {
                assert(obj_dv(ms@) =~= jv_of_target(e.target.deep_view())->Obj_0);
            }
            tv
        },
        AuditTarget::AgentAllowedMcp { agent_id, mcp_id } => {
            let mut ms: Vec<(String, ConfigValue)> = Vec::new();
            ms.push(
                (String::from_str("type"), ConfigValue::Str(String::from_str("agent_allowed_mcp"))),
            );
            ms.push((String::from_str("agent_id"), ConfigValue::Str(agent_id.clone())));
            ms.push((String::from_str("mcp_id"), ConfigValue::Str(mcp_id.clone())));
            let tv = ConfigValue::Obj(ms);
            proof {
                assert(obj_dv(ms@) =~= jv_of_target(e.target.deep_view())->Obj_0);
            }
            tv
        },
        AuditTarget::Server => {
            let mut ms: Vec<(String, ConfigValue)> = Vec::new();
            ms.push((String::from_str("type"), ConfigValue::Str(String::from_str("server"))));
            let tv = ConfigValue::Obj(ms);
            proof {
                assert(obj_dv(ms@) =~= jv_of_target(e.target.deep_view())->Obj_0);
            }
            tv
        },
    };
    let mut out: Vec<(String, ConfigValue)> = Vec::new();
    out.push((String::from_str("id"), ConfigValue::Str(e.id.clone())));
    out.push((String::from_str("timestamp"), ConfigValue::Int(e.timestamp)));
    out.push((String::from_str("action"), ConfigValue::Str(action_str)));
    out.push((String::from_str("actor"), value_of_opt_str(&e.actor)));
    out.push((String::from_str("target"), target_val));
    out.push((String::from_str("reason"), value_of_opt_str(&e.reason)));
    out.push((String::from_str("details"), e.details.clone()));
    let r = ConfigValue::Obj(out);
    proof {
        assert(obj_dv(out@) =~= jv_of_entry(e.deep_view())->Obj_0);
    }
    r
}

fn action_from_str(s: &str) -> (r: Option<AuditAction>)
    ensures
        match r {
            Some(a) => action_of_jv(Jv::Str(s@)) == Some(a),
            None => action_of_jv(Jv::Str(s@)) is None,
        },
{
    if crate::strutil::str_eq(s, "create") {
        Some(AuditAction::Create)
    } else if crate::strutil::str_eq(s, "read") {
        Some(AuditAction::Read)
    } else if crate::strutil::str_eq(s, "update") {
        Some(AuditAction::Update)
    } else if crate::strutil::str_eq(s, "delete") {
        Some(AuditAction::Delete)
    } else if crate::strutil::str_eq(s, "addallowedmcp") {
        Some(AuditAction::AddAllowedMcp)
    } else if crate::strutil::str_eq(s, "removeallowedmcp") {
        Some(AuditAction::RemoveAllowedMcp)
    } else {
        None
    }
}

fn target_from_value(v: &ConfigValue) -> (r: Option<AuditTarget>)
    ensures
        match r {
            Some(t) => target_of_jv(v.dv()) == Some(t.deep_view()),
            None => target_of_jv(v.dv()) is None,
        },
{
    if let ConfigValue::Obj(_ms) = v {
        match v.obj_get("type") {
            Some(ConfigValue::Str(tag)) => {
                if crate::strutil::str_eq(tag.as_str(), "leaf_mcp") {
                    match v.obj_get("id") {
                        Some(ConfigValue::Str(id)) => Some(
                            AuditTarget::LeafMcp { id: id.clone() },
                        ),
                        _ => None,
                    }
                } else if crate::strutil::str_eq(tag.as_str(), "agent") {
                    match v.obj_get("id") {
                        Some(ConfigValue::Str(id)) => Some(AuditTarget::Agent { id: id.clone() }),
                        _ => None,
                    }
                } else if crate::strutil::str_eq(tag.as_str(), "agent_allowed_mcp") {
                    let agent_id = match v.obj_get("agent_id") {
                        Some(ConfigValue::Str(a)) => a.clone(),
                        _ => {
                            return None;
                        },
                    };
                    match v.obj_get("mcp_id") {
                        Some(ConfigValue::Str(m)) => Some(
                            AuditTarget::AgentAllowedMcp { agent_id, mcp_id: m.clone() },
                        ),
                        _ => None,
                    }
                } else if crate::strutil::str_eq(tag.as_str(), "server") {
                    Some(AuditTarget::Server)
                } else {
                    None
                }
            },
            _ => None,
        }
    } else {
        None
    }
}

/// Reconstruct one audit entry from a structured value.
pub fn entry_from_value(v: &ConfigValue) -> (r: Option<AuditLogEntry>)
    ensures
        match r {
            Some(e) => entry_of_jv(v.dv()) == Some(e.deep_view()),
            None => entry_of_jv(v.dv()) is None,
        },
{
    if let ConfigValue::Obj(_ms) = v {
        let id = match v.obj_get("id") {
            Some(ConfigValue::Str(s)) => s.clone(),
            _ => {
                return None;
            },
        };
        let timestamp = match v.obj_get("timestamp") {
            Some(ConfigValue::Int(t)) => *t,
            _ => {
                return None;
            },
        };
        let action = match v.obj_get("action") {
            Some(ConfigValue::Str(a)) => match action_from_str(a.as_str()) {
                Some(a2) => a2,
                None => {
                    return None;
                },
            },
            _ => {
                return None;
            },
        };
        let target = match v.obj_get("target") {
            Some(tv) => match target_from_value(tv) {
                Some(t) => t,
                None => {
                    return None;
                },
            },
            None => {
                return None;
            },
        };
        let details = match v.obj_get("details") {
            Some(d) => d.clone(),
            None => {
                return None;
            },
        };
        let actor = match opt_str_from(v, "actor") {
            Some(o) => o,
            None => {
                return None;
            },
        };
        let reason = match opt_str_from(v, "reason") {
            Some(o) => o,
            None => {
                return None;
            },
        };
        Some(AuditLogEntry { id, timestamp, action, actor, target, reason, details })
    } else {
        None
    }
}

/// Integer-cleanliness follows for a member list whose values all have it.
proof fn lemma_members_i64_pointwise(ms: Seq<(Seq<char>, Jv)>)
    requires
        forall|t: int| 0 <= t < ms.len() ==> crate::codec::jv_i64(#[trigger] ms[t].1),
    ensures
        crate::codec::jv_i64_members(ms),
    decreases ms.len(),
{
    if ms.len() > 0 {
        let rest = ms.subrange(1, ms.len() as int);
        assert(forall|t: int| 0 <= t < rest.len() ==> rest[t] == ms[t + 1]);
        lemma_members_i64_pointwise(rest);
    }
}

/// Integer-cleanliness follows for an element list whose values all have
/// it.
proof fn lemma_elems_i64_pointwise(es: Seq<Jv>)
    requires
        forall|t: int| 0 <= t < es.len() ==> crate::codec::jv_i64(#[trigger] es[t]),
    ensures
        crate::codec::jv_i64_elems(es),
    decreases es.len(),
{
    if es.len() > 0 {
        let rest = es.subrange(1, es.len() as int);
        assert(forall|t: int| 0 <= t < rest.len() ==> rest[t] == es[t + 1]);
        lemma_elems_i64_pointwise(rest);
    }
}

/// The structured form of a string list keeps integers clean trivially.
proof fn lemma_str_seq_i64(ss: Seq<Seq<char>>)
    ensures
        crate::codec::jv_i64(jv_of_str_seq(ss)),
{
    let es = jv_of_str_seq(ss)->Arr_0;
    assert(forall|t: int| 0 <= t < es.len() ==> crate::codec::jv_i64(#[trigger] es[t]));
    lemma_elems_i64_pointwise(es);
}

/// The structured form of a string-to-string map keeps integers clean.
proof fn lemma_str_pairs_i64(ps: Seq<(Seq<char>, Seq<char>)>)
    ensures
        crate::codec::jv_i64(jv_of_str_pairs(ps)),
{
    let ms = jv_of_str_pairs(ps)->Obj_0;
    assert(forall|t: int| 0 <= t < ms.len() ==> crate::codec::jv_i64(#[trigger] ms[t].1));
    lemma_members_i64_pointwise(ms);
}

/// The structured form of a transport descriptor keeps integers clean.
proof fn lemma_transport_i64(t: McpTransportView)
    ensures
        crate::codec::jv_i64(jv_of_transport(t)),
{
    match t {
        McpTransportView::Stdio { command, args, env } => {
            lemma_str_seq_i64(args);
            match env {
                Some(ps) => {
                    lemma_str_pairs_i64(ps);
                },
                None => {
                },
            }
            let ms = jv_of_transport(t)->Obj_0;
            assert(forall|u: int| 0 <= u < ms.len() ==> crate::codec::jv_i64(#[trigger] ms[u].1));
            lemma_members_i64_pointwise(ms);
        },
        McpTransportView::Https { url, headers } => {
            match headers {
                Some(ps) => {
                    lemma_str_pairs_i64(ps);
                },
                None => {
                },
            }
            let ms = jv_of_transport(t)->Obj_0;
            assert(forall|u: int| 0 <= u < ms.len() ==> crate::codec::jv_i64(#[trigger] ms[u].1));
            lemma_members_i64_pointwise(ms);
        },
    }
}

/// A leaf endpoint whose payload is integer-clean renders to an
/// integer-clean structured form.
proof fn lemma_leaf_jv_i64(l: LeafMcpConfigView)
    requires
        crate::codec::jv_i64(l.config),
    ensures
        crate::codec::jv_i64(jv_of_leaf(l)),
{
    lemma_transport_i64(l.transport);
    let ms = jv_of_leaf(l)->Obj_0;
    assert(forall|u: int| 0 <= u < ms.len() ==> crate::codec::jv_i64(#[trigger] ms[u].1));
    lemma_members_i64_pointwise(ms);
}

/// An agent whose payload is integer-clean renders to an integer-clean
/// structured form.
proof fn lemma_agent_jv_i64(a: AgentConfigView)
    requires
        crate::codec::jv_i64(a.config),
    ensures
        crate::codec::jv_i64(jv_of_agent(a)),
{
    lemma_str_seq_i64(a.allowed_mcp_ids);
    let ms = jv_of_agent(a)->Obj_0;
    assert(forall|u: int| 0 <= u < ms.len() ==> crate::codec::jv_i64(#[trigger] ms[u].1));
    lemma_members_i64_pointwise(ms);
}

/// Every live configuration renders to an integer-clean document: its
/// timestamps are 64-bit values and every payload came from an exec node.
pub proof fn lemma_config_jv_i64(c: ServerConfig)
    ensures
        crate::codec::jv_i64(jv_of_config(c.deep_view())),
{
    let cv = c.deep_view();
    let lm = jv_of_leaf_map(cv.leaf_mcps);
    assert forall|t: int| 0 <= t < lm.len() implies crate::codec::jv_i64(#[trigger] lm[t].1) by {
        crate::codec::lemma_dv_i64(c.leaf_mcps.entries@[t].1.config);
        assert(cv.leaf_mcps[t].1 == c.leaf_mcps.entries@[t].1.deep_view());
        lemma_leaf_jv_i64(cv.leaf_mcps[t].1);
    }
    lemma_members_i64_pointwise(lm);
    let am = jv_of_agent_map(cv.agents);
    assert forall|t: int| 0 <= t < am.len() implies crate::codec::jv_i64(#[trigger] am[t].1) by {
        crate::codec::lemma_dv_i64(c.agents.entries@[t].1.config);
        assert(cv.agents[t].1 == c.agents.entries@[t].1.deep_view());
        lemma_agent_jv_i64(cv.agents[t].1);
    }
    lemma_members_i64_pointwise(am);
    let md = jv_of_metadata(cv.metadata)->Obj_0;
    assert(forall|u: int| 0 <= u < md.len() ==> crate::codec::jv_i64(#[trigger] md[u].1));
    lemma_members_i64_pointwise(md);
    let top = jv_of_config(cv)->Obj_0;
    assert(forall|u: int| 0 <= u < top.len() ==> crate::codec::jv_i64(#[trigger] top[u].1));
    lemma_members_i64_pointwise(top);
}

/// The structured form of an audit target keeps integers clean.
proof fn lemma_target_i64(t: AuditTargetView)
    ensures
        crate::codec::jv_i64(jv_of_target(t)),
{
    let ms = jv_of_target(t)->Obj_0;
    assert(forall|u: int| 0 <= u < ms.len() ==> crate::codec::jv_i64(#[trigger] ms[u].1));
    lemma_members_i64_pointwise(ms);
}

/// Every live audit entry renders to an integer-clean structured form:
/// its timestamp is a 64-bit value and its details came from an exec node.
pub proof fn lemma_entry_jv_i64(e: AuditLogEntry)
    ensures
        crate::codec::jv_i64(jv_of_entry(e.deep_view())),
{
    lemma_target_i64(e.deep_view().target);
    crate::codec::lemma_dv_i64(e.details);
    let ms = jv_of_entry(e.deep_view())->Obj_0;
    assert(forall|u: int| 0 <= u < ms.len() ==> crate::codec::jv_i64(#[trigger] ms[u].1));
    lemma_members_i64_pointwise(ms);
}

/// An audit action survives the trip through its stable name.
pub proof fn lemma_action_round_trip(a: AuditAction)
    ensures
        action_of_jv(jv_of_action(a)) == Some(a),
{
    reveal_strlit("create");
    reveal_strlit("read");
    reveal_strlit("update");
    reveal_strlit("delete");
    reveal_strlit("addallowedmcp");
    reveal_strlit("removeallowedmcp");
    assert("create"@.len() == 6);
    assert("update"@.len() == 6);
    assert("delete"@.len() == 6);
    assert("create"@[0] == 'c' && "update"@[0] == 'u' && "delete"@[0] == 'd');
    seq_ne_at("create"@, "update"@, 0);
    seq_ne_at("create"@, "delete"@, 0);
    seq_ne_at("update"@, "delete"@, 0);
    seq_ne_len("create"@, "read"@);
    seq_ne_len("create"@, "addallowedmcp"@);
    seq_ne_len("create"@, "removeallowedmcp"@);
    seq_ne_len("read"@, "update"@);
    seq_ne_len("read"@, "delete"@);
    seq_ne_len("read"@, "addallowedmcp"@);
    seq_ne_len("read"@, "removeallowedmcp"@);
    seq_ne_len("update"@, "addallowedmcp"@);
    seq_ne_len("update"@, "removeallowedmcp"@);
    seq_ne_len("delete"@, "addallowedmcp"@);
    seq_ne_len("delete"@, "removeallowedmcp"@);
    seq_ne_len("addallowedmcp"@, "removeallowedmcp"@);
}

/// An audit target survives the trip through its structured form.
pub proof fn lemma_target_round_trip(t: AuditTargetView)
    ensures
        target_of_jv(jv_of_target(t)) == Some(t),
{
    reveal_strlit("type");
    reveal_strlit("id");
    reveal_strlit("agent_id");
    reveal_strlit("mcp_id");
    reveal_strlit("leaf_mcp");
    reveal_strlit("agent");
    reveal_strlit("agent_allowed_mcp");
    reveal_strlit("server");
    seq_ne_len("leaf_mcp"@, "agent"@);
    seq_ne_len("leaf_mcp"@, "agent_allowed_mcp"@);
    seq_ne_len("leaf_mcp"@, "server"@);
    seq_ne_len("agent"@, "agent_allowed_mcp"@);
    seq_ne_len("agent"@, "server"@);
    seq_ne_len("agent_allowed_mcp"@, "server"@);
    match t {
        AuditTargetView::LeafMcp { id } => {
            let ms = jv_of_target(t)->Obj_0;
            lemma_kv_get_at(ms, "type"@, 0);
            seq_ne_len("type"@, "id"@);
            lemma_kv_get_at(ms, "id"@, 1);
        },
        AuditTargetView::Agent { id } => {
            let ms = jv_of_target(t)->Obj_0;
            lemma_kv_get_at(ms, "type"@, 0);
            seq_ne_len("type"@, "id"@);
            lemma_kv_get_at(ms, "id"@, 1);
        },
        AuditTargetView::AgentAllowedMcp { agent_id, mcp_id } => {
            let ms = jv_of_target(t)->Obj_0;
            lemma_kv_get_at(ms, "type"@, 0);
            seq_ne_len("type"@, "agent_id"@);
            lemma_kv_get_at(ms, "agent_id"@, 1);
            seq_ne_len("type"@, "mcp_id"@);
            seq_ne_len("agent_id"@, "mcp_id"@);
            lemma_kv_get_at(ms, "mcp_id"@, 2);
        },
        AuditTargetView::Server => {
            let ms = jv_of_target(t)->Obj_0;
            lemma_kv_get_at(ms, "type"@, 0);
        },
    }
}

/// An audit entry survives the trip through its structured form.
pub proof fn lemma_entry_round_trip(e: AuditLogEntryView)
    ensures
        entry_of_jv(jv_of_entry(e)) == Some(e),
{
    reveal_strlit("id");
    reveal_strlit("timestamp");
    reveal_strlit("action");
    reveal_strlit("actor");
    reveal_strlit("target");
    reveal_strlit("reason");
    reveal_strlit("details");
    let ms = jv_of_entry(e)->Obj_0;
    seq_ne_len("id"@, "timestamp"@);
    seq_ne_len("id"@, "action"@);
    seq_ne_len("id"@, "actor"@);
    seq_ne_len("id"@, "target"@);
    seq_ne_len("id"@, "reason"@);
    seq_ne_len("id"@, "details"@);
    seq_ne_len("timestamp"@, "action"@);
    seq_ne_len("timestamp"@, "actor"@);
    seq_ne_len("timestamp"@, "target"@);
    seq_ne_len("timestamp"@, "reason"@);
    seq_ne_len("timestamp"@, "details"@);
    seq_ne_len("action"@, "actor"@);
    seq_ne_at("action"@, "target"@, 0);
    seq_ne_at("action"@, "reason"@, 0);
    seq_ne_len("action"@, "details"@);
    seq_ne_len("actor"@, "target"@);
    seq_ne_len("actor"@, "reason"@);
    seq_ne_len("actor"@, "details"@);
    seq_ne_at("target"@, "reason"@, 0);
    seq_ne_len("target"@, "details"@);
    seq_ne_len("reason"@, "details"@);
    lemma_kv_get_at(ms, "id"@, 0);
    lemma_kv_get_at(ms, "timestamp"@, 1);
    lemma_kv_get_at(ms, "action"@, 2);
    lemma_kv_get_at(ms, "actor"@, 3);
    lemma_kv_get_at(ms, "target"@, 4);
    lemma_kv_get_at(ms, "reason"@, 5);
    lemma_kv_get_at(ms, "details"@, 6);
    lemma_action_round_trip(e.action);
    lemma_target_round_trip(e.target);
}

} // verus!

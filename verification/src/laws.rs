//! The laws the library stands behind, stated across the contracts of
//! several functions and proved once and for all.

use vstd::prelude::*;

use crate::audit_query::{
    action_name, entry_matches, filter_entries, insert_desc, query_result, stable_sort_desc,
};
use crate::codec::{jv_i64, lemma_parse_render_round_trip, parse_text_spec, render_jv};
use crate::convert::{
    config_of_jv, jv_of_config, jv_of_leaf, leaf_of_jv, lemma_config_round_trip,
};
use crate::kv::{
    kv_get, kv_has_key, kv_keys_unique, kv_set, lemma_kv_get_at, lemma_kv_get_push_new,
    lemma_kv_get_set, lemma_kv_set_at,
};
use crate::projection::resolve_targets;
use crate::service::{seq_contains_str, seq_remove_id, target_exists};
use crate::strutil::{contains_ci, lower_chars, matches_at};
use crate::types::{AgentConfigView, AuditAction, AuditLogEntryView, LeafMcpConfigView,
    ServerConfigView};
use crate::value::{Jv, jv_merge};

verus! {

/// Creating an endpoint and then looking it up finds exactly the created
/// value: in any state reached by a successful creation, the lookup that
/// the read operations are specified against returns the configuration
/// that was given.
pub proof fn lemma_create_then_get(
    pre: ServerConfigView,
    post: ServerConfigView,
    id: Seq<char>,
    leaf: LeafMcpConfigView,
)
    requires
        !kv_has_key(pre.leaf_mcps, id),
        post.leaf_mcps == pre.leaf_mcps.push((id, leaf)),
    ensures
        kv_get(post.leaf_mcps, id) == Some(leaf),
{
    lemma_kv_get_push_new(pre.leaf_mcps, id, leaf);
}

/// A patch that binds only `description` changes only `description`: the
/// merged and reconstructed endpoint keeps every other field.
pub proof fn lemma_update_description_only(l: LeafMcpConfigView, d: Seq<char>)
    ensures
        leaf_of_jv(jv_merge(jv_of_leaf(l), Jv::Obj(seq![("description"@, Jv::Str(d))]))) == Some(
            LeafMcpConfigView { description: Some(d), ..l },
        ),
{
    reveal_strlit("id");
    reveal_strlit("name");
    reveal_strlit("description");
    reveal_strlit("transport");
    reveal_strlit("is_local");
    reveal_strlit("reachable_by_agent");
    reveal_strlit("config");
    let ms = jv_of_leaf(l)->Obj_0;
    let patch = seq![("description"@, Jv::Str(d))];
    let keys = seq!["id"@, "name"@, "description"@, "transport"@, "is_local"@,
        "reachable_by_agent"@, "config"@];
    assert forall|x: int, y: int| 0 <= x < y < 7 implies keys[x] != keys[y] by {
        seq_ne_len_law(keys[x], keys[y]);
    }
    assert(patch.drop_last() =~= Seq::<(Seq<char>, Jv)>::empty());
    let merged = crate::kv::kv_merge(ms, patch);
    assert(patch.subrange(1, 1) =~= Seq::<(Seq<char>, Jv)>::empty());
    assert(merged == crate::kv::kv_merge(
        kv_set(ms, patch[0].0, patch[0].1),
        patch.subrange(1, 1),
    ));
    assert(merged == kv_set(ms, "description"@, Jv::Str(d)));
    lemma_kv_set_at(ms, "description"@, Jv::Str(d), 2);
    let ms2 = ms.update(2, ("description"@, Jv::Str(d)));
    lemma_kv_get_at(ms2, "id"@, 0);
    lemma_kv_get_at(ms2, "name"@, 1);
    lemma_kv_get_at(ms2, "description"@, 2);
    lemma_kv_get_at(ms2, "transport"@, 3);
    lemma_kv_get_at(ms2, "is_local"@, 4);
    lemma_kv_get_at(ms2, "reachable_by_agent"@, 5);
    lemma_kv_get_at(ms2, "config"@, 6);
    crate::convert::lemma_transport_round_trip(l.transport);
}

/// Two character sequences of different lengths differ.
proof fn seq_ne_len_law(a: Seq<char>, b: Seq<char>)
    requires
        a.len() != b.len(),
    ensures
        a != b,
{
    if a == b {
        assert(a.len() == b.len());
    }
}

/// After a leaf endpoint is deleted, no agent's allow-list still names
/// it: the cascade strikes the identifier everywhere.
pub proof fn lemma_cascade_removes_everywhere(
    agents: Seq<(Seq<char>, AgentConfigView)>,
    id: Seq<char>,
    k: int,
)
    requires
        0 <= k < agents.len(),
    ensures
        !seq_contains_str(
            crate::service::agents_without_target(agents, id)[k].1.allowed_mcp_ids,
            id,
        ),
{
    lemma_remove_id_gone(agents[k].1.allowed_mcp_ids, id);
}

/// A struck identifier no longer occurs.
pub proof fn lemma_remove_id_gone(ids: Seq<Seq<char>>, id: Seq<char>)
    ensures
        !seq_contains_str(seq_remove_id(ids, id), id),
    decreases ids.len(),
{
    if ids.len() > 0 {
        lemma_remove_id_gone(ids.drop_last(), id);
        let rest = seq_remove_id(ids.drop_last(), id);
        if ids.last() != id {
            assert forall|t: int|
                0 <= t < rest.push(ids.last()).len() implies rest.push(ids.last())[t] != id by {
                if t < rest.len() {
                    assert(rest[t] != id);
                }
            }
        }
    }
}

/// Striking an identifier keeps every other one, in order.
pub proof fn lemma_remove_id_keeps_others(ids: Seq<Seq<char>>, id: Seq<char>, other: Seq<char>)
    requires
        other != id,
        seq_contains_str(ids, other),
    ensures
        seq_contains_str(seq_remove_id(ids, id), other),
    decreases ids.len(),
{
    if ids.len() > 0 {
        let t = choose|t: int| 0 <= t < ids.len() && ids[t] == other;
        if t == ids.len() - 1 {
            assert(ids.last() == other);
            let rest = seq_remove_id(ids.drop_last(), id);
            assert(rest.push(ids.last())[rest.len() as int] == other);
        } else {
            assert(ids.drop_last()[t] == other);
            lemma_remove_id_keeps_others(ids.drop_last(), id, other);
            let rest = seq_remove_id(ids.drop_last(), id);
            let u = choose|u: int| 0 <= u < rest.len() && rest[u] == other;
            if ids.last() != id {
                assert(rest.push(ids.last())[u] == other);
            }
        }
    }
}

/// Once a grant is recorded, the same grant is present: a second identical
/// grant request meets the already-exists condition of the contract.
pub proof fn lemma_grant_recorded(
    pre: ServerConfigView,
    post: ServerConfigView,
    agent_id: Seq<char>,
    mcp_id: Seq<char>,
    agent: AgentConfigView,
)
    requires
        kv_get(pre.agents, agent_id) == Some(agent),
        post.agents == kv_set(
            pre.agents,
            agent_id,
            (AgentConfigView { allowed_mcp_ids: agent.allowed_mcp_ids.push(mcp_id), ..agent }),
        ),
    ensures
        kv_get(post.agents, agent_id) is Some,
        seq_contains_str(kv_get(post.agents, agent_id)->Some_0.allowed_mcp_ids, mcp_id),
{
    lemma_kv_get_set(
        pre.agents,
        agent_id,
        AgentConfigView { allowed_mcp_ids: agent.allowed_mcp_ids.push(mcp_id), ..agent },
    );
    let ids = agent.allowed_mcp_ids.push(mcp_id);
    assert(ids[ids.len() - 1] == mcp_id);
}

/// Every target a projection shows was granted: its identifier stands in
/// the agent's allow-list, and it resolved to a live leaf endpoint or
/// agent. This is the authorization boundary of the forwarding layer.
pub proof fn lemma_projection_only_granted(c: ServerConfigView, ids: Seq<Seq<char>>, k: int)
    requires
        0 <= k < resolve_targets(c, ids).len(),
    ensures
        seq_contains_str(ids, resolve_targets(c, ids)[k].0),
        target_exists(c, resolve_targets(c, ids)[k].0),
    decreases ids.len(),
{
    if ids.len() > 0 {
        let rest = resolve_targets(c, ids.drop_last());
        if k < rest.len() {
            lemma_projection_only_granted(c, ids.drop_last(), k);
            let t = choose|t: int| 0 <= t < ids.drop_last().len() && ids.drop_last()[t]
                == resolve_targets(c, ids)[k].0;
            assert(ids[t] == resolve_targets(c, ids)[k].0);
        } else {
            assert(ids[ids.len() - 1] == ids.last());
        }
    }
}

/// Which action names the creation filter matches.
#[verifier::rlimit(100)]
proof fn lemma_create_filter_matching()
    ensures
        contains_ci(action_name(AuditAction::Create), "create"@),
        !contains_ci(action_name(AuditAction::Read), "create"@),
        !contains_ci(action_name(AuditAction::Update), "create"@),
        !contains_ci(action_name(AuditAction::Delete), "create"@),
{
    reveal_strlit("create");
    reveal_strlit("read");
    reveal_strlit("update");
    reveal_strlit("delete");
    let p = "create"@;
    lemma_lower_identity("create"@);
    lemma_lower_identity("read"@);
    lemma_lower_identity("update"@);
    lemma_lower_identity("delete"@);
    assert(contains_ci("create"@, p)) by {
        assert(matches_at(lower_chars("create"@), lower_chars(p), 0));
    }
    assert(!contains_ci("read"@, p)) by {
        assert forall|i: int| !matches_at(lower_chars("read"@), lower_chars(p), i) by {
            assert(lower_chars(p).len() == 6);
            assert(lower_chars("read"@).len() == 4);
        }
    }
    assert(!contains_ci("update"@, p)) by {
        assert forall|i: int| !matches_at(lower_chars("update"@), lower_chars(p), i) by {
            if 0 <= i && i + 6 <= 6 {
                assert(lower_chars("update"@)[0] == 'u');
                assert(lower_chars(p)[0] == 'c');
            }
        }
    }
    assert(!contains_ci("delete"@, p)) by {
        assert forall|i: int| !matches_at(lower_chars("delete"@), lower_chars(p), i) by {
            if 0 <= i && i + 6 <= 6 {
                assert(lower_chars("delete"@)[0] == 'd');
                assert(lower_chars(p)[0] == 'c');
            }
        }
    }
}

/// The audit query on a five-entry history with two creations: filtering
/// by the creation action keeps exactly the two creation entries, most
/// recent first; a limit of one keeps only the most recent.
#[verifier::rlimit(100)]
pub proof fn lemma_query_create_scenario(
    e1: AuditLogEntryView,
    e2: AuditLogEntryView,
    e3: AuditLogEntryView,
    e4: AuditLogEntryView,
    e5: AuditLogEntryView,
)
    requires
        e1.action == AuditAction::Create,
        e2.action == AuditAction::Create,
        e3.action == AuditAction::Update,
        e4.action == AuditAction::Delete,
        e5.action == AuditAction::Read,
        e1.timestamp < e2.timestamp,
        e2.timestamp < e3.timestamp,
        e3.timestamp < e4.timestamp,
        e4.timestamp < e5.timestamp,
    ensures
        query_result(seq![e1, e2, e3, e4, e5], None, Some("create"@), None, None) == seq![e2, e1],
        query_result(seq![e1, e2, e3, e4, e5], Some(1), Some("create"@), None, None) == seq![e2],
{
    let p = "create"@;
    lemma_create_filter_matching();
    let es = seq![e1, e2, e3, e4, e5];
    let filtered = filter_entries(es, Some(p), None, None);
    assert(entry_matches(e1, Some(p), None, None));
    assert(entry_matches(e2, Some(p), None, None));
    assert(!entry_matches(e3, Some(p), None, None));
    assert(!entry_matches(e4, Some(p), None, None));
    assert(!entry_matches(e5, Some(p), None, None));
    assert(es.drop_last() =~= seq![e1, e2, e3, e4]);
    assert(seq![e1, e2, e3, e4].drop_last() =~= seq![e1, e2, e3]);
    assert(seq![e1, e2, e3].drop_last() =~= seq![e1, e2]);
    assert(seq![e1, e2].drop_last() =~= seq![e1]);
    assert(seq![e1].drop_last() =~= Seq::<AuditLogEntryView>::empty());
    let f0 = filter_entries(Seq::<AuditLogEntryView>::empty(), Some(p), None, None);
    assert(f0 == Seq::<AuditLogEntryView>::empty());
    let f1 = filter_entries(seq![e1], Some(p), None, None);
    assert(f1 == f0.push(e1));
    let f2 = filter_entries(seq![e1, e2], Some(p), None, None);
    assert(f2 == f1.push(e2));
    let f3 = filter_entries(seq![e1, e2, e3], Some(p), None, None);
    assert(f3 == f2);
    let f4 = filter_entries(seq![e1, e2, e3, e4], Some(p), None, None);
    assert(f4 == f3);
    assert(filtered == f4);
    assert(filtered =~= seq![e1, e2]);
    let sorted = stable_sort_desc(filtered);
    assert(seq![e1, e2].drop_last() =~= seq![e1]);
    assert(stable_sort_desc(seq![e1]) == insert_desc(stable_sort_desc(Seq::empty()), e1));
    assert(stable_sort_desc(Seq::<AuditLogEntryView>::empty()) == Seq::<
        AuditLogEntryView,
    >::empty());
    assert(insert_desc(Seq::<AuditLogEntryView>::empty(), e1) == seq![e1]);
    assert(insert_desc(seq![e1], e2) =~= seq![e2, e1]) by {
        assert(!(seq![e1][0].timestamp >= e2.timestamp));
        assert(seq![e2] + seq![e1] =~= seq![e2, e1]);
    }
    assert(sorted == insert_desc(stable_sort_desc(seq![e1]), e2));
    assert(sorted =~= seq![e2, e1]);
    assert(query_result(es, None, Some(p), None, None) =~= seq![e2, e1]);
    assert(sorted.take(1) =~= seq![e2]);
    assert(query_result(es, Some(1), Some(p), None, None) =~= seq![e2]);
}

/// Case folding leaves a string without upper-case letters unchanged.
proof fn lemma_lower_identity(s: Seq<char>)
    requires
        forall|i: int| 0 <= i < s.len() ==> !('A' <= s[i] && s[i] <= 'Z'),
    ensures
        lower_chars(s) == s,
{
    assert(lower_chars(s) =~= s);
}

/// Persist then reload gives the configuration back: the rendered
/// document parses to the structured form of the configuration, and that
/// form reconstructs the configuration itself, field for field.
pub proof fn lemma_persist_round_trip(c: ServerConfigView)
    requires
        kv_keys_unique(c.leaf_mcps),
        kv_keys_unique(c.agents),
        jv_i64(jv_of_config(c)),
    ensures
        parse_text_spec(render_jv(jv_of_config(c))) == Some(jv_of_config(c)),
        config_of_jv(jv_of_config(c)) == Some(c),
{
    lemma_parse_render_round_trip(jv_of_config(c));
    lemma_config_round_trip(c);
}

/// The persistence round trip holds of every well-formed live
/// configuration without further hypotheses: whatever the service holds in
/// memory survives saving and reloading unchanged.
pub proof fn lemma_live_config_round_trip(c: crate::types::ServerConfig)
    requires
        c.wf(),
    ensures
        parse_text_spec(render_jv(jv_of_config(c.deep_view()))) == Some(
            jv_of_config(c.deep_view()),
        ),
        config_of_jv(jv_of_config(c.deep_view())) == Some(c.deep_view()),
{
    crate::convert::lemma_config_jv_i64(c);
    lemma_persist_round_trip(c.deep_view());
}

} // verus!

//! The audit query engine: a pure function over a loaded audit history.
//!
//! Entries must satisfy every supplied filter (case-insensitive substring
//! match on the action name, the target kind name and the actor; entries
//! without an actor never match an actor filter). The survivors are sorted
//! by timestamp, most recent first and stable on ties, then truncated to
//! the limit if one was given.

use vstd::prelude::*;

use crate::strutil::{contains_ci, contains_exec, lower_vec, str_chars};
use crate::types::{AuditAction, AuditLogEntry, AuditLogEntryView, AuditTarget, AuditTargetView};

verus! {

/// The stable lower-case identifier of an action.
pub open spec fn action_name(a: AuditAction) -> Seq<char> {
    match a {
        AuditAction::Create => "create"@,
        AuditAction::Read => "read"@,
        AuditAction::Update => "update"@,
        AuditAction::Delete => "delete"@,
        AuditAction::AddAllowedMcp => "addallowedmcp"@,
        AuditAction::RemoveAllowedMcp => "removeallowedmcp"@,
    }
}

/// The stable lower-case identifier of a target's kind.
pub open spec fn target_kind_name(t: AuditTargetView) -> Seq<char> {
    match t {
        AuditTargetView::LeafMcp { .. } => "leafmcp"@,
        AuditTargetView::Agent { .. } => "agent"@,
        AuditTargetView::AgentAllowedMcp { .. } => "agentallowedmcp"@,
        AuditTargetView::Server => "server"@,
    }
}

/// Exec form of [`action_name`].
pub fn action_name_str(a: AuditAction) -> (r: String)
    ensures
        r@ == action_name(a),
{
    match a {
        AuditAction::Create => String::from_str("create"),
        AuditAction::Read => String::from_str("read"),
        AuditAction::Update => String::from_str("update"),
        AuditAction::Delete => String::from_str("delete"),
        AuditAction::AddAllowedMcp => String::from_str("addallowedmcp"),
        AuditAction::RemoveAllowedMcp => String::from_str("removeallowedmcp"),
    }
}

/// Exec form of [`target_kind_name`].
pub fn target_kind_name_str(t: &AuditTarget) -> (r: String)
    ensures
        r@ == target_kind_name(t.deep_view()),
{
    match t {
        AuditTarget::LeafMcp { .. } => String::from_str("leafmcp"),
        AuditTarget::Agent { .. } => String::from_str("agent"),
        AuditTarget::AgentAllowedMcp { .. } => String::from_str("agentallowedmcp"),
        AuditTarget::Server => String::from_str("server"),
    }
}

/// Case-insensitive substring test on string slices.
pub fn contains_ci_str(text: &str, pat: &str) -> (r: bool)
    ensures
        r == contains_ci(text@, pat@),
{
    let tc = str_chars(text);
    let pc = str_chars(pat);
    let tl = lower_vec(&tc);
    let pl = lower_vec(&pc);
    contains_exec(&tl, &pl)
}

/// One entry satisfies every supplied filter.
pub open spec fn entry_matches(
    e: AuditLogEntryView,
    action: Option<Seq<char>>,
    target: Option<Seq<char>>,
    actor: Option<Seq<char>>,
) -> bool {
    &&& (action matches Some(p) ==> contains_ci(action_name(e.action), p))
    &&& (target matches Some(p) ==> contains_ci(target_kind_name(e.target), p))
    &&& (actor matches Some(p) ==> (e.actor matches Some(a) && contains_ci(a, p)))
}

/// Exec form of [`entry_matches`].
pub fn entry_matches_exec(
    e: &AuditLogEntry,
    action: &Option<String>,
    target: &Option<String>,
    actor: &Option<String>,
) -> (r: bool)
    ensures
        r == entry_matches(e.deep_view(), action.deep_view(), target.deep_view(), actor.deep_view()),
{
    match action {
        Some(p) => {
            let name = action_name_str(e.action);
            if !contains_ci_str(name.as_str(), p.as_str()) {
                return false;
            }
        },
        None => {},
    }
    match target {
        Some(p) => {
            let name = target_kind_name_str(&e.target);
            if !contains_ci_str(name.as_str(), p.as_str()) {
                return false;
            }
        },
        None => {},
    }
    match actor {
        Some(p) => {
            match &e.actor {
                Some(a) => {
                    if !contains_ci_str(a.as_str(), p.as_str()) {
                        return false;
                    }
                },
                None => {
                    return false;
                },
            }
        },
        None => {},
    }
    true
}

/// The subsequence of entries that satisfy every supplied filter, in their
/// original order.
pub open spec fn filter_entries(
    es: Seq<AuditLogEntryView>,
    action: Option<Seq<char>>,
    target: Option<Seq<char>>,
    actor: Option<Seq<char>>,
) -> Seq<AuditLogEntryView>
    decreases es.len(),
{
    if es.len() == 0 {
        Seq::empty()
    } else {
        let rest = filter_entries(es.drop_last(), action, target, actor);
        if entry_matches(es.last(), action, target, actor) {
            rest.push(es.last())
        } else {
            rest
        }
    }
}

/// Insert an entry into a descending-sorted sequence, after every entry
/// whose timestamp is at least as recent.
pub open spec fn insert_desc(s: Seq<AuditLogEntryView>, e: AuditLogEntryView) -> Seq<
    AuditLogEntryView,
>
    decreases s.len(),
{
    if s.len() == 0 {
        seq![e]
    } else if s[0].timestamp >= e.timestamp {
        seq![s[0]] + insert_desc(s.drop_first(), e)
    } else {
        seq![e] + s
    }
}

/// Sort by timestamp, most recent first, stable on ties: entries are
/// inserted left to right, each after the already-placed entries with an
/// equal timestamp.
pub open spec fn stable_sort_desc(s: Seq<AuditLogEntryView>) -> Seq<AuditLogEntryView>
    decreases s.len(),
{
    if s.len() == 0 {
        Seq::empty()
    } else {
        insert_desc(stable_sort_desc(s.drop_last()), s.last())
    }
}

/// Timestamps never increase along the sequence.
pub open spec fn sorted_desc(s: Seq<AuditLogEntryView>) -> bool {
    forall|i: int, j: int| 0 <= i < j < s.len() ==> s[i].timestamp >= s[j].timestamp
}

/// What a query returns: filter, then sort most recent first, then
/// truncate to the limit if one was given.
pub open spec fn query_result(
    es: Seq<AuditLogEntryView>,
    limit: Option<usize>,
    action: Option<Seq<char>>,
    target: Option<Seq<char>>,
    actor: Option<Seq<char>>,
) -> Seq<AuditLogEntryView> {
    let sorted = stable_sort_desc(filter_entries(es, action, target, actor));
    match limit {
        Some(l) => if l < sorted.len() {
            sorted.take(l as int)
        } else {
            sorted
        },
        None => sorted,
    }
}

/// Inserting at the first position whose timestamp is older splits the
/// sequence there.
proof fn lemma_insert_desc_at(s: Seq<AuditLogEntryView>, e: AuditLogEntryView, p: int)
    requires
        0 <= p <= s.len(),
        forall|t: int| 0 <= t < p ==> s[t].timestamp >= e.timestamp,
        p < s.len() ==> s[p].timestamp < e.timestamp,
    ensures
        insert_desc(s, e) == s.subrange(0, p) + seq![e] + s.subrange(p, s.len() as int),
    decreases p,
{
    if p == 0 {
        if s.len() == 0 {
            assert(insert_desc(s, e) =~= s.subrange(0, 0) + seq![e] + s.subrange(
                0,
                s.len() as int,
            ));
        } else {
            assert(insert_desc(s, e) =~= s.subrange(0, 0) + seq![e] + s.subrange(
                0,
                s.len() as int,
            ));
        }
    } else {
        let rest = s.drop_first();
        assert(forall|t: int| 0 <= t < p - 1 ==> rest[t].timestamp >= e.timestamp);
        lemma_insert_desc_at(rest, e, p - 1);
        assert(insert_desc(s, e) =~= s.subrange(0, p) + seq![e] + s.subrange(p, s.len() as int));
    }
}

/// The insertion sort leaves timestamps never increasing.
pub proof fn lemma_stable_sort_desc_sorted(s: Seq<AuditLogEntryView>)
    ensures
        sorted_desc(stable_sort_desc(s)),
    decreases s.len(),
{
    if s.len() > 0 {
        lemma_stable_sort_desc_sorted(s.drop_last());
        lemma_insert_desc_sorted(stable_sort_desc(s.drop_last()), s.last());
    }
}

/// Inserting into a descending-sorted sequence keeps it sorted.
proof fn lemma_insert_desc_sorted(s: Seq<AuditLogEntryView>, e: AuditLogEntryView)
    requires
        sorted_desc(s),
    ensures
        sorted_desc(insert_desc(s, e)),
        insert_desc(s, e).len() == s.len() + 1,
    decreases s.len(),
{
    if s.len() > 0 && s[0].timestamp >= e.timestamp {
        let rest = s.drop_first();
        assert(sorted_desc(rest));
        lemma_insert_desc_sorted(rest, e);
        let r = seq![s[0]] + insert_desc(rest, e);
        assert forall|i: int, j: int| 0 <= i < j < r.len() implies r[i].timestamp
            >= r[j].timestamp by {
            if i > 0 {
                assert(r[i] == insert_desc(rest, e)[i - 1]);
                assert(r[j] == insert_desc(rest, e)[j - 1]);
            } else {
                assert(r[j] == insert_desc(rest, e)[j - 1]);
                lemma_insert_desc_elems(rest, e, j - 1);
            }
        }
    }
}

/// Every element of an insertion result is the inserted entry or one of
/// the originals.
proof fn lemma_insert_desc_elems(s: Seq<AuditLogEntryView>, e: AuditLogEntryView, i: int)
    requires
        0 <= i < insert_desc(s, e).len(),
    ensures
        insert_desc(s, e)[i] == e || exists|t: int|
            0 <= t < s.len() && insert_desc(s, e)[i] == s[t],
    decreases s.len(),
{
    if s.len() > 0 && s[0].timestamp >= e.timestamp {
        if i == 0 {
            assert(insert_desc(s, e)[0] == s[0]);
        } else {
            let rest = s.drop_first();
            lemma_insert_desc_elems(rest, e, i - 1);
            if insert_desc(rest, e)[i - 1] != e {
                let t = choose|t: int|
                    0 <= t < rest.len() && insert_desc(rest, e)[i - 1] == rest[t];
                assert(insert_desc(s, e)[i] == s[t + 1]);
            }
        }
    }
}

/// Every entry a filter keeps satisfies the filters.
pub proof fn lemma_filter_entries_match(
    es: Seq<AuditLogEntryView>,
    action: Option<Seq<char>>,
    target: Option<Seq<char>>,
    actor: Option<Seq<char>>,
    k: int,
)
    requires
        0 <= k < filter_entries(es, action, target, actor).len(),
    ensures
        entry_matches(filter_entries(es, action, target, actor)[k], action, target, actor),
    decreases es.len(),
{
    if es.len() > 0 {
        let rest = filter_entries(es.drop_last(), action, target, actor);
        if k < rest.len() {
            lemma_filter_entries_match(es.drop_last(), action, target, actor, k);
        }
    }
}

/// What a query hands out is sorted most recent first, within the limit,
/// and made of entries that satisfy every supplied filter.
pub proof fn lemma_query_result_shape(
    es: Seq<AuditLogEntryView>,
    limit: Option<usize>,
    action: Option<Seq<char>>,
    target: Option<Seq<char>>,
    actor: Option<Seq<char>>,
)
    ensures
        sorted_desc(query_result(es, limit, action, target, actor)),
        limit matches Some(l) ==> query_result(es, limit, action, target, actor).len() <= l,
        forall|k: int|
            0 <= k < query_result(es, limit, action, target, actor).len() ==> entry_matches(
                #[trigger] query_result(es, limit, action, target, actor)[k],
                action,
                target,
                actor,
            ),
{
    broadcast use vstd::seq_lib::group_to_multiset_ensures;

    let filtered = filter_entries(es, action, target, actor);
    let sorted = stable_sort_desc(filtered);
    lemma_stable_sort_desc_sorted(filtered);
    lemma_stable_sort_desc_permutes(filtered);
    let r = query_result(es, limit, action, target, actor);
    assert forall|k: int| 0 <= k < r.len() implies entry_matches(
        #[trigger] r[k],
        action,
        target,
        actor,
    ) by {
        assert(r[k] == sorted[k]);
        assert(sorted.to_multiset().count(sorted[k]) > 0);
        assert(filtered.to_multiset().count(sorted[k]) > 0);
        assert(filtered.contains(sorted[k]));
        let t = choose|t: int| 0 <= t < filtered.len() && filtered[t] == sorted[k];
        lemma_filter_entries_match(es, action, target, actor, t);
    }
}

/// Sorting rearranges the filtered entries and loses none: the sorted
/// sequence holds exactly the same entries, with multiplicity.
pub proof fn lemma_stable_sort_desc_permutes(s: Seq<AuditLogEntryView>)
    ensures
        stable_sort_desc(s).to_multiset() == s.to_multiset(),
    decreases s.len(),
{
    broadcast use vstd::seq_lib::group_to_multiset_ensures;

    if s.len() > 0 {
        lemma_stable_sort_desc_permutes(s.drop_last());
        lemma_insert_desc_multiset(stable_sort_desc(s.drop_last()), s.last());
        assert(s.drop_last().push(s.last()) =~= s);
        assert(s.drop_last().push(s.last()).to_multiset() =~= s.drop_last().to_multiset().insert(
            s.last(),
        ));
    }
}

/// Inserting adds exactly the inserted entry to the contents.
proof fn lemma_insert_desc_multiset(s: Seq<AuditLogEntryView>, e: AuditLogEntryView)
    ensures
        insert_desc(s, e).to_multiset() == s.to_multiset().insert(e),
    decreases s.len(),
{
    broadcast use vstd::seq_lib::group_to_multiset_ensures;

    if s.len() == 0 {
        assert(seq![e] =~= Seq::<AuditLogEntryView>::empty().push(e));
        assert(Seq::<AuditLogEntryView>::empty().push(e).to_multiset()
            =~= Seq::<AuditLogEntryView>::empty().to_multiset().insert(e));
    } else if s[0].timestamp >= e.timestamp {
        let rest = s.drop_first();
        lemma_insert_desc_multiset(rest, e);
        let r = seq![s[0]] + insert_desc(rest, e);
        assert(r.drop_first() =~= insert_desc(rest, e));
        lemma_cons_multiset(r);
        lemma_cons_multiset(s);
        assert(r.to_multiset() =~= s.to_multiset().insert(e));
    } else {
        let r = seq![e] + s;
        lemma_cons_multiset(r);
        assert(r.drop_first() =~= s);
        assert(r.to_multiset() =~= s.to_multiset().insert(e));
    }
}

/// The contents of a non-empty sequence are its head plus its tail's.
proof fn lemma_cons_multiset(s: Seq<AuditLogEntryView>)
    requires
        s.len() > 0,
    ensures
        s.to_multiset() == s.drop_first().to_multiset().insert(s[0]),
    decreases s.len(),
{
    broadcast use vstd::seq_lib::group_to_multiset_ensures;

    vstd::seq_lib::lemma_seq_union_to_multiset_commutative(seq![s[0]], s.drop_first());
    assert(seq![s[0]] + s.drop_first() =~= s);
    assert(s.drop_first() + seq![s[0]] =~= s.drop_first().push(s[0]));
    assert(s.drop_first().push(s[0]).to_multiset() =~= s.drop_first().to_multiset().insert(s[0]));
}

/// Filter, order by recency (stable on ties) and truncate a loaded audit
/// history. With no filter supplied the history passes through unchanged
/// before the sort and the truncation.
pub fn filter_audit_entries(
    entries: Vec<AuditLogEntry>,
    limit: Option<usize>,
    action_filter: Option<String>,
    target_filter: Option<String>,
    actor_filter: Option<String>,
) -> (r: Vec<AuditLogEntry>)
    ensures
        r.deep_view() == query_result(
            entries.deep_view(),
            limit,
            action_filter.deep_view(),
            target_filter.deep_view(),
            actor_filter.deep_view(),
        ),
{
    let ghost ga = action_filter.deep_view();
    let ghost gt = target_filter.deep_view();
    let ghost gc = actor_filter.deep_view();
    let n = entries.len();
    let mut kept: Vec<AuditLogEntry> = Vec::new();
    let mut i: usize = 0;
    while i < n
        invariant
            ga == action_filter.deep_view(),
            gt == target_filter.deep_view(),
            gc == actor_filter.deep_view(),
            n == entries@.len(),
            0 <= i <= n,
            kept.deep_view() == filter_entries(entries.deep_view().take(i as int), ga, gt, gc),
        decreases n - i,
    {
        proof {
            assert(entries.deep_view().take(i as int + 1).drop_last() =~= entries.deep_view().take(
                i as int,
            ));
            assert(entries.deep_view().take(i as int + 1).last() == entries.deep_view()[i as int]);
            assert(entries.deep_view()[i as int] == entries@[i as int].deep_view());
        }
        let matched = entry_matches_exec(
            &entries[i],
            &action_filter,
            &target_filter,
            &actor_filter,
        );
        proof {
            assert(matched == entry_matches(entries.deep_view()[i as int], ga, gt, gc));
        }
        if matched {
            kept.push(entries[i].clone());
            proof {
                assert(kept.deep_view() =~= filter_entries(
                    entries.deep_view().take(i as int + 1),
                    ga,
                    gt,
                    gc,
                ));
            }
        } else {
            proof {
                assert(kept.deep_view() =~= filter_entries(
                    entries.deep_view().take(i as int + 1),
                    ga,
                    gt,
                    gc,
                ));
            }
        }
        i = i + 1;
    }
    proof {
        assert(entries.deep_view().take(n as int) =~= entries.deep_view());
    }
    let ghost filtered = kept.deep_view();
    let m = kept.len();
    let mut sorted: Vec<AuditLogEntry> = Vec::new();
    let mut j: usize = 0;
    while j < m
        invariant
            m == kept@.len(),
            kept.deep_view() == filtered,
            0 <= j <= m,
            sorted.deep_view() == stable_sort_desc(filtered.take(j as int)),
        decreases m - j,
    {
        proof {
            assert(filtered.take(j as int + 1).drop_last() =~= filtered.take(j as int));
            assert(filtered.take(j as int + 1).last() == filtered[j as int]);
        }
        let e = kept[j].clone();
        let len_sorted = sorted.len();
        let mut p: usize = 0;
        while p < len_sorted && sorted[p].timestamp >= e.timestamp
            invariant
                len_sorted == sorted@.len(),
                0 <= p <= len_sorted,
                e.deep_view() == filtered[j as int],
                forall|t: int|
                    0 <= t < p ==> sorted.deep_view()[t].timestamp >= e.deep_view().timestamp,
            decreases len_sorted - p,
        {
            p = p + 1;
        }
        let ghost pre_sorted = sorted.deep_view();
        sorted.insert(p, e);
        proof {
            lemma_insert_desc_at(pre_sorted, filtered[j as int], p as int);
            assert(sorted.deep_view() =~= pre_sorted.subrange(0, p as int) + seq![
                filtered[j as int],
            ] + pre_sorted.subrange(p as int, pre_sorted.len() as int));
        }
        j = j + 1;
    }
    proof {
        assert(filtered.take(m as int) =~= filtered);
    }
    match limit {
        Some(l) => {
            if l < sorted.len() {
                sorted.truncate(l);
                proof {
                    assert(sorted.deep_view() =~= stable_sort_desc(filtered).take(l as int));
                }
            }
        },
        None => {},
    }
    sorted
}

} // verus!

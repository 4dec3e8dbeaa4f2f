//! Aggregation of usage messages into model, agent, daily and hourly rows.
use vstd::prelude::*;

use crate::clients::strings_view;
use crate::group::{group_indices_sorted, is_grouping, keys_view, members_with_key, sorted_names};
use crate::grouping::{
    colon_join, spec_daily_source_model_display_name, spec_daily_source_model_key,
    unknown_workspace_group_key, unknown_workspace_label, workspace_bucket, daily_source_model_key,
    GroupBy,
};
use crate::ledger::opt_view;
use crate::text::push_str;
use crate::tokens::TokenBreakdown;
use crate::usage::{
    count_distinct, distinct_count, member_clients, member_providers, members_in, merge_member_names,
    merged_names, sum_tokens, tokens_sum, UsageMessage,
};

verus! {

/// The indices `0..n`.
pub open spec fn all_indices(n: int) -> Seq<usize> {
    Seq::new(n as nat, |i: int| i as usize)
}

pub(crate) fn index_list(n: usize) -> (r: Vec<usize>)
    ensures
        r@ == all_indices(n as int),
{
    let mut r: Vec<usize> = Vec::new();
    let mut i: usize = 0;
    while i < n
        invariant
            i <= n,
            r@ =~= all_indices(i as int),
        decreases n - i,
    {
        r.push(i);
        i = i + 1;
    }
    r
}

/// Every member of a group carries the group's key and is an index of the subset.
pub proof fn lemma_members_carry_key(kv: Seq<Option<Seq<char>>>, subset: Seq<usize>, k: Seq<char>)
    ensures
        forall|j: int|
            0 <= j < members_with_key(kv, subset, k).len() ==> {
                let x = #[trigger] members_with_key(kv, subset, k)[j];
                &&& (x as int) < kv.len()
                &&& kv[x as int] == Some(k)
                &&& subset.contains(x)
            },
        members_with_key(kv, subset, k).len() <= subset.len(),
    decreases subset.len(),
{
    if subset.len() > 0 {
        let s2 = subset.drop_last();
        lemma_members_carry_key(kv, s2, k);
        let prev = members_with_key(kv, s2, k);
        assert forall|x: usize| s2.contains(x) implies subset.contains(x) by {
            let w = choose|w: int| 0 <= w < s2.len() && s2[w] == x;
            assert(subset[w] == x);
        }
        assert(subset.contains(subset.last())) by {
            assert(subset[subset.len() - 1] == subset.last());
        }
    }
}

/// The group key of a message's workspace: its key, or the unknown-workspace key.
pub open spec fn workspace_group_key(m: UsageMessage) -> Seq<char> {
    match m.workspace_key {
        Some(k) => k@,
        None => unknown_workspace_group_key(),
    }
}

/// The label of a message's workspace: its own label, else the label derived from its key,
/// else the unknown-workspace label.
pub open spec fn workspace_label_of(m: UsageMessage) -> Seq<char> {
    match m.workspace_key {
        Some(_) => match m.workspace_label {
            Some(l) => l@,
            None => match m.workspace_label_from_key {
                Some(l) => l@,
                None => unknown_workspace_label(),
            },
        },
        None => unknown_workspace_label(),
    }
}

/// The key of the model row a message counts toward.
pub open spec fn spec_model_key(group_by: GroupBy, m: UsageMessage) -> Seq<char> {
    match group_by {
        GroupBy::Model => m.model@,
        GroupBy::ClientModel => colon_join(m.client@, m.model@),
        GroupBy::ClientProviderModel => colon_join(colon_join(m.client@, m.provider_id@), m.model@),
        GroupBy::WorkspaceModel => colon_join(workspace_group_key(m), m.model@),
    }
}

/// The model-row key of every message.
pub open spec fn model_key_view(msgs: Seq<UsageMessage>, group_by: GroupBy) -> Seq<Option<Seq<char>>> {
    Seq::new(msgs.len(), |i: int| Some(spec_model_key(group_by, msgs[i])))
}

fn join3(a: &str, b: &str, c: &str) -> (r: String)
    ensures
        r@ == colon_join(colon_join(a@, b@), c@),
{
    let mut out = String::new();
    proof {
        reveal_strlit(":");
    }
    push_str(&mut out, a);
    push_str(&mut out, ":");
    push_str(&mut out, b);
    push_str(&mut out, ":");
    push_str(&mut out, c);
    out
}

fn join2(a: &str, b: &str) -> (r: String)
    ensures
        r@ == colon_join(a@, b@),
{
    let mut out = String::new();
    push_str(&mut out, a);
    push_str(&mut out, ":");
    push_str(&mut out, b);
    out
}

fn workspace_group_key_exec(m: &UsageMessage) -> (r: String)
    ensures
        r@ == workspace_group_key(*m),
{
    let (k, _, _) = workspace_bucket(&m.workspace_key, &m.workspace_label, &m.workspace_label_from_key);
    k
}

/// The model-row key of one message.
pub fn model_key(group_by: GroupBy, m: &UsageMessage) -> (r: String)
    ensures
        r@ == spec_model_key(group_by, *m),
{
    match group_by {
        GroupBy::Model => m.model.clone(),
        GroupBy::ClientModel => join2(m.client.as_str(), m.model.as_str()),
        GroupBy::ClientProviderModel => join3(
            m.client.as_str(),
            m.provider_id.as_str(),
            m.model.as_str(),
        ),
        GroupBy::WorkspaceModel => {
            let w = workspace_group_key_exec(m);
            join2(w.as_str(), m.model.as_str())
        },
    }
}

fn model_keys(msgs: &Vec<UsageMessage>, group_by: GroupBy) -> (r: Vec<Option<String>>)
    ensures
        keys_view(r@) == model_key_view(msgs@, group_by),
{
    let mut r: Vec<Option<String>> = Vec::new();
    let n = msgs.len();
    let mut i: usize = 0;
    while i < n
        invariant
            n == msgs@.len(),
            i <= n,
            keys_view(r@) =~= model_key_view(msgs@, group_by).take(i as int),
        decreases n - i,
    {
        let k = model_key(group_by, &msgs[i]);
        let ghost before = r@;
        r.push(Some(k));
        assert(keys_view(r@) =~= keys_view(before).push(Some(k@)));
        i = i + 1;
    }
    assert(model_key_view(msgs@, group_by).take(n as int) =~= model_key_view(msgs@, group_by));
    r
}

/// Model rows merge the clients of their messages when they are not keyed by client.
pub open spec fn merges_clients(group_by: GroupBy) -> bool {
    group_by == GroupBy::Model || group_by == GroupBy::WorkspaceModel
}

/// The session key of a message: its client and session id.
pub open spec fn session_key(m: UsageMessage) -> Seq<char> {
    colon_join(m.client@, m.session_id@)
}

/// The session keys of the members, in member order.
pub open spec fn member_session_keys(msgs: Seq<UsageMessage>, m: Seq<usize>) -> Seq<Seq<char>> {
    m.map_values(|i: usize| session_key(msgs[i as int]))
}

/// One model row: the messages sharing a model key and what they add up to.
#[derive(Debug, Clone)]
pub struct ModelGroup {
    pub key: String,
    pub model: String,
    /// The provider, or the `", "`-joined providers when rows are not keyed by provider.
    pub provider: String,
    /// The client, or the `", "`-joined clients when rows merge clients.
    pub client: String,
    pub workspace_key: Option<String>,
    pub workspace_label: Option<String>,
    pub tokens: TokenBreakdown,
    /// The number of distinct (client, session) pairs among the messages.
    pub session_count: u32,
    /// The indices of the messages of this row, in message order.
    pub members: Vec<usize>,
}

/// The fields of a model row follow from its members: the first member names the model
/// (and the workspace, for workspace rows); the other fields fold over all members.
pub open spec fn model_group_fields(msgs: Seq<UsageMessage>, group_by: GroupBy, g: ModelGroup) -> bool {
    let m = g.members@;
    let first = msgs[m[0] as int];
    &&& g.model@ == first.model@
    &&& g.client@ == if merges_clients(group_by) {
        merged_names(member_clients(msgs, m))
    } else {
        first.client@
    }
    &&& g.provider@ == if group_by == GroupBy::ClientProviderModel {
        first.provider_id@
    } else {
        merged_names(member_providers(msgs, m))
    }
    &&& opt_view(g.workspace_key) == if group_by == GroupBy::WorkspaceModel {
        opt_view(first.workspace_key)
    } else {
        None
    }
    &&& opt_view(g.workspace_label) == if group_by == GroupBy::WorkspaceModel {
        Some(workspace_label_of(first))
    } else {
        None
    }
    &&& g.tokens == tokens_sum(msgs, m)
    &&& g.session_count as nat == distinct_count(member_session_keys(msgs, m))
}

fn session_keys_of(msgs: &Vec<UsageMessage>, m: &Vec<usize>) -> (r: Vec<String>)
    requires
        members_in(msgs@, m@),
    ensures
        strings_view(r@) == member_session_keys(msgs@, m@),
{
    let mut r: Vec<String> = Vec::new();
    let n = m.len();
    let mut j: usize = 0;
    while j < n
        invariant
            n == m@.len(),
            members_in(msgs@, m@),
            j <= n,
            strings_view(r@) =~= member_session_keys(msgs@, m@.take(j as int)),
        decreases n - j,
    {
        let msg = &msgs[m[j]];
        let k = join2(msg.client.as_str(), msg.session_id.as_str());
        let ghost before = r@;
        r.push(k);
        assert(strings_view(r@) =~= strings_view(before).push(k@));
        assert(m@.take(j + 1) =~= m@.take(j as int).push(m@[j as int]));
        j = j + 1;
    }
    assert(m@.take(n as int) =~= m@);
    r
}

fn build_model_group(
    msgs: &Vec<UsageMessage>,
    group_by: GroupBy,
    key: &String,
    members: &Vec<usize>,
) -> (g: ModelGroup)
    requires
        members_in(msgs@, members@),
        members@.len() > 0,
        members@.len() <= u32::MAX,
    ensures
        g.key@ == key@,
        g.members@ == members@,
        model_group_fields(msgs@, group_by, g),
{
    let first = &msgs[members[0]];
    let merge = group_by == GroupBy::Model || group_by == GroupBy::WorkspaceModel;
    let client = if merge {
        merge_member_names(msgs, members, true)
    } else {
        first.client.clone()
    };
    let provider = if group_by == GroupBy::ClientProviderModel {
        first.provider_id.clone()
    } else {
        merge_member_names(msgs, members, false)
    };
    let (workspace_key, workspace_label) = if group_by == GroupBy::WorkspaceModel {
        let (_, k, l) = workspace_bucket(
            &first.workspace_key,
            &first.workspace_label,
            &first.workspace_label_from_key,
        );
        (k, Some(l))
    } else {
        (None, None)
    };
    let sessions = session_keys_of(msgs, members);
    assert(strings_view(sessions@).len() == sessions@.len());
    let session_count = count_distinct(&sessions);
    ModelGroup {
        key: key.clone(),
        model: first.model.clone(),
        provider,
        client,
        workspace_key,
        workspace_label,
        tokens: sum_tokens(msgs, members),
        session_count,
        members: members.clone(),
    }
}

/// The keys of a list of model rows.
pub open spec fn model_group_keys(r: Seq<ModelGroup>) -> Seq<String> {
    r.map_values(|g: ModelGroup| g.key)
}

/// The member lists of a list of model rows.
pub open spec fn model_group_members(r: Seq<ModelGroup>) -> Seq<Vec<usize>> {
    r.map_values(|g: ModelGroup| g.members)
}

/// The model rows of a list of messages, in increasing key order: one row per model key,
/// holding exactly the messages with that key.
pub fn aggregate_models(msgs: &Vec<UsageMessage>, group_by: GroupBy) -> (r: Vec<ModelGroup>)
    requires
        msgs@.len() <= u32::MAX,
    ensures
        is_grouping(
            model_key_view(msgs@, group_by),
            all_indices(msgs@.len() as int),
            model_group_keys(r@),
            model_group_members(r@),
        ),
        sorted_names(model_group_keys(r@)),
        forall|g: int| 0 <= g < r@.len() ==> model_group_fields(msgs@, group_by, #[trigger] r@[g]),
{
    let keys = model_keys(msgs, group_by);
    let all = index_list(msgs.len());
    let ghost kv = model_key_view(msgs@, group_by);
    let (names, members) = group_indices_sorted(&keys, &all);
    let mut r: Vec<ModelGroup> = Vec::new();
    let n = names.len();
    let mut h: usize = 0;
    while h < n
        invariant
            n == names@.len(),
            kv == model_key_view(msgs@, group_by),
            kv.len() == msgs@.len(),
            msgs@.len() <= u32::MAX,
            all@ == all_indices(msgs@.len() as int),
            is_grouping(kv, all@, names@, members@),
            h <= n,
            r@.len() == h,
            forall|g: int| 0 <= g < h ==> (#[trigger] r@[g]).key@ == names@[g]@ && r@[g].members@ == members@[g]@,
            forall|g: int| 0 <= g < h ==> model_group_fields(msgs@, group_by, #[trigger] r@[g]),
        decreases n - h,
    {
        proof {
            lemma_members_carry_key(kv, all@, names@[h as int]@);
            assert(members@[h as int]@ == members_with_key(kv, all@, names@[h as int]@));
            assert(all@.len() == msgs@.len());
        }
        let g = build_model_group(msgs, group_by, &names[h], &members[h]);
        r.push(g);
        h = h + 1;
    }
    proof {
        assert(model_group_keys(r@).len() == names@.len());
        assert forall|g: int| 0 <= g < n implies (#[trigger] model_group_keys(r@)[g])@ == names@[g]@ by {}
        assert forall|g: int| 0 <= g < n implies (#[trigger] model_group_members(r@)[g])@ == members@[g]@ by {}
        assert forall|a: int, b: int| 0 <= a < b < n implies (#[trigger] model_group_keys(r@)[a])@ != (#[trigger] model_group_keys(r@)[b])@ by {
            assert(names@[a]@ != names@[b]@);
        }
        assert forall|a: int, b: int| 0 <= a < b < n implies crate::text::lex_lt((#[trigger] model_group_keys(r@)[a])@, (#[trigger] model_group_keys(r@)[b])@) by {
            assert(crate::text::lex_lt(names@[a]@, names@[b]@));
        }
        assert forall|g: int| 0 <= g < n implies (#[trigger] model_group_members(r@)[g])@ == members_with_key(kv, all@, model_group_keys(r@)[g]@) by {}
        assert forall|g: int| 0 <= g < n implies (#[trigger] model_group_members(r@)[g])@.len() > 0 by {}
        assert forall|k: Seq<char>| #[trigger] crate::group::key_occurs(kv, all@, k) implies exists|g: int| 0 <= g < n && (#[trigger] model_group_keys(r@)[g])@ == k by {
            let g = choose|g: int| 0 <= g < names@.len() && (#[trigger] names@[g])@ == k;
            assert(model_group_keys(r@)[g]@ == k);
        }
    }
    r
}

/// Names joined with `", "`.
pub open spec fn join_names(names: Seq<Seq<char>>) -> Seq<char>
    decreases names.len(),
{
    if names.len() == 0 {
        Seq::empty()
    } else if names.len() == 1 {
        names[0]
    } else {
        join_names(names.drop_last()) + ", "@ + names.last()
    }
}

/// Joins names with `", "`.
pub fn join_comma(names: &Vec<String>) -> (r: String)
    ensures
        r@ == join_names(strings_view(names@)),
{
    let mut out = String::new();
    let n = names.len();
    let mut i: usize = 0;
    while i < n
        invariant
            n == names@.len(),
            i <= n,
            out@ == join_names(strings_view(names@.take(i as int))),
        decreases n - i,
    {
        let ghost pre = strings_view(names@.take(i as int));
        let ghost post = strings_view(names@.take(i + 1));
        assert(post.drop_last() =~= pre);
        if i > 0 {
            push_str(&mut out, ", ");
        }
        push_str(&mut out, names[i].as_str());
        i = i + 1;
    }
    assert(names@.take(n as int) =~= names@);
    out
}

/// The client of every message, as a grouping key.
pub open spec fn client_key_view(msgs: Seq<UsageMessage>) -> Seq<Option<Seq<char>>> {
    Seq::new(msgs.len(), |i: int| Some(msgs[i].client@))
}

pub(crate) fn client_keys(msgs: &Vec<UsageMessage>) -> (r: Vec<Option<String>>)
    ensures
        keys_view(r@) == client_key_view(msgs@),
{
    let mut r: Vec<Option<String>> = Vec::new();
    let n = msgs.len();
    let mut i: usize = 0;
    while i < n
        invariant
            n == msgs@.len(),
            i <= n,
            keys_view(r@) =~= client_key_view(msgs@).take(i as int),
        decreases n - i,
    {
        let ghost before = r@;
        let c = msgs[i].client.clone();
        r.push(Some(c));
        assert(keys_view(r@) =~= keys_view(before).push(Some(msgs@[i as int].client@)));
        i = i + 1;
    }
    assert(client_key_view(msgs@).take(n as int) =~= client_key_view(msgs@));
    r
}

/// Some name of the list is `k`.
pub open spec fn name_listed(names: Seq<String>, k: Seq<char>) -> bool {
    exists|g: int| 0 <= g < names.len() && (#[trigger] names[g])@ == k
}

/// Some member's client is `k`.
pub open spec fn client_of_member(msgs: Seq<UsageMessage>, m: Seq<usize>, k: Seq<char>) -> bool {
    exists|j: int| 0 <= j < m.len() && msgs[(#[trigger] m[j]) as int].client@ == k
}

/// The names of a grouping are exactly the keys carried by indices of the subset.
pub proof fn lemma_grouping_names(
    kv: Seq<Option<Seq<char>>>,
    subset: Seq<usize>,
    names: Seq<String>,
    members: Seq<Vec<usize>>,
)
    requires
        is_grouping(kv, subset, names, members),
    ensures
        forall|g: int| 0 <= g < names.len() ==> crate::group::key_occurs(kv, subset, (#[trigger] names[g])@),
        forall|k: Seq<char>| #[trigger] crate::group::key_occurs(kv, subset, k) ==> name_listed(names, k),
{
    assert forall|g: int| 0 <= g < names.len() implies crate::group::key_occurs(kv, subset, (#[trigger] names[g])@) by {
        lemma_members_carry_key(kv, subset, names[g]@);
        let x = members[g]@[0];
        assert(members_with_key(kv, subset, names[g]@)[0] == x);
        assert(subset.contains(x));
        let j = choose|j: int| 0 <= j < subset.len() && subset[j] == x;
        assert(kv[subset[j] as int] == Some(names[g]@));
    }
}

/// `names` lists, in increasing order and each once, exactly the clients of the members.
pub open spec fn sorted_member_clients(msgs: Seq<UsageMessage>, m: Seq<usize>, names: Seq<String>) -> bool {
    &&& sorted_names(names)
    &&& forall|g: int| 0 <= g < names.len() ==> client_of_member(msgs, m, (#[trigger] names[g])@)
    &&& forall|k: Seq<char>| #[trigger] client_of_member(msgs, m, k) ==> name_listed(names, k)
}

/// The distinct clients of the members, in increasing order.
pub(crate) fn sorted_clients(msgs: &Vec<UsageMessage>, keys: &Vec<Option<String>>, m: &Vec<usize>) -> (r: Vec<String>)
    requires
        keys_view(keys@) == client_key_view(msgs@),
        members_in(msgs@, m@),
    ensures
        sorted_member_clients(msgs@, m@, r@),
{
    let ghost kv = client_key_view(msgs@);
    let (names, members) = group_indices_sorted(keys, m);
    proof {
        lemma_grouping_names(kv, m@, names@, members@);
        assert forall|g: int| 0 <= g < names@.len() implies client_of_member(msgs@, m@, (#[trigger] names@[g])@) by {
            assert(crate::group::key_occurs(kv, m@, names@[g]@));
            let j = choose|j: int| 0 <= j < m@.len() && (m@[j] as int) < kv.len() && kv[m@[j] as int] == Some(names@[g]@);
            assert(msgs@[m@[j] as int].client@ == names@[g]@);
        }
        assert forall|k: Seq<char>| #[trigger] client_of_member(msgs@, m@, k) implies name_listed(names@, k) by {
            let j = choose|j: int| 0 <= j < m@.len() && msgs@[(#[trigger] m@[j]) as int].client@ == k;
            assert(kv[m@[j] as int] == Some(k));
            assert(crate::group::key_occurs(kv, m@, k));
        }
    }
    names
}

/// One agent row: the messages of one (normalised) agent.
#[derive(Debug, Clone)]
pub struct AgentGroup {
    pub agent: String,
    /// The distinct clients of the messages, in increasing order.
    pub client_list: Vec<String>,
    /// The same clients joined with `", "`.
    pub clients: String,
    pub tokens: TokenBreakdown,
    /// The message count, saturating at `u32::MAX`.
    pub message_count: u32,
    pub members: Vec<usize>,
}

/// The agent of every message, as a grouping key (messages without an agent have none).
pub open spec fn agent_key_view(msgs: Seq<UsageMessage>) -> Seq<Option<Seq<char>>> {
    Seq::new(msgs.len(), |i: int| opt_view(msgs[i].agent))
}

/// The fields of an agent row follow from its members.
pub open spec fn agent_group_fields(msgs: Seq<UsageMessage>, g: AgentGroup) -> bool {
    let m = g.members@;
    &&& sorted_member_clients(msgs, m, g.client_list@)
    &&& g.clients@ == join_names(strings_view(g.client_list@))
    &&& g.tokens == tokens_sum(msgs, m)
    &&& g.message_count == crate::usage::message_sum_sat(msgs, m, u32::MAX as int)
}

fn agent_keys(msgs: &Vec<UsageMessage>) -> (r: Vec<Option<String>>)
    ensures
        keys_view(r@) == agent_key_view(msgs@),
{
    let mut r: Vec<Option<String>> = Vec::new();
    let n = msgs.len();
    let mut i: usize = 0;
    while i < n
        invariant
            n == msgs@.len(),
            i <= n,
            keys_view(r@) =~= agent_key_view(msgs@).take(i as int),
        decreases n - i,
    {
        let ghost before = r@;
        let a = crate::ledger::clone_opt_string(&msgs[i].agent);
        r.push(a);
        assert(keys_view(r@) =~= keys_view(before).push(opt_view(msgs@[i as int].agent)));
        i = i + 1;
    }
    assert(agent_key_view(msgs@).take(n as int) =~= agent_key_view(msgs@));
    r
}

/// The agent names of a list of agent rows.
pub open spec fn agent_group_keys(r: Seq<AgentGroup>) -> Seq<String> {
    r.map_values(|g: AgentGroup| g.agent)
}

/// The member lists of a list of agent rows.
pub open spec fn agent_group_members(r: Seq<AgentGroup>) -> Seq<Vec<usize>> {
    r.map_values(|g: AgentGroup| g.members)
}

/// The agent rows of a list of messages, in increasing agent order: one row per agent,
/// holding exactly the messages of that agent (messages without an agent are left out).
pub fn aggregate_agents(msgs: &Vec<UsageMessage>) -> (r: Vec<AgentGroup>)
    ensures
        is_grouping(
            agent_key_view(msgs@),
            all_indices(msgs@.len() as int),
            agent_group_keys(r@),
            agent_group_members(r@),
        ),
        sorted_names(agent_group_keys(r@)),
        forall|g: int| 0 <= g < r@.len() ==> agent_group_fields(msgs@, #[trigger] r@[g]),
{
    let keys = agent_keys(msgs);
    let ckeys = client_keys(msgs);
    let all = index_list(msgs.len());
    let ghost kv = agent_key_view(msgs@);
    let (names, members) = group_indices_sorted(&keys, &all);
    let mut r: Vec<AgentGroup> = Vec::new();
    let n = names.len();
    let mut h: usize = 0;
    while h < n
        invariant
            n == names@.len(),
            kv == agent_key_view(msgs@),
            kv.len() == msgs@.len(),
            keys_view(ckeys@) == client_key_view(msgs@),
            all@ == all_indices(msgs@.len() as int),
            is_grouping(kv, all@, names@, members@),
            h <= n,
            r@.len() == h,
            forall|g: int| 0 <= g < h ==> (#[trigger] r@[g]).agent@ == names@[g]@ && r@[g].members@ == members@[g]@,
            forall|g: int| 0 <= g < h ==> agent_group_fields(msgs@, #[trigger] r@[g]),
        decreases n - h,
    {
        proof {
            lemma_members_carry_key(kv, all@, names@[h as int]@);
            assert(members@[h as int]@ == members_with_key(kv, all@, names@[h as int]@));
        }
        let m = &members[h];
        let client_list = sorted_clients(msgs, &ckeys, m);
        let clients = join_comma(&client_list);
        let g = AgentGroup {
            agent: names[h].clone(),
            client_list,
            clients,
            tokens: sum_tokens(msgs, m),
            message_count: crate::usage::sum_messages_sat_u32(msgs, m),
            members: m.clone(),
        };
        r.push(g);
        h = h + 1;
    }
    proof {
        assert(agent_group_keys(r@).len() == names@.len());
        assert forall|g: int| 0 <= g < n implies (#[trigger] agent_group_keys(r@)[g])@ == names@[g]@ by {}
        assert forall|g: int| 0 <= g < n implies (#[trigger] agent_group_members(r@)[g])@ == members@[g]@ by {}
        assert forall|a: int, b: int| 0 <= a < b < n implies (#[trigger] agent_group_keys(r@)[a])@ != (#[trigger] agent_group_keys(r@)[b])@ by {
            assert(names@[a]@ != names@[b]@);
        }
        assert forall|a: int, b: int| 0 <= a < b < n implies crate::text::lex_lt((#[trigger] agent_group_keys(r@)[a])@, (#[trigger] agent_group_keys(r@)[b])@) by {
            assert(crate::text::lex_lt(names@[a]@, names@[b]@));
        }
        assert forall|g: int| 0 <= g < n implies (#[trigger] agent_group_members(r@)[g])@ == members_with_key(kv, all@, agent_group_keys(r@)[g]@) by {}
        assert forall|g: int| 0 <= g < n implies (#[trigger] agent_group_members(r@)[g])@.len() > 0 by {}
        assert forall|k: Seq<char>| #[trigger] crate::group::key_occurs(kv, all@, k) implies exists|g: int| 0 <= g < n && (#[trigger] agent_group_keys(r@)[g])@ == k by {
            let g = choose|g: int| 0 <= g < names@.len() && (#[trigger] names@[g])@ == k;
            assert(agent_group_keys(r@)[g]@ == k);
        }
    }
    r
}

/// The indices of `subset` (in order) whose number is `d`.
pub open spec fn members_with_num(kv: Seq<Option<i64>>, subset: Seq<usize>, d: i64) -> Seq<usize>
    decreases subset.len(),
{
    if subset.len() == 0 {
        Seq::empty()
    } else {
        let prev = members_with_num(kv, subset.drop_last(), d);
        let i = subset.last() as int;
        if i < kv.len() && kv[i] == Some(d) {
            prev.push(subset.last())
        } else {
            prev
        }
    }
}

/// Some index of `subset` has number `d`.
pub open spec fn num_occurs(kv: Seq<Option<i64>>, subset: Seq<usize>, d: i64) -> bool {
    exists|j: int|
        0 <= j < subset.len() && (subset[j] as int) < kv.len() && kv[subset[j] as int] == Some(d)
}

/// Some number of the list is `d`.
pub open spec fn num_listed(nums: Seq<i64>, d: i64) -> bool {
    exists|g: int| 0 <= g < nums.len() && nums[g] == d
}

/// Strictly decreasing.
pub open spec fn strictly_decreasing(a: Seq<i64>) -> bool {
    forall|x: int, y: int| 0 <= x < y < a.len() ==> a[x] > a[y]
}

/// `nums`/`members` group `subset` by number: numbers strictly decreasing, each with the
/// non-empty list of the indices that carry it, and a group for every number that occurs.
pub open spec fn is_num_grouping(
    kv: Seq<Option<i64>>,
    subset: Seq<usize>,
    nums: Seq<i64>,
    members: Seq<Vec<usize>>,
) -> bool {
    &&& nums.len() == members.len()
    &&& strictly_decreasing(nums)
    &&& forall|g: int| 0 <= g < nums.len() ==> (#[trigger] members[g])@ == members_with_num(kv, subset, nums[g])
    &&& forall|g: int| 0 <= g < nums.len() ==> (#[trigger] members[g])@.len() > 0
    &&& forall|d: i64| #[trigger] num_occurs(kv, subset, d) ==> num_listed(nums, d)
}

/// Every member of a numbered group carries the number and is an index of the subset; a
/// number that occurs has members.
pub proof fn lemma_num_members(kv: Seq<Option<i64>>, subset: Seq<usize>, d: i64)
    ensures
        forall|j: int|
            0 <= j < members_with_num(kv, subset, d).len() ==> {
                let x = #[trigger] members_with_num(kv, subset, d)[j];
                &&& (x as int) < kv.len()
                &&& kv[x as int] == Some(d)
                &&& subset.contains(x)
            },
        num_occurs(kv, subset, d) ==> members_with_num(kv, subset, d).len() > 0,
    decreases subset.len(),
{
    if subset.len() > 0 {
        let s2 = subset.drop_last();
        lemma_num_members(kv, s2, d);
        assert forall|x: usize| s2.contains(x) implies subset.contains(x) by {
            let w = choose|w: int| 0 <= w < s2.len() && s2[w] == x;
            assert(subset[w] == x);
        }
        assert(subset.contains(subset.last())) by {
            assert(subset[subset.len() - 1] == subset.last());
        }
        if num_occurs(kv, subset, d) {
            let w = choose|w: int|
                0 <= w < subset.len() && (subset[w] as int) < kv.len() && kv[subset[w] as int] == Some(d);
            if w < s2.len() {
                assert(s2[w] == subset[w]);
                assert(num_occurs(kv, s2, d));
            }
        }
    }
}

fn select_num(kv: &Vec<Option<i64>>, subset: &Vec<usize>, d: i64) -> (r: Vec<usize>)
    ensures
        r@ == members_with_num(kv@, subset@, d),
{
    let mut r: Vec<usize> = Vec::new();
    let n = subset.len();
    let nk = kv.len();
    let mut j: usize = 0;
    while j < n
        invariant
            n == subset@.len(),
            nk == kv@.len(),
            j <= n,
            r@ == members_with_num(kv@, subset@.take(j as int), d),
        decreases n - j,
    {
        assert(subset@.take(j + 1).drop_last() =~= subset@.take(j as int));
        let i = subset[j];
        if i < nk {
            match kv[i] {
                Some(x) => {
                    if x == d {
                        r.push(i);
                    }
                },
                None => {},
            }
        }
        j = j + 1;
    }
    assert(subset@.take(n as int) =~= subset@);
    r
}

/// The numbers carried by indices of `subset`, each once, in decreasing order.
fn numbers_desc(kv: &Vec<Option<i64>>, subset: &Vec<usize>) -> (r: Vec<i64>)
    ensures
        strictly_decreasing(r@),
        forall|d: i64| num_listed(r@, d) <==> #[trigger] num_occurs(kv@, subset@, d),
{
    let mut vals: Vec<i64> = Vec::new();
    let n = subset.len();
    let nk = kv.len();
    let mut j: usize = 0;
    while j < n
        invariant
            n == subset@.len(),
            nk == kv@.len(),
            j <= n,
            forall|d: i64| #[trigger] crate::streaks::has_date(vals@, d as int) <==> num_occurs(kv@, subset@.take(j as int), d),
        decreases n - j,
    {
        let ghost pre = subset@.take(j as int);
        let ghost post = subset@.take(j + 1);
        let ghost old_vals = vals@;
        let i = subset[j];
        if i < nk {
            match kv[i] {
                Some(x) => {
                    vals.push(x);
                },
                None => {},
            }
        }
        proof {
            assert forall|d: i64| #[trigger] crate::streaks::has_date(vals@, d as int) <==> num_occurs(kv@, post, d) by {
                assert(crate::streaks::has_date(old_vals, d as int) == num_occurs(kv@, pre, d));
                if crate::streaks::has_date(vals@, d as int) {
                    let w = choose|w: int| 0 <= w < vals@.len() && vals@[w] as int == d as int;
                    if w < old_vals.len() {
                        assert(old_vals[w] == vals@[w]);
                        assert(crate::streaks::has_date(old_vals, d as int));
                        let z = choose|z: int| 0 <= z < pre.len() && (pre[z] as int) < kv@.len() && kv@[pre[z] as int] == Some(d);
                        assert(post[z] == pre[z]);
                    } else {
                        assert(post[j as int] == i);
                    }
                }
                if num_occurs(kv@, post, d) {
                    let z = choose|z: int| 0 <= z < post.len() && (post[z] as int) < kv@.len() && kv@[post[z] as int] == Some(d);
                    if z < j {
                        assert(pre[z] == post[z]);
                        assert(num_occurs(kv@, pre, d));
                        let w = choose|w: int| 0 <= w < old_vals.len() && old_vals[w] as int == d as int;
                        assert(vals@[w] == old_vals[w]);
                    } else {
                        assert(vals@[vals@.len() - 1] == d);
                    }
                }
            }
        }
        j = j + 1;
    }
    assert(subset@.take(n as int) =~= subset@);
    let a = crate::streaks::sorted_distinct_days(&vals);
    let mut r: Vec<i64> = Vec::new();
    let m = a.len();
    let mut k: usize = m;
    while k > 0
        invariant
            m == a@.len(),
            k <= m,
            r@.len() == m - k,
            forall|q: int| 0 <= q < r@.len() ==> r@[q] == a@[m - 1 - q],
        decreases k,
    {
        k = k - 1;
        r.push(a[k]);
    }
    proof {
        assert forall|x: int, y: int| 0 <= x < y < r@.len() implies r@[x] > r@[y] by {
            assert(a@[m - 1 - y] < a@[m - 1 - x]);
        }
        assert forall|d: i64| num_listed(r@, d) <==> #[trigger] num_occurs(kv@, subset@, d) by {
            assert(crate::streaks::has_date(vals@, d as int) <==> num_occurs(kv@, subset@, d));
            if num_listed(r@, d) {
                let g = choose|g: int| 0 <= g < r@.len() && r@[g] == d;
                assert(a@[m - 1 - g] == d);
                assert(crate::streaks::has_date(a@, d as int));
            }
            if crate::streaks::has_date(a@, d as int) {
                let w = choose|w: int| 0 <= w < a@.len() && a@[w] as int == d as int;
                assert(r@[m - 1 - w] == d);
            }
        }
    }
    r
}

/// Groups the indices of `subset` by their number (indices without one are left out), with
/// the groups in decreasing number order.
pub fn group_numbers_desc(kv: &Vec<Option<i64>>, subset: &Vec<usize>) -> (r: (Vec<i64>, Vec<Vec<usize>>))
    ensures
        is_num_grouping(kv@, subset@, r.0@, r.1@),
{
    let nums = numbers_desc(kv, subset);
    let mut members: Vec<Vec<usize>> = Vec::new();
    let n = nums.len();
    let mut g: usize = 0;
    while g < n
        invariant
            n == nums@.len(),
            g <= n,
            members@.len() == g,
            forall|d: i64| num_listed(nums@, d) <==> #[trigger] num_occurs(kv@, subset@, d),
            forall|x: int| 0 <= x < g ==> (#[trigger] members@[x])@ == members_with_num(kv@, subset@, nums@[x]),
            forall|x: int| 0 <= x < g ==> (#[trigger] members@[x])@.len() > 0,
        decreases n - g,
    {
        let m = select_num(kv, subset, nums[g]);
        proof {
            assert(num_listed(nums@, nums@[g as int]));
            assert(num_occurs(kv@, subset@, nums@[g as int]));
            lemma_num_members(kv@, subset@, nums@[g as int]);
        }
        members.push(m);
        g = g + 1;
    }
    (nums, members)
}

/// The day number of every message (messages whose date does not parse have none).
pub open spec fn day_view(msgs: Seq<UsageMessage>) -> Seq<Option<i64>> {
    Seq::new(msgs.len(), |i: int| msgs[i].day)
}

/// The key of the model row a message counts toward in its day's per-client breakdown.
pub open spec fn daily_model_key_view(msgs: Seq<UsageMessage>, group_by: GroupBy) -> Seq<Option<Seq<char>>> {
    Seq::new(
        msgs.len(),
        |i: int|
            Some(
                spec_daily_source_model_key(
                    group_by,
                    workspace_group_key(msgs[i]),
                    msgs[i].provider_id@,
                    msgs[i].model@,
                ),
            ),
    )
}

fn daily_model_keys(msgs: &Vec<UsageMessage>, group_by: GroupBy) -> (r: Vec<Option<String>>)
    ensures
        keys_view(r@) == daily_model_key_view(msgs@, group_by),
{
    let mut r: Vec<Option<String>> = Vec::new();
    let n = msgs.len();
    let mut i: usize = 0;
    while i < n
        invariant
            n == msgs@.len(),
            i <= n,
            keys_view(r@) =~= daily_model_key_view(msgs@, group_by).take(i as int),
        decreases n - i,
    {
        let m = &msgs[i];
        let w = workspace_group_key_exec(m);
        let k = daily_source_model_key(&group_by, w.as_str(), m.provider_id.as_str(), m.model.as_str());
        let ghost before = r@;
        r.push(Some(k));
        assert(keys_view(r@) =~= keys_view(before).push(Some(k@)));
        i = i + 1;
    }
    assert(daily_model_key_view(msgs@, group_by).take(n as int) =~= daily_model_key_view(msgs@, group_by));
    r
}

pub(crate) fn day_keys(msgs: &Vec<UsageMessage>) -> (r: Vec<Option<i64>>)
    ensures
        r@ == day_view(msgs@),
{
    let mut r: Vec<Option<i64>> = Vec::new();
    let n = msgs.len();
    let mut i: usize = 0;
    while i < n
        invariant
            n == msgs@.len(),
            i <= n,
            r@ =~= day_view(msgs@).take(i as int),
        decreases n - i,
    {
        r.push(msgs[i].day);
        i = i + 1;
    }
    assert(day_view(msgs@).take(n as int) =~= day_view(msgs@));
    r
}

/// One model row of a day's per-client breakdown.
#[derive(Debug, Clone)]
pub struct DailyModelGroup {
    pub key: String,
    pub provider: String,
    pub display_name: String,
    pub color_key: String,
    pub tokens: TokenBreakdown,
    /// The message count, saturating at `u64::MAX`.
    pub messages: u64,
    pub members: Vec<usize>,
}

/// The fields of a day's model row: the first member names provider and labels, the other
/// fields fold over all members.
pub open spec fn daily_model_fields(msgs: Seq<UsageMessage>, group_by: GroupBy, g: DailyModelGroup) -> bool {
    let m = g.members@;
    let first = msgs[m[0] as int];
    &&& g.provider@ == first.provider_id@
    &&& g.display_name@ == spec_daily_source_model_display_name(
        group_by,
        workspace_label_of(first),
        first.provider_id@,
        first.model@,
    )
    &&& g.color_key@ == first.model@
    &&& g.tokens == tokens_sum(msgs, m)
    &&& g.messages == crate::usage::message_sum_sat(msgs, m, u64::MAX as int)
}

/// The keys of a list of a day's model rows.
pub open spec fn daily_model_keys_of(r: Seq<DailyModelGroup>) -> Seq<String> {
    r.map_values(|g: DailyModelGroup| g.key)
}

/// The member lists of a list of a day's model rows.
pub open spec fn daily_model_members_of(r: Seq<DailyModelGroup>) -> Seq<Vec<usize>> {
    r.map_values(|g: DailyModelGroup| g.members)
}

/// One client of a day: its messages and their model rows.
#[derive(Debug, Clone)]
pub struct SourceGroup {
    pub client: String,
    pub tokens: TokenBreakdown,
    /// The model rows, in increasing key order.
    pub models: Vec<DailyModelGroup>,
    pub members: Vec<usize>,
}

/// The fields of a day's client: its tokens, and its model rows grouping its messages.
pub open spec fn source_fields(msgs: Seq<UsageMessage>, group_by: GroupBy, s: SourceGroup) -> bool {
    let m = s.members@;
    &&& s.tokens == tokens_sum(msgs, m)
    &&& is_grouping(
        daily_model_key_view(msgs, group_by),
        m,
        daily_model_keys_of(s.models@),
        daily_model_members_of(s.models@),
    )
    &&& sorted_names(daily_model_keys_of(s.models@))
    &&& forall|q: int| 0 <= q < s.models@.len() ==> daily_model_fields(msgs, group_by, #[trigger] s.models@[q])
}

/// The clients of a list of a day's clients.
pub open spec fn source_keys_of(r: Seq<SourceGroup>) -> Seq<String> {
    r.map_values(|g: SourceGroup| g.client)
}

/// The member lists of a list of a day's clients.
pub open spec fn source_members_of(r: Seq<SourceGroup>) -> Seq<Vec<usize>> {
    r.map_values(|g: SourceGroup| g.members)
}

/// One day of usage.
#[derive(Debug, Clone)]
pub struct DailyGroup {
    pub day: i64,
    pub tokens: TokenBreakdown,
    /// The message count in 32-bit wrapping arithmetic.
    pub message_count: u32,
    /// The number of turns started, in 32-bit wrapping arithmetic.
    pub turn_count: u32,
    /// The day's clients, in increasing order.
    pub sources: Vec<SourceGroup>,
    pub members: Vec<usize>,
}

/// The fields of a day: totals over its messages, and its clients grouping them.
pub open spec fn daily_fields(msgs: Seq<UsageMessage>, group_by: GroupBy, d: DailyGroup) -> bool {
    let m = d.members@;
    &&& d.tokens == tokens_sum(msgs, m)
    &&& d.message_count == crate::usage::message_sum_wrapping(msgs, m)
    &&& d.turn_count == crate::usage::turn_sum_wrapping(msgs, m)
    &&& is_grouping(client_key_view(msgs), m, source_keys_of(d.sources@), source_members_of(d.sources@))
    &&& sorted_names(source_keys_of(d.sources@))
    &&& forall|q: int| 0 <= q < d.sources@.len() ==> source_fields(msgs, group_by, #[trigger] d.sources@[q])
}

/// The days of a list of days.
pub open spec fn day_nums_of(r: Seq<DailyGroup>) -> Seq<i64> {
    r.map_values(|g: DailyGroup| g.day)
}

/// The member lists of a list of days.
pub open spec fn day_members_of(r: Seq<DailyGroup>) -> Seq<Vec<usize>> {
    r.map_values(|g: DailyGroup| g.members)
}

/// Members of a group of `subset` are members of the whole message list.
proof fn lemma_members_in_sub(msgs: Seq<UsageMessage>, kv: Seq<Option<Seq<char>>>, subset: Seq<usize>, k: Seq<char>)
    requires
        kv.len() == msgs.len(),
    ensures
        members_in(msgs, members_with_key(kv, subset, k)),
{
    lemma_members_carry_key(kv, subset, k);
}

fn build_daily_models(
    msgs: &Vec<UsageMessage>,
    group_by: GroupBy,
    dkeys: &Vec<Option<String>>,
    m: &Vec<usize>,
) -> (r: Vec<DailyModelGroup>)
    requires
        keys_view(dkeys@) == daily_model_key_view(msgs@, group_by),
        members_in(msgs@, m@),
    ensures
        is_grouping(daily_model_key_view(msgs@, group_by), m@, daily_model_keys_of(r@), daily_model_members_of(r@)),
        sorted_names(daily_model_keys_of(r@)),
        forall|q: int| 0 <= q < r@.len() ==> daily_model_fields(msgs@, group_by, #[trigger] r@[q]),
{
    let ghost kv = daily_model_key_view(msgs@, group_by);
    let (names, members) = group_indices_sorted(dkeys, m);
    let mut r: Vec<DailyModelGroup> = Vec::new();
    let n = names.len();
    let mut h: usize = 0;
    while h < n
        invariant
            n == names@.len(),
            kv == daily_model_key_view(msgs@, group_by),
            kv.len() == msgs@.len(),
            is_grouping(kv, m@, names@, members@),
            h <= n,
            r@.len() == h,
            forall|g: int| 0 <= g < h ==> (#[trigger] r@[g]).key@ == names@[g]@ && r@[g].members@ == members@[g]@,
            forall|g: int| 0 <= g < h ==> daily_model_fields(msgs@, group_by, #[trigger] r@[g]),
        decreases n - h,
    {
        proof {
            lemma_members_in_sub(msgs@, kv, m@, names@[h as int]@);
            assert(members@[h as int]@ == members_with_key(kv, m@, names@[h as int]@));
        }
        let mm = &members[h];
        let first = &msgs[mm[0]];
        let (_, _, label) = workspace_bucket(&first.workspace_key, &first.workspace_label, &first.workspace_label_from_key);
        let g = DailyModelGroup {
            key: names[h].clone(),
            provider: first.provider_id.clone(),
            display_name: crate::grouping::daily_source_model_display_name(
                &group_by,
                label.as_str(),
                first.provider_id.as_str(),
                first.model.as_str(),
            ),
            color_key: crate::grouping::model_color_key(&group_by, first.provider_id.as_str(), first.model.as_str()),
            tokens: sum_tokens(msgs, mm),
            messages: crate::usage::sum_messages_sat_u64(msgs, mm),
            members: mm.clone(),
        };
        r.push(g);
        h = h + 1;
    }
    proof {
        assert forall|g: int| 0 <= g < n implies (#[trigger] daily_model_keys_of(r@)[g])@ == names@[g]@ by {}
        assert forall|g: int| 0 <= g < n implies (#[trigger] daily_model_members_of(r@)[g])@ == members@[g]@ by {}
        assert forall|a: int, b: int| 0 <= a < b < n implies (#[trigger] daily_model_keys_of(r@)[a])@ != (#[trigger] daily_model_keys_of(r@)[b])@ by {
            assert(names@[a]@ != names@[b]@);
        }
        assert forall|a: int, b: int| 0 <= a < b < n implies crate::text::lex_lt((#[trigger] daily_model_keys_of(r@)[a])@, (#[trigger] daily_model_keys_of(r@)[b])@) by {
            assert(crate::text::lex_lt(names@[a]@, names@[b]@));
        }
        assert forall|k: Seq<char>| #[trigger] crate::group::key_occurs(kv, m@, k) implies exists|g: int| 0 <= g < n && (#[trigger] daily_model_keys_of(r@)[g])@ == k by {
            let g = choose|g: int| 0 <= g < names@.len() && (#[trigger] names@[g])@ == k;
            assert(daily_model_keys_of(r@)[g]@ == k);
        }
    }
    r
}

fn build_sources(
    msgs: &Vec<UsageMessage>,
    group_by: GroupBy,
    ckeys: &Vec<Option<String>>,
    dkeys: &Vec<Option<String>>,
    m: &Vec<usize>,
) -> (r: Vec<SourceGroup>)
    requires
        keys_view(ckeys@) == client_key_view(msgs@),
        keys_view(dkeys@) == daily_model_key_view(msgs@, group_by),
        members_in(msgs@, m@),
    ensures
        is_grouping(client_key_view(msgs@), m@, source_keys_of(r@), source_members_of(r@)),
        sorted_names(source_keys_of(r@)),
        forall|q: int| 0 <= q < r@.len() ==> source_fields(msgs@, group_by, #[trigger] r@[q]),
{
    let ghost kv = client_key_view(msgs@);
    let (names, members) = group_indices_sorted(ckeys, m);
    let mut r: Vec<SourceGroup> = Vec::new();
    let n = names.len();
    let mut h: usize = 0;
    while h < n
        invariant
            n == names@.len(),
            kv == client_key_view(msgs@),
            kv.len() == msgs@.len(),
            keys_view(dkeys@) == daily_model_key_view(msgs@, group_by),
            is_grouping(kv, m@, names@, members@),
            h <= n,
            r@.len() == h,
            forall|g: int| 0 <= g < h ==> (#[trigger] r@[g]).client@ == names@[g]@ && r@[g].members@ == members@[g]@,
            forall|g: int| 0 <= g < h ==> source_fields(msgs@, group_by, #[trigger] r@[g]),
        decreases n - h,
    {
        proof {
            lemma_members_in_sub(msgs@, kv, m@, names@[h as int]@);
            assert(members@[h as int]@ == members_with_key(kv, m@, names@[h as int]@));
        }
        let mm = &members[h];
        let g = SourceGroup {
            client: names[h].clone(),
            tokens: sum_tokens(msgs, mm),
            models: build_daily_models(msgs, group_by, dkeys, mm),
            members: mm.clone(),
        };
        r.push(g);
        h = h + 1;
    }
    proof {
        assert forall|g: int| 0 <= g < n implies (#[trigger] source_keys_of(r@)[g])@ == names@[g]@ by {}
        assert forall|g: int| 0 <= g < n implies (#[trigger] source_members_of(r@)[g])@ == members@[g]@ by {}
        assert forall|a: int, b: int| 0 <= a < b < n implies (#[trigger] source_keys_of(r@)[a])@ != (#[trigger] source_keys_of(r@)[b])@ by {
            assert(names@[a]@ != names@[b]@);
        }
        assert forall|a: int, b: int| 0 <= a < b < n implies crate::text::lex_lt((#[trigger] source_keys_of(r@)[a])@, (#[trigger] source_keys_of(r@)[b])@) by {
            assert(crate::text::lex_lt(names@[a]@, names@[b]@));
        }
        assert forall|k: Seq<char>| #[trigger] crate::group::key_occurs(kv, m@, k) implies exists|g: int| 0 <= g < n && (#[trigger] source_keys_of(r@)[g])@ == k by {
            let g = choose|g: int| 0 <= g < names@.len() && (#[trigger] names@[g])@ == k;
            assert(source_keys_of(r@)[g]@ == k);
        }
    }
    r
}

/// The days of a list of messages, latest first: one per day number, holding exactly the
/// messages of that day (messages without a day are left out), each broken down by client
/// and, within a client, by model row.
pub fn aggregate_daily(msgs: &Vec<UsageMessage>, group_by: GroupBy) -> (r: Vec<DailyGroup>)
    ensures
        is_num_grouping(day_view(msgs@), all_indices(msgs@.len() as int), day_nums_of(r@), day_members_of(r@)),
        forall|g: int| 0 <= g < r@.len() ==> daily_fields(msgs@, group_by, #[trigger] r@[g]),
{
    let dk = day_keys(msgs);
    let ckeys = client_keys(msgs);
    let dkeys = daily_model_keys(msgs, group_by);
    let all = index_list(msgs.len());
    let ghost kv = day_view(msgs@);
    let (days, members) = group_numbers_desc(&dk, &all);
    let mut r: Vec<DailyGroup> = Vec::new();
    let n = days.len();
    let mut h: usize = 0;
    while h < n
        invariant
            n == days@.len(),
            kv == day_view(msgs@),
            dk@ == kv,
            kv.len() == msgs@.len(),
            keys_view(ckeys@) == client_key_view(msgs@),
            keys_view(dkeys@) == daily_model_key_view(msgs@, group_by),
            all@ == all_indices(msgs@.len() as int),
            is_num_grouping(kv, all@, days@, members@),
            h <= n,
            r@.len() == h,
            forall|g: int| 0 <= g < h ==> (#[trigger] r@[g]).day == days@[g] && r@[g].members@ == members@[g]@,
            forall|g: int| 0 <= g < h ==> daily_fields(msgs@, group_by, #[trigger] r@[g]),
        decreases n - h,
    {
        proof {
            lemma_num_members(kv, all@, days@[h as int]);
            assert(members@[h as int]@ == members_with_num(kv, all@, days@[h as int]));
        }
        let mm = &members[h];
        let g = DailyGroup {
            day: days[h],
            tokens: sum_tokens(msgs, mm),
            message_count: crate::usage::sum_messages_wrapping(msgs, mm),
            turn_count: crate::usage::count_turns_wrapping(msgs, mm),
            sources: build_sources(msgs, group_by, &ckeys, &dkeys, mm),
            members: mm.clone(),
        };
        r.push(g);
        h = h + 1;
    }
    proof {
        assert(day_nums_of(r@) =~= days@);
        assert forall|g: int| 0 <= g < n implies (#[trigger] day_members_of(r@)[g])@ == members@[g]@ by {}
        assert forall|d: i64| #[trigger] num_occurs(kv, all@, d) implies num_listed(day_nums_of(r@), d) by {
            assert(num_listed(days@, d));
        }
    }
    r
}

/// The hour number of every message (messages without a usable time have none).
pub open spec fn hour_view(msgs: Seq<UsageMessage>) -> Seq<Option<i64>> {
    Seq::new(msgs.len(), |i: int| msgs[i].hour)
}

/// The key of the model row a message counts toward within its hour.
pub open spec fn spec_hourly_model_key(group_by: GroupBy, m: UsageMessage) -> Seq<char> {
    if group_by == GroupBy::ClientProviderModel {
        colon_join(m.provider_id@, m.model@)
    } else {
        m.model@
    }
}

/// The hourly model-row key of every message.
pub open spec fn hourly_model_key_view(msgs: Seq<UsageMessage>, group_by: GroupBy) -> Seq<Option<Seq<char>>> {
    Seq::new(msgs.len(), |i: int| Some(spec_hourly_model_key(group_by, msgs[i])))
}

fn hourly_model_keys(msgs: &Vec<UsageMessage>, group_by: GroupBy) -> (r: Vec<Option<String>>)
    ensures
        keys_view(r@) == hourly_model_key_view(msgs@, group_by),
{
    let mut r: Vec<Option<String>> = Vec::new();
    let n = msgs.len();
    let mut i: usize = 0;
    while i < n
        invariant
            n == msgs@.len(),
            i <= n,
            keys_view(r@) =~= hourly_model_key_view(msgs@, group_by).take(i as int),
        decreases n - i,
    {
        let m = &msgs[i];
        let k = crate::grouping::hourly_model_key(&group_by, m.provider_id.as_str(), m.model.as_str());
        let ghost before = r@;
        r.push(Some(k));
        assert(keys_view(r@) =~= keys_view(before).push(Some(k@)));
        i = i + 1;
    }
    assert(hourly_model_key_view(msgs@, group_by).take(n as int) =~= hourly_model_key_view(msgs@, group_by));
    r
}

fn hour_keys(msgs: &Vec<UsageMessage>) -> (r: Vec<Option<i64>>)
    ensures
        r@ == hour_view(msgs@),
{
    let mut r: Vec<Option<i64>> = Vec::new();
    let n = msgs.len();
    let mut i: usize = 0;
    while i < n
        invariant
            n == msgs@.len(),
            i <= n,
            r@ =~= hour_view(msgs@).take(i as int),
        decreases n - i,
    {
        r.push(msgs[i].hour);
        i = i + 1;
    }
    assert(hour_view(msgs@).take(n as int) =~= hour_view(msgs@));
    r
}

/// One model row within an hour.
#[derive(Debug, Clone)]
pub struct HourlyModelGroup {
    pub key: String,
    pub provider: String,
    pub display_name: String,
    pub color_key: String,
    pub tokens: TokenBreakdown,
    pub members: Vec<usize>,
}

/// The fields of an hour's model row.
pub open spec fn hourly_model_fields(msgs: Seq<UsageMessage>, group_by: GroupBy, g: HourlyModelGroup) -> bool {
    let m = g.members@;
    let first = msgs[m[0] as int];
    &&& g.provider@ == first.provider_id@
    &&& g.display_name@ == if group_by == GroupBy::ClientProviderModel {
        crate::grouping::slash_join(first.provider_id@, first.model@)
    } else {
        first.model@
    }
    &&& g.color_key@ == first.model@
    &&& g.tokens == tokens_sum(msgs, m)
}

/// The keys of a list of an hour's model rows.
pub open spec fn hourly_model_keys_of(r: Seq<HourlyModelGroup>) -> Seq<String> {
    r.map_values(|g: HourlyModelGroup| g.key)
}

/// The member lists of a list of an hour's model rows.
pub open spec fn hourly_model_members_of(r: Seq<HourlyModelGroup>) -> Seq<Vec<usize>> {
    r.map_values(|g: HourlyModelGroup| g.members)
}

/// One hour of usage.
#[derive(Debug, Clone)]
pub struct HourlyGroup {
    pub hour: i64,
    pub tokens: TokenBreakdown,
    /// The message count in 32-bit wrapping arithmetic.
    pub message_count: u32,
    /// The number of turns started, in 32-bit wrapping arithmetic.
    pub turn_count: u32,
    /// The distinct clients of the hour, in increasing order.
    pub clients: Vec<String>,
    /// The hour's model rows, in increasing key order.
    pub models: Vec<HourlyModelGroup>,
    pub members: Vec<usize>,
}

/// The fields of an hour: totals over its messages, its clients and its model rows.
pub open spec fn hourly_fields(msgs: Seq<UsageMessage>, group_by: GroupBy, h: HourlyGroup) -> bool {
    let m = h.members@;
    &&& h.tokens == tokens_sum(msgs, m)
    &&& h.message_count == crate::usage::message_sum_wrapping(msgs, m)
    &&& h.turn_count == crate::usage::turn_sum_wrapping(msgs, m)
    &&& sorted_member_clients(msgs, m, h.clients@)
    &&& is_grouping(hourly_model_key_view(msgs, group_by), m, hourly_model_keys_of(h.models@), hourly_model_members_of(h.models@))
    &&& sorted_names(hourly_model_keys_of(h.models@))
    &&& forall|q: int| 0 <= q < h.models@.len() ==> hourly_model_fields(msgs, group_by, #[trigger] h.models@[q])
}

/// The hours of a list of hours.
pub open spec fn hour_nums_of(r: Seq<HourlyGroup>) -> Seq<i64> {
    r.map_values(|g: HourlyGroup| g.hour)
}

/// The member lists of a list of hours.
pub open spec fn hour_members_of(r: Seq<HourlyGroup>) -> Seq<Vec<usize>> {
    r.map_values(|g: HourlyGroup| g.members)
}

fn build_hourly_models(
    msgs: &Vec<UsageMessage>,
    group_by: GroupBy,
    hkeys: &Vec<Option<String>>,
    m: &Vec<usize>,
) -> (r: Vec<HourlyModelGroup>)
    requires
        keys_view(hkeys@) == hourly_model_key_view(msgs@, group_by),
        members_in(msgs@, m@),
    ensures
        is_grouping(hourly_model_key_view(msgs@, group_by), m@, hourly_model_keys_of(r@), hourly_model_members_of(r@)),
        sorted_names(hourly_model_keys_of(r@)),
        forall|q: int| 0 <= q < r@.len() ==> hourly_model_fields(msgs@, group_by, #[trigger] r@[q]),
{
    let ghost kv = hourly_model_key_view(msgs@, group_by);
    let (names, members) = group_indices_sorted(hkeys, m);
    let mut r: Vec<HourlyModelGroup> = Vec::new();
    let n = names.len();
    let mut h: usize = 0;
    while h < n
        invariant
            n == names@.len(),
            kv == hourly_model_key_view(msgs@, group_by),
            kv.len() == msgs@.len(),
            is_grouping(kv, m@, names@, members@),
            h <= n,
            r@.len() == h,
            forall|g: int| 0 <= g < h ==> (#[trigger] r@[g]).key@ == names@[g]@ && r@[g].members@ == members@[g]@,
            forall|g: int| 0 <= g < h ==> hourly_model_fields(msgs@, group_by, #[trigger] r@[g]),
        decreases n - h,
    {
        proof {
            lemma_members_in_sub(msgs@, kv, m@, names@[h as int]@);
            assert(members@[h as int]@ == members_with_key(kv, m@, names@[h as int]@));
        }
        let mm = &members[h];
        let first = &msgs[mm[0]];
        let g = HourlyModelGroup {
            key: names[h].clone(),
            provider: first.provider_id.clone(),
            display_name: crate::grouping::hourly_model_display_name(
                &group_by,
                first.provider_id.as_str(),
                first.model.as_str(),
            ),
            color_key: crate::grouping::model_color_key(&group_by, first.provider_id.as_str(), first.model.as_str()),
            tokens: sum_tokens(msgs, mm),
            members: mm.clone(),
        };
        r.push(g);
        h = h + 1;
    }
    proof {
        assert forall|g: int| 0 <= g < n implies (#[trigger] hourly_model_keys_of(r@)[g])@ == names@[g]@ by {}
        assert forall|g: int| 0 <= g < n implies (#[trigger] hourly_model_members_of(r@)[g])@ == members@[g]@ by {}
        assert forall|a: int, b: int| 0 <= a < b < n implies (#[trigger] hourly_model_keys_of(r@)[a])@ != (#[trigger] hourly_model_keys_of(r@)[b])@ by {
            assert(names@[a]@ != names@[b]@);
        }
        assert forall|a: int, b: int| 0 <= a < b < n implies crate::text::lex_lt((#[trigger] hourly_model_keys_of(r@)[a])@, (#[trigger] hourly_model_keys_of(r@)[b])@) by {
            assert(crate::text::lex_lt(names@[a]@, names@[b]@));
        }
        assert forall|k: Seq<char>| #[trigger] crate::group::key_occurs(kv, m@, k) implies exists|g: int| 0 <= g < n && (#[trigger] hourly_model_keys_of(r@)[g])@ == k by {
            let g = choose|g: int| 0 <= g < names@.len() && (#[trigger] names@[g])@ == k;
            assert(hourly_model_keys_of(r@)[g]@ == k);
        }
    }
    r
}

/// The hours of a list of messages, latest first: one per hour number, holding exactly the
/// messages of that hour (messages without an hour are left out), with their clients and
/// model rows.
pub fn aggregate_hourly(msgs: &Vec<UsageMessage>, group_by: GroupBy) -> (r: Vec<HourlyGroup>)
    ensures
        is_num_grouping(hour_view(msgs@), all_indices(msgs@.len() as int), hour_nums_of(r@), hour_members_of(r@)),
        forall|g: int| 0 <= g < r@.len() ==> hourly_fields(msgs@, group_by, #[trigger] r@[g]),
{
    let hk = hour_keys(msgs);
    let ckeys = client_keys(msgs);
    let hkeys = hourly_model_keys(msgs, group_by);
    let all = index_list(msgs.len());
    let ghost kv = hour_view(msgs@);
    let (hours, members) = group_numbers_desc(&hk, &all);
    let mut r: Vec<HourlyGroup> = Vec::new();
    let n = hours.len();
    let mut h: usize = 0;
    while h < n
        invariant
            n == hours@.len(),
            kv == hour_view(msgs@),
            hk@ == kv,
            kv.len() == msgs@.len(),
            keys_view(ckeys@) == client_key_view(msgs@),
            keys_view(hkeys@) == hourly_model_key_view(msgs@, group_by),
            all@ == all_indices(msgs@.len() as int),
            is_num_grouping(kv, all@, hours@, members@),
            h <= n,
            r@.len() == h,
            forall|g: int| 0 <= g < h ==> (#[trigger] r@[g]).hour == hours@[g] && r@[g].members@ == members@[g]@,
            forall|g: int| 0 <= g < h ==> hourly_fields(msgs@, group_by, #[trigger] r@[g]),
        decreases n - h,
    {
        proof {
            lemma_num_members(kv, all@, hours@[h as int]);
            assert(members@[h as int]@ == members_with_num(kv, all@, hours@[h as int]));
        }
        let mm = &members[h];
        let g = HourlyGroup {
            hour: hours[h],
            tokens: sum_tokens(msgs, mm),
            message_count: crate::usage::sum_messages_wrapping(msgs, mm),
            turn_count: crate::usage::count_turns_wrapping(msgs, mm),
            clients: sorted_clients(msgs, &ckeys, mm),
            models: build_hourly_models(msgs, group_by, &hkeys, mm),
            members: mm.clone(),
        };
        r.push(g);
        h = h + 1;
    }
    proof {
        assert(hour_nums_of(r@) =~= hours@);
        assert forall|g: int| 0 <= g < n implies (#[trigger] hour_members_of(r@)[g])@ == members@[g]@ by {}
        assert forall|d: i64| #[trigger] num_occurs(kv, all@, d) implies num_listed(hour_nums_of(r@), d) by {
            assert(num_listed(hours@, d));
        }
    }
    r
}

/// The sum of the token totals of the model rows, in 64-bit wrapping arithmetic.
pub open spec fn model_tokens_total(r: Seq<ModelGroup>) -> u64
    decreases r.len(),
{
    if r.len() == 0 {
        0
    } else {
        vstd::wrapping::u64_specs::wrapping_add(
            model_tokens_total(r.drop_last()),
            r.last().tokens.spec_total() as u64,
        )
    }
}

/// The token total of all model rows.
pub fn total_model_tokens(models: &Vec<ModelGroup>) -> (r: u64)
    ensures
        r == model_tokens_total(models@),
{
    let mut s: u64 = 0;
    let n = models.len();
    let mut i: usize = 0;
    while i < n
        invariant
            n == models@.len(),
            i <= n,
            s == model_tokens_total(models@.take(i as int)),
        decreases n - i,
    {
        assert(models@.take(i + 1).drop_last() =~= models@.take(i as int));
        s = s.wrapping_add(models[i].tokens.total());
        i = i + 1;
    }
    assert(models@.take(n as int) =~= models@);
    s
}

/// An index of the subset that carries key `k` is a member of `k`'s group.
pub proof fn lemma_members_complete(kv: Seq<Option<Seq<char>>>, subset: Seq<usize>, k: Seq<char>, j: int)
    requires
        0 <= j < subset.len(),
        (subset[j] as int) < kv.len(),
        kv[subset[j] as int] == Some(k),
    ensures
        members_with_key(kv, subset, k).contains(subset[j]),
    decreases subset.len(),
{
    let m = members_with_key(kv, subset, k);
    if j == subset.len() - 1 {
        assert(m.last() == subset[j]);
        assert(m[m.len() - 1] == subset[j]);
    } else {
        let s2 = subset.drop_last();
        assert(s2[j] == subset[j]);
        lemma_members_complete(kv, s2, k, j);
        let prev = members_with_key(kv, s2, k);
        let w = choose|w: int| 0 <= w < prev.len() && prev[w] == subset[j];
        assert(m[w] == prev[w]);
    }
}

/// Grouping partitions the keyed indices: an index of the subset that carries a key lies in
/// the group of that key, and in no other group.
pub proof fn lemma_grouping_partitions(
    kv: Seq<Option<Seq<char>>>,
    subset: Seq<usize>,
    names: Seq<String>,
    members: Seq<Vec<usize>>,
    j: int,
) -> (g: int)
    requires
        is_grouping(kv, subset, names, members),
        0 <= j < subset.len(),
        (subset[j] as int) < kv.len(),
        kv[subset[j] as int] is Some,
    ensures
        0 <= g < names.len(),
        Some(names[g]@) == kv[subset[j] as int],
        members[g]@.contains(subset[j]),
        forall|g: int| 0 <= g < names.len() && (#[trigger] members[g])@.contains(subset[j]) ==> Some(
            names[g]@,
        ) == kv[subset[j] as int],
{
    let k = kv[subset[j] as int]->0;
    assert(crate::group::key_occurs(kv, subset, k));
    let g = choose|g: int| 0 <= g < names.len() && (#[trigger] names[g])@ == k;
    lemma_members_complete(kv, subset, k, j);
    assert(members[g]@ == members_with_key(kv, subset, names[g]@));
    assert forall|h: int| 0 <= h < names.len() && (#[trigger] members[h])@.contains(subset[j]) implies Some(
        names[h]@,
    ) == kv[subset[j] as int] by {
        assert(members[h]@ == members_with_key(kv, subset, names[h]@));
        lemma_members_carry_key(kv, subset, names[h]@);
        let w = choose|w: int| 0 <= w < members[h]@.len() && members[h]@[w] == subset[j];
        assert(members_with_key(kv, subset, names[h]@)[w] == subset[j]);
    }
    g
}

/// Every message falls in exactly one model row: the row of its model key.
pub proof fn lemma_model_rows_partition_messages(
    msgs: Seq<UsageMessage>,
    group_by: GroupBy,
    rows: Seq<ModelGroup>,
    i: int,
)
    requires
        is_grouping(
            model_key_view(msgs, group_by),
            all_indices(msgs.len() as int),
            model_group_keys(rows),
            model_group_members(rows),
        ),
        msgs.len() <= usize::MAX,
        0 <= i < msgs.len(),
    ensures
        exists|g: int| 0 <= g < rows.len() && (#[trigger] rows[g]).key@ == spec_model_key(group_by, msgs[i])
            && rows[g].members@.contains(i as usize),
        forall|g: int| 0 <= g < rows.len() && (#[trigger] rows[g]).members@.contains(i as usize) ==> rows[g].key@
            == spec_model_key(group_by, msgs[i]),
{
    let kv = model_key_view(msgs, group_by);
    let all = all_indices(msgs.len() as int);
    assert(all[i] == i as usize);
    let g = lemma_grouping_partitions(kv, all, model_group_keys(rows), model_group_members(rows), i);
    assert(model_group_keys(rows)[g] == rows[g].key);
    assert(kv[i] == Some(spec_model_key(group_by, msgs[i])));
    assert(rows[g].key@ == spec_model_key(group_by, msgs[i]));
    assert(model_group_members(rows)[g] == rows[g].members);
    assert forall|h: int| 0 <= h < rows.len() && (#[trigger] rows[h]).members@.contains(i as usize) implies rows[h].key@
        == spec_model_key(group_by, msgs[i]) by {
        assert(model_group_members(rows)[h] == rows[h].members);
        assert(model_group_members(rows)[h]@.contains(all[i]));
        assert(Some(model_group_keys(rows)[h]@) == kv[all[i] as int]);
        assert(model_group_keys(rows)[h] == rows[h].key);
        assert(kv[i] == Some(spec_model_key(group_by, msgs[i])));
    }
}

/// An index of the subset that carries number `d` is a member of `d`'s group.
pub proof fn lemma_num_members_complete(kv: Seq<Option<i64>>, subset: Seq<usize>, d: i64, j: int)
    requires
        0 <= j < subset.len(),
        (subset[j] as int) < kv.len(),
        kv[subset[j] as int] == Some(d),
    ensures
        members_with_num(kv, subset, d).contains(subset[j]),
    decreases subset.len(),
{
    let m = members_with_num(kv, subset, d);
    if j == subset.len() - 1 {
        assert(m[m.len() - 1] == subset[j]);
    } else {
        let s2 = subset.drop_last();
        assert(s2[j] == subset[j]);
        lemma_num_members_complete(kv, s2, d, j);
        let prev = members_with_num(kv, s2, d);
        let w = choose|w: int| 0 <= w < prev.len() && prev[w] == subset[j];
        assert(m[w] == prev[w]);
    }
}

/// Every message with a day falls in exactly one day: the day of its date.
pub proof fn lemma_days_partition_messages(
    msgs: Seq<UsageMessage>,
    group_by: GroupBy,
    days: Seq<DailyGroup>,
    i: int,
)
    requires
        is_num_grouping(day_view(msgs), all_indices(msgs.len() as int), day_nums_of(days), day_members_of(days)),
        msgs.len() <= usize::MAX,
        0 <= i < msgs.len(),
        msgs[i].day is Some,
    ensures
        exists|g: int| 0 <= g < days.len() && Some((#[trigger] days[g]).day) == msgs[i].day
            && days[g].members@.contains(i as usize),
        forall|g: int| 0 <= g < days.len() && (#[trigger] days[g]).members@.contains(i as usize) ==> Some(days[g].day)
            == msgs[i].day,
{
    let kv = day_view(msgs);
    let all = all_indices(msgs.len() as int);
    let d = msgs[i].day->0;
    assert(all[i] == i as usize);
    assert(kv[i] == Some(d));
    assert(num_occurs(kv, all, d));
    let g = choose|g: int| 0 <= g < day_nums_of(days).len() && day_nums_of(days)[g] == d;
    assert(day_nums_of(days)[g] == days[g].day);
    assert(day_members_of(days)[g] == days[g].members);
    lemma_num_members_complete(kv, all, d, i);
    assert(days[g].members@.contains(i as usize));
    assert forall|h: int| 0 <= h < days.len() && (#[trigger] days[h]).members@.contains(i as usize) implies Some(days[h].day)
        == msgs[i].day by {
        assert(day_members_of(days)[h] == days[h].members);
        assert(day_nums_of(days)[h] == days[h].day);
        lemma_num_members(kv, all, days[h].day);
        let w = choose|w: int| 0 <= w < days[h].members@.len() && days[h].members@[w] == i as usize;
        assert(members_with_num(kv, all, days[h].day)[w] == i as usize);
    }
}

/// One token category of a breakdown, by position: input, output, cache read, cache write,
/// reasoning.
pub open spec fn tok_field(t: TokenBreakdown, f: int) -> int {
    if f == 0 {
        t.input as int
    } else if f == 1 {
        t.output as int
    } else if f == 2 {
        t.cache_read as int
    } else if f == 3 {
        t.cache_write as int
    } else {
        t.reasoning as int
    }
}

/// The (clamped) count of category `f` of message `i`.
pub open spec fn msg_field(msgs: Seq<UsageMessage>, f: int, i: int) -> int {
    tok_field(TokenBreakdown::spec_from_signed(msgs[i].tokens), f)
}

/// The exact (unsaturated) sum of category `f` over the messages `m`.
pub open spec fn field_sum(msgs: Seq<UsageMessage>, f: int, m: Seq<usize>) -> int
    decreases m.len(),
{
    if m.len() == 0 {
        0
    } else {
        field_sum(msgs, f, m.drop_last()) + msg_field(msgs, f, m.last() as int)
    }
}

/// The saturating sum of the token breakdowns of a list of model rows.
pub open spec fn rows_tokens(rows: Seq<ModelGroup>) -> TokenBreakdown
    decreases rows.len(),
{
    if rows.len() == 0 {
        TokenBreakdown { input: 0, output: 0, cache_read: 0, cache_write: 0, reasoning: 0 }
    } else {
        rows_tokens(rows.drop_last()).spec_plus(rows.last().tokens)
    }
}

/// The exact sum of category `f` over the messages of index below `n` carrying each row's
/// key, summed over the rows.
pub open spec fn keyed_sum(
    msgs: Seq<UsageMessage>,
    f: int,
    kv: Seq<Option<Seq<char>>>,
    n: int,
    rows: Seq<ModelGroup>,
) -> int
    decreases rows.len(),
{
    if rows.len() == 0 {
        0
    } else {
        keyed_sum(msgs, f, kv, n, rows.drop_last()) + field_sum(
            msgs,
            f,
            members_with_key(kv, all_indices(n), rows.last().key@),
        )
    }
}

/// Some row carries key `k`.
pub open spec fn row_key_in(rows: Seq<ModelGroup>, k: Seq<char>) -> bool {
    exists|g: int| 0 <= g < rows.len() && (#[trigger] rows[g]).key@ == k
}

proof fn lemma_field_of_plus(a: TokenBreakdown, b: TokenBreakdown, f: int)
    ensures
        tok_field(a.spec_plus(b), f) == crate::tokens::sat_add(tok_field(a, f), tok_field(b, f)),
{
}

proof fn lemma_msg_field_bounds(msgs: Seq<UsageMessage>, f: int, i: int)
    ensures
        0 <= msg_field(msgs, f, i) <= i64::MAX,
{
}

/// The saturating token sum of some messages is, category by category, their exact sum
/// capped at `u64::MAX`.
proof fn lemma_tokens_sum_field(msgs: Seq<UsageMessage>, f: int, m: Seq<usize>)
    ensures
        field_sum(msgs, f, m) >= 0,
        tok_field(tokens_sum(msgs, m), f) == if field_sum(msgs, f, m) > u64::MAX {
            u64::MAX as int
        } else {
            field_sum(msgs, f, m)
        },
    decreases m.len(),
{
    if m.len() > 0 {
        lemma_tokens_sum_field(msgs, f, m.drop_last());
        lemma_msg_field_bounds(msgs, f, m.last() as int);
        lemma_field_of_plus(
            tokens_sum(msgs, m.drop_last()),
            TokenBreakdown::spec_from_signed(msgs[m.last() as int].tokens),
            f,
        );
    }
}

/// Adding message `n` to the range adds its count to the row carrying its key, if any.
proof fn lemma_keyed_sum_step(
    msgs: Seq<UsageMessage>,
    f: int,
    kv: Seq<Option<Seq<char>>>,
    n: int,
    rows: Seq<ModelGroup>,
)
    requires
        0 <= n < kv.len(),
        kv.len() <= usize::MAX,
        kv[n] is Some,
        forall|a: int, b: int| 0 <= a < b < rows.len() ==> (#[trigger] rows[a]).key@ != (#[trigger] rows[b]).key@,
    ensures
        keyed_sum(msgs, f, kv, n + 1, rows) == keyed_sum(msgs, f, kv, n, rows) + if row_key_in(rows, kv[n]->0) {
            msg_field(msgs, f, n)
        } else {
            0
        },
    decreases rows.len(),
{
    if rows.len() > 0 {
        let r0 = rows.drop_last();
        assert forall|a: int, b: int| 0 <= a < b < r0.len() implies (#[trigger] r0[a]).key@ != (#[trigger] r0[b]).key@ by {
            assert(r0[a] == rows[a] && r0[b] == rows[b]);
        }
        lemma_keyed_sum_step(msgs, f, kv, n, r0);
        let k = rows.last().key@;
        let all1 = all_indices(n + 1);
        assert(all1.drop_last() =~= all_indices(n));
        assert(all1.last() == n as usize);
        let m0 = members_with_key(kv, all_indices(n), k);
        let m1 = members_with_key(kv, all1, k);
        assert(m1 == (if (all1.last() as int) < kv.len() && kv[all1.last() as int] == Some(k) {
            members_with_key(kv, all1.drop_last(), k).push(all1.last())
        } else {
            members_with_key(kv, all1.drop_last(), k)
        }));
        if kv[n] == Some(k) {
            assert(m1 == m0.push(n as usize));
            assert(m0.push(n as usize).drop_last() =~= m0);
            assert(!row_key_in(r0, k)) by {
                if row_key_in(r0, k) {
                    let g = choose|g: int| 0 <= g < r0.len() && (#[trigger] r0[g]).key@ == k;
                    assert(rows[g].key@ != rows[rows.len() - 1].key@);
                }
            }
            assert(row_key_in(rows, k)) by {
                assert(rows[rows.len() - 1].key@ == k);
            }
        } else {
            assert(m1 == m0);
            assert(row_key_in(rows, kv[n]->0) == row_key_in(r0, kv[n]->0)) by {
                if row_key_in(rows, kv[n]->0) {
                    let g = choose|g: int| 0 <= g < rows.len() && (#[trigger] rows[g]).key@ == kv[n]->0;
                    assert(g != rows.len() - 1);
                    assert(r0[g] == rows[g]);
                }
                if row_key_in(r0, kv[n]->0) {
                    let g = choose|g: int| 0 <= g < r0.len() && (#[trigger] r0[g]).key@ == kv[n]->0;
                    assert(r0[g] == rows[g]);
                }
            }
        }
    }
}

/// When every message's key belongs to a row, the rows' keyed sums over the first `n`
/// messages add up to those messages' exact sum.
proof fn lemma_keyed_sum_total(
    msgs: Seq<UsageMessage>,
    f: int,
    kv: Seq<Option<Seq<char>>>,
    n: int,
    rows: Seq<ModelGroup>,
)
    requires
        0 <= n <= kv.len(),
        kv.len() <= usize::MAX,
        forall|i: int| 0 <= i < kv.len() ==> (#[trigger] kv[i]) is Some && row_key_in(rows, kv[i]->0),
        forall|a: int, b: int| 0 <= a < b < rows.len() ==> (#[trigger] rows[a]).key@ != (#[trigger] rows[b]).key@,
    ensures
        keyed_sum(msgs, f, kv, n, rows) == field_sum(msgs, f, all_indices(n)),
    decreases n,
{
    if n == 0 {
        lemma_keyed_sum_zero(msgs, f, kv, rows);
        assert(all_indices(0).len() == 0);
    } else {
        lemma_keyed_sum_total(msgs, f, kv, n - 1, rows);
        assert(kv[n - 1] is Some);
        lemma_keyed_sum_step(msgs, f, kv, n - 1, rows);
        assert(all_indices(n).drop_last() =~= all_indices(n - 1));
        assert(all_indices(n).last() == (n - 1) as usize);
        assert(field_sum(msgs, f, all_indices(n)) == field_sum(msgs, f, all_indices(n - 1)) + msg_field(msgs, f, n - 1));
        assert(row_key_in(rows, kv[n - 1]->0));
    }
}

proof fn lemma_keyed_sum_zero(msgs: Seq<UsageMessage>, f: int, kv: Seq<Option<Seq<char>>>, rows: Seq<ModelGroup>)
    ensures
        keyed_sum(msgs, f, kv, 0, rows) == 0,
    decreases rows.len(),
{
    if rows.len() > 0 {
        lemma_keyed_sum_zero(msgs, f, kv, rows.drop_last());
        assert(all_indices(0) =~= Seq::<usize>::empty());
        assert(members_with_key(kv, all_indices(0), rows.last().key@) =~= Seq::<usize>::empty());
    }
}

/// The rows' saturating token total is, category by category, the sum of their members'
/// exact sums capped at `u64::MAX`.
proof fn lemma_rows_tokens_field(
    msgs: Seq<UsageMessage>,
    f: int,
    kv: Seq<Option<Seq<char>>>,
    n: int,
    rows: Seq<ModelGroup>,
)
    requires
        forall|g: int| 0 <= g < rows.len() ==> (#[trigger] rows[g]).tokens == tokens_sum(msgs, rows[g].members@),
        forall|g: int| 0 <= g < rows.len() ==> (#[trigger] rows[g]).members@ == members_with_key(kv, all_indices(n), rows[g].key@),
    ensures
        keyed_sum(msgs, f, kv, n, rows) >= 0,
        tok_field(rows_tokens(rows), f) == if keyed_sum(msgs, f, kv, n, rows) > u64::MAX {
            u64::MAX as int
        } else {
            keyed_sum(msgs, f, kv, n, rows)
        },
    decreases rows.len(),
{
    if rows.len() > 0 {
        let r0 = rows.drop_last();
        assert forall|g: int| 0 <= g < r0.len() implies (#[trigger] r0[g]).tokens == tokens_sum(msgs, r0[g].members@) && r0[g].members@ == members_with_key(kv, all_indices(n), r0[g].key@) by {
            assert(r0[g] == rows[g]);
        }
        lemma_rows_tokens_field(msgs, f, kv, n, r0);
        let last = rows[rows.len() - 1];
        assert(last.tokens == tokens_sum(msgs, last.members@));
        lemma_tokens_sum_field(msgs, f, last.members@);
        lemma_field_of_plus(rows_tokens(r0), last.tokens, f);
    }
}

/// No tokens are lost or counted twice by the model rows: summing the rows' token
/// breakdowns (saturating, as every sum here is) gives the saturating token sum of all the
/// messages, in every category.
pub proof fn lemma_model_rows_conserve_tokens(msgs: Seq<UsageMessage>, group_by: GroupBy, rows: Seq<ModelGroup>)
    requires
        msgs.len() <= usize::MAX,
        is_grouping(
            model_key_view(msgs, group_by),
            all_indices(msgs.len() as int),
            model_group_keys(rows),
            model_group_members(rows),
        ),
        forall|g: int| 0 <= g < rows.len() ==> model_group_fields(msgs, group_by, #[trigger] rows[g]),
    ensures
        rows_tokens(rows) == tokens_sum(msgs, all_indices(msgs.len() as int)),
{
    let kv = model_key_view(msgs, group_by);
    let n = msgs.len() as int;
    let all = all_indices(n);
    assert forall|g: int| 0 <= g < rows.len() implies (#[trigger] rows[g]).members@ == members_with_key(kv, all, rows[g].key@) by {
        assert(model_group_members(rows)[g] == rows[g].members);
        assert(model_group_keys(rows)[g] == rows[g].key);
    }
    assert forall|g: int| 0 <= g < rows.len() implies (#[trigger] rows[g]).tokens == tokens_sum(msgs, rows[g].members@) by {
        assert(model_group_fields(msgs, group_by, rows[g]));
    }
    assert forall|a: int, b: int| 0 <= a < b < rows.len() implies (#[trigger] rows[a]).key@ != (#[trigger] rows[b]).key@ by {
        assert(model_group_keys(rows)[a] == rows[a].key);
        assert(model_group_keys(rows)[b] == rows[b].key);
    }
    assert forall|i: int| 0 <= i < kv.len() implies (#[trigger] kv[i]) is Some && row_key_in(rows, kv[i]->0) by {
        let k = kv[i]->0;
        assert(all[i] == i as usize);
        assert(0 <= i < all.len() && (all[i] as int) < kv.len() && kv[all[i] as int] == Some(k));
        assert(crate::group::key_occurs(kv, all, k));
        let g = choose|g: int| 0 <= g < model_group_keys(rows).len() && (#[trigger] model_group_keys(rows)[g])@ == k;
        assert(model_group_keys(rows)[g] == rows[g].key);
    }
    let t = rows_tokens(rows);
    let s = tokens_sum(msgs, all);
    assert forall|f: int| 0 <= f < 5 implies tok_field(t, f) == tok_field(s, f) by {
        lemma_rows_tokens_field(msgs, f, kv, n, rows);
        lemma_keyed_sum_total(msgs, f, kv, n, rows);
        lemma_tokens_sum_field(msgs, f, all);
    }
    assert(tok_field(t, 0) == tok_field(s, 0));
    assert(tok_field(t, 1) == tok_field(s, 1));
    assert(tok_field(t, 2) == tok_field(s, 2));
    assert(tok_field(t, 3) == tok_field(s, 3));
    assert(tok_field(t, 4) == tok_field(s, 4));
}

/// The exact sum of category `f` over the messages of index below `n` that have a day.
pub open spec fn dated_field_sum(msgs: Seq<UsageMessage>, f: int, n: int) -> int
    decreases n,
{
    if n <= 0 {
        0
    } else {
        dated_field_sum(msgs, f, n - 1) + if msgs[n - 1].day is Some {
            msg_field(msgs, f, n - 1)
        } else {
            0
        }
    }
}

/// The saturating sum of the token breakdowns of a list of days.
pub open spec fn days_tokens(days: Seq<DailyGroup>) -> TokenBreakdown
    decreases days.len(),
{
    if days.len() == 0 {
        TokenBreakdown { input: 0, output: 0, cache_read: 0, cache_write: 0, reasoning: 0 }
    } else {
        days_tokens(days.drop_last()).spec_plus(days.last().tokens)
    }
}

/// The exact sum of category `f` over the messages of index below `n` on each day, summed
/// over the days.
pub open spec fn dayed_sum(msgs: Seq<UsageMessage>, f: int, n: int, days: Seq<DailyGroup>) -> int
    decreases days.len(),
{
    if days.len() == 0 {
        0
    } else {
        dayed_sum(msgs, f, n, days.drop_last()) + field_sum(
            msgs,
            f,
            members_with_num(day_view(msgs), all_indices(n), days.last().day),
        )
    }
}

/// Some day of the list is `d`.
pub open spec fn day_in(days: Seq<DailyGroup>, d: i64) -> bool {
    exists|g: int| 0 <= g < days.len() && (#[trigger] days[g]).day == d
}

proof fn lemma_dayed_sum_step(msgs: Seq<UsageMessage>, f: int, n: int, days: Seq<DailyGroup>)
    requires
        0 <= n < msgs.len(),
        msgs.len() <= usize::MAX,
        forall|a: int, b: int| 0 <= a < b < days.len() ==> (#[trigger] days[a]).day != (#[trigger] days[b]).day,
    ensures
        dayed_sum(msgs, f, n + 1, days) == dayed_sum(msgs, f, n, days) + if msgs[n].day is Some && day_in(
            days,
            msgs[n].day->0,
        ) {
            msg_field(msgs, f, n)
        } else {
            0
        },
    decreases days.len(),
{
    if days.len() > 0 {
        let d0 = days.drop_last();
        assert forall|a: int, b: int| 0 <= a < b < d0.len() implies (#[trigger] d0[a]).day != (#[trigger] d0[b]).day by {
            assert(d0[a] == days[a] && d0[b] == days[b]);
        }
        lemma_dayed_sum_step(msgs, f, n, d0);
        let kv = day_view(msgs);
        let d = days.last().day;
        let all1 = all_indices(n + 1);
        assert(all1.drop_last() =~= all_indices(n));
        assert(all1.last() == n as usize);
        assert(kv[n] == msgs[n].day);
        let m0 = members_with_num(kv, all_indices(n), d);
        let m1 = members_with_num(kv, all1, d);
        assert(m1 == (if (all1.last() as int) < kv.len() && kv[all1.last() as int] == Some(d) {
            members_with_num(kv, all1.drop_last(), d).push(all1.last())
        } else {
            members_with_num(kv, all1.drop_last(), d)
        }));
        if msgs[n].day == Some(d) {
            assert(m0.push(n as usize).drop_last() =~= m0);
            assert(!day_in(d0, d)) by {
                if day_in(d0, d) {
                    let g = choose|g: int| 0 <= g < d0.len() && (#[trigger] d0[g]).day == d;
                    assert(days[g].day != days[days.len() - 1].day);
                }
            }
            assert(day_in(days, d)) by {
                assert(days[days.len() - 1].day == d);
            }
        } else {
            assert(m1 == m0);
            if msgs[n].day is Some {
                let e = msgs[n].day->0;
                assert(day_in(days, e) == day_in(d0, e)) by {
                    if day_in(days, e) {
                        let g = choose|g: int| 0 <= g < days.len() && (#[trigger] days[g]).day == e;
                        assert(g != days.len() - 1);
                        assert(d0[g] == days[g]);
                    }
                    if day_in(d0, e) {
                        let g = choose|g: int| 0 <= g < d0.len() && (#[trigger] d0[g]).day == e;
                        assert(d0[g] == days[g]);
                    }
                }
            }
        }
    }
}

proof fn lemma_dayed_sum_zero(msgs: Seq<UsageMessage>, f: int, days: Seq<DailyGroup>)
    ensures
        dayed_sum(msgs, f, 0, days) == 0,
    decreases days.len(),
{
    if days.len() > 0 {
        lemma_dayed_sum_zero(msgs, f, days.drop_last());
        assert(all_indices(0) =~= Seq::<usize>::empty());
        assert(members_with_num(day_view(msgs), all_indices(0), days.last().day) =~= Seq::<usize>::empty());
    }
}

proof fn lemma_dayed_sum_total(msgs: Seq<UsageMessage>, f: int, n: int, days: Seq<DailyGroup>)
    requires
        0 <= n <= msgs.len(),
        msgs.len() <= usize::MAX,
        forall|i: int| 0 <= i < msgs.len() && (#[trigger] msgs[i]).day is Some ==> day_in(days, msgs[i].day->0),
        forall|a: int, b: int| 0 <= a < b < days.len() ==> (#[trigger] days[a]).day != (#[trigger] days[b]).day,
    ensures
        dayed_sum(msgs, f, n, days) == dated_field_sum(msgs, f, n),
    decreases n,
{
    if n == 0 {
        lemma_dayed_sum_zero(msgs, f, days);
    } else {
        lemma_dayed_sum_total(msgs, f, n - 1, days);
        lemma_dayed_sum_step(msgs, f, n - 1, days);
        if msgs[n - 1].day is Some {
            assert(day_in(days, msgs[n - 1].day->0));
        }
    }
}

proof fn lemma_days_tokens_field(msgs: Seq<UsageMessage>, f: int, n: int, days: Seq<DailyGroup>)
    requires
        forall|g: int| 0 <= g < days.len() ==> (#[trigger] days[g]).tokens == tokens_sum(msgs, days[g].members@),
        forall|g: int| 0 <= g < days.len() ==> (#[trigger] days[g]).members@ == members_with_num(day_view(msgs), all_indices(n), days[g].day),
    ensures
        dayed_sum(msgs, f, n, days) >= 0,
        tok_field(days_tokens(days), f) == if dayed_sum(msgs, f, n, days) > u64::MAX {
            u64::MAX as int
        } else {
            dayed_sum(msgs, f, n, days)
        },
    decreases days.len(),
{
    if days.len() > 0 {
        let d0 = days.drop_last();
        assert forall|g: int| 0 <= g < d0.len() implies (#[trigger] d0[g]).tokens == tokens_sum(msgs, d0[g].members@) && d0[g].members@ == members_with_num(day_view(msgs), all_indices(n), d0[g].day) by {
            assert(d0[g] == days[g]);
        }
        lemma_days_tokens_field(msgs, f, n, d0);
        let last = days[days.len() - 1];
        lemma_tokens_sum_field(msgs, f, last.members@);
        lemma_field_of_plus(days_tokens(d0), last.tokens, f);
    }
}

/// No dated tokens are lost or counted twice by the daily rows: summing the days' token
/// breakdowns (saturating) gives, in every category, the exact sum over all messages that
/// have a day, capped at `u64::MAX` as every sum here is.
pub proof fn lemma_daily_rows_conserve_tokens(msgs: Seq<UsageMessage>, group_by: GroupBy, days: Seq<DailyGroup>, f: int)
    requires
        msgs.len() <= usize::MAX,
        is_num_grouping(day_view(msgs), all_indices(msgs.len() as int), day_nums_of(days), day_members_of(days)),
        forall|g: int| 0 <= g < days.len() ==> daily_fields(msgs, group_by, #[trigger] days[g]),
    ensures
        tok_field(days_tokens(days), f) == if dated_field_sum(msgs, f, msgs.len() as int) > u64::MAX {
            u64::MAX as int
        } else {
            dated_field_sum(msgs, f, msgs.len() as int)
        },
{
    let kv = day_view(msgs);
    let n = msgs.len() as int;
    let all = all_indices(n);
    assert forall|g: int| 0 <= g < days.len() implies (#[trigger] days[g]).members@ == members_with_num(kv, all, days[g].day) by {
        assert(day_members_of(days)[g] == days[g].members);
        assert(day_nums_of(days)[g] == days[g].day);
    }
    assert forall|g: int| 0 <= g < days.len() implies (#[trigger] days[g]).tokens == tokens_sum(msgs, days[g].members@) by {
        assert(daily_fields(msgs, group_by, days[g]));
    }
    assert forall|a: int, b: int| 0 <= a < b < days.len() implies (#[trigger] days[a]).day != (#[trigger] days[b]).day by {
        assert(day_nums_of(days)[a] == days[a].day);
        assert(day_nums_of(days)[b] == days[b].day);
    }
    assert forall|i: int| 0 <= i < msgs.len() && (#[trigger] msgs[i]).day is Some implies day_in(days, msgs[i].day->0) by {
        let d = msgs[i].day->0;
        assert(all[i] == i as usize);
        assert(kv[i] == Some(d));
        assert(0 <= i < all.len() && (all[i] as int) < kv.len() && kv[all[i] as int] == Some(d));
        assert(num_occurs(kv, all, d));
        let g = choose|g: int| 0 <= g < day_nums_of(days).len() && day_nums_of(days)[g] == d;
        assert(day_nums_of(days)[g] == days[g].day);
    }
    lemma_days_tokens_field(msgs, f, n, days);
    lemma_dayed_sum_total(msgs, f, n, days);
}

} // verus!

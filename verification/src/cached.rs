//! Agent rows read back from the dashboard cache, merged under their normalised names.
use vstd::prelude::*;

use crate::aggregate::{all_indices, lemma_members_carry_key};
use crate::clients::strings_view;
use crate::group::{group_indices_sorted, is_grouping, keys_view, members_with_key, sorted_names};
use crate::price::{sorted_distinct_of, sorted_distinct_strings};
use crate::text::{chars_of, find_first, find_seq, slice_chars, string_from_chars};
use crate::tokens::TokenBreakdown;
use crate::usage::split_contains;

verus! {

/// The `", "`-separated pieces of `s`, in order (a string without separator is one piece).
pub open spec fn split_pieces(s: Seq<char>) -> Seq<Seq<char>>
    decreases s.len(),
{
    match find_first(s, ", "@) {
        None => seq![s],
        Some(i) => if 0 <= i && i + 2 <= s.len() {
            seq![s.take(i)] + split_pieces(s.skip(i + 2))
        } else {
            seq![s]
        },
    }
}

/// The non-empty pieces of a list of pieces.
pub open spec fn nonempty_pieces(p: Seq<Seq<char>>) -> Seq<Seq<char>>
    decreases p.len(),
{
    if p.len() == 0 {
        Seq::empty()
    } else if p[0].len() == 0 {
        nonempty_pieces(p.drop_first())
    } else {
        seq![p[0]] + nonempty_pieces(p.drop_first())
    }
}

proof fn lemma_nonempty_pieces_append(a: Seq<Seq<char>>, b: Seq<Seq<char>>)
    ensures
        nonempty_pieces(a + b) == nonempty_pieces(a) + nonempty_pieces(b),
    decreases a.len(),
{
    if a.len() > 0 {
        assert((a + b).drop_first() =~= a.drop_first() + b);
        lemma_nonempty_pieces_append(a.drop_first(), b);
        assert(seq![a[0]] + (nonempty_pieces(a.drop_first()) + nonempty_pieces(b)) =~= (seq![a[0]]
            + nonempty_pieces(a.drop_first())) + nonempty_pieces(b));
    } else {
        assert(a + b =~= b);
    }
}

/// Appends the non-empty `", "`-separated pieces of `s` to `out`.
fn push_pieces(out: &mut Vec<String>, s: &str)
    ensures
        strings_view(final(out)@) == strings_view(old(out)@) + nonempty_pieces(split_pieces(s@)),
{
    let sep = chars_of(", ");
    let mut rest = chars_of(s);
    let ghost start = strings_view(out@);
    loop
        invariant
            sep@ == ", "@,
            start == strings_view(old(out)@),
            strings_view(out@) + nonempty_pieces(split_pieces(rest@)) == start + nonempty_pieces(split_pieces(s@)),
        decreases rest@.len(),
    {
        match find_seq(rest.as_slice(), sep.as_slice()) {
            None => {
                proof {
                    reveal_strlit(", ");
                }
                assert(split_pieces(rest@) == seq![rest@]);
                let ghost before = strings_view(out@);
                if rest.len() > 0 {
                    out.push(string_from_chars(rest.as_slice()));
                    assert(strings_view(out@) =~= before.push(rest@));
                    assert(nonempty_pieces(seq![rest@]) =~= seq![rest@] + nonempty_pieces(seq![rest@].drop_first()));
                    assert(nonempty_pieces(seq![rest@].drop_first()) =~= Seq::<Seq<char>>::empty());
                    assert(before.push(rest@) =~= before + seq![rest@]);
                } else {
                    assert(nonempty_pieces(seq![rest@].drop_first()) =~= Seq::<Seq<char>>::empty());
                    assert(before + nonempty_pieces(seq![rest@]) =~= before);
                }
                assert(strings_view(out@) == before + nonempty_pieces(seq![rest@]));
                assert(strings_view(out@) == start + nonempty_pieces(split_pieces(s@)));
                return;
            },
            Some(i) => {
                proof {
                    crate::text::lemma_find_first_occurs(rest@, sep@);
                    reveal_strlit(", ");
                }
                let n = rest.len();
                let head = slice_chars(rest.as_slice(), 0, i);
                assert(head@ =~= rest@.take(i as int));
                let tail = slice_chars(rest.as_slice(), i + 2, n);
                assert(tail@ =~= rest@.skip(i + 2));
                let ghost before = strings_view(out@);
                proof {
                    lemma_nonempty_pieces_append(seq![head@], split_pieces(tail@));
                    assert(nonempty_pieces(seq![head@].drop_first()) =~= Seq::<Seq<char>>::empty());
                }
                if head.len() > 0 {
                    out.push(string_from_chars(head.as_slice()));
                    assert(strings_view(out@) =~= before + seq![head@]);
                } else {
                    assert(nonempty_pieces(seq![head@]) =~= Seq::<Seq<char>>::empty());
                }
                rest = tail;
            },
        }
    }
}

/// Whether a cached agent row belongs to OpenCode (one of its clients is `opencode`), whose
/// agent names are normalised by OpenCode's rules.
pub fn uses_opencode_agent_names(clients: &str) -> (r: bool)
    ensures
        r == split_contains(clients@, "opencode"@),
{
    crate::usage::split_contains_exec(clients, "opencode")
}

/// An agent row read back from the cache, under its normalised agent name.
#[derive(Debug, Clone)]
pub struct CachedAgentRow {
    pub agent: String,
    /// The row's clients, `", "`-joined.
    pub clients: String,
    pub tokens: TokenBreakdown,
    pub message_count: u32,
}

/// The clients of some cached rows: the non-empty pieces of their client lists, row by row.
pub open spec fn cached_clients(rows: Seq<CachedAgentRow>, m: Seq<usize>) -> Seq<Seq<char>>
    decreases m.len(),
{
    if m.len() == 0 {
        Seq::empty()
    } else {
        cached_clients(rows, m.drop_last()) + nonempty_pieces(split_pieces(rows[m.last() as int].clients@))
    }
}

/// The saturating token sum of some cached rows.
pub open spec fn cached_tokens(rows: Seq<CachedAgentRow>, m: Seq<usize>) -> TokenBreakdown
    decreases m.len(),
{
    if m.len() == 0 {
        TokenBreakdown { input: 0, output: 0, cache_read: 0, cache_write: 0, reasoning: 0 }
    } else {
        cached_tokens(rows, m.drop_last()).spec_plus(rows[m.last() as int].tokens)
    }
}

/// The message count of some cached rows, saturating at `u32::MAX`.
pub open spec fn cached_messages(rows: Seq<CachedAgentRow>, m: Seq<usize>) -> int
    decreases m.len(),
{
    if m.len() == 0 {
        0
    } else {
        let s = cached_messages(rows, m.drop_last()) + rows[m.last() as int].message_count;
        if s > u32::MAX { u32::MAX as int } else { s }
    }
}

/// Cached agent rows merged under one agent name.
#[derive(Debug, Clone)]
pub struct MergedAgent {
    pub agent: String,
    pub client_list: Vec<String>,
    pub clients: String,
    pub tokens: TokenBreakdown,
    pub message_count: u32,
    /// The indices of the merged rows, in row order.
    pub members: Vec<usize>,
}

/// The fields of a merged agent follow from its rows.
pub open spec fn merged_agent_fields(rows: Seq<CachedAgentRow>, a: MergedAgent) -> bool {
    let m = a.members@;
    &&& sorted_distinct_of(cached_clients(rows, m), a.client_list@)
    &&& a.clients@ == crate::aggregate::join_names(strings_view(a.client_list@))
    &&& a.tokens == cached_tokens(rows, m)
    &&& a.message_count == cached_messages(rows, m)
}

/// The agent of every cached row.
pub open spec fn cached_agent_view(rows: Seq<CachedAgentRow>) -> Seq<Option<Seq<char>>> {
    Seq::new(rows.len(), |i: int| Some(rows[i].agent@))
}

/// The agents of a list of merged agents.
pub open spec fn merged_agent_keys(r: Seq<MergedAgent>) -> Seq<String> {
    r.map_values(|g: MergedAgent| g.agent)
}

/// The member lists of a list of merged agents.
pub open spec fn merged_agent_members(r: Seq<MergedAgent>) -> Seq<Vec<usize>> {
    r.map_values(|g: MergedAgent| g.members)
}

fn merge_agent(rows: &Vec<CachedAgentRow>, agent: &String, m: &Vec<usize>) -> (a: MergedAgent)
    requires
        forall|j: int| 0 <= j < m@.len() ==> (#[trigger] m@[j] as int) < rows@.len(),
    ensures
        a.agent@ == agent@,
        a.members@ == m@,
        merged_agent_fields(rows@, a),
{
    let mut tokens = TokenBreakdown { input: 0, output: 0, cache_read: 0, cache_write: 0, reasoning: 0 };
    let mut messages: u32 = 0;
    let mut clients: Vec<String> = Vec::new();
    let n = m.len();
    let mut j: usize = 0;
    while j < n
        invariant
            n == m@.len(),
            forall|q: int| 0 <= q < m@.len() ==> (#[trigger] m@[q] as int) < rows@.len(),
            j <= n,
            tokens == cached_tokens(rows@, m@.take(j as int)),
            messages == cached_messages(rows@, m@.take(j as int)),
            strings_view(clients@) == cached_clients(rows@, m@.take(j as int)),
        decreases n - j,
    {
        assert(m@.take(j + 1).drop_last() =~= m@.take(j as int));
        let row = &rows[m[j]];
        tokens.add_tokens(&row.tokens);
        messages = messages.saturating_add(row.message_count);
        push_pieces(&mut clients, row.clients.as_str());
        j = j + 1;
    }
    assert(m@.take(n as int) =~= m@);
    let client_list = sorted_distinct_strings(&clients);
    let joined = crate::aggregate::join_comma(&client_list);
    MergedAgent {
        agent: agent.clone(),
        client_list,
        clients: joined,
        tokens,
        message_count: messages,
        members: m.clone(),
    }
}

/// Merges cached agent rows that share a normalised agent name, in increasing name order.
pub fn normalize_cached_agents(rows: &Vec<CachedAgentRow>) -> (r: Vec<MergedAgent>)
    ensures
        is_grouping(cached_agent_view(rows@), all_indices(rows@.len() as int), merged_agent_keys(r@), merged_agent_members(r@)),
        sorted_names(merged_agent_keys(r@)),
        forall|g: int| 0 <= g < r@.len() ==> merged_agent_fields(rows@, #[trigger] r@[g]),
{
    let mut keys: Vec<Option<String>> = Vec::new();
    let nr = rows.len();
    let mut i: usize = 0;
    while i < nr
        invariant
            nr == rows@.len(),
            i <= nr,
            keys_view(keys@) =~= cached_agent_view(rows@).take(i as int),
        decreases nr - i,
    {
        let ghost before = keys@;
        let c = rows[i].agent.clone();
        keys.push(Some(c));
        assert(keys_view(keys@) =~= keys_view(before).push(Some(rows@[i as int].agent@)));
        i = i + 1;
    }
    assert(cached_agent_view(rows@).take(nr as int) =~= cached_agent_view(rows@));
    let all = crate::aggregate::index_list(nr);
    let ghost kv = cached_agent_view(rows@);
    let (names, members) = group_indices_sorted(&keys, &all);
    let mut r: Vec<MergedAgent> = Vec::new();
    let n = names.len();
    let mut h: usize = 0;
    while h < n
        invariant
            n == names@.len(),
            kv == cached_agent_view(rows@),
            kv.len() == rows@.len(),
            all@ == all_indices(rows@.len() as int),
            is_grouping(kv, all@, names@, members@),
            h <= n,
            r@.len() == h,
            forall|g: int| 0 <= g < h ==> (#[trigger] r@[g]).agent@ == names@[g]@ && r@[g].members@ == members@[g]@,
            forall|g: int| 0 <= g < h ==> merged_agent_fields(rows@, #[trigger] r@[g]),
        decreases n - h,
    {
        proof {
            lemma_members_carry_key(kv, all@, names@[h as int]@);
            assert(members@[h as int]@ == members_with_key(kv, all@, names@[h as int]@));
        }
        let g = merge_agent(rows, &names[h], &members[h]);
        r.push(g);
        h = h + 1;
    }
    proof {
        assert forall|g: int| 0 <= g < n implies (#[trigger] merged_agent_keys(r@)[g])@ == names@[g]@ by {}
        assert forall|g: int| 0 <= g < n implies (#[trigger] merged_agent_members(r@)[g])@ == members@[g]@ by {}
        assert forall|a: int, b: int| 0 <= a < b < n implies (#[trigger] merged_agent_keys(r@)[a])@ != (#[trigger] merged_agent_keys(r@)[b])@ by {
            assert(names@[a]@ != names@[b]@);
        }
        assert forall|a: int, b: int| 0 <= a < b < n implies crate::text::lex_lt((#[trigger] merged_agent_keys(r@)[a])@, (#[trigger] merged_agent_keys(r@)[b])@) by {
            assert(crate::text::lex_lt(names@[a]@, names@[b]@));
        }
        assert forall|k: Seq<char>| #[trigger] crate::group::key_occurs(kv, all@, k) implies exists|g: int| 0 <= g < n && (#[trigger] merged_agent_keys(r@)[g])@ == k by {
            let g = choose|g: int| 0 <= g < names@.len() && (#[trigger] names@[g])@ == k;
            assert(merged_agent_keys(r@)[g]@ == k);
        }
    }
    r
}

} // verus!

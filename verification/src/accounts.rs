//! Per-account summaries of Codex usage.
use vstd::prelude::*;

use crate::aggregate::{all_indices, lemma_members_carry_key};
use crate::clients::strings_view;
use crate::group::{group_indices_sorted, is_grouping, keys_view, members_with_key, sorted_names};
use crate::grouping::{is_billable_codex_account_bucket, spec_is_billable_bucket};
use crate::streaks::{has_date, sorted_distinct_days, strictly_sorted};
use crate::text::str_equal;
use crate::tokens::TokenBreakdown;
use crate::usage::{
    count_distinct_strings, distinct_count, members_in, message_sum_sat, sum_messages_sat_u32,
    sum_tokens, tokens_sum, UsageMessage,
};

verus! {

/// The bucket of Codex messages that the ledger did not attribute.
pub open spec fn unattributed_bucket() -> Seq<char> {
    "unattributed"@
}

/// The account bucket of every message: its hash, or `unattributed`, for Codex messages;
/// none for other clients.
pub open spec fn account_key_view(msgs: Seq<UsageMessage>) -> Seq<Option<Seq<char>>> {
    Seq::new(
        msgs.len(),
        |i: int|
            if msgs[i].client@ == "codex"@ {
                Some(
                    match msgs[i].codex_account_hash {
                        Some(h) => h@,
                        None => unattributed_bucket(),
                    },
                )
            } else {
                None
            },
    )
}

fn account_keys(msgs: &Vec<UsageMessage>) -> (r: Vec<Option<String>>)
    ensures
        keys_view(r@) == account_key_view(msgs@),
{
    let mut r: Vec<Option<String>> = Vec::new();
    let n = msgs.len();
    let mut i: usize = 0;
    while i < n
        invariant
            n == msgs@.len(),
            i <= n,
            keys_view(r@) =~= account_key_view(msgs@).take(i as int),
        decreases n - i,
    {
        let m = &msgs[i];
        let k: Option<String> = if str_equal(m.client.as_str(), "codex") {
            match &m.codex_account_hash {
                Some(h) => Some(h.clone()),
                None => Some("unattributed".to_owned()),
            }
        } else {
            None
        };
        let ghost before = r@;
        r.push(k);
        assert(keys_view(r@) =~= keys_view(before).push(account_key_view(msgs@)[i as int]));
        i = i + 1;
    }
    assert(account_key_view(msgs@).take(n as int) =~= account_key_view(msgs@));
    r
}

/// The number of members that start a turn, saturating at `u32::MAX`.
pub open spec fn turn_sum_sat(msgs: Seq<UsageMessage>, m: Seq<usize>) -> int
    decreases m.len(),
{
    if m.len() == 0 {
        0
    } else {
        let prev = turn_sum_sat(msgs, m.drop_last());
        if msgs[m.last() as int].is_turn_start && prev < u32::MAX {
            prev + 1
        } else {
            prev
        }
    }
}

/// The earliest day among the members that have one.
pub open spec fn first_day(msgs: Seq<UsageMessage>, m: Seq<usize>) -> Option<i64>
    decreases m.len(),
{
    if m.len() == 0 {
        None
    } else {
        let prev = first_day(msgs, m.drop_last());
        match msgs[m.last() as int].day {
            None => prev,
            Some(d) => match prev {
                None => Some(d),
                Some(p) => Some(if d < p { d } else { p }),
            },
        }
    }
}

/// The latest day among the members that have one.
pub open spec fn latest_day(msgs: Seq<UsageMessage>, m: Seq<usize>) -> Option<i64>
    decreases m.len(),
{
    if m.len() == 0 {
        None
    } else {
        let prev = latest_day(msgs, m.drop_last());
        match msgs[m.last() as int].day {
            None => prev,
            Some(d) => match prev {
                None => Some(d),
                Some(p) => Some(if d > p { d } else { p }),
            },
        }
    }
}

/// The months of the members that have one, in member order.
pub open spec fn member_months(msgs: Seq<UsageMessage>, m: Seq<usize>) -> Seq<i64>
    decreases m.len(),
{
    if m.len() == 0 {
        Seq::empty()
    } else {
        let prev = member_months(msgs, m.drop_last());
        match msgs[m.last() as int].month {
            None => prev,
            Some(x) => prev.push(x),
        }
    }
}

/// The session ids of the members, in member order.
pub open spec fn member_sessions(msgs: Seq<UsageMessage>, m: Seq<usize>) -> Seq<Seq<char>> {
    m.map_values(|i: usize| msgs[i as int].session_id@)
}

/// `n` capped at `u32::MAX`.
pub open spec fn cap_u32(n: int) -> int {
    if n > u32::MAX {
        u32::MAX as int
    } else {
        n
    }
}

/// One Codex account row.
#[derive(Debug, Clone)]
pub struct CodexAccountGroup {
    pub account_hash: String,
    pub tokens: TokenBreakdown,
    /// The message count, saturating at `u32::MAX`.
    pub message_count: u32,
    /// The number of turns started, saturating at `u32::MAX`.
    pub turn_count: u32,
    /// The number of distinct sessions, saturating at `u32::MAX`.
    pub session_count: u32,
    /// For a real account, the number of distinct months with usage (saturating); none for
    /// the `unattributed`, `mixed` and `ledger_error` buckets.
    pub active_month_count: Option<u32>,
    pub first_day: Option<i64>,
    pub latest_day: Option<i64>,
    pub members: Vec<usize>,
}

/// The fields of an account row follow from its bucket and its members.
pub open spec fn account_fields(msgs: Seq<UsageMessage>, g: CodexAccountGroup) -> bool {
    let m = g.members@;
    &&& g.tokens == tokens_sum(msgs, m)
    &&& g.message_count == message_sum_sat(msgs, m, u32::MAX as int)
    &&& g.turn_count == turn_sum_sat(msgs, m)
    &&& g.session_count == cap_u32(distinct_count(member_sessions(msgs, m)) as int)
    &&& g.active_month_count == if spec_is_billable_bucket(g.account_hash@) {
        Some(cap_u32(member_months(msgs, m).to_set().len() as int) as u32)
    } else {
        None::<u32>
    }
    &&& g.first_day == first_day(msgs, m)
    &&& g.latest_day == latest_day(msgs, m)
}

proof fn lemma_day_bounds(msgs: Seq<UsageMessage>, m: Seq<usize>)
    ensures
        forall|j: int| 0 <= j < m.len() && (#[trigger] msgs[m[j] as int]).day is Some ==> {
            &&& first_day(msgs, m) is Some
            &&& first_day(msgs, m)->0 <= msgs[m[j] as int].day->0
            &&& latest_day(msgs, m) is Some
            &&& msgs[m[j] as int].day->0 <= latest_day(msgs, m)->0
        },
        first_day(msgs, m) is Some ==> exists|j: int| 0 <= j < m.len() && (#[trigger] msgs[m[j] as int]).day == first_day(msgs, m),
        latest_day(msgs, m) is Some ==> exists|j: int| 0 <= j < m.len() && (#[trigger] msgs[m[j] as int]).day == latest_day(msgs, m),
    decreases m.len(),
{
    if m.len() > 0 {
        let m0 = m.drop_last();
        lemma_day_bounds(msgs, m0);
        assert forall|j: int| 0 <= j < m0.len() implies m0[j] == m[j] by {}
        let last = m.len() - 1;
        assert(m[last] == m.last());
        if first_day(msgs, m0) is Some {
            let j = choose|j: int| 0 <= j < m0.len() && (#[trigger] msgs[m0[j] as int]).day == first_day(msgs, m0);
            assert(msgs[m[j] as int].day == first_day(msgs, m0));
        }
        if latest_day(msgs, m0) is Some {
            let j = choose|j: int| 0 <= j < m0.len() && (#[trigger] msgs[m0[j] as int]).day == latest_day(msgs, m0);
            assert(msgs[m[j] as int].day == latest_day(msgs, m0));
        }
        assert forall|j: int| 0 <= j < m.len() && (#[trigger] msgs[m[j] as int]).day is Some implies {
            &&& first_day(msgs, m) is Some
            &&& first_day(msgs, m)->0 <= msgs[m[j] as int].day->0
            &&& latest_day(msgs, m) is Some
            &&& msgs[m[j] as int].day->0 <= latest_day(msgs, m)->0
        } by {
            if j < last {
                assert(msgs[m0[j] as int].day is Some);
            }
        }
    }
}

/// An account row's first and latest days are the earliest and the latest days of its
/// messages: every dated message of the row lies between them, each of them is the day of
/// one of the row's messages, and they are absent exactly when none of its messages has a
/// day.
pub proof fn lemma_account_day_range(msgs: Seq<UsageMessage>, g: CodexAccountGroup)
    requires
        account_fields(msgs, g),
    ensures
        forall|j: int| 0 <= j < g.members@.len() && (#[trigger] msgs[g.members@[j] as int]).day is Some ==> {
            &&& g.first_day is Some
            &&& g.first_day->0 <= msgs[g.members@[j] as int].day->0
            &&& g.latest_day is Some
            &&& msgs[g.members@[j] as int].day->0 <= g.latest_day->0
        },
        g.first_day is Some ==> exists|j: int|
            0 <= j < g.members@.len() && (#[trigger] msgs[g.members@[j] as int]).day == g.first_day,
        g.latest_day is Some ==> exists|j: int|
            0 <= j < g.members@.len() && (#[trigger] msgs[g.members@[j] as int]).day == g.latest_day,
{
    lemma_day_bounds(msgs, g.members@);
}

/// The months in which some of the messages `m` fall.
pub open spec fn active_months(msgs: Seq<UsageMessage>, m: Seq<usize>) -> Set<i64> {
    Set::new(|x: i64| exists|j: int| 0 <= j < m.len() && (#[trigger] msgs[m[j] as int]).month == Some(x))
}

proof fn lemma_member_months_set(msgs: Seq<UsageMessage>, m: Seq<usize>)
    ensures
        member_months(msgs, m).to_set() == active_months(msgs, m),
    decreases m.len(),
{
    if m.len() == 0 {
        assert(member_months(msgs, m).to_set() =~= active_months(msgs, m));
    } else {
        let m0 = m.drop_last();
        lemma_member_months_set(msgs, m0);
        let last = m.len() - 1;
        assert(m[last] == m.last());
        assert forall|j: int| 0 <= j < m0.len() implies m0[j] == m[j] by {}
        let prev = member_months(msgs, m0);
        match msgs[m.last() as int].month {
            None => {
                assert forall|x: i64| active_months(msgs, m).contains(x) implies active_months(msgs, m0).contains(x) by {
                    let j = choose|j: int| 0 <= j < m.len() && (#[trigger] msgs[m[j] as int]).month == Some(x);
                    assert(j != last);
                    assert(msgs[m0[j] as int].month == Some(x));
                }
                assert forall|x: i64| active_months(msgs, m0).contains(x) implies active_months(msgs, m).contains(x) by {
                    let j = choose|j: int| 0 <= j < m0.len() && (#[trigger] msgs[m0[j] as int]).month == Some(x);
                    assert(msgs[m[j] as int].month == Some(x));
                }
                assert(active_months(msgs, m) =~= active_months(msgs, m0));
            },
            Some(y) => {
                assert(prev.push(y).to_set() =~= prev.to_set().insert(y)) by {
                    assert forall|x: i64| prev.push(y).to_set().contains(x) <==> prev.to_set().insert(y).contains(x) by {
                        if prev.push(y).contains(x) && x != y {
                            let i = choose|i: int| 0 <= i < prev.push(y).len() && prev.push(y)[i] == x;
                            assert(prev[i] == x);
                        }
                        if prev.contains(x) {
                            let i = choose|i: int| 0 <= i < prev.len() && prev[i] == x;
                            assert(prev.push(y)[i] == x);
                        }
                        if x == y {
                            assert(prev.push(y)[prev.len() as int] == y);
                        }
                    }
                }
                assert forall|x: i64| active_months(msgs, m).contains(x) implies active_months(msgs, m0).insert(y).contains(x) by {
                    let j = choose|j: int| 0 <= j < m.len() && (#[trigger] msgs[m[j] as int]).month == Some(x);
                    if j != last {
                        assert(msgs[m0[j] as int].month == Some(x));
                    }
                }
                assert forall|x: i64| active_months(msgs, m0).insert(y).contains(x) implies active_months(msgs, m).contains(x) by {
                    if x == y {
                        assert(msgs[m[last] as int].month == Some(x));
                    } else {
                        let j = choose|j: int| 0 <= j < m0.len() && (#[trigger] msgs[m0[j] as int]).month == Some(x);
                        assert(msgs[m[j] as int].month == Some(x));
                    }
                }
                assert(active_months(msgs, m) =~= active_months(msgs, m0).insert(y));
            },
        }
    }
}

/// A real account's active-month count is the number of distinct months in which its
/// messages fall (capped at `u32::MAX`); the other buckets have none.
pub proof fn lemma_account_active_months(msgs: Seq<UsageMessage>, g: CodexAccountGroup)
    requires
        account_fields(msgs, g),
    ensures
        spec_is_billable_bucket(g.account_hash@) ==> g.active_month_count == Some(
            cap_u32(active_months(msgs, g.members@).len() as int) as u32,
        ),
        !spec_is_billable_bucket(g.account_hash@) ==> g.active_month_count is None,
{
    lemma_member_months_set(msgs, g.members@);
}

/// The session ids of some of the messages `m`.
pub open spec fn session_ids(msgs: Seq<UsageMessage>, m: Seq<usize>) -> Set<Seq<char>> {
    Set::new(|x: Seq<char>| exists|j: int| 0 <= j < m.len() && (#[trigger] msgs[m[j] as int]).session_id@ == x)
}

/// An account row counts each of its sessions once: its session count is the number of
/// distinct session ids among its messages (capped at `u32::MAX`).
pub proof fn lemma_account_sessions(msgs: Seq<UsageMessage>, g: CodexAccountGroup)
    requires
        account_fields(msgs, g),
    ensures
        g.session_count == cap_u32(session_ids(msgs, g.members@).len() as int),
{
    let m = g.members@;
    let v = member_sessions(msgs, m);
    assert forall|x: Seq<char>| v.to_set().contains(x) <==> session_ids(msgs, m).contains(x) by {
        if v.contains(x) {
            let k = choose|k: int| 0 <= k < v.len() && v[k] == x;
            assert(msgs[m[k] as int].session_id@ == x);
        }
        if session_ids(msgs, m).contains(x) {
            let j = choose|j: int| 0 <= j < m.len() && (#[trigger] msgs[m[j] as int]).session_id@ == x;
            assert(v[j] == x);
        }
    }
    assert(v.to_set() =~= session_ids(msgs, m));
}

fn count_turns_sat(msgs: &Vec<UsageMessage>, m: &Vec<usize>) -> (r: u32)
    requires
        members_in(msgs@, m@),
    ensures
        r == turn_sum_sat(msgs@, m@),
{
    let mut s: u32 = 0;
    let n = m.len();
    let mut j: usize = 0;
    while j < n
        invariant
            n == m@.len(),
            members_in(msgs@, m@),
            j <= n,
            s == turn_sum_sat(msgs@, m@.take(j as int)),
        decreases n - j,
    {
        assert(m@.take(j + 1).drop_last() =~= m@.take(j as int));
        if msgs[m[j]].is_turn_start {
            s = s.saturating_add(1);
        }
        j = j + 1;
    }
    assert(m@.take(n as int) =~= m@);
    s
}

fn day_range(msgs: &Vec<UsageMessage>, m: &Vec<usize>) -> (r: (Option<i64>, Option<i64>))
    requires
        members_in(msgs@, m@),
    ensures
        r.0 == first_day(msgs@, m@),
        r.1 == latest_day(msgs@, m@),
{
    let mut lo: Option<i64> = None;
    let mut hi: Option<i64> = None;
    let n = m.len();
    let mut j: usize = 0;
    while j < n
        invariant
            n == m@.len(),
            members_in(msgs@, m@),
            j <= n,
            lo == first_day(msgs@, m@.take(j as int)),
            hi == latest_day(msgs@, m@.take(j as int)),
        decreases n - j,
    {
        assert(m@.take(j + 1).drop_last() =~= m@.take(j as int));
        match msgs[m[j]].day {
            Some(d) => {
                lo = match lo {
                    None => Some(d),
                    Some(p) => Some(if d < p { d } else { p }),
                };
                hi = match hi {
                    None => Some(d),
                    Some(p) => Some(if d > p { d } else { p }),
                };
            },
            None => {},
        }
        j = j + 1;
    }
    assert(m@.take(n as int) =~= m@);
    (lo, hi)
}

fn months_of(msgs: &Vec<UsageMessage>, m: &Vec<usize>) -> (r: Vec<i64>)
    requires
        members_in(msgs@, m@),
    ensures
        r@ == member_months(msgs@, m@),
{
    let mut r: Vec<i64> = Vec::new();
    let n = m.len();
    let mut j: usize = 0;
    while j < n
        invariant
            n == m@.len(),
            members_in(msgs@, m@),
            j <= n,
            r@ == member_months(msgs@, m@.take(j as int)),
        decreases n - j,
    {
        assert(m@.take(j + 1).drop_last() =~= m@.take(j as int));
        match msgs[m[j]].month {
            Some(x) => r.push(x),
            None => {},
        }
        j = j + 1;
    }
    assert(m@.take(n as int) =~= m@);
    r
}

/// The number of distinct numbers in a list.
fn count_distinct_numbers(v: &Vec<i64>) -> (r: usize)
    ensures
        r == v@.to_set().len(),
{
    let a = sorted_distinct_days(v);
    proof {
        assert(a@.no_duplicates()) by {
            assert forall|x: int, y: int| 0 <= x < a@.len() && 0 <= y < a@.len() && x != y implies a@[x] != a@[y] by {
                if x < y {
                    assert(a@[x] < a@[y]);
                } else {
                    assert(a@[y] < a@[x]);
                }
            }
        }
        assert(a@.to_set() =~= v@.to_set()) by {
            assert forall|d: i64| a@.to_set().contains(d) <==> v@.to_set().contains(d) by {
                assert(has_date(a@, d as int) <==> has_date(v@, d as int));
                if a@.to_set().contains(d) {
                    let w = choose|w: int| 0 <= w < a@.len() && a@[w] == d;
                    assert(has_date(a@, d as int));
                    let z = choose|z: int| 0 <= z < v@.len() && v@[z] as int == d as int;
                    assert(v@[z] == d);
                }
                if v@.to_set().contains(d) {
                    let z = choose|z: int| 0 <= z < v@.len() && v@[z] == d;
                    assert(has_date(v@, d as int));
                    let w = choose|w: int| 0 <= w < a@.len() && a@[w] as int == d as int;
                    assert(a@[w] == d);
                }
            }
        }
        a@.unique_seq_to_set();
    }
    a.len()
}

fn sessions_of(msgs: &Vec<UsageMessage>, m: &Vec<usize>) -> (r: Vec<String>)
    requires
        members_in(msgs@, m@),
    ensures
        strings_view(r@) == member_sessions(msgs@, m@),
{
    let mut r: Vec<String> = Vec::new();
    let n = m.len();
    let mut j: usize = 0;
    while j < n
        invariant
            n == m@.len(),
            members_in(msgs@, m@),
            j <= n,
            strings_view(r@) =~= member_sessions(msgs@, m@.take(j as int)),
        decreases n - j,
    {
        let k = msgs[m[j]].session_id.clone();
        let ghost before = r@;
        r.push(k);
        assert(strings_view(r@) =~= strings_view(before).push(k@));
        assert(m@.take(j + 1) =~= m@.take(j as int).push(m@[j as int]));
        j = j + 1;
    }
    assert(m@.take(n as int) =~= m@);
    r
}

fn cap(n: usize) -> (r: u32)
    ensures
        r == cap_u32(n as int),
{
    if n > 4294967295usize {
        4294967295u32
    } else {
        n as u32
    }
}

fn build_account(msgs: &Vec<UsageMessage>, hash: &String, m: &Vec<usize>) -> (g: CodexAccountGroup)
    requires
        members_in(msgs@, m@),
    ensures
        g.account_hash@ == hash@,
        g.members@ == m@,
        account_fields(msgs@, g),
{
    let sessions = sessions_of(msgs, m);
    let session_count = cap(count_distinct_strings(&sessions));
    let active_month_count = if is_billable_codex_account_bucket(hash.as_str()) {
        let months = months_of(msgs, m);
        Some(cap(count_distinct_numbers(&months)))
    } else {
        None
    };
    let (first, latest) = day_range(msgs, m);
    CodexAccountGroup {
        account_hash: hash.clone(),
        tokens: sum_tokens(msgs, m),
        message_count: sum_messages_sat_u32(msgs, m),
        turn_count: count_turns_sat(msgs, m),
        session_count,
        active_month_count,
        first_day: first,
        latest_day: latest,
        members: m.clone(),
    }
}

/// The account buckets of a list of account rows.
pub open spec fn account_keys_of(r: Seq<CodexAccountGroup>) -> Seq<String> {
    r.map_values(|g: CodexAccountGroup| g.account_hash)
}

/// The member lists of a list of account rows.
pub open spec fn account_members_of(r: Seq<CodexAccountGroup>) -> Seq<Vec<usize>> {
    r.map_values(|g: CodexAccountGroup| g.members)
}

/// The Codex account rows of a list of messages, in increasing bucket order: one row per
/// account bucket, holding exactly the Codex messages of that bucket.
pub fn build_codex_account_summaries(msgs: &Vec<UsageMessage>) -> (r: Vec<CodexAccountGroup>)
    ensures
        is_grouping(
            account_key_view(msgs@),
            all_indices(msgs@.len() as int),
            account_keys_of(r@),
            account_members_of(r@),
        ),
        sorted_names(account_keys_of(r@)),
        forall|g: int| 0 <= g < r@.len() ==> account_fields(msgs@, #[trigger] r@[g]),
{
    let keys = account_keys(msgs);
    let all = crate::aggregate::index_list(msgs.len());
    let ghost kv = account_key_view(msgs@);
    let (names, members) = group_indices_sorted(&keys, &all);
    let mut r: Vec<CodexAccountGroup> = Vec::new();
    let n = names.len();
    let mut h: usize = 0;
    while h < n
        invariant
            n == names@.len(),
            kv == account_key_view(msgs@),
            kv.len() == msgs@.len(),
            all@ == all_indices(msgs@.len() as int),
            is_grouping(kv, all@, names@, members@),
            h <= n,
            r@.len() == h,
            forall|g: int| 0 <= g < h ==> (#[trigger] r@[g]).account_hash@ == names@[g]@ && r@[g].members@ == members@[g]@,
            forall|g: int| 0 <= g < h ==> account_fields(msgs@, #[trigger] r@[g]),
        decreases n - h,
    {
        proof {
            lemma_members_carry_key(kv, all@, names@[h as int]@);
            assert(members@[h as int]@ == members_with_key(kv, all@, names@[h as int]@));
        }
        let g = build_account(msgs, &names[h], &members[h]);
        r.push(g);
        h = h + 1;
    }
    proof {
        assert forall|g: int| 0 <= g < n implies (#[trigger] account_keys_of(r@)[g])@ == names@[g]@ by {}
        assert forall|g: int| 0 <= g < n implies (#[trigger] account_members_of(r@)[g])@ == members@[g]@ by {}
        assert forall|a: int, b: int| 0 <= a < b < n implies (#[trigger] account_keys_of(r@)[a])@ != (#[trigger] account_keys_of(r@)[b])@ by {
            assert(names@[a]@ != names@[b]@);
        }
        assert forall|a: int, b: int| 0 <= a < b < n implies crate::text::lex_lt((#[trigger] account_keys_of(r@)[a])@, (#[trigger] account_keys_of(r@)[b])@) by {
            assert(crate::text::lex_lt(names@[a]@, names@[b]@));
        }
        assert forall|k: Seq<char>| #[trigger] crate::group::key_occurs(kv, all@, k) implies exists|g: int| 0 <= g < n && (#[trigger] account_keys_of(r@)[g])@ == k by {
            let g = choose|g: int| 0 <= g < names@.len() && (#[trigger] names@[g])@ == k;
            assert(account_keys_of(r@)[g]@ == k);
        }
    }
    r
}

} // verus!

//! Parsed usage messages and the folds that aggregate a group of them.
use vstd::prelude::*;

use crate::clients::strings_view;
use crate::text::{find_first, push_str, chars_of, find_seq, slice_chars, chars_equal};
use crate::dates::{
    hour_bucket_with_fallback, hour_number_from, local_bucket_ok, opt_int, parse_date_day,
    parse_date_month, spec_date_day, spec_date_month,
};
use crate::ledger::{clone_opt_string, opt_view};
use crate::tokens::{clamp0, sat_add, SignedTokens, TokenBreakdown};

verus! {

/// The fields of a parsed usage message that aggregation reads. The model and agent names
/// are already normalised for grouping; the date and hour are the message's day number and
/// local hour number when its date parses.
#[derive(Debug, Clone)]
pub struct UsageMessage {
    pub client: String,
    pub model: String,
    pub provider_id: String,
    pub session_id: String,
    /// Milliseconds since the Unix epoch at which the message was recorded.
    pub timestamp: i64,
    pub workspace_key: Option<String>,
    pub workspace_label: Option<String>,
    /// The label derived from the workspace key, when one can be derived.
    pub workspace_label_from_key: Option<String>,
    pub agent: Option<String>,
    pub day: Option<i64>,
    /// The month number (`year * 12 + month - 1`) of the message's date, when it parses.
    pub month: Option<i64>,
    pub hour: Option<i64>,
    pub tokens: SignedTokens,
    pub message_count: i32,
    pub is_turn_start: bool,
    pub codex_account_hash: Option<String>,
    pub generation_duration_ms: Option<u64>,
}

/// A parsed message before its calendar fields are derived: the session parser's fields,
/// with the message's `YYYY-MM-DD` date as text.
#[derive(Debug, Clone)]
pub struct RawUsage {
    pub client: String,
    pub model: String,
    pub provider_id: String,
    pub session_id: String,
    pub timestamp: i64,
    pub date: String,
    pub workspace_key: Option<String>,
    pub workspace_label: Option<String>,
    pub workspace_label_from_key: Option<String>,
    pub agent: Option<String>,
    pub tokens: SignedTokens,
    pub message_count: i32,
    pub is_turn_start: bool,
    pub codex_account_hash: Option<String>,
    pub generation_duration_ms: Option<u64>,
}

/// The usage message of a parsed message: its fields carried over, its day and month
/// numbers read from its date, and its hour number from its local hour bucket (falling back
/// to midnight of its date).
pub fn usage_message(raw: &RawUsage) -> (m: UsageMessage)
    ensures
        m.client == raw.client,
        m.model == raw.model,
        m.provider_id == raw.provider_id,
        m.session_id == raw.session_id,
        m.timestamp == raw.timestamp,
        opt_view(m.workspace_key) == opt_view(raw.workspace_key),
        opt_view(m.workspace_label) == opt_view(raw.workspace_label),
        opt_view(m.workspace_label_from_key) == opt_view(raw.workspace_label_from_key),
        opt_view(m.agent) == opt_view(raw.agent),
        opt_int(m.day) == spec_date_day(raw.date@),
        opt_int(m.month) == spec_date_month(raw.date@),
        exists|b: Option<(i64, i64)>|
            local_bucket_ok(raw.timestamp, b) && opt_int(m.hour) == #[trigger] hour_number_from(
                b,
                raw.date@,
            ),
        m.tokens == raw.tokens,
        m.message_count == raw.message_count,
        m.is_turn_start == raw.is_turn_start,
        opt_view(m.codex_account_hash) == opt_view(raw.codex_account_hash),
        m.generation_duration_ms == raw.generation_duration_ms,
{
    let date = raw.date.as_str();
    UsageMessage {
        client: raw.client.clone(),
        model: raw.model.clone(),
        provider_id: raw.provider_id.clone(),
        session_id: raw.session_id.clone(),
        timestamp: raw.timestamp,
        workspace_key: clone_opt_string(&raw.workspace_key),
        workspace_label: clone_opt_string(&raw.workspace_label),
        workspace_label_from_key: clone_opt_string(&raw.workspace_label_from_key),
        agent: clone_opt_string(&raw.agent),
        day: parse_date_day(date),
        month: parse_date_month(date),
        hour: hour_bucket_with_fallback(raw.timestamp, date),
        tokens: raw.tokens,
        message_count: raw.message_count,
        is_turn_start: raw.is_turn_start,
        codex_account_hash: clone_opt_string(&raw.codex_account_hash),
        generation_duration_ms: raw.generation_duration_ms,
    }
}

/// All member indices are indices of `msgs`.
pub open spec fn members_in(msgs: Seq<UsageMessage>, m: Seq<usize>) -> bool {
    forall|j: int| 0 <= j < m.len() ==> (#[trigger] m[j] as int) < msgs.len()
}

/// The saturating sum of the (clamped) token counts of the members.
pub open spec fn tokens_sum(msgs: Seq<UsageMessage>, m: Seq<usize>) -> TokenBreakdown
    decreases m.len(),
{
    if m.len() == 0 {
        TokenBreakdown { input: 0, output: 0, cache_read: 0, cache_write: 0, reasoning: 0 }
    } else {
        tokens_sum(msgs, m.drop_last()).spec_plus(
            TokenBreakdown::spec_from_signed(msgs[m.last() as int].tokens),
        )
    }
}

/// The sum of the (clamped) message counts of the members, saturating at `bound`.
pub open spec fn message_sum_sat(msgs: Seq<UsageMessage>, m: Seq<usize>, bound: int) -> int
    decreases m.len(),
{
    if m.len() == 0 {
        0
    } else {
        let s = message_sum_sat(msgs, m.drop_last(), bound) + clamp0(
            msgs[m.last() as int].message_count as i64,
        );
        if s > bound {
            bound
        } else {
            s
        }
    }
}

/// The saturating token sum of the members.
pub fn sum_tokens(msgs: &Vec<UsageMessage>, m: &Vec<usize>) -> (r: TokenBreakdown)
    requires
        members_in(msgs@, m@),
    ensures
        r == tokens_sum(msgs@, m@),
{
    let mut t = TokenBreakdown { input: 0, output: 0, cache_read: 0, cache_write: 0, reasoning: 0 };
    let n = m.len();
    let mut j: usize = 0;
    while j < n
        invariant
            n == m@.len(),
            members_in(msgs@, m@),
            j <= n,
            t == tokens_sum(msgs@, m@.take(j as int)),
        decreases n - j,
    {
        assert(m@.take(j + 1).drop_last() =~= m@.take(j as int));
        let i = m[j];
        let add = TokenBreakdown::from_signed(&msgs[i].tokens);
        t.add_tokens(&add);
        j = j + 1;
    }
    assert(m@.take(n as int) =~= m@);
    t
}

/// The message count of the members, saturating at `u32::MAX`.
pub fn sum_messages_sat_u32(msgs: &Vec<UsageMessage>, m: &Vec<usize>) -> (r: u32)
    requires
        members_in(msgs@, m@),
    ensures
        r == message_sum_sat(msgs@, m@, u32::MAX as int),
{
    let mut s: u32 = 0;
    let n = m.len();
    let mut j: usize = 0;
    while j < n
        invariant
            n == m@.len(),
            members_in(msgs@, m@),
            j <= n,
            s == message_sum_sat(msgs@, m@.take(j as int), u32::MAX as int),
        decreases n - j,
    {
        assert(m@.take(j + 1).drop_last() =~= m@.take(j as int));
        let c = msgs[m[j]].message_count;
        let add: u32 = if c < 0 { 0 } else { c as u32 };
        s = s.saturating_add(add);
        j = j + 1;
    }
    assert(m@.take(n as int) =~= m@);
    s
}

/// The message count of the members, saturating at `u64::MAX`.
pub fn sum_messages_sat_u64(msgs: &Vec<UsageMessage>, m: &Vec<usize>) -> (r: u64)
    requires
        members_in(msgs@, m@),
    ensures
        r == message_sum_sat(msgs@, m@, u64::MAX as int),
{
    let mut s: u64 = 0;
    let n = m.len();
    let mut j: usize = 0;
    while j < n
        invariant
            n == m@.len(),
            members_in(msgs@, m@),
            j <= n,
            s == message_sum_sat(msgs@, m@.take(j as int), u64::MAX as int),
        decreases n - j,
    {
        assert(m@.take(j + 1).drop_last() =~= m@.take(j as int));
        let c = msgs[m[j]].message_count;
        let add: u64 = if c < 0 { 0 } else { c as u64 };
        s = s.saturating_add(add);
        j = j + 1;
    }
    assert(m@.take(n as int) =~= m@);
    s
}

/// `x` is one of the `", "`-separated pieces of `s`.
pub open spec fn split_contains(s: Seq<char>, x: Seq<char>) -> bool
    decreases s.len(),
{
    match find_first(s, ", "@) {
        None => s == x,
        Some(i) => if 0 <= i && i + 2 <= s.len() {
            s.take(i) == x || split_contains(s.skip(i + 2), x)
        } else {
            false
        },
    }
}

/// Whether `x` is one of the `", "`-separated pieces of `s`.
pub fn split_contains_exec(s: &str, x: &str) -> (r: bool)
    ensures
        r == split_contains(s@, x@),
{
    let sep = chars_of(", ");
    let xv = chars_of(x);
    let mut rest = chars_of(s);
    loop
        invariant
            sep@ == ", "@,
            xv@ == x@,
            split_contains(s@, x@) == split_contains(rest@, x@),
        decreases rest@.len(),
    {
        match find_seq(rest.as_slice(), sep.as_slice()) {
            None => {
                return chars_equal(rest.as_slice(), xv.as_slice());
            },
            Some(i) => {
                proof {
                    crate::text::lemma_find_first_occurs(rest@, sep@);
                    reveal_strlit(", ");
                }
                let n = rest.len();
                let head = slice_chars(rest.as_slice(), 0, i);
                assert(head@ =~= rest@.take(i as int));
                if chars_equal(head.as_slice(), xv.as_slice()) {
                    return true;
                }
                let tail = slice_chars(rest.as_slice(), i + 2, n);
                assert(tail@ =~= rest@.skip(i + 2));
                rest = tail;
            },
        }
    }
}

/// Names merged in order into a `", "`-separated list: a name is appended unless it is
/// already one of the list's pieces.
pub open spec fn merged_names(names: Seq<Seq<char>>) -> Seq<char>
    decreases names.len(),
{
    if names.len() <= 1 {
        if names.len() == 1 {
            names[0]
        } else {
            Seq::empty()
        }
    } else {
        let acc = merged_names(names.drop_last());
        if split_contains(acc, names.last()) {
            acc
        } else {
            acc + ", "@ + names.last()
        }
    }
}

/// The clients of the members, in member order.
pub open spec fn member_clients(msgs: Seq<UsageMessage>, m: Seq<usize>) -> Seq<Seq<char>> {
    m.map_values(|i: usize| msgs[i as int].client@)
}

/// The providers of the members, in member order.
pub open spec fn member_providers(msgs: Seq<UsageMessage>, m: Seq<usize>) -> Seq<Seq<char>> {
    m.map_values(|i: usize| msgs[i as int].provider_id@)
}

/// Merges the clients (`clients == true`) or providers of the members into a list.
pub fn merge_member_names(msgs: &Vec<UsageMessage>, m: &Vec<usize>, clients: bool) -> (r: String)
    requires
        members_in(msgs@, m@),
        m@.len() > 0,
    ensures
        r@ == merged_names(if clients { member_clients(msgs@, m@) } else { member_providers(msgs@, m@) }),
{
    let ghost names = if clients { member_clients(msgs@, m@) } else { member_providers(msgs@, m@) };
    let mut acc: String = if clients { msgs[m[0]].client.clone() } else { msgs[m[0]].provider_id.clone() };
    assert(names.take(1) =~= seq![names[0]]);
    let n = m.len();
    let mut j: usize = 1;
    while j < n
        invariant
            n == m@.len(),
            members_in(msgs@, m@),
            names == (if clients { member_clients(msgs@, m@) } else { member_providers(msgs@, m@) }),
            1 <= j <= n,
            acc@ == merged_names(names.take(j as int)),
        decreases n - j,
    {
        assert(names.take(j + 1).drop_last() =~= names.take(j as int));
        let name: &String = if clients { &msgs[m[j]].client } else { &msgs[m[j]].provider_id };
        assert(name@ == names[j as int]);
        if !split_contains_exec(acc.as_str(), name.as_str()) {
            push_str(&mut acc, ", ");
            push_str(&mut acc, name.as_str());
        }
        j = j + 1;
    }
    assert(names.take(n as int) =~= names);
    acc
}

/// The number of distinct strings in a list.
pub open spec fn distinct_count(v: Seq<Seq<char>>) -> nat {
    v.to_set().len()
}

/// The number of distinct strings in a list (which is no longer than `u32::MAX`).
pub fn count_distinct(v: &Vec<String>) -> (r: u32)
    requires
        v@.len() <= u32::MAX,
    ensures
        r == distinct_count(strings_view(v@)),
{
    let c = count_distinct_strings(v);
    proof {
        strings_view(v@).lemma_cardinality_of_set();
    }
    c as u32
}

/// The number of distinct strings in a list.
pub fn count_distinct_strings(v: &Vec<String>) -> (r: usize)
    ensures
        r == distinct_count(strings_view(v@)),
{
    let ghost vv = strings_view(v@);
    let mut seen: Vec<String> = Vec::new();
    let n = v.len();
    let mut j: usize = 0;
    while j < n
        invariant
            n == v@.len(),
            vv == strings_view(v@),
            j <= n,
            seen@.len() <= j,
            strings_view(seen@).no_duplicates(),
            strings_view(seen@).to_set() == vv.take(j as int).to_set(),
        decreases n - j,
    {
        let ghost sv = strings_view(seen@);
        let x = &v[j];
        let m = seen.len();
        let mut k: usize = 0;
        let mut found = false;
        while k < m
            invariant
                m == seen@.len(),
                k <= m,
                sv == strings_view(seen@),
                found ==> sv.contains(x@),
                !found ==> forall|q: int| 0 <= q < k ==> sv[q] != x@,
            decreases m - k,
        {
            if seen[k] == *x {
                found = true;
                assert(sv[k as int] == x@);
            }
            k = k + 1;
        }
        assert(vv.take(j + 1) =~= vv.take(j as int).push(x@));
        if !found {
            seen.push(x.clone());
            assert(strings_view(seen@) =~= sv.push(x@));
            assert(!sv.contains(x@));
            proof {
                sv.lemma_push_to_set_commute(x@);
                vv.take(j as int).lemma_push_to_set_commute(x@);
            }
        } else {
            proof {
                vv.take(j as int).lemma_push_to_set_commute(x@);
            }
            assert(sv.to_set().contains(x@));
            assert(sv.to_set().insert(x@) =~= sv.to_set());
        }
        j = j + 1;
    }
    let ghost sv = strings_view(seen@);
    proof {
        sv.unique_seq_to_set();
        assert(vv.take(n as int) =~= vv);
    }
    seen.len()
}

/// The sum of the (clamped) message counts of the members in 32-bit wrapping arithmetic.
pub open spec fn message_sum_wrapping(msgs: Seq<UsageMessage>, m: Seq<usize>) -> u32
    decreases m.len(),
{
    if m.len() == 0 {
        0
    } else {
        let c = clamp0(msgs[m.last() as int].message_count as i64);
        vstd::wrapping::u32_specs::wrapping_add(
            message_sum_wrapping(msgs, m.drop_last()),
            c as u32,
        )
    }
}

/// The number of members that start a turn, in 32-bit wrapping arithmetic.
pub open spec fn turn_sum_wrapping(msgs: Seq<UsageMessage>, m: Seq<usize>) -> u32
    decreases m.len(),
{
    if m.len() == 0 {
        0
    } else {
        let prev = turn_sum_wrapping(msgs, m.drop_last());
        if msgs[m.last() as int].is_turn_start {
            vstd::wrapping::u32_specs::wrapping_add(prev, 1)
        } else {
            prev
        }
    }
}

/// The message count of the members in 32-bit wrapping arithmetic.
pub fn sum_messages_wrapping(msgs: &Vec<UsageMessage>, m: &Vec<usize>) -> (r: u32)
    requires
        members_in(msgs@, m@),
    ensures
        r == message_sum_wrapping(msgs@, m@),
{
    let mut s: u32 = 0;
    let n = m.len();
    let mut j: usize = 0;
    while j < n
        invariant
            n == m@.len(),
            members_in(msgs@, m@),
            j <= n,
            s == message_sum_wrapping(msgs@, m@.take(j as int)),
        decreases n - j,
    {
        assert(m@.take(j + 1).drop_last() =~= m@.take(j as int));
        let c = msgs[m[j]].message_count;
        let add: u32 = if c < 0 { 0 } else { c as u32 };
        s = s.wrapping_add(add);
        j = j + 1;
    }
    assert(m@.take(n as int) =~= m@);
    s
}

/// The number of members that start a turn in 32-bit wrapping arithmetic.
pub fn count_turns_wrapping(msgs: &Vec<UsageMessage>, m: &Vec<usize>) -> (r: u32)
    requires
        members_in(msgs@, m@),
    ensures
        r == turn_sum_wrapping(msgs@, m@),
{
    let mut s: u32 = 0;
    let n = m.len();
    let mut j: usize = 0;
    while j < n
        invariant
            n == m@.len(),
            members_in(msgs@, m@),
            j <= n,
            s == turn_sum_wrapping(msgs@, m@.take(j as int)),
        decreases n - j,
    {
        assert(m@.take(j + 1).drop_last() =~= m@.take(j as int));
        if msgs[m[j]].is_turn_start {
            s = s.wrapping_add(1);
        }
        j = j + 1;
    }
    assert(m@.take(n as int) =~= m@);
    s
}

} // verus!

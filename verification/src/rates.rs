//! Thinking and speed rows: usage by day, provider, base model and thinking level.
use vstd::prelude::*;

use crate::aggregate::{
    all_indices, client_key_view, is_num_grouping, lemma_members_carry_key, lemma_num_members,
    members_with_num, sorted_member_clients,
};
use crate::group::{group_indices_sorted, is_grouping, keys_view, members_with_key, sorted_names};
use crate::text::{chars_of, decimal, push_decimal, push_str};
use crate::thinking::{spec_split_thinking_level, split_thinking_level};
use crate::tokens::{spec_generated_tokens, spec_reasonable_speed, TokenBreakdown};
use crate::usage::{members_in, message_sum_sat, sum_messages_sat_u32, sum_tokens, tokens_sum, UsageMessage};

verus! {

/// The key of a (provider, base model, thinking level) row: the three parts, the first two
/// prefixed by their lengths so that different triples have different keys.
pub open spec fn row_key(provider: Seq<char>, base: Seq<char>, level: Seq<char>) -> Seq<char> {
    decimal(provider.len()) + ":"@ + provider + decimal(base.len()) + ":"@ + base + level
}

/// The row key of a message: its provider and the base model and level of its model.
pub open spec fn message_row_key(m: UsageMessage) -> Seq<char> {
    row_key(
        m.provider_id@,
        spec_split_thinking_level(m.model@).0,
        spec_split_thinking_level(m.model@).1,
    )
}

/// The row key of every message.
pub open spec fn row_key_view(msgs: Seq<UsageMessage>) -> Seq<Option<Seq<char>>> {
    Seq::new(msgs.len(), |i: int| Some(message_row_key(msgs[i])))
}

fn make_row_key(provider: &str, base: &str, level: &str) -> (r: String)
    ensures
        r@ == row_key(provider@, base@, level@),
{
    let mut out = String::new();
    let np = chars_of(provider).len();
    let nb = chars_of(base).len();
    push_decimal(&mut out, np as u64);
    push_str(&mut out, ":");
    push_str(&mut out, provider);
    push_decimal(&mut out, nb as u64);
    push_str(&mut out, ":");
    push_str(&mut out, base);
    push_str(&mut out, level);
    out
}

fn row_keys(msgs: &Vec<UsageMessage>) -> (r: Vec<Option<String>>)
    ensures
        keys_view(r@) == row_key_view(msgs@),
{
    let mut r: Vec<Option<String>> = Vec::new();
    let n = msgs.len();
    let mut i: usize = 0;
    while i < n
        invariant
            n == msgs@.len(),
            i <= n,
            keys_view(r@) =~= row_key_view(msgs@).take(i as int),
        decreases n - i,
    {
        let m = &msgs[i];
        let (base, level) = split_thinking_level(m.model.as_str());
        let k = make_row_key(m.provider_id.as_str(), base.as_str(), level.as_str());
        let ghost before = r@;
        r.push(Some(k));
        assert(keys_view(r@) =~= keys_view(before).push(Some(k@)));
        i = i + 1;
    }
    assert(row_key_view(msgs@).take(n as int) =~= row_key_view(msgs@));
    r
}

/// A message counts toward thinking rows: it generated output or reasoning tokens.
pub open spec fn thinking_eligible(m: UsageMessage) -> bool {
    m.tokens.output > 0 || m.tokens.reasoning > 0
}

/// The day of every message that counts toward thinking rows.
pub open spec fn thinking_day_view(msgs: Seq<UsageMessage>) -> Seq<Option<i64>> {
    Seq::new(msgs.len(), |i: int| if thinking_eligible(msgs[i]) { msgs[i].day } else { None })
}

fn thinking_days(msgs: &Vec<UsageMessage>) -> (r: Vec<Option<i64>>)
    ensures
        r@ == thinking_day_view(msgs@),
{
    let mut r: Vec<Option<i64>> = Vec::new();
    let n = msgs.len();
    let mut i: usize = 0;
    while i < n
        invariant
            n == msgs@.len(),
            i <= n,
            r@ =~= thinking_day_view(msgs@).take(i as int),
        decreases n - i,
    {
        let m = &msgs[i];
        if m.tokens.output > 0 || m.tokens.reasoning > 0 {
            r.push(m.day);
        } else {
            r.push(None);
        }
        i = i + 1;
    }
    assert(thinking_day_view(msgs@).take(n as int) =~= thinking_day_view(msgs@));
    r
}

/// One thinking row: a day's messages of one provider, base model and thinking level.
#[derive(Debug, Clone)]
pub struct ThinkingGroup {
    pub day: i64,
    pub key: String,
    pub model: String,
    pub provider: String,
    pub thinking_level: String,
    pub tokens: TokenBreakdown,
    pub client_list: Vec<String>,
    /// The message count, saturating at `u32::MAX`.
    pub message_count: u32,
    pub members: Vec<usize>,
}

/// The fields of a thinking row follow from its day and its members.
pub open spec fn thinking_fields(msgs: Seq<UsageMessage>, d: i64, g: ThinkingGroup) -> bool {
    let m = g.members@;
    let first = msgs[m[0] as int];
    &&& g.day == d
    &&& g.model@ == spec_split_thinking_level(first.model@).0
    &&& g.thinking_level@ == spec_split_thinking_level(first.model@).1
    &&& g.provider@ == first.provider_id@
    &&& g.tokens == tokens_sum(msgs, m)
    &&& sorted_member_clients(msgs, m, g.client_list@)
    &&& g.message_count == message_sum_sat(msgs, m, u32::MAX as int)
}

/// The keys of a list of thinking rows.
pub open spec fn thinking_keys_of(r: Seq<ThinkingGroup>) -> Seq<String> {
    r.map_values(|g: ThinkingGroup| g.key)
}

/// The member lists of a list of thinking rows.
pub open spec fn thinking_members_of(r: Seq<ThinkingGroup>) -> Seq<Vec<usize>> {
    r.map_values(|g: ThinkingGroup| g.members)
}

/// The thinking rows of one day.
#[derive(Debug, Clone)]
pub struct ThinkingDay {
    pub day: i64,
    /// The day's rows, in increasing key order.
    pub rows: Vec<ThinkingGroup>,
    pub members: Vec<usize>,
}

/// The rows of a day group its messages by row key.
pub open spec fn thinking_day_fields(msgs: Seq<UsageMessage>, t: ThinkingDay) -> bool {
    &&& is_grouping(row_key_view(msgs), t.members@, thinking_keys_of(t.rows@), thinking_members_of(t.rows@))
    &&& sorted_names(thinking_keys_of(t.rows@))
    &&& forall|q: int| 0 <= q < t.rows@.len() ==> thinking_fields(msgs, t.day, #[trigger] t.rows@[q])
}

/// The days of a list of thinking days.
pub open spec fn thinking_day_nums(r: Seq<ThinkingDay>) -> Seq<i64> {
    r.map_values(|g: ThinkingDay| g.day)
}

/// The member lists of a list of thinking days.
pub open spec fn thinking_day_members(r: Seq<ThinkingDay>) -> Seq<Vec<usize>> {
    r.map_values(|g: ThinkingDay| g.members)
}

fn build_thinking_day(
    msgs: &Vec<UsageMessage>,
    ckeys: &Vec<Option<String>>,
    rkeys: &Vec<Option<String>>,
    day: i64,
    m: &Vec<usize>,
) -> (r: Vec<ThinkingGroup>)
    requires
        keys_view(ckeys@) == client_key_view(msgs@),
        keys_view(rkeys@) == row_key_view(msgs@),
        members_in(msgs@, m@),
    ensures
        is_grouping(row_key_view(msgs@), m@, thinking_keys_of(r@), thinking_members_of(r@)),
        sorted_names(thinking_keys_of(r@)),
        forall|q: int| 0 <= q < r@.len() ==> thinking_fields(msgs@, day, #[trigger] r@[q]),
{
    let ghost kv = row_key_view(msgs@);
    let (names, members) = group_indices_sorted(rkeys, m);
    let mut r: Vec<ThinkingGroup> = Vec::new();
    let n = names.len();
    let mut h: usize = 0;
    while h < n
        invariant
            n == names@.len(),
            kv == row_key_view(msgs@),
            kv.len() == msgs@.len(),
            keys_view(ckeys@) == client_key_view(msgs@),
            is_grouping(kv, m@, names@, members@),
            h <= n,
            r@.len() == h,
            forall|g: int| 0 <= g < h ==> (#[trigger] r@[g]).key@ == names@[g]@ && r@[g].members@ == members@[g]@,
            forall|g: int| 0 <= g < h ==> thinking_fields(msgs@, day, #[trigger] r@[g]),
        decreases n - h,
    {
        proof {
            lemma_members_carry_key(kv, m@, names@[h as int]@);
            assert(members@[h as int]@ == members_with_key(kv, m@, names@[h as int]@));
        }
        let mm = &members[h];
        let first = &msgs[mm[0]];
        let (base, level) = split_thinking_level(first.model.as_str());
        let g = ThinkingGroup {
            day,
            key: names[h].clone(),
            model: base,
            provider: first.provider_id.clone(),
            thinking_level: level,
            tokens: sum_tokens(msgs, mm),
            client_list: crate::aggregate::sorted_clients(msgs, ckeys, mm),
            message_count: sum_messages_sat_u32(msgs, mm),
            members: mm.clone(),
        };
        r.push(g);
        h = h + 1;
    }
    proof {
        assert forall|g: int| 0 <= g < n implies (#[trigger] thinking_keys_of(r@)[g])@ == names@[g]@ by {}
        assert forall|g: int| 0 <= g < n implies (#[trigger] thinking_members_of(r@)[g])@ == members@[g]@ by {}
        assert forall|a: int, b: int| 0 <= a < b < n implies (#[trigger] thinking_keys_of(r@)[a])@ != (#[trigger] thinking_keys_of(r@)[b])@ by {
            assert(names@[a]@ != names@[b]@);
        }
        assert forall|a: int, b: int| 0 <= a < b < n implies crate::text::lex_lt((#[trigger] thinking_keys_of(r@)[a])@, (#[trigger] thinking_keys_of(r@)[b])@) by {
            assert(crate::text::lex_lt(names@[a]@, names@[b]@));
        }
        assert forall|k: Seq<char>| #[trigger] crate::group::key_occurs(kv, m@, k) implies exists|g: int| 0 <= g < n && (#[trigger] thinking_keys_of(r@)[g])@ == k by {
            let g = choose|g: int| 0 <= g < names@.len() && (#[trigger] names@[g])@ == k;
            assert(thinking_keys_of(r@)[g]@ == k);
        }
    }
    r
}

/// The thinking rows of a list of messages, latest day first: per day, one row per provider,
/// base model and thinking level, over the messages that generated output or reasoning.
pub fn build_thinking_rows(msgs: &Vec<UsageMessage>) -> (r: Vec<ThinkingDay>)
    ensures
        is_num_grouping(thinking_day_view(msgs@), all_indices(msgs@.len() as int), thinking_day_nums(r@), thinking_day_members(r@)),
        forall|g: int| 0 <= g < r@.len() ==> thinking_day_fields(msgs@, #[trigger] r@[g]),
{
    let dk = thinking_days(msgs);
    let ckeys = crate::aggregate::client_keys(msgs);
    let rkeys = row_keys(msgs);
    let all = crate::aggregate::index_list(msgs.len());
    let ghost kv = thinking_day_view(msgs@);
    let (days, members) = crate::aggregate::group_numbers_desc(&dk, &all);
    let mut r: Vec<ThinkingDay> = Vec::new();
    let n = days.len();
    let mut h: usize = 0;
    while h < n
        invariant
            n == days@.len(),
            kv == thinking_day_view(msgs@),
            kv.len() == msgs@.len(),
            keys_view(ckeys@) == client_key_view(msgs@),
            keys_view(rkeys@) == row_key_view(msgs@),
            all@ == all_indices(msgs@.len() as int),
            is_num_grouping(kv, all@, days@, members@),
            h <= n,
            r@.len() == h,
            forall|g: int| 0 <= g < h ==> (#[trigger] r@[g]).day == days@[g] && r@[g].members@ == members@[g]@,
            forall|g: int| 0 <= g < h ==> thinking_day_fields(msgs@, #[trigger] r@[g]),
        decreases n - h,
    {
        proof {
            lemma_num_members(kv, all@, days@[h as int]);
            assert(members@[h as int]@ == members_with_num(kv, all@, days@[h as int]));
        }
        let mm = &members[h];
        let rows = build_thinking_day(msgs, &ckeys, &rkeys, days[h], mm);
        r.push(ThinkingDay { day: days[h], rows, members: mm.clone() });
        h = h + 1;
    }
    proof {
        assert(thinking_day_nums(r@) =~= days@);
        assert forall|g: int| 0 <= g < n implies (#[trigger] thinking_day_members(r@)[g])@ == members@[g]@ by {}
        assert forall|d: i64| #[trigger] crate::aggregate::num_occurs(kv, all@, d) implies crate::aggregate::num_listed(thinking_day_nums(r@), d) by {
            assert(crate::aggregate::num_listed(days@, d));
        }
    }
    r
}

/// A message counts toward speed rows: it has a generation time and a plausible speed.
pub open spec fn speed_eligible(m: UsageMessage) -> bool {
    match m.generation_duration_ms {
        Some(d) => spec_reasonable_speed(spec_generated_tokens(m.tokens.output, m.tokens.reasoning), d as int),
        None => false,
    }
}

/// The day of every message that counts toward speed rows.
pub open spec fn speed_day_view(msgs: Seq<UsageMessage>) -> Seq<Option<i64>> {
    Seq::new(msgs.len(), |i: int| if speed_eligible(msgs[i]) { msgs[i].day } else { None })
}

fn speed_eligible_exec(m: &UsageMessage) -> (r: bool)
    ensures
        r == speed_eligible(*m),
{
    match m.generation_duration_ms {
        Some(d) => crate::tokens::has_reasonable_tokens_per_second(
            crate::tokens::generated_tokens(m.tokens.output, m.tokens.reasoning),
            d,
        ),
        None => false,
    }
}

fn speed_days(msgs: &Vec<UsageMessage>) -> (r: Vec<Option<i64>>)
    ensures
        r@ == speed_day_view(msgs@),
{
    let mut r: Vec<Option<i64>> = Vec::new();
    let n = msgs.len();
    let mut i: usize = 0;
    while i < n
        invariant
            n == msgs@.len(),
            i <= n,
            r@ =~= speed_day_view(msgs@).take(i as int),
        decreases n - i,
    {
        if speed_eligible_exec(&msgs[i]) {
            r.push(msgs[i].day);
        } else {
            r.push(None);
        }
        i = i + 1;
    }
    assert(speed_day_view(msgs@).take(n as int) =~= speed_day_view(msgs@));
    r
}

/// The generated tokens of the members, saturating at `u64::MAX`.
pub open spec fn generated_sum(msgs: Seq<UsageMessage>, m: Seq<usize>) -> int
    decreases m.len(),
{
    if m.len() == 0 {
        0
    } else {
        let t = msgs[m.last() as int].tokens;
        crate::tokens::sat_add(generated_sum(msgs, m.drop_last()), spec_generated_tokens(t.output, t.reasoning))
    }
}

/// The generation time of the members, saturating at `u64::MAX`.
pub open spec fn duration_sum(msgs: Seq<UsageMessage>, m: Seq<usize>) -> int
    decreases m.len(),
{
    if m.len() == 0 {
        0
    } else {
        let d = match msgs[m.last() as int].generation_duration_ms {
            Some(d) => d as int,
            None => 0,
        };
        crate::tokens::sat_add(duration_sum(msgs, m.drop_last()), d)
    }
}

/// One speed row: a day's plausible-speed samples of one provider, base model and level.
#[derive(Debug, Clone)]
pub struct SpeedGroup {
    pub day: i64,
    pub key: String,
    pub model: String,
    pub provider: String,
    pub thinking_level: String,
    /// Generated tokens, saturating at `u64::MAX`.
    pub generated_tokens: u64,
    /// Generation time in milliseconds, saturating at `u64::MAX`.
    pub generation_duration_ms: u64,
    pub client_list: Vec<String>,
    /// The number of samples, saturating at `u32::MAX`.
    pub sample_count: u32,
    pub members: Vec<usize>,
}

/// The fields of a speed row follow from its day and its members.
pub open spec fn speed_fields(msgs: Seq<UsageMessage>, d: i64, g: SpeedGroup) -> bool {
    let m = g.members@;
    let first = msgs[m[0] as int];
    &&& g.day == d
    &&& g.model@ == spec_split_thinking_level(first.model@).0
    &&& g.thinking_level@ == spec_split_thinking_level(first.model@).1
    &&& g.provider@ == first.provider_id@
    &&& g.generated_tokens == generated_sum(msgs, m)
    &&& g.generation_duration_ms == duration_sum(msgs, m)
    &&& sorted_member_clients(msgs, m, g.client_list@)
    &&& g.sample_count == crate::accounts::cap_u32(m.len() as int)
}

/// The keys of a list of speed rows.
pub open spec fn speed_keys_of(r: Seq<SpeedGroup>) -> Seq<String> {
    r.map_values(|g: SpeedGroup| g.key)
}

/// The member lists of a list of speed rows.
pub open spec fn speed_members_of(r: Seq<SpeedGroup>) -> Seq<Vec<usize>> {
    r.map_values(|g: SpeedGroup| g.members)
}

/// The speed rows of one day.
#[derive(Debug, Clone)]
pub struct SpeedDay {
    pub day: i64,
    /// The day's rows, in increasing key order.
    pub rows: Vec<SpeedGroup>,
    pub members: Vec<usize>,
}

/// The rows of a day group its samples by row key.
pub open spec fn speed_day_fields(msgs: Seq<UsageMessage>, t: SpeedDay) -> bool {
    &&& is_grouping(row_key_view(msgs), t.members@, speed_keys_of(t.rows@), speed_members_of(t.rows@))
    &&& sorted_names(speed_keys_of(t.rows@))
    &&& forall|q: int| 0 <= q < t.rows@.len() ==> speed_fields(msgs, t.day, #[trigger] t.rows@[q])
}

/// The days of a list of speed days.
pub open spec fn speed_day_nums(r: Seq<SpeedDay>) -> Seq<i64> {
    r.map_values(|g: SpeedDay| g.day)
}

/// The member lists of a list of speed days.
pub open spec fn speed_day_members(r: Seq<SpeedDay>) -> Seq<Vec<usize>> {
    r.map_values(|g: SpeedDay| g.members)
}

fn speed_sums(msgs: &Vec<UsageMessage>, m: &Vec<usize>) -> (r: (u64, u64, u32))
    requires
        members_in(msgs@, m@),
    ensures
        r.0 == generated_sum(msgs@, m@),
        r.1 == duration_sum(msgs@, m@),
        r.2 == crate::accounts::cap_u32(m@.len() as int),
{
    let mut g: u64 = 0;
    let mut d: u64 = 0;
    let mut c: u32 = 0;
    let n = m.len();
    let mut j: usize = 0;
    while j < n
        invariant
            n == m@.len(),
            members_in(msgs@, m@),
            j <= n,
            g == generated_sum(msgs@, m@.take(j as int)),
            d == duration_sum(msgs@, m@.take(j as int)),
            c == crate::accounts::cap_u32(j as int),
        decreases n - j,
    {
        assert(m@.take(j + 1).drop_last() =~= m@.take(j as int));
        let msg = &msgs[m[j]];
        g = g.saturating_add(crate::tokens::generated_tokens(msg.tokens.output, msg.tokens.reasoning));
        let dur: u64 = match msg.generation_duration_ms {
            Some(x) => x,
            None => 0,
        };
        d = d.saturating_add(dur);
        c = c.saturating_add(1);
        j = j + 1;
    }
    assert(m@.take(n as int) =~= m@);
    (g, d, c)
}

fn build_speed_day(
    msgs: &Vec<UsageMessage>,
    ckeys: &Vec<Option<String>>,
    rkeys: &Vec<Option<String>>,
    day: i64,
    m: &Vec<usize>,
) -> (r: Vec<SpeedGroup>)
    requires
        keys_view(ckeys@) == client_key_view(msgs@),
        keys_view(rkeys@) == row_key_view(msgs@),
        members_in(msgs@, m@),
    ensures
        is_grouping(row_key_view(msgs@), m@, speed_keys_of(r@), speed_members_of(r@)),
        sorted_names(speed_keys_of(r@)),
        forall|q: int| 0 <= q < r@.len() ==> speed_fields(msgs@, day, #[trigger] r@[q]),
{
    let ghost kv = row_key_view(msgs@);
    let (names, members) = group_indices_sorted(rkeys, m);
    let mut r: Vec<SpeedGroup> = Vec::new();
    let n = names.len();
    let mut h: usize = 0;
    while h < n
        invariant
            n == names@.len(),
            kv == row_key_view(msgs@),
            kv.len() == msgs@.len(),
            keys_view(ckeys@) == client_key_view(msgs@),
            is_grouping(kv, m@, names@, members@),
            h <= n,
            r@.len() == h,
            forall|g: int| 0 <= g < h ==> (#[trigger] r@[g]).key@ == names@[g]@ && r@[g].members@ == members@[g]@,
            forall|g: int| 0 <= g < h ==> speed_fields(msgs@, day, #[trigger] r@[g]),
        decreases n - h,
    {
        proof {
            lemma_members_carry_key(kv, m@, names@[h as int]@);
            assert(members@[h as int]@ == members_with_key(kv, m@, names@[h as int]@));
        }
        let mm = &members[h];
        let first = &msgs[mm[0]];
        let (base, level) = split_thinking_level(first.model.as_str());
        let (generated, duration, samples) = speed_sums(msgs, mm);
        let g = SpeedGroup {
            day,
            key: names[h].clone(),
            model: base,
            provider: first.provider_id.clone(),
            thinking_level: level,
            generated_tokens: generated,
            generation_duration_ms: duration,
            client_list: crate::aggregate::sorted_clients(msgs, ckeys, mm),
            sample_count: samples,
            members: mm.clone(),
        };
        r.push(g);
        h = h + 1;
    }
    proof {
        assert forall|g: int| 0 <= g < n implies (#[trigger] speed_keys_of(r@)[g])@ == names@[g]@ by {}
        assert forall|g: int| 0 <= g < n implies (#[trigger] speed_members_of(r@)[g])@ == members@[g]@ by {}
        assert forall|a: int, b: int| 0 <= a < b < n implies (#[trigger] speed_keys_of(r@)[a])@ != (#[trigger] speed_keys_of(r@)[b])@ by {
            assert(names@[a]@ != names@[b]@);
        }
        assert forall|a: int, b: int| 0 <= a < b < n implies crate::text::lex_lt((#[trigger] speed_keys_of(r@)[a])@, (#[trigger] speed_keys_of(r@)[b])@) by {
            assert(crate::text::lex_lt(names@[a]@, names@[b]@));
        }
        assert forall|k: Seq<char>| #[trigger] crate::group::key_occurs(kv, m@, k) implies exists|g: int| 0 <= g < n && (#[trigger] speed_keys_of(r@)[g])@ == k by {
            let g = choose|g: int| 0 <= g < names@.len() && (#[trigger] names@[g])@ == k;
            assert(speed_keys_of(r@)[g]@ == k);
        }
    }
    r
}

/// The speed rows of a list of messages, latest day first: per day, one row per provider,
/// base model and thinking level, over the messages with a plausible generation speed.
pub fn build_speed_rows(msgs: &Vec<UsageMessage>) -> (r: Vec<SpeedDay>)
    ensures
        is_num_grouping(speed_day_view(msgs@), all_indices(msgs@.len() as int), speed_day_nums(r@), speed_day_members(r@)),
        forall|g: int| 0 <= g < r@.len() ==> speed_day_fields(msgs@, #[trigger] r@[g]),
{
    let dk = speed_days(msgs);
    let ckeys = crate::aggregate::client_keys(msgs);
    let rkeys = row_keys(msgs);
    let all = crate::aggregate::index_list(msgs.len());
    let ghost kv = speed_day_view(msgs@);
    let (days, members) = crate::aggregate::group_numbers_desc(&dk, &all);
    let mut r: Vec<SpeedDay> = Vec::new();
    let n = days.len();
    let mut h: usize = 0;
    while h < n
        invariant
            n == days@.len(),
            kv == speed_day_view(msgs@),
            kv.len() == msgs@.len(),
            keys_view(ckeys@) == client_key_view(msgs@),
            keys_view(rkeys@) == row_key_view(msgs@),
            all@ == all_indices(msgs@.len() as int),
            is_num_grouping(kv, all@, days@, members@),
            h <= n,
            r@.len() == h,
            forall|g: int| 0 <= g < h ==> (#[trigger] r@[g]).day == days@[g] && r@[g].members@ == members@[g]@,
            forall|g: int| 0 <= g < h ==> speed_day_fields(msgs@, #[trigger] r@[g]),
        decreases n - h,
    {
        proof {
            lemma_num_members(kv, all@, days@[h as int]);
            assert(members@[h as int]@ == members_with_num(kv, all@, days@[h as int]));
        }
        let mm = &members[h];
        let rows = build_speed_day(msgs, &ckeys, &rkeys, days[h], mm);
        r.push(SpeedDay { day: days[h], rows, members: mm.clone() });
        h = h + 1;
    }
    proof {
        assert(speed_day_nums(r@) =~= days@);
        assert forall|g: int| 0 <= g < n implies (#[trigger] speed_day_members(r@)[g])@ == members@[g]@ by {}
        assert forall|d: i64| #[trigger] crate::aggregate::num_occurs(kv, all@, d) implies crate::aggregate::num_listed(speed_day_nums(r@), d) by {
            assert(crate::aggregate::num_listed(days@, d));
        }
    }
    r
}

/// The distinct strings of the client lists of some rows, row by row.
pub open spec fn speed_row_clients(rows: Seq<SpeedGroup>, m: Seq<usize>) -> Seq<Seq<char>>
    decreases m.len(),
{
    if m.len() == 0 {
        Seq::empty()
    } else {
        speed_row_clients(rows, m.drop_last()) + crate::clients::strings_view(rows[m.last() as int].client_list@)
    }
}

/// The latest day of some rows.
pub open spec fn speed_latest_day(rows: Seq<SpeedGroup>, m: Seq<usize>) -> i64
    decreases m.len(),
{
    if m.len() <= 1 {
        rows[m[0] as int].day
    } else {
        let prev = speed_latest_day(rows, m.drop_last());
        if rows[m.last() as int].day > prev {
            rows[m.last() as int].day
        } else {
            prev
        }
    }
}

/// A saturating `u64` sum over some rows of a per-row amount.
pub open spec fn speed_rows_sum(rows: Seq<SpeedGroup>, m: Seq<usize>, generated: bool) -> int
    decreases m.len(),
{
    if m.len() == 0 {
        0
    } else {
        let row = rows[m.last() as int];
        crate::tokens::sat_add(
            speed_rows_sum(rows, m.drop_last(), generated),
            if generated { row.generated_tokens as int } else { row.generation_duration_ms as int },
        )
    }
}

/// The sample count of some rows, saturating at `u32::MAX`.
pub open spec fn speed_rows_samples(rows: Seq<SpeedGroup>, m: Seq<usize>) -> int
    decreases m.len(),
{
    if m.len() == 0 {
        0
    } else {
        let s = speed_rows_samples(rows, m.drop_last()) + rows[m.last() as int].sample_count;
        if s > u32::MAX { u32::MAX as int } else { s }
    }
}

/// One speed summary: the speed rows of one provider, base model and thinking level.
#[derive(Debug, Clone)]
pub struct SpeedSummaryGroup {
    pub key: String,
    pub model: String,
    pub provider: String,
    pub thinking_level: String,
    pub latest_day: i64,
    pub generated_tokens: u64,
    pub generation_duration_ms: u64,
    pub client_list: Vec<String>,
    pub sample_count: u32,
    /// The indices of the summarised rows, in row order.
    pub members: Vec<usize>,
}

/// The fields of a speed summary follow from its rows.
pub open spec fn speed_summary_fields(rows: Seq<SpeedGroup>, s: SpeedSummaryGroup) -> bool {
    let m = s.members@;
    let first = rows[m[0] as int];
    &&& s.model@ == first.model@
    &&& s.provider@ == first.provider@
    &&& s.thinking_level@ == first.thinking_level@
    &&& s.latest_day == speed_latest_day(rows, m)
    &&& s.generated_tokens == speed_rows_sum(rows, m, true)
    &&& s.generation_duration_ms == speed_rows_sum(rows, m, false)
    &&& crate::price::sorted_distinct_of(speed_row_clients(rows, m), s.client_list@)
    &&& s.sample_count == speed_rows_samples(rows, m)
}

/// The key of every speed row.
pub open spec fn speed_row_key_view(rows: Seq<SpeedGroup>) -> Seq<Option<Seq<char>>> {
    Seq::new(rows.len(), |i: int| Some(rows[i].key@))
}

/// The keys of a list of speed summaries.
pub open spec fn speed_summary_keys(r: Seq<SpeedSummaryGroup>) -> Seq<String> {
    r.map_values(|g: SpeedSummaryGroup| g.key)
}

/// The member lists of a list of speed summaries.
pub open spec fn speed_summary_members(r: Seq<SpeedSummaryGroup>) -> Seq<Vec<usize>> {
    r.map_values(|g: SpeedSummaryGroup| g.members)
}

fn build_speed_summary(rows: &Vec<SpeedGroup>, key: &String, m: &Vec<usize>) -> (s: SpeedSummaryGroup)
    requires
        forall|j: int| 0 <= j < m@.len() ==> (#[trigger] m@[j] as int) < rows@.len(),
        m@.len() > 0,
    ensures
        s.key@ == key@,
        s.members@ == m@,
        speed_summary_fields(rows@, s),
{
    let n = m.len();
    let first = &rows[m[0]];
    let mut latest: i64 = first.day;
    let mut generated: u64 = 0;
    let mut duration: u64 = 0;
    let mut samples: u32 = 0;
    let mut clients: Vec<String> = Vec::new();
    let mut j: usize = 0;
    while j < n
        invariant
            n == m@.len(),
            n > 0,
            forall|q: int| 0 <= q < m@.len() ==> (#[trigger] m@[q] as int) < rows@.len(),
            j <= n,
            j > 0 ==> latest == speed_latest_day(rows@, m@.take(j as int)),
            j == 0 ==> latest == rows@[m@[0] as int].day,
            generated == speed_rows_sum(rows@, m@.take(j as int), true),
            duration == speed_rows_sum(rows@, m@.take(j as int), false),
            samples == speed_rows_samples(rows@, m@.take(j as int)),
            crate::clients::strings_view(clients@) == speed_row_clients(rows@, m@.take(j as int)),
        decreases n - j,
    {
        assert(m@.take(j + 1).drop_last() =~= m@.take(j as int));
        let row = &rows[m[j]];
        if j > 0 && row.day > latest {
            latest = row.day;
        }
        generated = generated.saturating_add(row.generated_tokens);
        duration = duration.saturating_add(row.generation_duration_ms);
        samples = samples.saturating_add(row.sample_count);
        let ghost before = clients@;
        let k = row.client_list.len();
        let mut q: usize = 0;
        while q < k
            invariant
                k == row.client_list@.len(),
                q <= k,
                crate::clients::strings_view(clients@) == crate::clients::strings_view(before)
                    + crate::clients::strings_view(row.client_list@).take(q as int),
            decreases k - q,
        {
            let ghost pre = clients@;
            clients.push(row.client_list[q].clone());
            assert(crate::clients::strings_view(clients@) =~= crate::clients::strings_view(pre).push(row.client_list@[q as int]@));
            assert(crate::clients::strings_view(row.client_list@).take(q + 1)
                =~= crate::clients::strings_view(row.client_list@).take(q as int).push(row.client_list@[q as int]@));
            q = q + 1;
        }
        assert(crate::clients::strings_view(row.client_list@).take(k as int) =~= crate::clients::strings_view(row.client_list@));
        j = j + 1;
    }
    assert(m@.take(n as int) =~= m@);
    let client_list = crate::price::sorted_distinct_strings(&clients);
    SpeedSummaryGroup {
        key: key.clone(),
        model: first.model.clone(),
        provider: first.provider.clone(),
        thinking_level: first.thinking_level.clone(),
        latest_day: latest,
        generated_tokens: generated,
        generation_duration_ms: duration,
        client_list,
        sample_count: samples,
        members: m.clone(),
    }
}

/// The speed summaries of a list of speed rows, in increasing key order: one summary per
/// provider, base model and thinking level.
pub fn build_speed_summaries(rows: &Vec<SpeedGroup>) -> (r: Vec<SpeedSummaryGroup>)
    ensures
        is_grouping(speed_row_key_view(rows@), all_indices(rows@.len() as int), speed_summary_keys(r@), speed_summary_members(r@)),
        sorted_names(speed_summary_keys(r@)),
        forall|g: int| 0 <= g < r@.len() ==> speed_summary_fields(rows@, #[trigger] r@[g]),
{
    let mut keys: Vec<Option<String>> = Vec::new();
    let nr = rows.len();
    let mut i: usize = 0;
    while i < nr
        invariant
            nr == rows@.len(),
            i <= nr,
            keys_view(keys@) =~= speed_row_key_view(rows@).take(i as int),
        decreases nr - i,
    {
        let ghost before = keys@;
        let c = rows[i].key.clone();
        keys.push(Some(c));
        assert(keys_view(keys@) =~= keys_view(before).push(Some(rows@[i as int].key@)));
        i = i + 1;
    }
    assert(speed_row_key_view(rows@).take(nr as int) =~= speed_row_key_view(rows@));
    let all = crate::aggregate::index_list(nr);
    let ghost kv = speed_row_key_view(rows@);
    let (names, members) = group_indices_sorted(&keys, &all);
    let mut r: Vec<SpeedSummaryGroup> = Vec::new();
    let n = names.len();
    let mut h: usize = 0;
    while h < n
        invariant
            n == names@.len(),
            kv == speed_row_key_view(rows@),
            kv.len() == rows@.len(),
            all@ == all_indices(rows@.len() as int),
            is_grouping(kv, all@, names@, members@),
            h <= n,
            r@.len() == h,
            forall|g: int| 0 <= g < h ==> (#[trigger] r@[g]).key@ == names@[g]@ && r@[g].members@ == members@[g]@,
            forall|g: int| 0 <= g < h ==> speed_summary_fields(rows@, #[trigger] r@[g]),
        decreases n - h,
    {
        proof {
            lemma_members_carry_key(kv, all@, names@[h as int]@);
            assert(members@[h as int]@ == members_with_key(kv, all@, names@[h as int]@));
        }
        let g = build_speed_summary(rows, &names[h], &members[h]);
        r.push(g);
        h = h + 1;
    }
    proof {
        assert forall|g: int| 0 <= g < n implies (#[trigger] speed_summary_keys(r@)[g])@ == names@[g]@ by {}
        assert forall|g: int| 0 <= g < n implies (#[trigger] speed_summary_members(r@)[g])@ == members@[g]@ by {}
        assert forall|a: int, b: int| 0 <= a < b < n implies (#[trigger] speed_summary_keys(r@)[a])@ != (#[trigger] speed_summary_keys(r@)[b])@ by {
            assert(names@[a]@ != names@[b]@);
        }
        assert forall|a: int, b: int| 0 <= a < b < n implies crate::text::lex_lt((#[trigger] speed_summary_keys(r@)[a])@, (#[trigger] speed_summary_keys(r@)[b])@) by {
            assert(crate::text::lex_lt(names@[a]@, names@[b]@));
        }
        assert forall|k: Seq<char>| #[trigger] crate::group::key_occurs(kv, all@, k) implies exists|g: int| 0 <= g < n && (#[trigger] speed_summary_keys(r@)[g])@ == k by {
            let g = choose|g: int| 0 <= g < names@.len() && (#[trigger] names@[g])@ == k;
            assert(speed_summary_keys(r@)[g]@ == k);
        }
    }
    r
}

/// The start of the 30-day window that ends on `latest` (`latest` itself when that would
/// leave the range of days).
pub open spec fn window_start(latest: i64, days: i64) -> i64 {
    if latest as int - days >= i64::MIN as int {
        (latest - days) as i64
    } else {
        latest
    }
}

/// The saturating sum of the output (`output == true`) or reasoning tokens of the rows
/// among `m` whose day lies in `[lo, hi)`.
pub open spec fn window_sum(rows: Seq<ThinkingGroup>, m: Seq<usize>, lo: int, hi: int, output: bool) -> int
    decreases m.len(),
{
    if m.len() == 0 {
        0
    } else {
        let row = rows[m.last() as int];
        let prev = window_sum(rows, m.drop_last(), lo, hi, output);
        if lo <= row.day && row.day < hi {
            crate::tokens::sat_add(prev, if output { row.tokens.output as int } else { row.tokens.reasoning as int })
        } else {
            prev
        }
    }
}

/// The clients of some thinking rows, row by row.
pub open spec fn thinking_row_clients(rows: Seq<ThinkingGroup>, m: Seq<usize>) -> Seq<Seq<char>>
    decreases m.len(),
{
    if m.len() == 0 {
        Seq::empty()
    } else {
        thinking_row_clients(rows, m.drop_last()) + crate::clients::strings_view(rows[m.last() as int].client_list@)
    }
}

/// The latest day of some thinking rows.
pub open spec fn thinking_latest_day(rows: Seq<ThinkingGroup>, m: Seq<usize>) -> i64
    decreases m.len(),
{
    if m.len() <= 1 {
        rows[m[0] as int].day
    } else {
        let prev = thinking_latest_day(rows, m.drop_last());
        if rows[m.last() as int].day > prev {
            rows[m.last() as int].day
        } else {
            prev
        }
    }
}

/// The saturating token sum of some thinking rows.
pub open spec fn thinking_rows_tokens(rows: Seq<ThinkingGroup>, m: Seq<usize>) -> TokenBreakdown
    decreases m.len(),
{
    if m.len() == 0 {
        TokenBreakdown { input: 0, output: 0, cache_read: 0, cache_write: 0, reasoning: 0 }
    } else {
        thinking_rows_tokens(rows, m.drop_last()).spec_plus(rows[m.last() as int].tokens)
    }
}

/// The message count of some thinking rows, saturating at `u32::MAX`.
pub open spec fn thinking_rows_messages(rows: Seq<ThinkingGroup>, m: Seq<usize>) -> int
    decreases m.len(),
{
    if m.len() == 0 {
        0
    } else {
        let s = thinking_rows_messages(rows, m.drop_last()) + rows[m.last() as int].message_count;
        if s > u32::MAX { u32::MAX as int } else { s }
    }
}

/// One thinking summary: the thinking rows of one base model, with the generated tokens of
/// the last 30 days of its usage and of the 30 days before.
#[derive(Debug, Clone)]
pub struct ThinkingSummaryGroup {
    pub model: String,
    pub tokens: TokenBreakdown,
    pub client_list: Vec<String>,
    pub message_count: u32,
    pub latest_day: i64,
    /// Output and reasoning tokens of the 30 days ending on the latest day.
    pub recent_output: u64,
    pub recent_reasoning: u64,
    /// Output and reasoning tokens of the 30 days before those.
    pub previous_output: u64,
    pub previous_reasoning: u64,
    pub members: Vec<usize>,
}

/// The fields of a thinking summary follow from its rows.
pub open spec fn thinking_summary_fields(rows: Seq<ThinkingGroup>, s: ThinkingSummaryGroup) -> bool {
    let m = s.members@;
    let latest = thinking_latest_day(rows, m);
    let recent_start = window_start(latest, 29);
    let previous_start = window_start(recent_start, 30);
    &&& s.latest_day == latest
    &&& s.tokens == thinking_rows_tokens(rows, m)
    &&& crate::price::sorted_distinct_of(thinking_row_clients(rows, m), s.client_list@)
    &&& s.message_count == thinking_rows_messages(rows, m)
    &&& s.recent_output == window_sum(rows, m, recent_start as int, latest + 1, true)
    &&& s.recent_reasoning == window_sum(rows, m, recent_start as int, latest + 1, false)
    &&& s.previous_output == window_sum(rows, m, previous_start as int, recent_start as int, true)
    &&& s.previous_reasoning == window_sum(rows, m, previous_start as int, recent_start as int, false)
}

/// The base model of every thinking row.
pub open spec fn thinking_model_view(rows: Seq<ThinkingGroup>) -> Seq<Option<Seq<char>>> {
    Seq::new(rows.len(), |i: int| Some(rows[i].model@))
}

/// The models of a list of thinking summaries.
pub open spec fn thinking_summary_keys(r: Seq<ThinkingSummaryGroup>) -> Seq<String> {
    r.map_values(|g: ThinkingSummaryGroup| g.model)
}

/// The member lists of a list of thinking summaries.
pub open spec fn thinking_summary_members(r: Seq<ThinkingSummaryGroup>) -> Seq<Vec<usize>> {
    r.map_values(|g: ThinkingSummaryGroup| g.members)
}

fn window_start_exec(latest: i64, days: i64) -> (r: i64)
    requires
        0 <= days <= 30,
    ensures
        r == window_start(latest, days),
{
    match latest.checked_sub(days) {
        Some(x) => x,
        None => latest,
    }
}

fn window_sums(rows: &Vec<ThinkingGroup>, m: &Vec<usize>, lo: i64, hi_incl: i64) -> (r: (u64, u64))
    requires
        forall|j: int| 0 <= j < m@.len() ==> (#[trigger] m@[j] as int) < rows@.len(),
    ensures
        r.0 == window_sum(rows@, m@, lo as int, hi_incl + 1, true),
        r.1 == window_sum(rows@, m@, lo as int, hi_incl + 1, false),
{
    let mut o: u64 = 0;
    let mut q: u64 = 0;
    let n = m.len();
    let mut j: usize = 0;
    while j < n
        invariant
            n == m@.len(),
            forall|x: int| 0 <= x < m@.len() ==> (#[trigger] m@[x] as int) < rows@.len(),
            j <= n,
            o == window_sum(rows@, m@.take(j as int), lo as int, hi_incl + 1, true),
            q == window_sum(rows@, m@.take(j as int), lo as int, hi_incl + 1, false),
        decreases n - j,
    {
        assert(m@.take(j + 1).drop_last() =~= m@.take(j as int));
        let row = &rows[m[j]];
        if lo <= row.day && row.day <= hi_incl {
            o = o.saturating_add(row.tokens.output);
            q = q.saturating_add(row.tokens.reasoning);
        }
        j = j + 1;
    }
    assert(m@.take(n as int) =~= m@);
    (o, q)
}

pub(crate) fn build_thinking_summary(rows: &Vec<ThinkingGroup>, model: &String, m: &Vec<usize>) -> (s: ThinkingSummaryGroup)
    requires
        forall|j: int| 0 <= j < m@.len() ==> (#[trigger] m@[j] as int) < rows@.len(),
        m@.len() > 0,
    ensures
        s.model@ == model@,
        s.members@ == m@,
        thinking_summary_fields(rows@, s),
{
    let n = m.len();
    let mut latest: i64 = rows[m[0]].day;
    let mut tokens = TokenBreakdown { input: 0, output: 0, cache_read: 0, cache_write: 0, reasoning: 0 };
    let mut messages: u32 = 0;
    let mut clients: Vec<String> = Vec::new();
    let mut j: usize = 0;
    while j < n
        invariant
            n == m@.len(),
            n > 0,
            forall|q: int| 0 <= q < m@.len() ==> (#[trigger] m@[q] as int) < rows@.len(),
            j <= n,
            j > 0 ==> latest == thinking_latest_day(rows@, m@.take(j as int)),
            j == 0 ==> latest == rows@[m@[0] as int].day,
            tokens == thinking_rows_tokens(rows@, m@.take(j as int)),
            messages == thinking_rows_messages(rows@, m@.take(j as int)),
            crate::clients::strings_view(clients@) == thinking_row_clients(rows@, m@.take(j as int)),
        decreases n - j,
    {
        assert(m@.take(j + 1).drop_last() =~= m@.take(j as int));
        let row = &rows[m[j]];
        if j > 0 && row.day > latest {
            latest = row.day;
        }
        tokens.add_tokens(&row.tokens);
        messages = messages.saturating_add(row.message_count);
        let ghost before = clients@;
        let k = row.client_list.len();
        let mut q: usize = 0;
        while q < k
            invariant
                k == row.client_list@.len(),
                q <= k,
                crate::clients::strings_view(clients@) == crate::clients::strings_view(before)
                    + crate::clients::strings_view(row.client_list@).take(q as int),
            decreases k - q,
        {
            let ghost pre = clients@;
            clients.push(row.client_list[q].clone());
            assert(crate::clients::strings_view(clients@) =~= crate::clients::strings_view(pre).push(row.client_list@[q as int]@));
            assert(crate::clients::strings_view(row.client_list@).take(q + 1)
                =~= crate::clients::strings_view(row.client_list@).take(q as int).push(row.client_list@[q as int]@));
            q = q + 1;
        }
        assert(crate::clients::strings_view(row.client_list@).take(k as int) =~= crate::clients::strings_view(row.client_list@));
        j = j + 1;
    }
    assert(m@.take(n as int) =~= m@);
    let recent_start = window_start_exec(latest, 29);
    let previous_start = window_start_exec(recent_start, 30);
    let (recent_output, recent_reasoning) = window_sums(rows, m, recent_start, latest);
    let (previous_output, previous_reasoning) = if recent_start > i64::MIN {
        window_sums(rows, m, previous_start, recent_start - 1)
    } else {
        proof {
            assert forall|x: Seq<usize>, o: bool| window_sum(rows@, x, previous_start as int, recent_start as int, o) == 0 by {
                lemma_empty_window(rows@, x, previous_start as int, recent_start as int, o);
            }
        }
        (0u64, 0u64)
    };
    let client_list = crate::price::sorted_distinct_strings(&clients);
    ThinkingSummaryGroup {
        model: model.clone(),
        tokens,
        client_list,
        message_count: messages,
        latest_day: latest,
        recent_output,
        recent_reasoning,
        previous_output,
        previous_reasoning,
        members: m.clone(),
    }
}

proof fn lemma_empty_window(rows: Seq<ThinkingGroup>, m: Seq<usize>, lo: int, hi: int, output: bool)
    requires
        hi <= lo,
    ensures
        window_sum(rows, m, lo, hi, output) == 0,
    decreases m.len(),
{
    if m.len() > 0 {
        lemma_empty_window(rows, m.drop_last(), lo, hi, output);
    }
}

/// The thinking summaries of a list of thinking rows, in increasing model order: one summary
/// per base model.
pub fn build_thinking_summaries(rows: &Vec<ThinkingGroup>) -> (r: Vec<ThinkingSummaryGroup>)
    ensures
        is_grouping(thinking_model_view(rows@), all_indices(rows@.len() as int), thinking_summary_keys(r@), thinking_summary_members(r@)),
        sorted_names(thinking_summary_keys(r@)),
        forall|g: int| 0 <= g < r@.len() ==> thinking_summary_fields(rows@, #[trigger] r@[g]),
{
    let mut keys: Vec<Option<String>> = Vec::new();
    let nr = rows.len();
    let mut i: usize = 0;
    while i < nr
        invariant
            nr == rows@.len(),
            i <= nr,
            keys_view(keys@) =~= thinking_model_view(rows@).take(i as int),
        decreases nr - i,
    {
        let ghost before = keys@;
        let c = rows[i].model.clone();
        keys.push(Some(c));
        assert(keys_view(keys@) =~= keys_view(before).push(Some(rows@[i as int].model@)));
        i = i + 1;
    }
    assert(thinking_model_view(rows@).take(nr as int) =~= thinking_model_view(rows@));
    let all = crate::aggregate::index_list(nr);
    let ghost kv = thinking_model_view(rows@);
    let (names, members) = group_indices_sorted(&keys, &all);
    let mut r: Vec<ThinkingSummaryGroup> = Vec::new();
    let n = names.len();
    let mut h: usize = 0;
    while h < n
        invariant
            n == names@.len(),
            kv == thinking_model_view(rows@),
            kv.len() == rows@.len(),
            all@ == all_indices(rows@.len() as int),
            is_grouping(kv, all@, names@, members@),
            h <= n,
            r@.len() == h,
            forall|g: int| 0 <= g < h ==> (#[trigger] r@[g]).model@ == names@[g]@ && r@[g].members@ == members@[g]@,
            forall|g: int| 0 <= g < h ==> thinking_summary_fields(rows@, #[trigger] r@[g]),
        decreases n - h,
    {
        proof {
            lemma_members_carry_key(kv, all@, names@[h as int]@);
            assert(members@[h as int]@ == members_with_key(kv, all@, names@[h as int]@));
        }
        let g = build_thinking_summary(rows, &names[h], &members[h]);
        r.push(g);
        h = h + 1;
    }
    proof {
        assert forall|g: int| 0 <= g < n implies (#[trigger] thinking_summary_keys(r@)[g])@ == names@[g]@ by {}
        assert forall|g: int| 0 <= g < n implies (#[trigger] thinking_summary_members(r@)[g])@ == members@[g]@ by {}
        assert forall|a: int, b: int| 0 <= a < b < n implies (#[trigger] thinking_summary_keys(r@)[a])@ != (#[trigger] thinking_summary_keys(r@)[b])@ by {
            assert(names@[a]@ != names@[b]@);
        }
        assert forall|a: int, b: int| 0 <= a < b < n implies crate::text::lex_lt((#[trigger] thinking_summary_keys(r@)[a])@, (#[trigger] thinking_summary_keys(r@)[b])@) by {
            assert(crate::text::lex_lt(names@[a]@, names@[b]@));
        }
        assert forall|k: Seq<char>| #[trigger] crate::group::key_occurs(kv, all@, k) implies exists|g: int| 0 <= g < n && (#[trigger] thinking_summary_keys(r@)[g])@ == k by {
            let g = choose|g: int| 0 <= g < names@.len() && (#[trigger] names@[g])@ == k;
            assert(thinking_summary_keys(r@)[g]@ == k);
        }
    }
    r
}

/// The generated tokens of a thinking row (output plus reasoning, saturating).
pub open spec fn row_generated(g: ThinkingGroup) -> int {
    crate::tokens::sat_add(g.tokens.output as int, g.tokens.reasoning as int)
}

/// Lexicographic order on (model, level, provider).
pub open spec fn names_before(
    model_a: Seq<char>,
    level_a: Seq<char>,
    provider_a: Seq<char>,
    model_b: Seq<char>,
    level_b: Seq<char>,
    provider_b: Seq<char>,
) -> bool {
    crate::text::lex_lt(model_a, model_b) || (model_a == model_b && (crate::text::lex_lt(level_a, level_b) || (
    level_a == level_b && crate::text::lex_lt(provider_a, provider_b))))
}

proof fn lemma_names_before_transitive(
    ma: Seq<char>, la: Seq<char>, pa: Seq<char>,
    mb: Seq<char>, lb: Seq<char>, pb: Seq<char>,
    mc: Seq<char>, lc: Seq<char>, pc: Seq<char>,
)
    ensures
        names_before(ma, la, pa, mb, lb, pb) && names_before(mb, lb, pb, mc, lc, pc) ==> names_before(ma, la, pa, mc, lc, pc),
        !names_before(ma, la, pa, ma, la, pa),
{
    crate::text::lemma_lex_transitive(ma, mb, mc);
    crate::text::lemma_lex_transitive(la, lb, lc);
    crate::text::lemma_lex_transitive(pa, pb, pc);
    crate::text::lemma_lex_irreflexive(ma);
    crate::text::lemma_lex_irreflexive(la);
    crate::text::lemma_lex_irreflexive(pa);
}

proof fn lemma_names_before_negatively_transitive(
    ma: Seq<char>, la: Seq<char>, pa: Seq<char>,
    mb: Seq<char>, lb: Seq<char>, pb: Seq<char>,
    mc: Seq<char>, lc: Seq<char>, pc: Seq<char>,
)
    ensures
        !names_before(ma, la, pa, mb, lb, pb) && !names_before(mb, lb, pb, mc, lc, pc) ==> !names_before(ma, la, pa, mc, lc, pc),
{
    crate::text::lemma_lex_three(ma, mb, mc);
    crate::text::lemma_lex_three(la, lb, lc);
    crate::text::lemma_lex_three(pa, pb, pc);
}

fn names_before_exec(
    model_a: &str, level_a: &str, provider_a: &str,
    model_b: &str, level_b: &str, provider_b: &str,
) -> (r: bool)
    ensures
        r == names_before(model_a@, level_a@, provider_a@, model_b@, level_b@, provider_b@),
{
    if crate::text::string_lt(model_a, model_b) {
        return true;
    }
    if !crate::text::str_equal(model_a, model_b) {
        return false;
    }
    if crate::text::string_lt(level_a, level_b) {
        return true;
    }
    if !crate::text::str_equal(level_a, level_b) {
        return false;
    }
    crate::text::string_lt(provider_a, provider_b)
}

impl crate::order::Ranked for ThinkingGroup {
    /// Later days first; within a day, more generated tokens first, then by model, level
    /// and provider.
    open spec fn ranks_before(self, other: Self) -> bool {
        self.day > other.day || (self.day == other.day && (row_generated(self) > row_generated(other) || (
        row_generated(self) == row_generated(other) && names_before(
            self.model@,
            self.thinking_level@,
            self.provider@,
            other.model@,
            other.thinking_level@,
            other.provider@,
        ))))
    }

    proof fn lemma_ranks_irreflexive(a: Self) {
        lemma_names_before_transitive(
            a.model@, a.thinking_level@, a.provider@,
            a.model@, a.thinking_level@, a.provider@,
            a.model@, a.thinking_level@, a.provider@,
        );
    }

    proof fn lemma_ranks_transitive(a: Self, b: Self, c: Self) {
        lemma_names_before_transitive(
            a.model@, a.thinking_level@, a.provider@,
            b.model@, b.thinking_level@, b.provider@,
            c.model@, c.thinking_level@, c.provider@,
        );
    }

    proof fn lemma_ranks_negatively_transitive(a: Self, b: Self, c: Self) {
        lemma_names_before_negatively_transitive(
            a.model@, a.thinking_level@, a.provider@,
            b.model@, b.thinking_level@, b.provider@,
            c.model@, c.thinking_level@, c.provider@,
        );
        lemma_names_before_transitive(
            a.model@, a.thinking_level@, a.provider@,
            b.model@, b.thinking_level@, b.provider@,
            c.model@, c.thinking_level@, c.provider@,
        );
    }

    fn before(&self, other: &Self) -> (r: bool) {
        if self.day != other.day {
            return self.day > other.day;
        }
        let ga = self.tokens.output.saturating_add(self.tokens.reasoning);
        let gb = other.tokens.output.saturating_add(other.tokens.reasoning);
        if ga != gb {
            return ga > gb;
        }
        names_before_exec(
            self.model.as_str(),
            self.thinking_level.as_str(),
            self.provider.as_str(),
            other.model.as_str(),
            other.thinking_level.as_str(),
            other.provider.as_str(),
        )
    }
}

/// The speed of generated tokens over a duration, as a fraction `(numerator, denominator)`
/// of tokens per millisecond; a zero duration reads as speed zero.
pub open spec fn speed_fraction(generated: u64, duration_ms: u64) -> (int, int) {
    if duration_ms == 0 {
        (0, 1)
    } else {
        (generated as int, duration_ms as int)
    }
}

/// The first speed is higher than the second (compared exactly).
pub open spec fn faster(ga: u64, da: u64, gb: u64, db: u64) -> bool {
    let (na, xa) = speed_fraction(ga, da);
    let (nb, xb) = speed_fraction(gb, db);
    na * xb > nb * xa
}

/// Both speeds are equal (compared exactly).
pub open spec fn same_speed(ga: u64, da: u64, gb: u64, db: u64) -> bool {
    let (na, xa) = speed_fraction(ga, da);
    let (nb, xb) = speed_fraction(gb, db);
    na * xb == nb * xa
}

proof fn lemma_speed_order(ga: u64, da: u64, gb: u64, db: u64, gc: u64, dc: u64)
    ensures
        faster(ga, da, gb, db) && faster(gb, db, gc, dc) ==> faster(ga, da, gc, dc),
        faster(ga, da, gb, db) && same_speed(gb, db, gc, dc) ==> faster(ga, da, gc, dc),
        same_speed(ga, da, gb, db) && faster(gb, db, gc, dc) ==> faster(ga, da, gc, dc),
        same_speed(ga, da, gb, db) && same_speed(gb, db, gc, dc) ==> same_speed(ga, da, gc, dc),
        !faster(ga, da, ga, da),
        same_speed(ga, da, ga, da),
        faster(ga, da, gb, db) ==> !same_speed(ga, da, gb, db),
{
    let (na, xa) = speed_fraction(ga, da);
    let (nb, xb) = speed_fraction(gb, db);
    let (nc, xc) = speed_fraction(gc, dc);
    assert(xa > 0 && xb > 0 && xc > 0);
    assert(na >= 0 && nb >= 0 && nc >= 0);
    assert(na * xb > nb * xa && nb * xc > nc * xb ==> na * xc > nc * xa) by (nonlinear_arith)
        requires xa > 0, xb > 0, xc > 0, na >= 0, nb >= 0, nc >= 0;
    assert(na * xb > nb * xa && nb * xc == nc * xb ==> na * xc > nc * xa) by (nonlinear_arith)
        requires xa > 0, xb > 0, xc > 0, na >= 0, nb >= 0, nc >= 0;
    assert(na * xb == nb * xa && nb * xc > nc * xb ==> na * xc > nc * xa) by (nonlinear_arith)
        requires xa > 0, xb > 0, xc > 0, na >= 0, nb >= 0, nc >= 0;
    assert(na * xb == nb * xa && nb * xc == nc * xb ==> na * xc == nc * xa) by (nonlinear_arith)
        requires xa > 0, xb > 0, xc > 0, na >= 0, nb >= 0, nc >= 0;
}

proof fn lemma_speed_three(ga: u64, da: u64, gb: u64, db: u64, gc: u64, dc: u64)
    ensures
        faster(ga, da, gb, db) || faster(gb, db, ga, da) || same_speed(ga, da, gb, db),
        faster(gb, db, gc, dc) || faster(gc, dc, gb, db) || same_speed(gb, db, gc, dc),
        faster(ga, da, gc, dc) || faster(gc, dc, ga, da) || same_speed(ga, da, gc, dc),
        same_speed(ga, da, gb, db) == same_speed(gb, db, ga, da),
        same_speed(gb, db, gc, dc) == same_speed(gc, dc, gb, db),
        same_speed(ga, da, gc, dc) == same_speed(gc, dc, ga, da),
        faster(ga, da, gb, db) ==> !faster(gb, db, ga, da) && !same_speed(ga, da, gb, db),
        faster(gb, db, gc, dc) ==> !faster(gc, dc, gb, db) && !same_speed(gb, db, gc, dc),
        faster(ga, da, gc, dc) ==> !faster(gc, dc, ga, da) && !same_speed(ga, da, gc, dc),
{
    lemma_speed_order(ga, da, gb, db, gc, dc);
    lemma_speed_order(ga, da, gc, dc, gb, db);
    lemma_speed_order(gb, db, ga, da, gc, dc);
    lemma_speed_order(gb, db, gc, dc, ga, da);
    lemma_speed_order(gc, dc, ga, da, gb, db);
    lemma_speed_order(gc, dc, gb, db, ga, da);
}

fn faster_exec(ga: u64, da: u64, gb: u64, db: u64) -> (r: (bool, bool))
    ensures
        r.0 == faster(ga, da, gb, db),
        r.1 == same_speed(ga, da, gb, db),
{
    let (na, xa): (u128, u128) = if da == 0 { (0, 1) } else { (ga as u128, da as u128) };
    let (nb, xb): (u128, u128) = if db == 0 { (0, 1) } else { (gb as u128, db as u128) };
    assert(na * xb <= u64::MAX * u64::MAX) by (nonlinear_arith)
        requires na <= u64::MAX, xb <= u64::MAX;
    assert(nb * xa <= u64::MAX * u64::MAX) by (nonlinear_arith)
        requires nb <= u64::MAX, xa <= u64::MAX;
    let left = na * xb;
    let right = nb * xa;
    (left > right, left == right)
}

/// A speed entry (a speed row or summary) ranks before another: faster first, then by
/// model, level and provider.
pub open spec fn speed_ranks_before(
    ga: u64, da: u64, ma: Seq<char>, la: Seq<char>, pa: Seq<char>,
    gb: u64, db: u64, mb: Seq<char>, lb: Seq<char>, pb: Seq<char>,
) -> bool {
    faster(ga, da, gb, db) || (same_speed(ga, da, gb, db) && names_before(ma, la, pa, mb, lb, pb))
}

impl crate::order::Ranked for SpeedGroup {
    /// Later days first; within a day, faster first, then by model, level and provider.
    open spec fn ranks_before(self, other: Self) -> bool {
        self.day > other.day || (self.day == other.day && speed_ranks_before(
            self.generated_tokens, self.generation_duration_ms, self.model@, self.thinking_level@, self.provider@,
            other.generated_tokens, other.generation_duration_ms, other.model@, other.thinking_level@, other.provider@,
        ))
    }

    proof fn lemma_ranks_irreflexive(a: Self) {
        lemma_speed_order(a.generated_tokens, a.generation_duration_ms, a.generated_tokens, a.generation_duration_ms,
            a.generated_tokens, a.generation_duration_ms);
        lemma_names_before_transitive(
            a.model@, a.thinking_level@, a.provider@,
            a.model@, a.thinking_level@, a.provider@,
            a.model@, a.thinking_level@, a.provider@,
        );
    }

    proof fn lemma_ranks_transitive(a: Self, b: Self, c: Self) {
        lemma_speed_order(a.generated_tokens, a.generation_duration_ms, b.generated_tokens, b.generation_duration_ms,
            c.generated_tokens, c.generation_duration_ms);
        lemma_names_before_transitive(
            a.model@, a.thinking_level@, a.provider@,
            b.model@, b.thinking_level@, b.provider@,
            c.model@, c.thinking_level@, c.provider@,
        );
    }

    proof fn lemma_ranks_negatively_transitive(a: Self, b: Self, c: Self) {
        lemma_speed_three(a.generated_tokens, a.generation_duration_ms, b.generated_tokens, b.generation_duration_ms,
            c.generated_tokens, c.generation_duration_ms);
        lemma_speed_order(a.generated_tokens, a.generation_duration_ms, b.generated_tokens, b.generation_duration_ms,
            c.generated_tokens, c.generation_duration_ms);
        lemma_speed_order(b.generated_tokens, b.generation_duration_ms, a.generated_tokens, a.generation_duration_ms,
            c.generated_tokens, c.generation_duration_ms);
        lemma_speed_order(a.generated_tokens, a.generation_duration_ms, c.generated_tokens, c.generation_duration_ms,
            b.generated_tokens, b.generation_duration_ms);
        lemma_speed_order(c.generated_tokens, c.generation_duration_ms, a.generated_tokens, a.generation_duration_ms,
            b.generated_tokens, b.generation_duration_ms);
        lemma_speed_order(b.generated_tokens, b.generation_duration_ms, c.generated_tokens, c.generation_duration_ms,
            a.generated_tokens, a.generation_duration_ms);
        lemma_speed_order(c.generated_tokens, c.generation_duration_ms, b.generated_tokens, b.generation_duration_ms,
            a.generated_tokens, a.generation_duration_ms);
        lemma_names_before_negatively_transitive(
            a.model@, a.thinking_level@, a.provider@,
            b.model@, b.thinking_level@, b.provider@,
            c.model@, c.thinking_level@, c.provider@,
        );
    }

    fn before(&self, other: &Self) -> (r: bool) {
        if self.day != other.day {
            return self.day > other.day;
        }
        let (f, same) = faster_exec(self.generated_tokens, self.generation_duration_ms,
            other.generated_tokens, other.generation_duration_ms);
        if f {
            return true;
        }
        if !same {
            return false;
        }
        names_before_exec(
            self.model.as_str(),
            self.thinking_level.as_str(),
            self.provider.as_str(),
            other.model.as_str(),
            other.thinking_level.as_str(),
            other.provider.as_str(),
        )
    }
}

impl crate::order::Ranked for SpeedSummaryGroup {
    /// Faster first, then by model, level and provider.
    open spec fn ranks_before(self, other: Self) -> bool {
        speed_ranks_before(
            self.generated_tokens, self.generation_duration_ms, self.model@, self.thinking_level@, self.provider@,
            other.generated_tokens, other.generation_duration_ms, other.model@, other.thinking_level@, other.provider@,
        )
    }

    proof fn lemma_ranks_irreflexive(a: Self) {
        lemma_speed_order(a.generated_tokens, a.generation_duration_ms, a.generated_tokens, a.generation_duration_ms,
            a.generated_tokens, a.generation_duration_ms);
        lemma_names_before_transitive(
            a.model@, a.thinking_level@, a.provider@,
            a.model@, a.thinking_level@, a.provider@,
            a.model@, a.thinking_level@, a.provider@,
        );
    }

    proof fn lemma_ranks_transitive(a: Self, b: Self, c: Self) {
        lemma_speed_order(a.generated_tokens, a.generation_duration_ms, b.generated_tokens, b.generation_duration_ms,
            c.generated_tokens, c.generation_duration_ms);
        lemma_names_before_transitive(
            a.model@, a.thinking_level@, a.provider@,
            b.model@, b.thinking_level@, b.provider@,
            c.model@, c.thinking_level@, c.provider@,
        );
    }

    proof fn lemma_ranks_negatively_transitive(a: Self, b: Self, c: Self) {
        lemma_speed_three(a.generated_tokens, a.generation_duration_ms, b.generated_tokens, b.generation_duration_ms,
            c.generated_tokens, c.generation_duration_ms);
        lemma_speed_order(a.generated_tokens, a.generation_duration_ms, b.generated_tokens, b.generation_duration_ms,
            c.generated_tokens, c.generation_duration_ms);
        lemma_speed_order(b.generated_tokens, b.generation_duration_ms, a.generated_tokens, a.generation_duration_ms,
            c.generated_tokens, c.generation_duration_ms);
        lemma_speed_order(a.generated_tokens, a.generation_duration_ms, c.generated_tokens, c.generation_duration_ms,
            b.generated_tokens, b.generation_duration_ms);
        lemma_speed_order(c.generated_tokens, c.generation_duration_ms, a.generated_tokens, a.generation_duration_ms,
            b.generated_tokens, b.generation_duration_ms);
        lemma_speed_order(b.generated_tokens, b.generation_duration_ms, c.generated_tokens, c.generation_duration_ms,
            a.generated_tokens, a.generation_duration_ms);
        lemma_speed_order(c.generated_tokens, c.generation_duration_ms, b.generated_tokens, b.generation_duration_ms,
            a.generated_tokens, a.generation_duration_ms);
        lemma_names_before_negatively_transitive(
            a.model@, a.thinking_level@, a.provider@,
            b.model@, b.thinking_level@, b.provider@,
            c.model@, c.thinking_level@, c.provider@,
        );
    }

    fn before(&self, other: &Self) -> (r: bool) {
        let (f, same) = faster_exec(self.generated_tokens, self.generation_duration_ms,
            other.generated_tokens, other.generation_duration_ms);
        if f {
            return true;
        }
        if !same {
            return false;
        }
        names_before_exec(
            self.model.as_str(),
            self.thinking_level.as_str(),
            self.provider.as_str(),
            other.model.as_str(),
            other.thinking_level.as_str(),
            other.provider.as_str(),
        )
    }
}

} // verus!

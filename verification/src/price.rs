//! Daily price rows: usage grouped by day and priced model, with the pricing sources seen.
use vstd::prelude::*;

use crate::aggregate::{
    all_indices, client_key_view, day_view, is_num_grouping, lemma_members_carry_key, lemma_num_members,
    members_with_num, sorted_member_clients,
};
use crate::clients::strings_view;
use crate::group::{group_indices_sorted, is_grouping, keys_view, members_with_key, sorted_names};
use crate::ledger::opt_view;
use crate::text::str_equal;
use crate::tokens::TokenBreakdown;
use crate::usage::{
    member_providers, members_in, merge_member_names, merged_names, message_sum_sat, sum_messages_sat_u32,
    sum_tokens, tokens_sum, UsageMessage,
};

verus! {

/// What the price table of a message resolved: its canonical model, its price category and
/// the source of its prices (none when no price was found).
#[derive(Debug, Clone)]
pub struct PriceInfo {
    pub price_model: String,
    pub price_category: String,
    pub pricing_source: Option<String>,
}

/// The pricing source shown when a row's prices come from different sources.
pub open spec fn mixed_source() -> Seq<char> {
    "Mixed"@
}

/// Folds one more pricing source into a row's source: the first known source is kept, and
/// a different one turns it into `Mixed`.
pub open spec fn merge_source(acc: Option<Seq<char>>, s: Option<Seq<char>>) -> Option<Seq<char>> {
    match (acc, s) {
        (None, Some(x)) => Some(x),
        (Some(e), Some(x)) => if e != x && e != mixed_source() {
            Some(mixed_source())
        } else {
            acc
        },
        _ => acc,
    }
}

/// The pricing source of a group of messages, folded in member order.
pub open spec fn source_fold(infos: Seq<PriceInfo>, m: Seq<usize>) -> Option<Seq<char>>
    decreases m.len(),
{
    if m.len() == 0 {
        None
    } else {
        merge_source(source_fold(infos, m.drop_last()), opt_view(infos[m.last() as int].pricing_source))
    }
}

fn merge_source_exec(acc: Option<String>, s: &Option<String>) -> (r: Option<String>)
    ensures
        opt_view(r) == merge_source(opt_view(acc), opt_view(*s)),
{
    match (&acc, s) {
        (None, Some(x)) => Some(x.clone()),
        (Some(e), Some(x)) => {
            proof {
                reveal_strlit("Mixed");
            }
            if !str_equal(e.as_str(), x.as_str()) && !str_equal(e.as_str(), "Mixed") {
                Some("Mixed".to_owned())
            } else {
                acc
            }
        },
        _ => acc,
    }
}

fn fold_sources(infos: &Vec<PriceInfo>, m: &Vec<usize>) -> (r: Option<String>)
    requires
        forall|j: int| 0 <= j < m@.len() ==> (#[trigger] m@[j] as int) < infos@.len(),
    ensures
        opt_view(r) == source_fold(infos@, m@),
{
    let mut acc: Option<String> = None;
    let n = m.len();
    let mut j: usize = 0;
    while j < n
        invariant
            n == m@.len(),
            forall|q: int| 0 <= q < m@.len() ==> (#[trigger] m@[q] as int) < infos@.len(),
            j <= n,
            opt_view(acc) == source_fold(infos@, m@.take(j as int)),
        decreases n - j,
    {
        assert(m@.take(j + 1).drop_last() =~= m@.take(j as int));
        acc = merge_source_exec(acc, &infos[m[j]].pricing_source);
        j = j + 1;
    }
    assert(m@.take(n as int) =~= m@);
    acc
}

/// The price category of every message, as a grouping key.
pub open spec fn category_view(infos: Seq<PriceInfo>) -> Seq<Option<Seq<char>>> {
    Seq::new(infos.len(), |i: int| Some(infos[i].price_category@))
}

fn category_keys(infos: &Vec<PriceInfo>) -> (r: Vec<Option<String>>)
    ensures
        keys_view(r@) == category_view(infos@),
{
    let mut r: Vec<Option<String>> = Vec::new();
    let n = infos.len();
    let mut i: usize = 0;
    while i < n
        invariant
            n == infos@.len(),
            i <= n,
            keys_view(r@) =~= category_view(infos@).take(i as int),
        decreases n - i,
    {
        let ghost before = r@;
        let c = infos[i].price_category.clone();
        r.push(Some(c));
        assert(keys_view(r@) =~= keys_view(before).push(Some(infos@[i as int].price_category@)));
        i = i + 1;
    }
    assert(category_view(infos@).take(n as int) =~= category_view(infos@));
    r
}

/// One price row: a day's messages of one price category.
#[derive(Debug, Clone)]
pub struct PriceGroup {
    pub day: i64,
    /// The canonical model of the row's first message.
    pub model: String,
    /// The providers of the messages, `", "`-joined in order of first appearance.
    pub provider: String,
    pub pricing_source: Option<String>,
    /// The price category the row groups by.
    pub matched_key: Option<String>,
    pub tokens: TokenBreakdown,
    /// The distinct clients, in increasing order.
    pub client_list: Vec<String>,
    /// The message count, saturating at `u32::MAX`.
    pub message_count: u32,
    pub members: Vec<usize>,
}

/// The fields of a price row follow from its day and members.
pub open spec fn price_fields(msgs: Seq<UsageMessage>, infos: Seq<PriceInfo>, d: i64, g: PriceGroup) -> bool {
    let m = g.members@;
    let first = m[0] as int;
    &&& g.day == d
    &&& g.model@ == infos[first].price_model@
    &&& g.provider@ == merged_names(member_providers(msgs, m))
    &&& opt_view(g.pricing_source) == source_fold(infos, m)
    &&& opt_view(g.matched_key) == Some(infos[first].price_category@)
    &&& g.tokens == tokens_sum(msgs, m)
    &&& sorted_member_clients(msgs, m, g.client_list@)
    &&& g.message_count == message_sum_sat(msgs, m, u32::MAX as int)
}

/// The categories of a list of price rows.
pub open spec fn price_keys_of(r: Seq<PriceGroup>) -> Seq<String> {
    r.map_values(|g: PriceGroup| g.matched_key.unwrap())
}

/// The member lists of a list of price rows.
pub open spec fn price_members_of(r: Seq<PriceGroup>) -> Seq<Vec<usize>> {
    r.map_values(|g: PriceGroup| g.members)
}

/// The price rows of one day.
#[derive(Debug, Clone)]
pub struct PriceDay {
    pub day: i64,
    /// The day's rows, in increasing category order.
    pub rows: Vec<PriceGroup>,
    pub members: Vec<usize>,
}

/// The rows of a day group its messages by price category.
pub open spec fn price_day_fields(msgs: Seq<UsageMessage>, infos: Seq<PriceInfo>, p: PriceDay) -> bool {
    &&& is_grouping(category_view(infos), p.members@, price_keys_of(p.rows@), price_members_of(p.rows@))
    &&& sorted_names(price_keys_of(p.rows@))
    &&& forall|q: int| 0 <= q < p.rows@.len() ==> price_fields(msgs, infos, p.day, #[trigger] p.rows@[q])
}

/// The days of a list of price days.
pub open spec fn price_day_nums(r: Seq<PriceDay>) -> Seq<i64> {
    r.map_values(|g: PriceDay| g.day)
}

/// The member lists of a list of price days.
pub open spec fn price_day_members(r: Seq<PriceDay>) -> Seq<Vec<usize>> {
    r.map_values(|g: PriceDay| g.members)
}

fn build_price_day(
    msgs: &Vec<UsageMessage>,
    infos: &Vec<PriceInfo>,
    ckeys: &Vec<Option<String>>,
    catkeys: &Vec<Option<String>>,
    day: i64,
    m: &Vec<usize>,
) -> (r: Vec<PriceGroup>)
    requires
        infos@.len() == msgs@.len(),
        keys_view(ckeys@) == client_key_view(msgs@),
        keys_view(catkeys@) == category_view(infos@),
        members_in(msgs@, m@),
    ensures
        is_grouping(category_view(infos@), m@, price_keys_of(r@), price_members_of(r@)),
        sorted_names(price_keys_of(r@)),
        forall|q: int| 0 <= q < r@.len() ==> price_fields(msgs@, infos@, day, #[trigger] r@[q]),
{
    let ghost kv = category_view(infos@);
    let (names, members) = group_indices_sorted(catkeys, m);
    let mut r: Vec<PriceGroup> = Vec::new();
    let n = names.len();
    let mut h: usize = 0;
    while h < n
        invariant
            n == names@.len(),
            kv == category_view(infos@),
            kv.len() == msgs@.len(),
            infos@.len() == msgs@.len(),
            keys_view(ckeys@) == client_key_view(msgs@),
            is_grouping(kv, m@, names@, members@),
            h <= n,
            r@.len() == h,
            forall|g: int| 0 <= g < h ==> (#[trigger] r@[g]).matched_key.unwrap()@ == names@[g]@ && r@[g].members@ == members@[g]@,
            forall|g: int| 0 <= g < h ==> price_fields(msgs@, infos@, day, #[trigger] r@[g]),
        decreases n - h,
    {
        proof {
            lemma_members_carry_key(kv, m@, names@[h as int]@);
            assert(members@[h as int]@ == members_with_key(kv, m@, names@[h as int]@));
        }
        let mm = &members[h];
        let first = mm[0];
        proof {
            assert(kv[first as int] == Some(names@[h as int]@));
        }
        let g = PriceGroup {
            day,
            model: infos[first].price_model.clone(),
            provider: merge_member_names(msgs, mm, false),
            pricing_source: fold_sources(infos, mm),
            matched_key: Some(names[h].clone()),
            tokens: sum_tokens(msgs, mm),
            client_list: crate::aggregate::sorted_clients(msgs, ckeys, mm),
            message_count: sum_messages_sat_u32(msgs, mm),
            members: mm.clone(),
        };
        r.push(g);
        h = h + 1;
    }
    proof {
        assert forall|g: int| 0 <= g < n implies (#[trigger] price_keys_of(r@)[g])@ == names@[g]@ by {}
        assert forall|g: int| 0 <= g < n implies (#[trigger] price_members_of(r@)[g])@ == members@[g]@ by {}
        assert forall|a: int, b: int| 0 <= a < b < n implies (#[trigger] price_keys_of(r@)[a])@ != (#[trigger] price_keys_of(r@)[b])@ by {
            assert(names@[a]@ != names@[b]@);
        }
        assert forall|a: int, b: int| 0 <= a < b < n implies crate::text::lex_lt((#[trigger] price_keys_of(r@)[a])@, (#[trigger] price_keys_of(r@)[b])@) by {
            assert(crate::text::lex_lt(names@[a]@, names@[b]@));
        }
        assert forall|k: Seq<char>| #[trigger] crate::group::key_occurs(kv, m@, k) implies exists|g: int| 0 <= g < n && (#[trigger] price_keys_of(r@)[g])@ == k by {
            let g = choose|g: int| 0 <= g < names@.len() && (#[trigger] names@[g])@ == k;
            assert(price_keys_of(r@)[g]@ == k);
        }
    }
    r
}

/// The price rows of a list of messages (with what the price table resolved for each),
/// latest day first: per day with messages, one row per price category.
pub fn build_price_rows(msgs: &Vec<UsageMessage>, infos: &Vec<PriceInfo>) -> (r: Vec<PriceDay>)
    requires
        infos@.len() == msgs@.len(),
    ensures
        is_num_grouping(day_view(msgs@), all_indices(msgs@.len() as int), price_day_nums(r@), price_day_members(r@)),
        forall|g: int| 0 <= g < r@.len() ==> price_day_fields(msgs@, infos@, #[trigger] r@[g]),
{
    let dk = crate::aggregate::day_keys(msgs);
    let ckeys = crate::aggregate::client_keys(msgs);
    let catkeys = category_keys(infos);
    let all = crate::aggregate::index_list(msgs.len());
    let ghost kv = day_view(msgs@);
    let (days, members) = crate::aggregate::group_numbers_desc(&dk, &all);
    let mut r: Vec<PriceDay> = Vec::new();
    let n = days.len();
    let mut h: usize = 0;
    while h < n
        invariant
            n == days@.len(),
            kv == day_view(msgs@),
            kv.len() == msgs@.len(),
            infos@.len() == msgs@.len(),
            keys_view(ckeys@) == client_key_view(msgs@),
            keys_view(catkeys@) == category_view(infos@),
            all@ == all_indices(msgs@.len() as int),
            is_num_grouping(kv, all@, days@, members@),
            h <= n,
            r@.len() == h,
            forall|g: int| 0 <= g < h ==> (#[trigger] r@[g]).day == days@[g] && r@[g].members@ == members@[g]@,
            forall|g: int| 0 <= g < h ==> price_day_fields(msgs@, infos@, #[trigger] r@[g]),
        decreases n - h,
    {
        proof {
            lemma_num_members(kv, all@, days@[h as int]);
            assert(members@[h as int]@ == members_with_num(kv, all@, days@[h as int]));
        }
        let mm = &members[h];
        let rows = build_price_day(msgs, infos, &ckeys, &catkeys, days[h], mm);
        r.push(PriceDay { day: days[h], rows, members: mm.clone() });
        h = h + 1;
    }
    proof {
        assert(price_day_nums(r@) =~= days@);
        assert forall|g: int| 0 <= g < n implies (#[trigger] price_day_members(r@)[g])@ == members@[g]@ by {}
        assert forall|d: i64| #[trigger] crate::aggregate::num_occurs(kv, all@, d) implies crate::aggregate::num_listed(price_day_nums(r@), d) by {
            assert(crate::aggregate::num_listed(days@, d));
        }
    }
    r
}

/// `names` lists, in increasing order and each once, exactly the strings of `v`.
pub open spec fn sorted_distinct_of(v: Seq<Seq<char>>, names: Seq<String>) -> bool {
    &&& sorted_names(names)
    &&& forall|g: int| 0 <= g < names.len() ==> v.contains((#[trigger] names[g])@)
    &&& forall|j: int| 0 <= j < v.len() ==> crate::aggregate::name_listed(names, #[trigger] v[j])
}

/// The distinct strings of a list, in increasing order.
pub fn sorted_distinct_strings(v: &Vec<String>) -> (r: Vec<String>)
    ensures
        sorted_distinct_of(strings_view(v@), r@),
{
    let mut keys: Vec<Option<String>> = Vec::new();
    let n = v.len();
    let mut i: usize = 0;
    while i < n
        invariant
            n == v@.len(),
            i <= n,
            keys_view(keys@) =~= Seq::new(i as nat, |q: int| Some(v@[q]@)),
        decreases n - i,
    {
        let ghost before = keys@;
        let c = v[i].clone();
        keys.push(Some(c));
        assert(keys_view(keys@) =~= keys_view(before).push(Some(v@[i as int]@)));
        i = i + 1;
    }
    let ghost kv = Seq::new(n as nat, |q: int| Some(v@[q]@));
    let all = crate::aggregate::index_list(n);
    let (names, members) = group_indices_sorted(&keys, &all);
    proof {
        crate::aggregate::lemma_grouping_names(kv, all@, names@, members@);
        let sv = strings_view(v@);
        assert forall|g: int| 0 <= g < names@.len() implies sv.contains((#[trigger] names@[g])@) by {
            assert(crate::group::key_occurs(kv, all@, names@[g]@));
            let j = choose|j: int| 0 <= j < all@.len() && (all@[j] as int) < kv.len() && kv[all@[j] as int] == Some(names@[g]@);
            assert(sv[j] == names@[g]@);
        }
        assert forall|j: int| 0 <= j < sv.len() implies crate::aggregate::name_listed(names@, #[trigger] sv[j]) by {
            assert(all@[j] == j as usize);
            assert(kv[j] == Some(sv[j]));
            assert(crate::group::key_occurs(kv, all@, sv[j]));
        }
    }
    names
}

/// The providers of the rows, in member order.
pub open spec fn row_providers(rows: Seq<PriceGroup>, m: Seq<usize>) -> Seq<Seq<char>> {
    m.map_values(|i: usize| rows[i as int].provider@)
}

/// The pricing source of a group of rows, folded in member order.
pub open spec fn row_source_fold(rows: Seq<PriceGroup>, m: Seq<usize>) -> Option<Seq<char>>
    decreases m.len(),
{
    if m.len() == 0 {
        None
    } else {
        merge_source(row_source_fold(rows, m.drop_last()), opt_view(rows[m.last() as int].pricing_source))
    }
}

/// The saturating token sum of a group of rows.
pub open spec fn row_tokens_sum(rows: Seq<PriceGroup>, m: Seq<usize>) -> TokenBreakdown
    decreases m.len(),
{
    if m.len() == 0 {
        TokenBreakdown { input: 0, output: 0, cache_read: 0, cache_write: 0, reasoning: 0 }
    } else {
        row_tokens_sum(rows, m.drop_last()).spec_plus(rows[m.last() as int].tokens)
    }
}

/// The message count of a group of rows, saturating at `u32::MAX`.
pub open spec fn row_messages_sat(rows: Seq<PriceGroup>, m: Seq<usize>) -> int
    decreases m.len(),
{
    if m.len() == 0 {
        0
    } else {
        let s = row_messages_sat(rows, m.drop_last()) + rows[m.last() as int].message_count;
        if s > u32::MAX {
            u32::MAX as int
        } else {
            s
        }
    }
}

/// The position in `m` of the first row with the latest day.
pub open spec fn latest_position(rows: Seq<PriceGroup>, m: Seq<usize>) -> int
    decreases m.len(),
{
    if m.len() <= 1 {
        0
    } else {
        let prev = latest_position(rows, m.drop_last());
        if rows[m.last() as int].day > rows[m[prev] as int].day {
            m.len() - 1
        } else {
            prev
        }
    }
}

/// The clients of the rows, row by row.
pub open spec fn row_clients(rows: Seq<PriceGroup>, m: Seq<usize>) -> Seq<Seq<char>>
    decreases m.len(),
{
    if m.len() == 0 {
        Seq::empty()
    } else {
        row_clients(rows, m.drop_last()) + strings_view(rows[m.last() as int].client_list@)
    }
}

/// One price summary: the price rows of one model.
#[derive(Debug, Clone)]
pub struct PriceSummaryGroup {
    pub model: String,
    pub provider: String,
    pub pricing_source: Option<String>,
    pub matched_key: Option<String>,
    pub latest_day: i64,
    /// The first row with the latest day, whose prices the summary shows.
    pub latest_row: usize,
    pub tokens: TokenBreakdown,
    pub client_list: Vec<String>,
    pub message_count: u32,
    /// The indices of the summarised rows, in row order.
    pub members: Vec<usize>,
}

/// The fields of a price summary follow from its rows.
pub open spec fn price_summary_fields(rows: Seq<PriceGroup>, s: PriceSummaryGroup) -> bool {
    let m = s.members@;
    let first = rows[m[0] as int];
    &&& s.model@ == first.model@
    &&& s.provider@ == merged_names(row_providers(rows, m))
    &&& opt_view(s.pricing_source) == row_source_fold(rows, m)
    &&& opt_view(s.matched_key) == opt_view(first.matched_key)
    &&& s.latest_row as int == m[latest_position(rows, m)] as int
    &&& s.latest_day == rows[s.latest_row as int].day
    &&& s.tokens == row_tokens_sum(rows, m)
    &&& sorted_distinct_of(row_clients(rows, m), s.client_list@)
    &&& s.message_count == row_messages_sat(rows, m)
}

/// The model of every row, as a grouping key.
pub open spec fn row_model_view(rows: Seq<PriceGroup>) -> Seq<Option<Seq<char>>> {
    Seq::new(rows.len(), |i: int| Some(rows[i].model@))
}

/// The models of a list of price summaries.
pub open spec fn summary_keys_of(r: Seq<PriceSummaryGroup>) -> Seq<String> {
    r.map_values(|g: PriceSummaryGroup| g.model)
}

/// The member lists of a list of price summaries.
pub open spec fn summary_members_of(r: Seq<PriceSummaryGroup>) -> Seq<Vec<usize>> {
    r.map_values(|g: PriceSummaryGroup| g.members)
}

/// Every index of `m` is a row index.
pub open spec fn rows_in(rows: Seq<PriceGroup>, m: Seq<usize>) -> bool {
    forall|j: int| 0 <= j < m.len() ==> (#[trigger] m[j] as int) < rows.len()
}

proof fn lemma_latest_position_bounds(rows: Seq<PriceGroup>, m: Seq<usize>)
    requires
        m.len() > 0,
    ensures
        0 <= latest_position(rows, m) < m.len(),
    decreases m.len(),
{
    if m.len() > 1 {
        lemma_latest_position_bounds(rows, m.drop_last());
    }
}

fn build_price_summary(rows: &Vec<PriceGroup>, model: &String, m: &Vec<usize>) -> (s: PriceSummaryGroup)
    requires
        rows_in(rows@, m@),
        m@.len() > 0,
        rows@[m@[0] as int].model@ == model@,
    ensures
        s.model@ == model@,
        s.members@ == m@,
        price_summary_fields(rows@, s),
{
    let n = m.len();
    let first = m[0];
    let mut provider = rows[first].provider.clone();
    let mut source: Option<String> = None;
    let mut tokens = TokenBreakdown { input: 0, output: 0, cache_read: 0, cache_write: 0, reasoning: 0 };
    let mut messages: u32 = 0;
    let mut latest: usize = 0;
    let mut clients: Vec<String> = Vec::new();
    assert(row_providers(rows@, m@).take(1) =~= seq![rows@[first as int].provider@]);
    let mut j: usize = 0;
    while j < n
        invariant
            n == m@.len(),
            n > 0,
            first == m@[0],
            rows_in(rows@, m@),
            j <= n,
            j > 0 ==> provider@ == merged_names(row_providers(rows@, m@).take(j as int)),
            j == 0 ==> provider@ == rows@[first as int].provider@,
            opt_view(source) == row_source_fold(rows@, m@.take(j as int)),
            tokens == row_tokens_sum(rows@, m@.take(j as int)),
            messages == row_messages_sat(rows@, m@.take(j as int)),
            j > 0 ==> latest as int == latest_position(rows@, m@.take(j as int)) && latest < j,
            j == 0 ==> latest == 0,
            strings_view(clients@) == row_clients(rows@, m@.take(j as int)),
        decreases n - j,
    {
        assert(m@.take(j + 1).drop_last() =~= m@.take(j as int));
        let row = &rows[m[j]];
        if j > 0 {
            assert(row_providers(rows@, m@).take(j + 1).drop_last() =~= row_providers(rows@, m@).take(j as int));
            if !crate::usage::split_contains_exec(provider.as_str(), row.provider.as_str()) {
                crate::text::push_str(&mut provider, ", ");
                crate::text::push_str(&mut provider, row.provider.as_str());
            }
            let ghost prev = latest as int;
            assert(latest_position(rows@, m@.take(j as int)) == prev);
            assert(m@.take(j + 1)[prev] == m@[prev]);
            assert(m@.take(j + 1).last() == m@[j as int]);
            if row.day > rows[m[latest]].day {
                latest = j;
            }
            assert(latest_position(rows@, m@.take(j + 1)) == latest as int);
        } else {
            assert(m@.take(1).len() == 1);
            assert(latest_position(rows@, m@.take(1)) == 0);
        }
        source = merge_source_exec(source, &row.pricing_source);
        tokens.add_tokens(&row.tokens);
        messages = messages.saturating_add(row.message_count);
        let ghost before = clients@;
        let k = row.client_list.len();
        let mut q: usize = 0;
        while q < k
            invariant
                k == row.client_list@.len(),
                q <= k,
                strings_view(clients@) == strings_view(before) + strings_view(row.client_list@).take(q as int),
            decreases k - q,
        {
            let ghost pre = clients@;
            clients.push(row.client_list[q].clone());
            assert(strings_view(clients@) =~= strings_view(pre).push(row.client_list@[q as int]@));
            assert(strings_view(row.client_list@).take(q + 1) =~= strings_view(row.client_list@).take(q as int).push(row.client_list@[q as int]@));
            q = q + 1;
        }
        assert(strings_view(row.client_list@).take(k as int) =~= strings_view(row.client_list@));
        j = j + 1;
    }
    assert(m@.take(n as int) =~= m@);
    assert(row_providers(rows@, m@).take(n as int) =~= row_providers(rows@, m@));
    proof {
        lemma_latest_position_bounds(rows@, m@);
    }
    let client_list = sorted_distinct_strings(&clients);
    PriceSummaryGroup {
        model: model.clone(),
        provider,
        pricing_source: source,
        matched_key: crate::ledger::clone_opt_string(&rows[first].matched_key),
        latest_day: rows[m[latest]].day,
        latest_row: m[latest],
        tokens,
        client_list,
        message_count: messages,
        members: m.clone(),
    }
}

/// The price summaries of a list of price rows (in the order given), in increasing model
/// order: one summary per model.
pub fn build_price_summaries(rows: &Vec<PriceGroup>) -> (r: Vec<PriceSummaryGroup>)
    ensures
        is_grouping(row_model_view(rows@), all_indices(rows@.len() as int), summary_keys_of(r@), summary_members_of(r@)),
        sorted_names(summary_keys_of(r@)),
        forall|g: int| 0 <= g < r@.len() ==> price_summary_fields(rows@, #[trigger] r@[g]),
{
    let mut keys: Vec<Option<String>> = Vec::new();
    let nr = rows.len();
    let mut i: usize = 0;
    while i < nr
        invariant
            nr == rows@.len(),
            i <= nr,
            keys_view(keys@) =~= row_model_view(rows@).take(i as int),
        decreases nr - i,
    {
        let ghost before = keys@;
        let c = rows[i].model.clone();
        keys.push(Some(c));
        assert(keys_view(keys@) =~= keys_view(before).push(Some(rows@[i as int].model@)));
        i = i + 1;
    }
    assert(row_model_view(rows@).take(nr as int) =~= row_model_view(rows@));
    let all = crate::aggregate::index_list(nr);
    let ghost kv = row_model_view(rows@);
    let (names, members) = group_indices_sorted(&keys, &all);
    let mut r: Vec<PriceSummaryGroup> = Vec::new();
    let n = names.len();
    let mut h: usize = 0;
    while h < n
        invariant
            n == names@.len(),
            kv == row_model_view(rows@),
            kv.len() == rows@.len(),
            all@ == all_indices(rows@.len() as int),
            is_grouping(kv, all@, names@, members@),
            h <= n,
            r@.len() == h,
            forall|g: int| 0 <= g < h ==> (#[trigger] r@[g]).model@ == names@[g]@ && r@[g].members@ == members@[g]@,
            forall|g: int| 0 <= g < h ==> price_summary_fields(rows@, #[trigger] r@[g]),
        decreases n - h,
    {
        proof {
            lemma_members_carry_key(kv, all@, names@[h as int]@);
            assert(members@[h as int]@ == members_with_key(kv, all@, names@[h as int]@));
            let x = members@[h as int]@[0];
            assert(kv[x as int] == Some(names@[h as int]@));
        }
        let g = build_price_summary(rows, &names[h], &members[h]);
        r.push(g);
        h = h + 1;
    }
    proof {
        assert forall|g: int| 0 <= g < n implies (#[trigger] summary_keys_of(r@)[g])@ == names@[g]@ by {}
        assert forall|g: int| 0 <= g < n implies (#[trigger] summary_members_of(r@)[g])@ == members@[g]@ by {}
        assert forall|a: int, b: int| 0 <= a < b < n implies (#[trigger] summary_keys_of(r@)[a])@ != (#[trigger] summary_keys_of(r@)[b])@ by {
            assert(names@[a]@ != names@[b]@);
        }
        assert forall|a: int, b: int| 0 <= a < b < n implies crate::text::lex_lt((#[trigger] summary_keys_of(r@)[a])@, (#[trigger] summary_keys_of(r@)[b])@) by {
            assert(crate::text::lex_lt(names@[a]@, names@[b]@));
        }
        assert forall|k: Seq<char>| #[trigger] crate::group::key_occurs(kv, all@, k) implies exists|g: int| 0 <= g < n && (#[trigger] summary_keys_of(r@)[g])@ == k by {
            let g = choose|g: int| 0 <= g < names@.len() && (#[trigger] names@[g])@ == k;
            assert(summary_keys_of(r@)[g]@ == k);
        }
    }
    r
}

} // verus!

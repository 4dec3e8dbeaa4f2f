//! Daily rows read back from the usage cache: the cached date becomes a day number, and
//! rows written before per-source breakdowns existed are regrouped by client, with rows
//! that name no client under `unknown`.
use vstd::prelude::*;

use crate::aggregate::{all_indices, index_list, lemma_members_carry_key};
use crate::dates::{parse_date_day, spec_date_day};
use crate::group::{group_indices_sorted, is_grouping, key_occurs, keys_view, members_with_key, sorted_names};
use crate::grouping::{cached_model_labels, spec_cached_model_labels};
use crate::ledger::opt_view;
use crate::text::lex_lt;
use crate::tokens::TokenBreakdown;

verus! {

/// A cached per-model entry of a day (its cost is kept beside it by the caller).
#[derive(Debug, Clone)]
pub struct CachedDailyModelRow {
    pub key: String,
    /// The client of the entry; empty in caches written before clients were recorded.
    pub client: String,
    pub provider: String,
    pub display_name: String,
    pub color_key: String,
    pub tokens: TokenBreakdown,
    pub messages: u64,
}

/// A cached per-source entry of a day.
#[derive(Debug, Clone)]
pub struct CachedDailySourceRow {
    pub key: String,
    pub tokens: TokenBreakdown,
    pub models: Vec<CachedDailyModelRow>,
}

/// A cached day: its `YYYY-MM-DD` date, totals, and either per-source entries or (in older
/// caches) only per-model entries.
#[derive(Debug, Clone)]
pub struct CachedDailyRow {
    pub date: String,
    pub tokens: TokenBreakdown,
    pub models: Vec<CachedDailyModelRow>,
    pub source_breakdown: Vec<CachedDailySourceRow>,
    pub message_count: u32,
    pub turn_count: u32,
}

/// A model entry of a day, with its labels filled in.
#[derive(Debug, Clone)]
pub struct DailyModelRow {
    pub key: String,
    pub provider: String,
    pub display_name: String,
    pub color_key: String,
    pub tokens: TokenBreakdown,
    pub messages: u64,
}

/// A source entry of a day, with its models in increasing key order.
#[derive(Debug, Clone)]
pub struct DailySourceRow {
    pub client: String,
    pub tokens: TokenBreakdown,
    pub models: Vec<DailyModelRow>,
}

/// A day read back from the cache, with its sources in increasing client order.
#[derive(Debug, Clone)]
pub struct DailyRow {
    pub day: i64,
    pub tokens: TokenBreakdown,
    pub sources: Vec<DailySourceRow>,
    pub message_count: u32,
    pub turn_count: u32,
}

/// The keys of cached model entries.
pub open spec fn model_key_view(rows: Seq<CachedDailyModelRow>) -> Seq<Option<Seq<char>>> {
    rows.map_values(|r: CachedDailyModelRow| Some(r.key@))
}

/// The client of a legacy model entry, `unknown` when it names none.
pub open spec fn client_or_unknown(client: Seq<char>) -> Seq<char> {
    if client.len() == 0 {
        "unknown"@
    } else {
        client
    }
}

/// The source keys of legacy model entries.
pub open spec fn client_key_view(rows: Seq<CachedDailyModelRow>) -> Seq<Option<Seq<char>>> {
    rows.map_values(|r: CachedDailyModelRow| Some(client_or_unknown(r.client@)))
}

/// The keys of cached source entries.
pub open spec fn source_key_view(rows: Seq<CachedDailySourceRow>) -> Seq<Option<Seq<char>>> {
    rows.map_values(|r: CachedDailySourceRow| Some(r.key@))
}

/// `d` is the model entry read from `c`: same key, provider, tokens and message count, with
/// the display name and colour key filled in as for any cached model row.
pub open spec fn is_model_row_of(c: CachedDailyModelRow, d: DailyModelRow) -> bool {
    &&& d.key@ == c.key@
    &&& d.provider@ == c.provider@
    &&& (d.display_name@, d.color_key@) == spec_cached_model_labels(c.key@, c.display_name@, c.color_key@)
    &&& d.tokens == c.tokens
    &&& d.messages == c.messages
}

/// `out` maps each key among the entries `subset` of `rows`, in increasing key order, to
/// the entry read from the last of them with that key.
pub open spec fn is_model_map(rows: Seq<CachedDailyModelRow>, subset: Seq<usize>, out: Seq<DailyModelRow>) -> bool {
    &&& forall|a: int, b: int| 0 <= a < b < out.len() ==> lex_lt((#[trigger] out[a]).key@, (#[trigger] out[b]).key@)
    &&& forall|k: Seq<char>| #[trigger] key_occurs(model_key_view(rows), subset, k) ==> exists|g: int| 0 <= g < out.len() && (#[trigger] out[g]).key@ == k
    &&& forall|g: int| 0 <= g < out.len() ==> {
        let m = members_with_key(model_key_view(rows), subset, (#[trigger] out[g]).key@);
        m.len() > 0 && is_model_row_of(rows[m.last() as int], out[g])
    }
}

/// The saturating per-category token sum of the entries `m` of `rows`.
pub open spec fn tokens_fold(rows: Seq<CachedDailyModelRow>, m: Seq<usize>) -> TokenBreakdown
    decreases m.len(),
{
    if m.len() == 0 {
        TokenBreakdown { input: 0, output: 0, cache_read: 0, cache_write: 0, reasoning: 0 }
    } else {
        tokens_fold(rows, m.drop_last()).spec_plus(rows[m.last() as int].tokens)
    }
}

/// `out` regroups legacy model entries by client (`unknown` for none), in increasing client
/// order: each source sums its entries' tokens and maps their keys as `is_model_map` says.
pub open spec fn is_legacy_sources(rows: Seq<CachedDailyModelRow>, out: Seq<DailySourceRow>) -> bool {
    let kv = client_key_view(rows);
    let all = all_indices(rows.len() as int);
    &&& forall|a: int, b: int| 0 <= a < b < out.len() ==> lex_lt((#[trigger] out[a]).client@, (#[trigger] out[b]).client@)
    &&& forall|k: Seq<char>| #[trigger] key_occurs(kv, all, k) ==> exists|g: int| 0 <= g < out.len() && (#[trigger] out[g]).client@ == k
    &&& forall|g: int| 0 <= g < out.len() ==> {
        let m = members_with_key(kv, all, (#[trigger] out[g]).client@);
        &&& m.len() > 0
        &&& out[g].tokens == tokens_fold(rows, m)
        &&& is_model_map(rows, m, out[g].models@)
    }
}

/// `out` maps each cached source key, in increasing order, to the last cached entry with
/// that key: its tokens, and its models mapped as `is_model_map` says.
pub open spec fn is_source_map(rows: Seq<CachedDailySourceRow>, out: Seq<DailySourceRow>) -> bool {
    let kv = source_key_view(rows);
    let all = all_indices(rows.len() as int);
    &&& forall|a: int, b: int| 0 <= a < b < out.len() ==> lex_lt((#[trigger] out[a]).client@, (#[trigger] out[b]).client@)
    &&& forall|k: Seq<char>| #[trigger] key_occurs(kv, all, k) ==> exists|g: int| 0 <= g < out.len() && (#[trigger] out[g]).client@ == k
    &&& forall|g: int| 0 <= g < out.len() ==> {
        let m = members_with_key(kv, all, (#[trigger] out[g]).client@);
        let src = rows[m.last() as int];
        &&& m.len() > 0
        &&& out[g].tokens == src.tokens
        &&& is_model_map(src.models@, all_indices(src.models@.len() as int), out[g].models@)
    }
}

fn model_keys(rows: &Vec<CachedDailyModelRow>) -> (r: Vec<Option<String>>)
    ensures
        keys_view(r@) == model_key_view(rows@),
{
    let mut r: Vec<Option<String>> = Vec::new();
    let mut i: usize = 0;
    while i < rows.len()
        invariant
            i <= rows@.len(),
            r@.len() == i,
            forall|j: int| 0 <= j < i ==> opt_view(#[trigger] r@[j]) == Some(rows@[j].key@),
        decreases rows@.len() - i,
    {
        r.push(Some(rows[i].key.clone()));
        i = i + 1;
    }
    assert(keys_view(r@) =~= model_key_view(rows@)) by {
        assert forall|j: int| 0 <= j < r@.len() implies keys_view(r@)[j] == model_key_view(rows@)[j] by {
            assert(opt_view(r@[j]) == Some(rows@[j].key@));
        }
    }
    r
}

fn read_model_row(c: &CachedDailyModelRow) -> (d: DailyModelRow)
    ensures
        is_model_row_of(*c, d),
{
    let (display_name, color_key) = cached_model_labels(c.key.as_str(), c.display_name.as_str(), c.color_key.as_str());
    DailyModelRow {
        key: c.key.clone(),
        provider: c.provider.clone(),
        display_name,
        color_key,
        tokens: c.tokens,
        messages: c.messages,
    }
}

/// The model entries among `subset`, keyed and ordered as `is_model_map` says.
pub fn model_map(rows: &Vec<CachedDailyModelRow>, subset: &Vec<usize>) -> (out: Vec<DailyModelRow>)
    requires
        forall|j: int| 0 <= j < subset@.len() ==> (#[trigger] subset@[j] as int) < rows@.len(),
    ensures
        is_model_map(rows@, subset@, out@),
{
    let keys = model_keys(rows);
    let ghost kv = model_key_view(rows@);
    let (names, members) = group_indices_sorted(&keys, subset);
    let mut out: Vec<DailyModelRow> = Vec::new();
    let mut g: usize = 0;
    while g < names.len()
        invariant
            kv == model_key_view(rows@),
            kv.len() == rows@.len(),
            is_grouping(kv, subset@, names@, members@),
            sorted_names(names@),
            g <= names@.len(),
            out@.len() == g,
            forall|q: int| 0 <= q < g ==> (#[trigger] out@[q]).key@ == names@[q]@,
            forall|q: int| 0 <= q < g ==> {
                let m = members_with_key(kv, subset@, (#[trigger] out@[q]).key@);
                m.len() > 0 && is_model_row_of(rows@[m.last() as int], out@[q])
            },
        decreases names@.len() - g,
    {
        let mem = &members[g];
        assert(mem@ == members_with_key(kv, subset@, names@[g as int]@));
        assert(mem@.len() > 0);
        let last = mem[mem.len() - 1];
        proof {
            lemma_members_carry_key(kv, subset@, names@[g as int]@);
            assert(mem@[mem@.len() - 1] == last);
        }
        let d = read_model_row(&rows[last]);
        assert(kv[last as int] == Some(rows@[last as int].key@));
        out.push(d);
        g = g + 1;
    }
    proof {
        assert forall|k: Seq<char>| #[trigger] key_occurs(kv, subset@, k) implies exists|q: int| 0 <= q < out@.len() && (#[trigger] out@[q]).key@ == k by {
            let q = choose|q: int| 0 <= q < names@.len() && (#[trigger] names@[q])@ == k;
            assert(out@[q].key@ == k);
        }
        assert forall|a: int, b: int| 0 <= a < b < out@.len() implies lex_lt((#[trigger] out@[a]).key@, (#[trigger] out@[b]).key@) by {
            assert(lex_lt(names@[a]@, names@[b]@));
        }
    }
    out
}

fn client_keys(rows: &Vec<CachedDailyModelRow>) -> (r: Vec<Option<String>>)
    ensures
        keys_view(r@) == client_key_view(rows@),
{
    let mut r: Vec<Option<String>> = Vec::new();
    let mut i: usize = 0;
    while i < rows.len()
        invariant
            i <= rows@.len(),
            r@.len() == i,
            forall|j: int| 0 <= j < i ==> opt_view(#[trigger] r@[j]) == Some(client_or_unknown(rows@[j].client@)),
        decreases rows@.len() - i,
    {
        let c = if rows[i].client.as_str().is_empty() {
            "unknown".to_owned()
        } else {
            rows[i].client.clone()
        };
        r.push(Some(c));
        i = i + 1;
    }
    assert(keys_view(r@) =~= client_key_view(rows@)) by {
        assert forall|j: int| 0 <= j < r@.len() implies keys_view(r@)[j] == client_key_view(rows@)[j] by {
            assert(opt_view(r@[j]) == Some(client_or_unknown(rows@[j].client@)));
        }
    }
    r
}

fn source_keys(rows: &Vec<CachedDailySourceRow>) -> (r: Vec<Option<String>>)
    ensures
        keys_view(r@) == source_key_view(rows@),
{
    let mut r: Vec<Option<String>> = Vec::new();
    let mut i: usize = 0;
    while i < rows.len()
        invariant
            i <= rows@.len(),
            r@.len() == i,
            forall|j: int| 0 <= j < i ==> opt_view(#[trigger] r@[j]) == Some(rows@[j].key@),
        decreases rows@.len() - i,
    {
        r.push(Some(rows[i].key.clone()));
        i = i + 1;
    }
    assert(keys_view(r@) =~= source_key_view(rows@)) by {
        assert forall|j: int| 0 <= j < r@.len() implies keys_view(r@)[j] == source_key_view(rows@)[j] by {
            assert(opt_view(r@[j]) == Some(rows@[j].key@));
        }
    }
    r
}

fn fold_tokens(rows: &Vec<CachedDailyModelRow>, m: &Vec<usize>) -> (r: TokenBreakdown)
    requires
        forall|j: int| 0 <= j < m@.len() ==> (#[trigger] m@[j] as int) < rows@.len(),
    ensures
        r == tokens_fold(rows@, m@),
{
    let mut t = TokenBreakdown { input: 0, output: 0, cache_read: 0, cache_write: 0, reasoning: 0 };
    let mut j: usize = 0;
    while j < m.len()
        invariant
            j <= m@.len(),
            forall|q: int| 0 <= q < m@.len() ==> (#[trigger] m@[q] as int) < rows@.len(),
            t == tokens_fold(rows@, m@.take(j as int)),
        decreases m@.len() - j,
    {
        assert(m@.take(j + 1).drop_last() =~= m@.take(j as int));
        t.add_tokens(&rows[m[j]].tokens);
        j = j + 1;
    }
    assert(m@.take(m@.len() as int) =~= m@);
    t
}

/// Regroups the model entries of an older cached day by client, as `is_legacy_sources` says.
pub fn legacy_sources(rows: &Vec<CachedDailyModelRow>) -> (out: Vec<DailySourceRow>)
    ensures
        is_legacy_sources(rows@, out@),
{
    let keys = client_keys(rows);
    let all = index_list(rows.len());
    let ghost kv = client_key_view(rows@);
    let (names, members) = group_indices_sorted(&keys, &all);
    let mut out: Vec<DailySourceRow> = Vec::new();
    let mut g: usize = 0;
    while g < names.len()
        invariant
            kv == client_key_view(rows@),
            kv.len() == rows@.len(),
            all@ == all_indices(rows@.len() as int),
            is_grouping(kv, all@, names@, members@),
            sorted_names(names@),
            g <= names@.len(),
            out@.len() == g,
            forall|q: int| 0 <= q < g ==> (#[trigger] out@[q]).client@ == names@[q]@,
            forall|q: int| 0 <= q < g ==> {
                let m = members_with_key(kv, all@, (#[trigger] out@[q]).client@);
                &&& m.len() > 0
                &&& out@[q].tokens == tokens_fold(rows@, m)
                &&& is_model_map(rows@, m, out@[q].models@)
            },
        decreases names@.len() - g,
    {
        let mem = &members[g];
        assert(mem@ == members_with_key(kv, all@, names@[g as int]@));
        proof {
            lemma_members_carry_key(kv, all@, names@[g as int]@);
        }
        let tokens = fold_tokens(rows, mem);
        let models = model_map(rows, mem);
        out.push(DailySourceRow { client: names[g].clone(), tokens, models });
        g = g + 1;
    }
    proof {
        assert forall|k: Seq<char>| #[trigger] key_occurs(kv, all@, k) implies exists|q: int| 0 <= q < out@.len() && (#[trigger] out@[q]).client@ == k by {
            let q = choose|q: int| 0 <= q < names@.len() && (#[trigger] names@[q])@ == k;
            assert(out@[q].client@ == k);
        }
        assert forall|a: int, b: int| 0 <= a < b < out@.len() implies lex_lt((#[trigger] out@[a]).client@, (#[trigger] out@[b]).client@) by {
            assert(lex_lt(names@[a]@, names@[b]@));
        }
    }
    out
}

/// Reads the per-source entries of a cached day, as `is_source_map` says.
pub fn source_map(rows: &Vec<CachedDailySourceRow>) -> (out: Vec<DailySourceRow>)
    ensures
        is_source_map(rows@, out@),
{
    let keys = source_keys(rows);
    let all = index_list(rows.len());
    let ghost kv = source_key_view(rows@);
    let (names, members) = group_indices_sorted(&keys, &all);
    let mut out: Vec<DailySourceRow> = Vec::new();
    let mut g: usize = 0;
    while g < names.len()
        invariant
            kv == source_key_view(rows@),
            kv.len() == rows@.len(),
            all@ == all_indices(rows@.len() as int),
            is_grouping(kv, all@, names@, members@),
            sorted_names(names@),
            g <= names@.len(),
            out@.len() == g,
            forall|q: int| 0 <= q < g ==> (#[trigger] out@[q]).client@ == names@[q]@,
            forall|q: int| 0 <= q < g ==> {
                let m = members_with_key(kv, all@, (#[trigger] out@[q]).client@);
                let src = rows@[m.last() as int];
                &&& m.len() > 0
                &&& out@[q].tokens == src.tokens
                &&& is_model_map(src.models@, all_indices(src.models@.len() as int), out@[q].models@)
            },
        decreases names@.len() - g,
    {
        let mem = &members[g];
        assert(mem@ == members_with_key(kv, all@, names@[g as int]@));
        assert(mem@.len() > 0);
        let last = mem[mem.len() - 1];
        proof {
            lemma_members_carry_key(kv, all@, names@[g as int]@);
            assert(mem@[mem@.len() - 1] == last);
        }
        let src = &rows[last];
        let idx = index_list(src.models.len());
        let models = model_map(&src.models, &idx);
        out.push(DailySourceRow { client: names[g].clone(), tokens: src.tokens, models });
        g = g + 1;
    }
    proof {
        assert forall|k: Seq<char>| #[trigger] key_occurs(kv, all@, k) implies exists|q: int| 0 <= q < out@.len() && (#[trigger] out@[q]).client@ == k by {
            let q = choose|q: int| 0 <= q < names@.len() && (#[trigger] names@[q])@ == k;
            assert(out@[q].client@ == k);
        }
        assert forall|a: int, b: int| 0 <= a < b < out@.len() implies lex_lt((#[trigger] out@[a]).client@, (#[trigger] out@[b]).client@) by {
            assert(lex_lt(names@[a]@, names@[b]@));
        }
    }
    out
}

/// Reads a cached day back: `None` exactly when its date does not parse as `YYYY-MM-DD`;
/// otherwise its day number, totals and counts, with its sources read from its per-source
/// entries, or, when it has none (an older cache), regrouped from its model entries by
/// client with entries that name no client under `unknown`.
pub fn cached_daily_row(row: &CachedDailyRow) -> (r: Option<DailyRow>)
    ensures
        r is None <==> spec_date_day(row.date@) is None,
        r matches Some(d) ==> {
            &&& spec_date_day(row.date@) == Some(d.day as int)
            &&& d.tokens == row.tokens
            &&& d.message_count == row.message_count
            &&& d.turn_count == row.turn_count
            &&& row.source_breakdown@.len() == 0 ==> is_legacy_sources(row.models@, d.sources@)
            &&& row.source_breakdown@.len() > 0 ==> is_source_map(row.source_breakdown@, d.sources@)
        },
{
    let sources = if row.source_breakdown.len() == 0 {
        legacy_sources(&row.models)
    } else {
        source_map(&row.source_breakdown)
    };
    match parse_date_day(row.date.as_str()) {
        Some(day) => Some(DailyRow {
            day,
            tokens: row.tokens,
            sources,
            message_count: row.message_count,
            turn_count: row.turn_count,
        }),
        None => None,
    }
}

} // verus!

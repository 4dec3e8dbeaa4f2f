//! Codex quota intervals: consecutive quota samples of one window, and the tokens each model
//! used in between.
use vstd::prelude::*;

use crate::accounts::{account_key_view, unattributed_bucket};
use crate::aggregate::{all_indices, lemma_members_carry_key};
use crate::group::{group_indices_sorted, is_grouping, keys_view, members_with_key, sorted_names};
use crate::ledger::opt_view;
use crate::order::{rank_order, ranked, Ranked};
use crate::text::{lex_lt, str_equal, string_lt};
use crate::tokens::TokenBreakdown;
use crate::usage::{members_in, sum_tokens, tokens_sum, UsageMessage};

verus! {

/// The fields of a Codex quota sample that decide which samples pair up.
#[derive(Debug, Clone)]
pub struct QuotaSample {
    pub codex_account_hash: Option<String>,
    pub window_kind: String,
    pub resets_at: i64,
    pub window_minutes: i64,
    /// Milliseconds since the Unix epoch at which the sample was taken.
    pub timestamp: i64,
}

/// The account bucket of a sample: its hash, or `unattributed`.
pub open spec fn sample_bucket(s: QuotaSample) -> Seq<char> {
    match s.codex_account_hash {
        Some(h) => h@,
        None => unattributed_bucket(),
    }
}

/// Two samples measure the same quota window: same account bucket, window kind, reset
/// time and window length.
pub open spec fn same_window(a: QuotaSample, b: QuotaSample) -> bool {
    sample_bucket(a) == sample_bucket(b) && a.window_kind@ == b.window_kind@ && a.resets_at == b.resets_at
        && a.window_minutes == b.window_minutes
}

/// The window of `a` sorts before that of `b` (by bucket, kind, reset time, length).
pub open spec fn window_before(a: QuotaSample, b: QuotaSample) -> bool {
    lex_lt(sample_bucket(a), sample_bucket(b)) || (sample_bucket(a) == sample_bucket(b) && (lex_lt(
        a.window_kind@,
        b.window_kind@,
    ) || (a.window_kind@ == b.window_kind@ && (a.resets_at < b.resets_at || (a.resets_at == b.resets_at
        && a.window_minutes < b.window_minutes)))))
}

fn bucket_of(s: &QuotaSample) -> (r: String)
    ensures
        r@ == sample_bucket(*s),
{
    match &s.codex_account_hash {
        Some(h) => h.clone(),
        None => "unattributed".to_owned(),
    }
}

impl Ranked for QuotaSample {
    /// Samples are listed window by window, and by time within a window.
    open spec fn ranks_before(self, other: Self) -> bool {
        window_before(self, other) || (same_window(self, other) && self.timestamp < other.timestamp)
    }

    proof fn lemma_ranks_irreflexive(a: Self) {
        crate::text::lemma_lex_irreflexive(sample_bucket(a));
        crate::text::lemma_lex_irreflexive(a.window_kind@);
    }

    proof fn lemma_ranks_transitive(a: Self, b: Self, c: Self) {
        crate::text::lemma_lex_transitive(sample_bucket(a), sample_bucket(b), sample_bucket(c));
        crate::text::lemma_lex_transitive(a.window_kind@, b.window_kind@, c.window_kind@);
        crate::text::lemma_lex_irreflexive(sample_bucket(a));
        crate::text::lemma_lex_irreflexive(a.window_kind@);
        crate::text::lemma_lex_asymmetric(sample_bucket(a), sample_bucket(b));
        crate::text::lemma_lex_asymmetric(a.window_kind@, b.window_kind@);
    }

    proof fn lemma_ranks_negatively_transitive(a: Self, b: Self, c: Self) {
        crate::text::lemma_lex_three(sample_bucket(a), sample_bucket(b), sample_bucket(c));
        crate::text::lemma_lex_three(a.window_kind@, b.window_kind@, c.window_kind@);
    }

    fn before(&self, other: &Self) -> (r: bool) {
        let ba = bucket_of(self);
        let bb = bucket_of(other);
        if string_lt(ba.as_str(), bb.as_str()) {
            return true;
        }
        if !str_equal(ba.as_str(), bb.as_str()) {
            return false;
        }
        if string_lt(self.window_kind.as_str(), other.window_kind.as_str()) {
            return true;
        }
        if !str_equal(self.window_kind.as_str(), other.window_kind.as_str()) {
            return false;
        }
        if self.resets_at != other.resets_at {
            return self.resets_at < other.resets_at;
        }
        if self.window_minutes != other.window_minutes {
            return self.window_minutes < other.window_minutes;
        }
        self.timestamp < other.timestamp
    }
}

/// The consecutive pairs (in `order`) of samples of the same window, as sample indices.
pub open spec fn window_pairs(samples: Seq<QuotaSample>, order: Seq<usize>) -> Seq<(usize, usize)>
    decreases order.len(),
{
    if order.len() < 2 {
        Seq::empty()
    } else {
        let prev = window_pairs(samples, order.drop_last());
        let a = order[order.len() - 2];
        let b = order.last();
        if same_window(samples[a as int], samples[b as int]) {
            prev.push((a, b))
        } else {
            prev
        }
    }
}

/// Two samples measure one quota window: same account bucket, window kind, reset time and
/// window length (written out field by field).
pub open spec fn one_quota_window(a: QuotaSample, b: QuotaSample) -> bool {
    &&& sample_bucket(a) == sample_bucket(b)
    &&& a.window_kind@ == b.window_kind@
    &&& a.resets_at == b.resets_at
    &&& a.window_minutes == b.window_minutes
}

/// `(a, b)` are neighbours in `order`: `b` is listed right after `a`.
pub open spec fn neighbours(order: Seq<usize>, a: usize, b: usize) -> bool {
    exists|q: int| 0 <= q && q + 1 < order.len() && #[trigger] order[q] == a && order[q + 1] == b
}

proof fn lemma_pairs_sound(samples: Seq<QuotaSample>, order: Seq<usize>)
    ensures
        forall|k: int| 0 <= k < window_pairs(samples, order).len() ==> {
            let p = #[trigger] window_pairs(samples, order)[k];
            &&& one_quota_window(samples[p.0 as int], samples[p.1 as int])
            &&& neighbours(order, p.0, p.1)
        },
    decreases order.len(),
{
    if order.len() >= 2 {
        let o0 = order.drop_last();
        lemma_pairs_sound(samples, o0);
        let prev = window_pairs(samples, o0);
        let cur = window_pairs(samples, order);
        let n = order.len();
        assert forall|k: int| 0 <= k < cur.len() implies {
            let p = #[trigger] cur[k];
            &&& one_quota_window(samples[p.0 as int], samples[p.1 as int])
            &&& neighbours(order, p.0, p.1)
        } by {
            if k < prev.len() {
                assert(cur[k] == prev[k]);
                let p = prev[k];
                let q = choose|q: int| 0 <= q && q + 1 < o0.len() && #[trigger] o0[q] == p.0 && o0[q + 1] == p.1;
                assert(order[q] == o0[q] && order[q + 1] == o0[q + 1]);
            } else {
                assert(order[n - 2] == cur[k].0 && order[n - 1] == cur[k].1);
            }
        }
    }
}

proof fn lemma_pairs_complete(samples: Seq<QuotaSample>, order: Seq<usize>)
    ensures
        forall|q: int| 0 <= q && q + 1 < order.len() && one_quota_window(samples[#[trigger] order[q] as int], samples[order[q + 1] as int])
            ==> window_pairs(samples, order).contains((order[q], order[q + 1])),
    decreases order.len(),
{
    if order.len() >= 2 {
        let o0 = order.drop_last();
        lemma_pairs_complete(samples, o0);
        let prev = window_pairs(samples, o0);
        let cur = window_pairs(samples, order);
        let n = order.len();
        assert forall|q: int| 0 <= q && q + 1 < order.len() && one_quota_window(samples[#[trigger] order[q] as int], samples[order[q + 1] as int])
            implies cur.contains((order[q], order[q + 1])) by {
            if q + 1 < o0.len() {
                assert(o0[q] == order[q] && o0[q + 1] == order[q + 1]);
                assert(prev.contains((o0[q], o0[q + 1])));
                let k = choose|k: int| 0 <= k < prev.len() && prev[k] == (o0[q], o0[q + 1]);
                assert(cur[k] == prev[k]);
            } else {
                assert(cur[cur.len() - 1] == (order[q], order[q + 1]));
            }
        }
    }
}

/// Quota intervals never span a reset or join two windows: every pair joins two samples
/// listed one right after the other that measure the same quota window (same bucket, kind,
/// reset time and length); and every two neighbouring samples of one window form a pair.
pub proof fn lemma_pairs_stay_within_one_window(samples: Seq<QuotaSample>, order: Seq<usize>)
    ensures
        forall|k: int| 0 <= k < window_pairs(samples, order).len() ==> {
            let p = #[trigger] window_pairs(samples, order)[k];
            &&& one_quota_window(samples[p.0 as int], samples[p.1 as int])
            &&& neighbours(order, p.0, p.1)
        },
        forall|q: int| 0 <= q && q + 1 < order.len() && one_quota_window(samples[#[trigger] order[q] as int], samples[order[q + 1] as int])
            ==> window_pairs(samples, order).contains((order[q], order[q + 1])),
{
    lemma_pairs_sound(samples, order);
    lemma_pairs_complete(samples, order);
}

fn same_window_exec(a: &QuotaSample, b: &QuotaSample) -> (r: bool)
    ensures
        r == same_window(*a, *b),
{
    let ba = bucket_of(a);
    let bb = bucket_of(b);
    str_equal(ba.as_str(), bb.as_str()) && str_equal(a.window_kind.as_str(), b.window_kind.as_str())
        && a.resets_at == b.resets_at && a.window_minutes == b.window_minutes
}

/// The quota intervals of a list of samples: the samples listed window by window and by time
/// within a window (`r.0`, a reordering of the sample indices), and the consecutive pairs of
/// that listing that measure the same window (`r.1`, as (start, end) sample indices).
pub fn quota_sample_pairs(samples: &Vec<QuotaSample>) -> (r: (Vec<usize>, Vec<(usize, usize)>))
    ensures
        r.0@.to_multiset() == all_indices(samples@.len() as int).to_multiset(),
        forall|q: int| 0 <= q < r.0@.len() ==> (#[trigger] r.0@[q] as int) < samples@.len(),
        ranked(samples@, r.0@),
        r.1@ == window_pairs(samples@, r.0@),
{
    let order = rank_order(samples);
    let mut pairs: Vec<(usize, usize)> = Vec::new();
    let n = order.len();
    if n < 2 {
        return (order, pairs);
    }
    let mut k: usize = 1;
    while k < n
        invariant
            n == order@.len(),
            n >= 2,
            1 <= k <= n,
            forall|q: int| 0 <= q < order@.len() ==> (#[trigger] order@[q] as int) < samples@.len(),
            pairs@ == window_pairs(samples@, order@.take(k as int)),
        decreases n - k,
    {
        assert(order@.take(k + 1).drop_last() =~= order@.take(k as int));
        let a = order[k - 1];
        let b = order[k];
        if same_window_exec(&samples[a], &samples[b]) {
            pairs.push((a, b));
        }
        k = k + 1;
    }
    assert(order@.take(n as int) =~= order@);
    (order, pairs)
}

/// The model of every Codex message of bucket `account` recorded in `(start, end]`; none for
/// the other messages.
pub open spec fn interval_key_view(msgs: Seq<UsageMessage>, account: Seq<char>, start: i64, end: i64) -> Seq<
    Option<Seq<char>>,
> {
    Seq::new(
        msgs.len(),
        |i: int|
            if account_key_view(msgs)[i] == Some(account) && start < msgs[i].timestamp && msgs[i].timestamp <= end {
                Some(msgs[i].model@)
            } else {
                None
            },
    )
}

fn interval_keys(msgs: &Vec<UsageMessage>, account: &String, start: i64, end: i64) -> (r: Vec<Option<String>>)
    ensures
        keys_view(r@) == interval_key_view(msgs@, account@, start, end),
{
    let mut r: Vec<Option<String>> = Vec::new();
    let n = msgs.len();
    let mut i: usize = 0;
    while i < n
        invariant
            n == msgs@.len(),
            i <= n,
            keys_view(r@) =~= interval_key_view(msgs@, account@, start, end).take(i as int),
        decreases n - i,
    {
        let m = &msgs[i];
        let bucket: Option<String> = if str_equal(m.client.as_str(), "codex") {
            match &m.codex_account_hash {
                Some(h) => Some(h.clone()),
                None => Some("unattributed".to_owned()),
            }
        } else {
            None
        };
        let inside = match &bucket {
            Some(b) => str_equal(b.as_str(), account.as_str()) && start < m.timestamp && m.timestamp <= end,
            None => false,
        };
        let k: Option<String> = if inside {
            Some(m.model.clone())
        } else {
            None
        };
        let ghost before = r@;
        r.push(k);
        assert(opt_view(bucket) == account_key_view(msgs@)[i as int]);
        assert(keys_view(r@) =~= keys_view(before).push(interval_key_view(msgs@, account@, start, end)[i as int]));
        i = i + 1;
    }
    assert(interval_key_view(msgs@, account@, start, end).take(n as int) =~= interval_key_view(
        msgs@,
        account@,
        start,
        end,
    ));
    r
}

/// The tokens one model used within a quota interval.
#[derive(Debug, Clone)]
pub struct IntervalModel {
    pub model: String,
    pub tokens: TokenBreakdown,
    pub members: Vec<usize>,
}

/// The models of a list of interval models.
pub open spec fn interval_model_keys(r: Seq<IntervalModel>) -> Seq<String> {
    r.map_values(|g: IntervalModel| g.model)
}

/// The member lists of a list of interval models.
pub open spec fn interval_model_members(r: Seq<IntervalModel>) -> Seq<Vec<usize>> {
    r.map_values(|g: IntervalModel| g.members)
}

/// The models the Codex messages of bucket `account` recorded in `(start, end]` used, in
/// increasing model order, each with the tokens of its messages.
pub fn interval_model_tokens(msgs: &Vec<UsageMessage>, account: &String, start: i64, end: i64) -> (r: Vec<
    IntervalModel,
>)
    ensures
        is_grouping(
            interval_key_view(msgs@, account@, start, end),
            all_indices(msgs@.len() as int),
            interval_model_keys(r@),
            interval_model_members(r@),
        ),
        sorted_names(interval_model_keys(r@)),
        forall|g: int| 0 <= g < r@.len() ==> (#[trigger] r@[g]).tokens == tokens_sum(msgs@, r@[g].members@),
{
    let keys = interval_keys(msgs, account, start, end);
    let all = crate::aggregate::index_list(msgs.len());
    let ghost kv = interval_key_view(msgs@, account@, start, end);
    let (names, members) = group_indices_sorted(&keys, &all);
    let mut r: Vec<IntervalModel> = Vec::new();
    let n = names.len();
    let mut h: usize = 0;
    while h < n
        invariant
            n == names@.len(),
            kv == interval_key_view(msgs@, account@, start, end),
            kv.len() == msgs@.len(),
            all@ == all_indices(msgs@.len() as int),
            is_grouping(kv, all@, names@, members@),
            h <= n,
            r@.len() == h,
            forall|g: int| 0 <= g < h ==> (#[trigger] r@[g]).model@ == names@[g]@ && r@[g].members@ == members@[g]@,
            forall|g: int| 0 <= g < h ==> (#[trigger] r@[g]).tokens == tokens_sum(msgs@, r@[g].members@),
        decreases n - h,
    {
        proof {
            lemma_members_carry_key(kv, all@, names@[h as int]@);
            assert(members@[h as int]@ == members_with_key(kv, all@, names@[h as int]@));
        }
        let mm = &members[h];
        r.push(IntervalModel { model: names[h].clone(), tokens: sum_tokens(msgs, mm), members: mm.clone() });
        h = h + 1;
    }
    proof {
        assert forall|g: int| 0 <= g < n implies (#[trigger] interval_model_keys(r@)[g])@ == names@[g]@ by {}
        assert forall|g: int| 0 <= g < n implies (#[trigger] interval_model_members(r@)[g])@ == members@[g]@ by {}
        assert forall|a: int, b: int| 0 <= a < b < n implies (#[trigger] interval_model_keys(r@)[a])@ != (#[trigger] interval_model_keys(r@)[b])@ by {
            assert(names@[a]@ != names@[b]@);
        }
        assert forall|a: int, b: int| 0 <= a < b < n implies lex_lt((#[trigger] interval_model_keys(r@)[a])@, (#[trigger] interval_model_keys(r@)[b])@) by {
            assert(lex_lt(names@[a]@, names@[b]@));
        }
        assert forall|k: Seq<char>| #[trigger] crate::group::key_occurs(kv, all@, k) implies exists|g: int| 0 <= g < n && (#[trigger] interval_model_keys(r@)[g])@ == k by {
            let g = choose|g: int| 0 <= g < names@.len() && (#[trigger] names@[g])@ == k;
            assert(interval_model_keys(r@)[g]@ == k);
        }
    }
    r
}

/// What the rolling windows read of a quota interval: the day it ended, its model and its
/// window kind.
#[derive(Debug, Clone)]
pub struct IntervalKey {
    pub day: i64,
    pub model: String,
    pub window_kind: String,
}

/// The intervals (in order) of `model` and `kind` that ended within the four days up to `d`.
pub open spec fn window_members(iv: Seq<IntervalKey>, d: int, model: Seq<char>, kind: Seq<char>) -> Seq<usize>
    decreases iv.len(),
{
    if iv.len() == 0 {
        Seq::empty()
    } else {
        let prev = window_members(iv.drop_last(), d, model, kind);
        let x = iv.last();
        if x.model@ == model && x.window_kind@ == kind && d - 3 <= x.day && x.day <= d {
            prev.push((iv.len() - 1) as usize)
        } else {
            prev
        }
    }
}

/// Some interval ended on day `d`.
pub open spec fn interval_day(iv: Seq<IntervalKey>, d: i64) -> bool {
    exists|i: int| 0 <= i < iv.len() && (#[trigger] iv[i]).day == d
}

/// Some interval has model `m`.
pub open spec fn interval_model(iv: Seq<IntervalKey>, m: Seq<char>) -> bool {
    exists|i: int| 0 <= i < iv.len() && (#[trigger] iv[i]).model@ == m
}

/// Some interval has window kind `k`.
pub open spec fn interval_kind(iv: Seq<IntervalKey>, k: Seq<char>) -> bool {
    exists|i: int| 0 <= i < iv.len() && (#[trigger] iv[i]).window_kind@ == k
}

/// The rolling window of one day, model and window kind: the intervals it covers.
#[derive(Debug, Clone)]
pub struct PointWindow {
    pub day: i64,
    pub model: String,
    pub window_kind: String,
    pub members: Vec<usize>,
}

/// `a` comes before `b` in (day, model, kind) order.
pub open spec fn point_before(a: PointWindow, b: PointWindow) -> bool {
    a.day < b.day || (a.day == b.day && (lex_lt(a.model@, b.model@) || (a.model@ == b.model@ && lex_lt(
        a.window_kind@,
        b.window_kind@,
    ))))
}

/// The rolling windows of a list of intervals: for every day on which an interval ended,
/// every model and every window kind that occur, the window of intervals of that model and
/// kind that ended in the four days up to that day, when it is not empty; in (day, model,
/// kind) order.
pub open spec fn is_point_windows(iv: Seq<IntervalKey>, r: Seq<PointWindow>) -> bool {
    &&& forall|a: int, b: int| 0 <= a < b < r.len() ==> point_before(#[trigger] r[a], #[trigger] r[b])
    &&& forall|g: int| 0 <= g < r.len() ==> {
        let p = #[trigger] r[g];
        &&& interval_day(iv, p.day)
        &&& interval_model(iv, p.model@)
        &&& interval_kind(iv, p.window_kind@)
        &&& p.members@ == window_members(iv, p.day as int, p.model@, p.window_kind@)
        &&& p.members@.len() > 0
    }
    &&& forall|d: i64, m: Seq<char>, k: Seq<char>|
        #![trigger window_members(iv, d as int, m, k)]
        interval_day(iv, d) && interval_model(iv, m) && interval_kind(iv, k) && window_members(
            iv,
            d as int,
            m,
            k,
        ).len() > 0 ==> exists|g: int| 0 <= g < r.len() && (#[trigger] r[g]).day == d && r[g].model@ == m
            && r[g].window_kind@ == k
}

fn select_window(iv: &Vec<IntervalKey>, d: i64, model: &String, kind: &String) -> (r: Vec<usize>)
    ensures
        r@ == window_members(iv@, d as int, model@, kind@),
{
    let mut r: Vec<usize> = Vec::new();
    let n = iv.len();
    let mut i: usize = 0;
    while i < n
        invariant
            n == iv@.len(),
            i <= n,
            r@ == window_members(iv@.take(i as int), d as int, model@, kind@),
        decreases n - i,
    {
        assert(iv@.take(i + 1).drop_last() =~= iv@.take(i as int));
        let x = &iv[i];
        let inside = x.day as i128 >= d as i128 - 3 && x.day <= d;
        if str_equal(x.model.as_str(), model.as_str()) && str_equal(x.window_kind.as_str(), kind.as_str()) && inside {
            r.push(i);
        }
        i = i + 1;
    }
    assert(iv@.take(n as int) =~= iv@);
    r
}

/// The windows of one day `d` over the given models and kinds (each strictly increasing):
/// the non-empty ones, in (model, kind) order.
pub open spec fn day_points_ok(
    iv: Seq<IntervalKey>,
    d: i64,
    models: Seq<String>,
    kinds: Seq<String>,
    r: Seq<PointWindow>,
) -> bool {
    &&& forall|a: int, b: int| 0 <= a < b < r.len() ==> point_before(#[trigger] r[a], #[trigger] r[b])
    &&& forall|g: int| 0 <= g < r.len() ==> {
        let p = #[trigger] r[g];
        &&& p.day == d
        &&& crate::aggregate::name_listed(models, p.model@)
        &&& crate::aggregate::name_listed(kinds, p.window_kind@)
        &&& p.members@ == window_members(iv, d as int, p.model@, p.window_kind@)
        &&& p.members@.len() > 0
    }
    &&& forall|x: int, y: int|
        0 <= x < models.len() && 0 <= y < kinds.len() && window_members(iv, d as int, (#[trigger] models[x])@, (#[trigger] kinds[y])@).len() > 0
            ==> exists|g: int| 0 <= g < r.len() && (#[trigger] r[g]).model@ == models[x]@ && r[g].window_kind@ == kinds[y]@
}

fn day_points(
    iv: &Vec<IntervalKey>,
    d: i64,
    models: &Vec<String>,
    kinds: &Vec<String>,
) -> (r: Vec<PointWindow>)
    requires
        sorted_names(models@),
        sorted_names(kinds@),
    ensures
        day_points_ok(iv@, d, models@, kinds@, r@),
{
    let mut r: Vec<PointWindow> = Vec::new();
    let ghost mut bi: Seq<int> = Seq::empty();
    let ghost mut ci: Seq<int> = Seq::empty();
    let nm = models.len();
    let nk = kinds.len();
    let mut b: usize = 0;
    while b < nm
        invariant
            nm == models@.len(),
            nk == kinds@.len(),
            sorted_names(models@),
            sorted_names(kinds@),
            b <= nm,
            bi.len() == r@.len(),
            ci.len() == r@.len(),
            forall|g: int| 0 <= g < r@.len() ==> 0 <= #[trigger] bi[g] < b && 0 <= ci[g] < nk,
            forall|g1: int, g2: int| 0 <= g1 < g2 < r@.len() ==> #[trigger] bi[g1] < #[trigger] bi[g2] || (bi[g1] == bi[g2] && ci[g1] < ci[g2]),
            forall|g: int| 0 <= g < r@.len() ==> {
                let p = #[trigger] r@[g];
                &&& p.day == d
                &&& p.model@ == models@[bi[g]]@
                &&& p.window_kind@ == kinds@[ci[g]]@
                &&& p.members@ == window_members(iv@, d as int, p.model@, p.window_kind@)
                &&& p.members@.len() > 0
            },
            forall|x: int, y: int|
                0 <= x < b && 0 <= y < nk && window_members(iv@, d as int, (#[trigger] models@[x])@, (#[trigger] kinds@[y])@).len() > 0
                    ==> exists|g: int| 0 <= g < r@.len() && bi[g] == x && ci[g] == y,
        decreases nm - b,
    {
        let mut c: usize = 0;
        while c < nk
            invariant
                nm == models@.len(),
                nk == kinds@.len(),
                b < nm,
                c <= nk,
                bi.len() == r@.len(),
                ci.len() == r@.len(),
                forall|g: int| 0 <= g < r@.len() ==> 0 <= #[trigger] bi[g] <= b && 0 <= ci[g] < nk,
                forall|g: int| 0 <= g < r@.len() && #[trigger] bi[g] == b ==> ci[g] < c,
                forall|g1: int, g2: int| 0 <= g1 < g2 < r@.len() ==> #[trigger] bi[g1] < #[trigger] bi[g2] || (bi[g1] == bi[g2] && ci[g1] < ci[g2]),
                forall|g: int| 0 <= g < r@.len() ==> {
                    let p = #[trigger] r@[g];
                    &&& p.day == d
                    &&& p.model@ == models@[bi[g]]@
                    &&& p.window_kind@ == kinds@[ci[g]]@
                    &&& p.members@ == window_members(iv@, d as int, p.model@, p.window_kind@)
                    &&& p.members@.len() > 0
                },
                forall|x: int, y: int|
                    0 <= x < b && 0 <= y < nk && window_members(iv@, d as int, (#[trigger] models@[x])@, (#[trigger] kinds@[y])@).len() > 0
                        ==> exists|g: int| 0 <= g < r@.len() && bi[g] == x && ci[g] == y,
                forall|y: int|
                    0 <= y < c && window_members(iv@, d as int, models@[b as int]@, (#[trigger] kinds@[y])@).len() > 0
                        ==> exists|g: int| 0 <= g < r@.len() && bi[g] == b && ci[g] == y,
            decreases nk - c,
        {
            let m = select_window(iv, d, &models[b], &kinds[c]);
            if m.len() > 0 {
                let ghost old_bi = bi;
                let ghost old_ci = ci;
                let ghost old_len = r@.len();
                r.push(PointWindow { day: d, model: models[b].clone(), window_kind: kinds[c].clone(), members: m });
                proof {
                    bi = bi.push(b as int);
                    ci = ci.push(c as int);
                    let last = r@.len() - 1;
                    assert(bi[last] == b && ci[last] == c);
                    assert forall|g: int| 0 <= g < r@.len() implies 0 <= #[trigger] bi[g] <= b && 0 <= ci[g] < nk by {
                        if g < old_len {
                            assert(bi[g] == old_bi[g] && ci[g] == old_ci[g]);
                        }
                    }
                    assert forall|g: int| 0 <= g < r@.len() && #[trigger] bi[g] == b implies ci[g] < c + 1 by {
                        if g < old_len {
                            assert(bi[g] == old_bi[g] && ci[g] == old_ci[g]);
                        }
                    }
                    assert forall|g1: int, g2: int| 0 <= g1 < g2 < r@.len() implies #[trigger] bi[g1] < #[trigger] bi[g2] || (bi[g1] == bi[g2] && ci[g1] < ci[g2]) by {
                        if g2 < old_len {
                            assert(bi[g1] == old_bi[g1] && ci[g1] == old_ci[g1]);
                            assert(bi[g2] == old_bi[g2] && ci[g2] == old_ci[g2]);
                        } else {
                            assert(bi[g1] == old_bi[g1] && ci[g1] == old_ci[g1]);
                        }
                    }
                    assert forall|g: int| 0 <= g < r@.len() implies {
                        let p = #[trigger] r@[g];
                        &&& p.day == d
                        &&& p.model@ == models@[bi[g]]@
                        &&& p.window_kind@ == kinds@[ci[g]]@
                        &&& p.members@ == window_members(iv@, d as int, p.model@, p.window_kind@)
                        &&& p.members@.len() > 0
                    } by {
                        if g < old_len {
                            assert(bi[g] == old_bi[g] && ci[g] == old_ci[g]);
                        }
                    }
                    assert forall|x: int, y: int|
                        0 <= x < b && 0 <= y < nk && window_members(iv@, d as int, (#[trigger] models@[x])@, (#[trigger] kinds@[y])@).len() > 0
                            implies exists|g: int| 0 <= g < r@.len() && bi[g] == x && ci[g] == y by {
                        let g = choose|g: int| 0 <= g < old_len && old_bi[g] == x && old_ci[g] == y;
                        assert(bi[g] == old_bi[g] && ci[g] == old_ci[g]);
                    }
                    assert forall|y: int|
                        0 <= y < c + 1 && window_members(iv@, d as int, models@[b as int]@, (#[trigger] kinds@[y])@).len() > 0
                            implies exists|g: int| 0 <= g < r@.len() && bi[g] == b && ci[g] == y by {
                        if y < c {
                            let g = choose|g: int| 0 <= g < old_len && old_bi[g] == b && old_ci[g] == y;
                            assert(bi[g] == old_bi[g] && ci[g] == old_ci[g]);
                        } else {
                            assert(bi[last] == b && ci[last] == y);
                        }
                    }
                }
            }
            c = c + 1;
        }
        b = b + 1;
    }
    proof {
        assert forall|a: int, b2: int| 0 <= a < b2 < r@.len() implies point_before(#[trigger] r@[a], #[trigger] r@[b2]) by {
            if bi[a] < bi[b2] {
                assert(lex_lt(models@[bi[a]]@, models@[bi[b2]]@));
            } else {
                assert(lex_lt(kinds@[ci[a]]@, kinds@[ci[b2]]@));
            }
        }
        assert forall|g: int| 0 <= g < r@.len() implies crate::aggregate::name_listed(models@, (#[trigger] r@[g]).model@)
            && crate::aggregate::name_listed(kinds@, r@[g].window_kind@) by {
            assert(models@[bi[g]]@ == r@[g].model@);
            assert(kinds@[ci[g]]@ == r@[g].window_kind@);
        }
        assert forall|x: int, y: int|
            0 <= x < models@.len() && 0 <= y < kinds@.len() && window_members(iv@, d as int, (#[trigger] models@[x])@, (#[trigger] kinds@[y])@).len() > 0
                implies exists|g: int| 0 <= g < r@.len() && (#[trigger] r@[g]).model@ == models@[x]@ && r@[g].window_kind@ == kinds@[y]@ by {
            let g = choose|g: int| 0 <= g < r@.len() && bi[g] == x && ci[g] == y;
            assert(r@[g].model@ == models@[x]@);
        }
    }
    r
}

/// The rolling windows of a list of quota intervals (see `is_point_windows`).
pub fn quota_point_windows(iv: &Vec<IntervalKey>) -> (r: Vec<PointWindow>)
    ensures
        is_point_windows(iv@, r@),
{
    let n = iv.len();
    let mut day_list: Vec<i64> = Vec::new();
    let mut model_list: Vec<String> = Vec::new();
    let mut kind_list: Vec<String> = Vec::new();
    let mut i: usize = 0;
    while i < n
        invariant
            n == iv@.len(),
            i <= n,
            day_list@.len() == i,
            model_list@.len() == i,
            kind_list@.len() == i,
            forall|q: int| 0 <= q < i ==> #[trigger] day_list@[q] == iv@[q].day,
            forall|q: int| 0 <= q < i ==> (#[trigger] model_list@[q])@ == iv@[q].model@,
            forall|q: int| 0 <= q < i ==> (#[trigger] kind_list@[q])@ == iv@[q].window_kind@,
        decreases n - i,
    {
        day_list.push(iv[i].day);
        model_list.push(iv[i].model.clone());
        kind_list.push(iv[i].window_kind.clone());
        i = i + 1;
    }
    let days = crate::streaks::sorted_distinct_days(&day_list);
    let models = crate::price::sorted_distinct_strings(&model_list);
    let kinds = crate::price::sorted_distinct_strings(&kind_list);
    let mut r: Vec<PointWindow> = Vec::new();
    let ghost mut ai: Seq<int> = Seq::empty();
    let nd = days.len();
    let mut a: usize = 0;
    while a < nd
        invariant
            nd == days@.len(),
            a <= nd,
            crate::streaks::strictly_sorted(days@),
            sorted_names(models@),
            sorted_names(kinds@),
            ai.len() == r@.len(),
            forall|g: int| 0 <= g < r@.len() ==> 0 <= #[trigger] ai[g] < a && r@[g].day == days@[ai[g]],
            forall|x: int, y: int| 0 <= x < y < r@.len() ==> point_before(#[trigger] r@[x], #[trigger] r@[y]),
            forall|g: int| 0 <= g < r@.len() ==> {
                let p = #[trigger] r@[g];
                &&& crate::aggregate::name_listed(models@, p.model@)
                &&& crate::aggregate::name_listed(kinds@, p.window_kind@)
                &&& p.members@ == window_members(iv@, p.day as int, p.model@, p.window_kind@)
                &&& p.members@.len() > 0
            },
            forall|z: int, x: int, y: int|
                0 <= z < a && 0 <= x < models@.len() && 0 <= y < kinds@.len() && window_members(
                    iv@,
                    (#[trigger] days@[z]) as int,
                    (#[trigger] models@[x])@,
                    (#[trigger] kinds@[y])@,
                ).len() > 0 ==> exists|g: int|
                    0 <= g < r@.len() && #[trigger] ai[g] == z && r@[g].model@ == models@[x]@ && r@[g].window_kind@
                        == kinds@[y]@,
        decreases nd - a,
    {
        let pts = day_points(iv, days[a], &models, &kinds);
        let ghost old_r = r@;
        let ghost old_ai = ai;
        let k = pts.len();
        let mut q: usize = 0;
        while q < k
            invariant
                k == pts@.len(),
                q <= k,
                r@.len() == old_r.len() + q,
                forall|t: int| 0 <= t < old_r.len() ==> #[trigger] r@[t] == old_r[t],
                forall|t: int| 0 <= t < q ==> same_point(#[trigger] r@[old_r.len() + t], pts@[t]),
            decreases k - q,
        {
            let pt = &pts[q];
            let copy = PointWindow {
                day: pt.day,
                model: pt.model.clone(),
                window_kind: pt.window_kind.clone(),
                members: pt.members.clone(),
            };
            assert(same_point(copy, pts@[q as int]));
            r.push(copy);
            assert(same_point(r@[old_r.len() + q], pts@[q as int]));
            q = q + 1;
        }
        proof {
            ai = old_ai + Seq::new(k as nat, |t: int| a as int);
            let ol = old_r.len();
            assert forall|g: int| 0 <= g < r@.len() implies 0 <= #[trigger] ai[g] < a + 1 && r@[g].day == days@[ai[g]] by {
                if g < ol {
                    assert(ai[g] == old_ai[g]);
                    assert(r@[g] == old_r[g]);
                } else {
                    assert(same_point(r@[ol + (g - ol)], pts@[g - ol]));
                }
            }
            assert forall|x: int, y: int| 0 <= x < y < r@.len() implies point_before(#[trigger] r@[x], #[trigger] r@[y]) by {
                if y < ol {
                    assert(r@[x] == old_r[x] && r@[y] == old_r[y]);
                } else if x < ol {
                    assert(r@[x] == old_r[x]);
                    assert(same_point(r@[ol + (y - ol)], pts@[y - ol]));
                    assert(ai[x] == old_ai[x]);
                    assert(days@[old_ai[x]] < days@[a as int]);
                } else {
                    assert(same_point(r@[ol + (x - ol)], pts@[x - ol]));
                    assert(same_point(r@[ol + (y - ol)], pts@[y - ol]));
                    assert(point_before(pts@[x - ol], pts@[y - ol]));
                }
            }
            assert forall|g: int| 0 <= g < r@.len() implies {
                let p = #[trigger] r@[g];
                &&& crate::aggregate::name_listed(models@, p.model@)
                &&& crate::aggregate::name_listed(kinds@, p.window_kind@)
                &&& p.members@ == window_members(iv@, p.day as int, p.model@, p.window_kind@)
                &&& p.members@.len() > 0
            } by {
                if g < ol {
                    assert(r@[g] == old_r[g]);
                } else {
                    assert(same_point(r@[ol + (g - ol)], pts@[g - ol]));
                }
            }
            assert forall|z: int, x: int, y: int|
                0 <= z < a + 1 && 0 <= x < models@.len() && 0 <= y < kinds@.len() && window_members(
                    iv@,
                    (#[trigger] days@[z]) as int,
                    (#[trigger] models@[x])@,
                    (#[trigger] kinds@[y])@,
                ).len() > 0 implies exists|g: int|
                    0 <= g < r@.len() && #[trigger] ai[g] == z && r@[g].model@ == models@[x]@ && r@[g].window_kind@
                        == kinds@[y]@ by {
                if z < a {
                    let g = choose|g: int|
                        0 <= g < old_r.len() && #[trigger] old_ai[g] == z && old_r[g].model@ == models@[x]@ && old_r[g].window_kind@
                            == kinds@[y]@;
                    assert(ai[g] == old_ai[g] && r@[g] == old_r[g]);
                } else {
                    let h = choose|h: int| 0 <= h < pts@.len() && (#[trigger] pts@[h]).model@ == models@[x]@ && pts@[h].window_kind@ == kinds@[y]@;
                    assert(same_point(r@[ol + h], pts@[h]));
                    assert(ai[ol + h] == a);
                }
            }
        }
        a = a + 1;
    }
    proof {
        assert forall|g: int| 0 <= g < r@.len() implies {
            let p = #[trigger] r@[g];
            &&& interval_day(iv@, p.day)
            &&& interval_model(iv@, p.model@)
            &&& interval_kind(iv@, p.window_kind@)
        } by {
            let p = r@[g];
            assert(0 <= ai[g] < days@.len());
            assert(days@[ai[g]] as int == p.day as int);
            assert(crate::streaks::has_date(days@, p.day as int));
            assert(crate::streaks::has_date(day_list@, p.day as int));
            let w = choose|w: int| 0 <= w < day_list@.len() && day_list@[w] as int == p.day as int;
            assert(iv@[w].day == p.day);
            let x = choose|x: int| 0 <= x < models@.len() && (#[trigger] models@[x])@ == p.model@;
            assert(strings_view_contains(model_list@, p.model@));
            let wm = choose|wm: int| 0 <= wm < model_list@.len() && model_list@[wm]@ == p.model@;
            assert(iv@[wm].model@ == p.model@);
            let y = choose|y: int| 0 <= y < kinds@.len() && (#[trigger] kinds@[y])@ == p.window_kind@;
            assert(strings_view_contains(kind_list@, p.window_kind@));
            let wk = choose|wk: int| 0 <= wk < kind_list@.len() && kind_list@[wk]@ == p.window_kind@;
            assert(iv@[wk].window_kind@ == p.window_kind@);
        }
        assert forall|d: i64, m: Seq<char>, k: Seq<char>|
            #![trigger window_members(iv@, d as int, m, k)]
            interval_day(iv@, d) && interval_model(iv@, m) && interval_kind(iv@, k) && window_members(
                iv@,
                d as int,
                m,
                k,
            ).len() > 0 implies exists|g: int| 0 <= g < r@.len() && (#[trigger] r@[g]).day == d && r@[g].model@ == m
                && r@[g].window_kind@ == k by {
            let w = choose|w: int| 0 <= w < iv@.len() && (#[trigger] iv@[w]).day == d;
            assert(day_list@[w] == d);
            assert(crate::streaks::has_date(day_list@, d as int));
            assert(crate::streaks::has_date(days@, d as int));
            let z = choose|z: int| 0 <= z < days@.len() && days@[z] as int == d as int;
            let wm = choose|wm: int| 0 <= wm < iv@.len() && (#[trigger] iv@[wm]).model@ == m;
            assert(crate::clients::strings_view(model_list@)[wm] == m);
            assert(crate::aggregate::name_listed(models@, m));
            let x = choose|x: int| 0 <= x < models@.len() && (#[trigger] models@[x])@ == m;
            let wk = choose|wk: int| 0 <= wk < iv@.len() && (#[trigger] iv@[wk]).window_kind@ == k;
            assert(crate::clients::strings_view(kind_list@)[wk] == k);
            assert(crate::aggregate::name_listed(kinds@, k));
            let y = choose|y: int| 0 <= y < kinds@.len() && (#[trigger] kinds@[y])@ == k;
            assert(window_members(iv@, days@[z] as int, models@[x]@, kinds@[y]@).len() > 0);
            let g = choose|g: int|
                0 <= g < r@.len() && #[trigger] ai[g] == z && r@[g].model@ == models@[x]@ && r@[g].window_kind@ == kinds@[y]@;
            assert(r@[g].day == d);
        }
    }
    r
}

/// Two windows have the same day, model, kind and members.
pub open spec fn same_point(a: PointWindow, b: PointWindow) -> bool {
    a.day == b.day && a.model@ == b.model@ && a.window_kind@ == b.window_kind@ && a.members@ == b.members@
}

/// Some string of the list has view `s`.
pub open spec fn strings_view_contains(v: Seq<String>, s: Seq<char>) -> bool {
    crate::clients::strings_view(v).contains(s)
}

/// The window kind that model summaries prefer.
pub open spec fn secondary_kind() -> Seq<char> {
    "secondary"@
}

/// Point `p` replaces point `e` as a model's latest point: a secondary window beats any
/// other kind, and a later day beats an earlier one of the same kind, or of a kind other
/// than secondary.
pub open spec fn replaces(p: PointWindow, e: PointWindow) -> bool {
    (p.window_kind@ == secondary_kind() && e.window_kind@ != secondary_kind()) || (p.window_kind@
        == e.window_kind@ && p.day > e.day) || (p.day > e.day && e.window_kind@ != secondary_kind())
}

/// The point a model's summary shows among the points `m` (taken in order).
pub open spec fn chosen_point(points: Seq<PointWindow>, m: Seq<usize>) -> usize
    decreases m.len(),
{
    if m.len() <= 1 {
        m[0]
    } else {
        let prev = chosen_point(points, m.drop_last());
        if replaces(points[m.last() as int], points[prev as int]) {
            m.last()
        } else {
            prev
        }
    }
}

/// The model of every point.
pub open spec fn point_model_view(points: Seq<PointWindow>) -> Seq<Option<Seq<char>>> {
    Seq::new(points.len(), |i: int| Some(points[i].model@))
}

fn replaces_exec(p: &PointWindow, e: &PointWindow) -> (r: bool)
    ensures
        r == replaces(*p, *e),
{
    proof {
        reveal_strlit("secondary");
    }
    let ps = str_equal(p.window_kind.as_str(), "secondary");
    let es = str_equal(e.window_kind.as_str(), "secondary");
    (ps && !es) || (str_equal(p.window_kind.as_str(), e.window_kind.as_str()) && p.day > e.day) || (p.day > e.day
        && !es)
}

/// The points model summaries show: one per model, in increasing model order (`r.0` the
/// models, `r.1` the chosen point of each).
pub fn latest_points_by_model(points: &Vec<PointWindow>) -> (r: (Vec<String>, Vec<usize>))
    ensures
        r.0@.len() == r.1@.len(),
        sorted_names(r.0@),
        forall|k: Seq<char>| crate::group::key_occurs(point_model_view(points@), all_indices(points@.len() as int), k)
            <==> crate::aggregate::name_listed(r.0@, k),
        forall|g: int| 0 <= g < r.1@.len() ==> {
            let m = members_with_key(point_model_view(points@), all_indices(points@.len() as int), (#[trigger] r.0@[g])@);
            &&& m.len() > 0
            &&& r.1@[g] == chosen_point(points@, m)
            &&& (r.1@[g] as int) < points@.len()
            &&& points@[r.1@[g] as int].model@ == r.0@[g]@
        },
{
    let mut keys: Vec<Option<String>> = Vec::new();
    let n = points.len();
    let mut i: usize = 0;
    while i < n
        invariant
            n == points@.len(),
            i <= n,
            keys_view(keys@) =~= point_model_view(points@).take(i as int),
        decreases n - i,
    {
        let ghost before = keys@;
        let c = points[i].model.clone();
        keys.push(Some(c));
        assert(keys_view(keys@) =~= keys_view(before).push(Some(points@[i as int].model@)));
        i = i + 1;
    }
    assert(point_model_view(points@).take(n as int) =~= point_model_view(points@));
    let all = crate::aggregate::index_list(n);
    let ghost kv = point_model_view(points@);
    let (names, members) = group_indices_sorted(&keys, &all);
    proof {
        crate::aggregate::lemma_grouping_names(kv, all@, names@, members@);
    }
    let mut chosen: Vec<usize> = Vec::new();
    let ng = names.len();
    let mut h: usize = 0;
    while h < ng
        invariant
            ng == names@.len(),
            n == points@.len(),
            kv == point_model_view(points@),
            kv.len() == points@.len(),
            all@ == all_indices(points@.len() as int),
            is_grouping(kv, all@, names@, members@),
            h <= ng,
            chosen@.len() == h,
            forall|g: int| 0 <= g < h ==> {
                let m = #[trigger] members@[g]@;
                &&& chosen@[g] == chosen_point(points@, m)
                &&& (chosen@[g] as int) < points@.len()
                &&& points@[chosen@[g] as int].model@ == names@[g]@
            },
        decreases ng - h,
    {
        proof {
            lemma_members_carry_key(kv, all@, names@[h as int]@);
        }
        let m = &members[h];
        let k = m.len();
        let mut best: usize = m[0];
        let mut j: usize = 1;
        proof {
            assert(m@.take(1).len() == 1);
            assert(chosen_point(points@, m@.take(1)) == m@[0]);
        }
        while j < k
            invariant
                k == m@.len(),
                k > 0,
                1 <= j <= k,
                n == points@.len(),
                forall|q: int| 0 <= q < k ==> (#[trigger] m@[q] as int) < n,
                best == chosen_point(points@, m@.take(j as int)),
                (best as int) < n,
                exists|q: int| 0 <= q < j && m@[q] == best,
            decreases k - j,
        {
            assert(m@.take(j + 1).drop_last() =~= m@.take(j as int));
            assert(m@.take(j + 1).last() == m@[j as int]);
            if replaces_exec(&points[m[j]], &points[best]) {
                best = m[j];
            }
            j = j + 1;
        }
        assert(m@.take(k as int) =~= m@);
        proof {
            let q = choose|q: int| 0 <= q < k && m@[q] == best;
            assert(members_with_key(kv, all@, names@[h as int]@)[q] == best);
            assert(kv[best as int] == Some(names@[h as int]@));
        }
        chosen.push(best);
        h = h + 1;
    }
    proof {
        assert forall|k: Seq<char>| crate::group::key_occurs(kv, all@, k) <==> crate::aggregate::name_listed(names@, k) by {
            if crate::aggregate::name_listed(names@, k) {
                let g = choose|g: int| 0 <= g < names@.len() && (#[trigger] names@[g])@ == k;
                assert(crate::group::key_occurs(kv, all@, names@[g]@));
            }
        }
        assert forall|g: int| 0 <= g < chosen@.len() implies {
            let m = members_with_key(kv, all@, (#[trigger] names@[g])@);
            &&& m.len() > 0
            &&& chosen@[g] == chosen_point(points@, m)
            &&& (chosen@[g] as int) < points@.len()
            &&& points@[chosen@[g] as int].model@ == names@[g]@
        } by {
            assert(members@[g]@ == members_with_key(kv, all@, names@[g]@));
        }
    }
    (names, chosen)
}

/// The saturating token sum of the intervals `m`.
pub open spec fn intervals_tokens(tokens: Seq<TokenBreakdown>, m: Seq<usize>) -> TokenBreakdown
    decreases m.len(),
{
    if m.len() == 0 {
        TokenBreakdown { input: 0, output: 0, cache_read: 0, cache_write: 0, reasoning: 0 }
    } else {
        intervals_tokens(tokens, m.drop_last()).spec_plus(tokens[m.last() as int])
    }
}

/// The tokens of the intervals a window covers.
pub fn window_tokens(tokens: &Vec<TokenBreakdown>, m: &Vec<usize>) -> (r: TokenBreakdown)
    requires
        forall|j: int| 0 <= j < m@.len() ==> (#[trigger] m@[j] as int) < tokens@.len(),
    ensures
        r == intervals_tokens(tokens@, m@),
{
    let mut t = TokenBreakdown { input: 0, output: 0, cache_read: 0, cache_write: 0, reasoning: 0 };
    let n = m.len();
    let mut j: usize = 0;
    while j < n
        invariant
            n == m@.len(),
            forall|q: int| 0 <= q < m@.len() ==> (#[trigger] m@[q] as int) < tokens@.len(),
            j <= n,
            t == intervals_tokens(tokens@, m@.take(j as int)),
        decreases n - j,
    {
        assert(m@.take(j + 1).drop_last() =~= m@.take(j as int));
        t.add_tokens(&tokens[m[j]]);
        j = j + 1;
    }
    assert(m@.take(n as int) =~= m@);
    t
}

} // verus!

//! The price chart series of a model: its daily price rows over the trailing three months
//! up to its latest day, in day order.
use vstd::prelude::*;

use chrono::{Datelike, Months, NaiveDate};

use crate::ledger::opt_view;
use crate::order::{rank_order, ranked, stable, Ranked};
use crate::price::{PriceGroup, PriceSummaryGroup};
use crate::aggregate::{all_indices, members_with_num, num_occurs};
use crate::price::sorted_distinct_of;
use crate::rates::{thinking_row_clients, thinking_rows_messages, thinking_rows_tokens, ThinkingGroup};
use crate::text::str_equal;
use crate::tokens::TokenBreakdown;

verus! {

/// What chrono's `NaiveDate::checked_sub_months` gives for the date with day number `day`
/// (days from the common era, as `num_days_from_ce`) and `months` months, as a day number:
/// `None` when `day` is not a date chrono holds or the result would be out of range.
pub uninterp spec fn spec_months_before(day: int, months: int) -> Option<int>;

/// Subtracts calendar months from a date with chrono's `NaiveDate::checked_sub_months`
/// (which takes the last day of the month when the day does not exist in it). The result is
/// the named value; chrono's dates have day numbers within `i32`, and going back whole
/// months (with the day clamped to the month's length) never gives a later date.
#[verifier::external_body]
fn months_before(day: i32, months: u32) -> (r: Option<i64>)
    ensures
        r matches Some(d) ==> spec_months_before(day as int, months as int) == Some(d as int)
            && i32::MIN <= d <= i32::MAX && d <= day,
        r is None ==> spec_months_before(day as int, months as int) is None,
{
    match NaiveDate::from_num_days_from_ce_opt(day) {
        Some(date) => match date.checked_sub_months(Months::new(months)) {
            Some(earlier) => Some(earlier.num_days_from_ce() as i64),
            None => None,
        },
        None => None,
    }
}

/// The first day of the trailing window ending at `latest`: three months earlier, or
/// `latest` itself when that date cannot be formed.
pub open spec fn spec_trailing_cutoff(latest: i64) -> int {
    if i32::MIN <= latest <= i32::MAX {
        match spec_months_before(latest as int, 3) {
            Some(c) => c,
            None => latest as int,
        }
    } else {
        latest as int
    }
}

/// The first day of the trailing three-month window ending at `latest`.
pub fn trailing_cutoff(latest: i64) -> (r: i64)
    ensures
        r == spec_trailing_cutoff(latest),
        r <= latest,
{
    if latest < i32::MIN as i64 || latest > i32::MAX as i64 {
        return latest;
    }
    match months_before(latest as i32, 3) {
        Some(c) => c,
        None => latest,
    }
}

/// The category a price row is charted under: its matched price key, else its model.
pub open spec fn row_category(row: PriceGroup) -> Seq<char> {
    match row.matched_key {
        Some(k) => k@,
        None => row.model@,
    }
}

/// The category of a price summary: its matched price key, else its model.
pub open spec fn summary_category(s: PriceSummaryGroup) -> Seq<char> {
    match s.matched_key {
        Some(k) => k@,
        None => s.model@,
    }
}

/// A row belongs to the chart series of `selected`: same category, and a day within the
/// trailing three months up to the summary's latest day.
pub open spec fn in_series(row: PriceGroup, selected: PriceSummaryGroup) -> bool {
    &&& row_category(row) == summary_category(selected)
    &&& spec_trailing_cutoff(selected.latest_day) <= row.day <= selected.latest_day
}

/// A day of the series, ranked by day.
#[derive(Debug, Clone, Copy)]
pub struct SeriesPoint {
    pub day: i64,
}

impl Ranked for SeriesPoint {
    /// Earlier days first.
    open spec fn ranks_before(self, other: Self) -> bool {
        self.day < other.day
    }

    proof fn lemma_ranks_irreflexive(a: Self) {
    }

    proof fn lemma_ranks_transitive(a: Self, b: Self, c: Self) {
    }

    proof fn lemma_ranks_negatively_transitive(a: Self, b: Self, c: Self) {
    }

    fn before(&self, other: &Self) -> (r: bool) {
        self.day < other.day
    }
}

fn category_of(row: &PriceGroup) -> (r: &str)
    ensures
        r@ == row_category(*row),
{
    match &row.matched_key {
        Some(k) => k.as_str(),
        None => row.model.as_str(),
    }
}

/// The indices of the price rows charted for `selected`: exactly the rows in its series,
/// in day order, rows of the same day in their order in `rows`.
pub fn matching_series_rows(rows: &Vec<PriceGroup>, selected: &PriceSummaryGroup) -> (r: Vec<usize>)
    ensures
        forall|k: int| 0 <= k < r@.len() ==> (#[trigger] r@[k] as int) < rows@.len() && in_series(rows@[r@[k] as int], *selected),
        forall|i: int| 0 <= i < rows@.len() && in_series(#[trigger] rows@[i], *selected) ==> r@.contains(i as usize),
        forall|a: int, b: int| 0 <= a < b < r@.len() ==> rows@[#[trigger] r@[a] as int].day <= rows@[#[trigger] r@[b] as int].day,
        forall|a: int, b: int| 0 <= a < b < r@.len() && rows@[#[trigger] r@[a] as int].day == rows@[#[trigger] r@[b] as int].day ==> r@[a] < r@[b],
{
    broadcast use vstd::seq_lib::group_to_multiset_ensures;

    let category: &str = match &selected.matched_key {
        Some(k) => k.as_str(),
        None => selected.model.as_str(),
    };
    assert(category@ == summary_category(*selected));
    let latest = selected.latest_day;
    let cutoff = trailing_cutoff(latest);
    let n = rows.len();
    let mut sel: Vec<usize> = Vec::new();
    let mut points: Vec<SeriesPoint> = Vec::new();
    let mut i: usize = 0;
    while i < n
        invariant
            n == rows@.len(),
            i <= n,
            category@ == summary_category(*selected),
            latest == selected.latest_day,
            cutoff == spec_trailing_cutoff(latest),
            sel@.len() == points@.len(),
            forall|q: int| 0 <= q < sel@.len() ==> (#[trigger] sel@[q] as int) < i && in_series(rows@[sel@[q] as int], *selected),
            forall|q: int| 0 <= q < sel@.len() ==> (#[trigger] points@[q]).day == rows@[sel@[q] as int].day,
            forall|a: int, b: int| 0 <= a < b < sel@.len() ==> (#[trigger] sel@[a]) < (#[trigger] sel@[b]),
            forall|j: int| 0 <= j < i && in_series(#[trigger] rows@[j], *selected) ==> sel@.contains(j as usize),
        decreases n - i,
    {
        let ghost old_sel = sel@;
        let row = &rows[i];
        if str_equal(category_of(row), category) && cutoff <= row.day && row.day <= latest {
            sel.push(i);
            points.push(SeriesPoint { day: row.day });
            proof {
                assert(sel@[sel@.len() - 1] == i);
            }
        }
        proof {
            assert forall|j: int| 0 <= j < i + 1 && in_series(#[trigger] rows@[j], *selected) implies sel@.contains(j as usize) by {
                if j == i {
                    assert(sel@[sel@.len() - 1] == i);
                } else {
                    assert(old_sel.contains(j as usize));
                    let w = choose|w: int| 0 <= w < old_sel.len() && old_sel[w] == j as usize;
                    assert(sel@[w] == old_sel[w]);
                }
            }
        }
        i = i + 1;
    }
    let np = points.len();
    let order = rank_order(&points);
    let m = order.len();
    let mut r: Vec<usize> = Vec::new();
    let mut k: usize = 0;
    while k < m
        invariant
            m == order@.len(),
            k <= m,
            r@.len() == k,
            sel@.len() == points@.len(),
            np == points@.len(),
            forall|q: int| 0 <= q < order@.len() ==> (#[trigger] order@[q] as int) < points@.len(),
            forall|q: int| 0 <= q < k ==> #[trigger] r@[q] == sel@[order@[q] as int],
        decreases m - k,
    {
        r.push(sel[order[k]]);
        k = k + 1;
    }
    proof {
        assert forall|j: int| 0 <= j < rows@.len() && in_series(#[trigger] rows@[j], *selected) implies r@.contains(j as usize) by {
            assert(sel@.contains(j as usize));
            let w = choose|w: int| 0 <= w < sel@.len() && sel@[w] == j as usize;
            let all = crate::aggregate::all_indices(points@.len() as int);
            assert(np == points@.len());
            assert(all[w] == w as usize);
            assert(all.contains(w as usize));
            assert(all.to_multiset().count(w as usize) > 0);
            assert(order@.to_multiset().count(w as usize) > 0);
            assert(order@.contains(w as usize));
            let p = choose|p: int| 0 <= p < order@.len() && order@[p] == w as usize;
            assert(r@[p] == j as usize);
        }
        assert forall|a: int, b: int| 0 <= a < b < r@.len() implies rows@[#[trigger] r@[a] as int].day <= rows@[#[trigger] r@[b] as int].day by {
            assert(ranked(points@, order@));
            assert(!points@[order@[b] as int].ranks_before(points@[order@[a] as int]));
        }
        assert forall|a: int, b: int| 0 <= a < b < r@.len() && rows@[#[trigger] r@[a] as int].day == rows@[#[trigger] r@[b] as int].day implies r@[a] < r@[b] by {
            assert(stable(points@, order@));
            assert(!points@[order@[a] as int].ranks_before(points@[order@[b] as int]));
            assert(order@[a] < order@[b]);
        }
    }
    r
}

/// The day of each thinking row of `model` (rows of other models have none).
pub open spec fn thinking_series_days(rows: Seq<ThinkingGroup>, model: Seq<char>) -> Seq<Option<i64>> {
    Seq::new(rows.len(), |i: int| if rows[i].model@ == model { Some(rows[i].day) } else { None })
}

/// One day of a model's thinking chart: the model's rows of that day, summed.
#[derive(Debug, Clone)]
pub struct ThinkingSeriesDay {
    pub day: i64,
    pub tokens: TokenBreakdown,
    /// The distinct clients of the day's rows, in increasing order.
    pub client_list: Vec<String>,
    /// The message count, saturating at `u32::MAX`.
    pub message_count: u32,
    /// The indices of the day's rows, in row order.
    pub members: Vec<usize>,
}

/// The fields of a chart day follow from the model's rows of that day.
pub open spec fn thinking_series_fields(rows: Seq<ThinkingGroup>, model: Seq<char>, d: ThinkingSeriesDay) -> bool {
    let m = d.members@;
    &&& m == members_with_num(thinking_series_days(rows, model), all_indices(rows.len() as int), d.day)
    &&& m.len() > 0
    &&& d.tokens == thinking_rows_tokens(rows, m)
    &&& sorted_distinct_of(thinking_row_clients(rows, m), d.client_list@)
    &&& d.message_count == thinking_rows_messages(rows, m)
}

fn series_day(
    rows: &Vec<ThinkingGroup>,
    model: &String,
    m: &Vec<usize>,
    d: i64,
    Ghost(kv): Ghost<Seq<Option<i64>>>,
    Ghost(all): Ghost<Seq<usize>>,
) -> (s: ThinkingSeriesDay)
    requires
        kv == thinking_series_days(rows@, model@),
        all == all_indices(rows@.len() as int),
        m@ == members_with_num(kv, all, d),
        m@.len() > 0,
    ensures
        s.day == d,
        thinking_series_fields(rows@, model@, s),
{
    proof {
        crate::aggregate::lemma_num_members(kv, all, d);
        assert forall|j: int| 0 <= j < m@.len() implies (#[trigger] m@[j] as int) < rows@.len() by {
            assert(members_with_num(kv, all, d)[j] == m@[j]);
        }
    }
    let summary = crate::rates::build_thinking_summary(rows, model, m);
    ThinkingSeriesDay {
        day: d,
        tokens: summary.tokens,
        client_list: summary.client_list,
        message_count: summary.message_count,
        members: summary.members,
    }
}

/// The thinking chart of `model`: one entry per day on which the model has rows, in
/// increasing day order, limited to the trailing three months up to its latest such day.
#[verifier::rlimit(40)]
pub fn thinking_series_rows(rows: &Vec<ThinkingGroup>, model: &str) -> (r: Vec<ThinkingSeriesDay>)
    ensures
        ({
            let kv = thinking_series_days(rows@, model@);
            let all = all_indices(rows@.len() as int);
            &&& (forall|d: i64| !num_occurs(kv, all, d)) ==> r@.len() == 0
            &&& forall|d: i64| #[trigger] num_occurs(kv, all, d) ==> r@.len() > 0
            &&& r@.len() > 0 ==> {
                let latest = r@[r@.len() - 1].day;
                let cutoff = spec_trailing_cutoff(latest);
                &&& forall|d: i64| #[trigger] num_occurs(kv, all, d) ==> d <= latest
                &&& forall|d: i64| #[trigger] num_occurs(kv, all, d) && cutoff <= d ==> exists|k: int|
                    0 <= k < r@.len() && (#[trigger] r@[k]).day == d
                &&& forall|k: int| 0 <= k < r@.len() ==> cutoff <= (#[trigger] r@[k]).day
            }
            &&& forall|k: int| 0 <= k < r@.len() ==> num_occurs(kv, all, (#[trigger] r@[k]).day)
            &&& forall|k: int| 0 <= k < r@.len() ==> thinking_series_fields(rows@, model@, #[trigger] r@[k])
            &&& forall|a: int, b: int| 0 <= a < b < r@.len() ==> (#[trigger] r@[a]).day < (#[trigger] r@[b]).day
        }),
{
    let ghost kv = thinking_series_days(rows@, model@);
    let n = rows.len();
    let mut keys: Vec<Option<i64>> = Vec::new();
    let mut i: usize = 0;
    while i < n
        invariant
            n == rows@.len(),
            i <= n,
            keys@.len() == i,
            kv == thinking_series_days(rows@, model@),
            forall|j: int| 0 <= j < i ==> #[trigger] keys@[j] == kv[j],
        decreases n - i,
    {
        if str_equal(rows[i].model.as_str(), model) {
            keys.push(Some(rows[i].day));
        } else {
            keys.push(None);
        }
        i = i + 1;
    }
    assert(keys@ =~= kv);
    let all = crate::aggregate::index_list(n);
    let (nums, members) = crate::aggregate::group_numbers_desc(&keys, &all);
    let mut r: Vec<ThinkingSeriesDay> = Vec::new();
    let g_count = nums.len();
    if g_count == 0 {
        proof {
            assert forall|d: i64| !num_occurs(kv, all@, d) by {
                if num_occurs(kv, all@, d) {
                    assert(crate::aggregate::num_listed(nums@, d));
                }
            }
        }
        return r;
    }
    let latest = nums[0];
    let cutoff = trailing_cutoff(latest);
    let model_name = model.to_owned();
    let mut g: usize = g_count;
    while g > 0
        invariant
            g <= g_count,
            g_count == nums@.len(),
            g_count > 0,
            latest == nums@[0],
            cutoff == spec_trailing_cutoff(latest),
            model_name@ == model@,
            kv == thinking_series_days(rows@, model@),
            kv.len() == rows@.len(),
            all@ == all_indices(rows@.len() as int),
            crate::aggregate::is_num_grouping(kv, all@, nums@, members@),
            forall|q: int| g <= q < g_count && cutoff <= #[trigger] nums@[q] ==> exists|k: int| 0 <= k < r@.len() && (#[trigger] r@[k]).day == nums@[q],
            forall|k: int| 0 <= k < r@.len() ==> cutoff <= (#[trigger] r@[k]).day,
            forall|k: int| 0 <= k < r@.len() ==> num_occurs(kv, all@, (#[trigger] r@[k]).day),
            forall|k: int| 0 <= k < r@.len() ==> thinking_series_fields(rows@, model@, #[trigger] r@[k]),
            forall|a: int, b: int| 0 <= a < b < r@.len() ==> (#[trigger] r@[a]).day < (#[trigger] r@[b]).day,
            r@.len() > 0 ==> r@[r@.len() - 1].day == nums@[g as int],
            r@.len() > 0 ==> g < g_count,
        decreases g,
    {
        g = g - 1;
        let d = nums[g];
        if cutoff <= d {
            let m = &members[g];
            proof {
                assert(m@ == members_with_num(kv, all@, d));
                assert(crate::aggregate::num_listed(nums@, d));
                crate::aggregate::lemma_num_members(kv, all@, d);
                assert(m@.len() > 0);
                let x = m@[0];
                assert(members_with_num(kv, all@, d)[0] == x);
                assert(kv[x as int] == Some(d));
                assert(all@.contains(x));
                let w = choose|w: int| 0 <= w < all@.len() && all@[w] == x;
                assert(0 <= w < all@.len() && (all@[w] as int) < kv.len() && kv[all@[w] as int] == Some(d));
                if r@.len() > 0 {
                    assert(nums@[g as int] > nums@[g + 1]);
                }
            }
            let day = series_day(rows, &model_name, m, d, Ghost(kv), Ghost(all@));
            let ghost prev = r@;
            r.push(day);
            proof {
                assert forall|q: int| g <= q < g_count && cutoff <= #[trigger] nums@[q] implies exists|k: int| 0 <= k < r@.len() && (#[trigger] r@[k]).day == nums@[q] by {
                    if q == g {
                        assert(r@[r@.len() - 1].day == nums@[q]);
                    } else {
                        let k = choose|k: int| 0 <= k < prev.len() && (#[trigger] prev[k]).day == nums@[q];
                        assert(r@[k] == prev[k]);
                    }
                }
                assert forall|a: int, b: int| 0 <= a < b < r@.len() implies (#[trigger] r@[a]).day < (#[trigger] r@[b]).day by {
                    if b < prev.len() {
                        assert(r@[a] == prev[a] && r@[b] == prev[b]);
                    } else {
                        assert(r@[a] == prev[a]);
                        if a < prev.len() - 1 {
                            assert(prev[a].day < prev[prev.len() - 1].day);
                        }
                        assert(nums@[g as int] > nums@[g + 1]);
                    }
                }
            }
        } else {
            proof {
                if r@.len() > 0 {
                    assert(r@[r@.len() - 1].day == nums@[g + 1]);
                    assert(nums@[g as int] > nums@[g + 1]);
                    assert(cutoff <= r@[r@.len() - 1].day);
                    assert(false);
                }
            }
        }
    }
    if r.len() == 0 {
        proof {
            assert forall|d: i64| num_occurs(kv, all@, d) implies d < cutoff by {
                assert(crate::aggregate::num_listed(nums@, d));
                let q = choose|q: int| 0 <= q < nums@.len() && nums@[q] == d;
                if cutoff <= nums@[q] {
                    let k = choose|k: int| 0 <= k < r@.len() && (#[trigger] r@[k]).day == nums@[q];
                }
            }
            assert(!(cutoff <= nums@[0]));
            assert(false);
        }
        return r;
    }
    proof {
        let lt = r@[r@.len() - 1].day;
        assert(lt == nums@[0]);
        assert forall|d: i64| #[trigger] num_occurs(kv, all@, d) implies d <= lt by {
            assert(crate::aggregate::num_listed(nums@, d));
            let q = choose|q: int| 0 <= q < nums@.len() && nums@[q] == d;
            if q > 0 {
                assert(nums@[0] > nums@[q]);
            }
        }
        assert forall|d: i64| #[trigger] num_occurs(kv, all@, d) && spec_trailing_cutoff(lt) <= d implies exists|k: int|
            0 <= k < r@.len() && (#[trigger] r@[k]).day == d by {
            assert(crate::aggregate::num_listed(nums@, d));
            let q = choose|q: int| 0 <= q < nums@.len() && nums@[q] == d;
            assert(cutoff <= nums@[q]);
        }
    }
    r
}

} // verus!

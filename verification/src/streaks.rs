//! Activity streaks over days with usage. Days are numbered consecutively (day numbers).
use vstd::prelude::*;

verus! {

/// Day numbers handled here lie within this distance of day zero (wider than any calendar
/// date the dashboard represents).
pub const DAY_BOUND: i64 = 100000000;

/// Day `d` is one of `dates`.
pub open spec fn has_date(dates: Seq<i64>, d: int) -> bool {
    exists|i: int| 0 <= i < dates.len() && dates[i] as int == d
}

/// The `k` days ending with day `d` (`d`, `d - 1`, ..., `d - k + 1`) all have usage.
pub open spec fn consecutive_to(dates: Seq<i64>, d: int, k: int) -> bool {
    forall|j: int| 0 <= j < k ==> #[trigger] has_date(dates, d - j)
}

/// The run of usage days ending with day `d` has exactly `k` days.
pub open spec fn is_run(dates: Seq<i64>, d: int, k: int) -> bool {
    &&& k >= 0
    &&& consecutive_to(dates, d, k)
    &&& !has_date(dates, d - k)
}

/// The day the current streak ends on: today when today has usage, else yesterday.
pub open spec fn streak_end(dates: Seq<i64>, today: int) -> int {
    if has_date(dates, today) {
        today
    } else {
        today - 1
    }
}

/// `m` is the length of the longest run of consecutive usage days.
pub open spec fn is_longest(dates: Seq<i64>, m: int) -> bool {
    &&& forall|d: int, k: int| consecutive_to(dates, d, k) ==> k <= m
    &&& exists|d: int| consecutive_to(dates, d, m)
}

/// A run length is unique.
pub proof fn lemma_run_unique(dates: Seq<i64>, d: int, k1: int, k2: int)
    requires
        is_run(dates, d, k1),
        is_run(dates, d, k2),
    ensures
        k1 == k2,
{
    if k1 < k2 {
        assert(has_date(dates, d - k1));
    } else if k2 < k1 {
        assert(has_date(dates, d - k2));
    }
}

/// The current streak never exceeds the longest streak.
pub proof fn lemma_current_streak_at_most_longest(dates: Seq<i64>, today: int, current: int, longest: int)
    requires
        is_run(dates, streak_end(dates, today), current),
        is_longest(dates, longest),
    ensures
        current <= longest,
{
}

/// Strictly increasing.
pub open spec fn strictly_sorted(a: Seq<i64>) -> bool {
    forall|x: int, y: int| 0 <= x < y < a.len() ==> a[x] < a[y]
}

/// The days of `dates`, strictly increasing (each day once).
pub(crate) fn sorted_distinct_days(dates: &Vec<i64>) -> (a: Vec<i64>)
    ensures
        strictly_sorted(a@),
        a@.len() <= dates@.len(),
        forall|d: int| has_date(a@, d) <==> has_date(dates@, d),
{
    let mut a: Vec<i64> = Vec::new();
    let n = dates.len();
    let mut i: usize = 0;
    while i < n
        invariant
            n == dates@.len(),
            i <= n,
            a@.len() <= i,
            strictly_sorted(a@),
            forall|d: int| has_date(a@, d) <==> has_date(dates@.take(i as int), d),
        decreases n - i,
    {
        let x = dates[i];
        let m = a.len();
        let mut p: usize = 0;
        while p < m && a[p] < x
            invariant
                m == a@.len(),
                p <= m,
                forall|q: int| 0 <= q < p ==> a@[q] < x,
            decreases m - p,
        {
            p = p + 1;
        }
        let ghost old_a = a@;
        if p < m && a[p] == x {
        } else {
            a.insert(p, x);
            proof {
                assert forall|u: int, v: int| 0 <= u < v < a@.len() implies a@[u] < a@[v] by {
                    if v < p {
                    } else if v == p {
                        assert(a@[u] == old_a[u]);
                    } else if u < p {
                        assert(a@[v] == old_a[v - 1]);
                        if p < m {
                            assert(old_a[p as int] > x);
                            assert(old_a[p as int] <= old_a[v - 1]);
                        }
                    } else if u == p {
                        assert(a@[v] == old_a[v - 1]);
                        assert(old_a[p as int] > x);
                        assert(old_a[p as int] <= old_a[v - 1]);
                    } else {
                        assert(a@[u] == old_a[u - 1]);
                        assert(a@[v] == old_a[v - 1]);
                    }
                }
            }
        }
        proof {
            let pre = dates@.take(i as int);
            let post = dates@.take(i + 1);
            assert(post =~= pre.push(x));
            assert forall|d: int| has_date(a@, d) <==> has_date(post, d) by {
                if has_date(a@, d) {
                    let w = choose|w: int| 0 <= w < a@.len() && a@[w] as int == d;
                    if a@.len() == old_a.len() {
                        assert(has_date(old_a, d));
                        let z = choose|z: int| 0 <= z < pre.len() && pre[z] as int == d;
                        assert(post[z] == pre[z]);
                    } else if w == p {
                        assert(post[i as int] == x);
                    } else if w < p {
                        assert(old_a[w] == a@[w]);
                        assert(has_date(old_a, d));
                        let z = choose|z: int| 0 <= z < pre.len() && pre[z] as int == d;
                        assert(post[z] == pre[z]);
                    } else {
                        assert(old_a[w - 1] == a@[w]);
                        assert(has_date(old_a, d));
                        let z = choose|z: int| 0 <= z < pre.len() && pre[z] as int == d;
                        assert(post[z] == pre[z]);
                    }
                }
                if has_date(post, d) {
                    let z = choose|z: int| 0 <= z < post.len() && post[z] as int == d;
                    if z < i {
                        assert(pre[z] == post[z]);
                        assert(has_date(old_a, d));
                        let w = choose|w: int| 0 <= w < old_a.len() && old_a[w] as int == d;
                        if a@.len() == old_a.len() {
                            assert(a@[w] == old_a[w]);
                        } else if w < p {
                            assert(a@[w] == old_a[w]);
                        } else {
                            assert(a@[w + 1] == old_a[w]);
                        }
                    } else {
                        if a@.len() == old_a.len() {
                            assert(a@[p as int] == x);
                        } else {
                            assert(a@[p as int] == x);
                        }
                    }
                }
            }
        }
        i = i + 1;
    }
    assert(dates@.take(n as int) =~= dates@);
    a
}


/// In a strictly sorted list, the day before `a[i]` is present exactly when it is `a[i - 1]`.
proof fn lemma_previous_day(a: Seq<i64>, i: int)
    requires
        strictly_sorted(a),
        0 <= i < a.len(),
    ensures
        has_date(a, a[i] - 1) <==> (i > 0 && a[i - 1] == a[i] - 1),
{
    if has_date(a, a[i] - 1) {
        let w = choose|w: int| 0 <= w < a.len() && a[w] as int == a[i] - 1;
        if w >= i {
            if w > i {
                assert(a[i] < a[w]);
            }
        } else {
            if w < i - 1 {
                assert(a[w] < a[i - 1]);
            }
            assert(a[i - 1] < a[i]);
        }
    }
}

/// `k` distinct consecutive days all in a list without repeats number at most its length.
proof fn lemma_run_within_len(a: Seq<i64>, d: int, k: int)
    requires
        strictly_sorted(a),
        k >= 0,
        consecutive_to(a, d, k),
    ensures
        k <= a.len(),
{
    let av = a.map_values(|x: i64| x as int);
    let r = vstd::set_lib::set_int_range(d - k + 1, d + 1);
    vstd::set_lib::lemma_int_range(d - k + 1, d + 1);
    assert(av.no_duplicates()) by {
        assert forall|x: int, y: int| 0 <= x < av.len() && 0 <= y < av.len() && x != y implies av[x]
            != av[y] by {
            if x < y {
                assert(a[x] < a[y]);
            } else {
                assert(a[y] < a[x]);
            }
        }
    }
    av.unique_seq_to_set();
    vstd::seq_lib::seq_to_set_is_finite(av);
    assert(r.subset_of(av.to_set())) by {
        assert forall|x: int| r.contains(x) implies av.to_set().contains(x) by {
            assert(has_date(a, d - (d - x)));
            let w = choose|w: int| 0 <= w < a.len() && a[w] as int == x;
            assert(av[w] == x);
        }
    }
    vstd::set_lib::lemma_len_subset(r, av.to_set());
}

fn contains_day(a: &Vec<i64>, d: i64) -> (r: bool)
    ensures
        r == has_date(a@, d as int),
{
    let n = a.len();
    let mut i: usize = 0;
    while i < n
        invariant
            n == a@.len(),
            i <= n,
            forall|j: int| 0 <= j < i ==> a@[j] != d,
        decreases n - i,
    {
        if a[i] == d {
            return true;
        }
        i = i + 1;
    }
    false
}

/// The length of the run of usage days ending on `end` (which is within the day bound).
fn run_length(a: &Vec<i64>, end: i64) -> (r: u32)
    requires
        strictly_sorted(a@),
        a@.len() <= u32::MAX,
        forall|i: int| 0 <= i < a@.len() ==> -DAY_BOUND <= #[trigger] a@[i] <= DAY_BOUND,
        -DAY_BOUND - 1 <= end <= DAY_BOUND,
    ensures
        is_run(a@, end as int, r as int),
{
    let mut count: u32 = 0;
    let mut check: i64 = end;
    while contains_day(a, check)
        invariant
            strictly_sorted(a@),
            a@.len() <= u32::MAX,
            forall|i: int| 0 <= i < a@.len() ==> -DAY_BOUND <= #[trigger] a@[i] <= DAY_BOUND,
            -DAY_BOUND - 1 <= check <= DAY_BOUND,
            check == end - count,
            consecutive_to(a@, end as int, count as int),
        decreases check + DAY_BOUND + 1,
    {
        proof {
            let w = choose|w: int| 0 <= w < a@.len() && a@[w] as int == check;
            assert(consecutive_to(a@, end as int, count + 1));
            lemma_run_within_len(a@, end as int, count + 1);
        }
        count = count + 1;
        check = check - 1;
    }
    count
}

/// The current and the longest streak of usage days, for the day `today`. The current
/// streak is the run of usage days ending today, or ending yesterday when today has none;
/// the longest is the longest run of consecutive usage days.
pub fn calculate_streaks_for_today(dates: &Vec<i64>, today: i64) -> (r: (u32, u32))
    requires
        dates@.len() <= u32::MAX,
        forall|i: int| 0 <= i < dates@.len() ==> -DAY_BOUND <= #[trigger] dates@[i] <= DAY_BOUND,
        -DAY_BOUND <= today <= DAY_BOUND,
    ensures
        is_run(dates@, streak_end(dates@, today as int), r.0 as int),
        is_longest(dates@, r.1 as int),
{
    let a = sorted_distinct_days(dates);
    proof {
        assert forall|i: int| 0 <= i < a@.len() implies -DAY_BOUND <= #[trigger] a@[i] <= DAY_BOUND by {
            assert(has_date(a@, a@[i] as int));
            let z = choose|z: int| 0 <= z < dates@.len() && dates@[z] as int == a@[i] as int;
        }
    }
    let end = if contains_day(&a, today) {
        today
    } else {
        today - 1
    };
    let current = run_length(&a, end);
    proof {
        assert(forall|d: int| has_date(a@, d) == has_date(dates@, d));
        assert(consecutive_to(dates@, end as int, current as int));
    }
    let n = a.len();
    let mut longest: u32 = 0;
    let mut streak: u32 = 0;
    let mut i: usize = 0;
    while i < n
        invariant
            n == a@.len(),
            n <= u32::MAX,
            strictly_sorted(a@),
            i <= n,
            streak <= i,
            longest <= i,
            i == 0 ==> streak == 0 && longest == 0,
            i > 0 ==> is_run(a@, a@[i - 1] as int, streak as int),
            forall|j: int, k: int|
                0 <= j < i && consecutive_to(a@, a@[j] as int, k) ==> k <= (if longest >= streak {
                    longest
                } else {
                    streak
                }),
            i > 0 ==> exists|j: int|
                0 <= j < i && consecutive_to(
                    a@,
                    #[trigger] a@[j] as int,
                    (if longest >= streak {
                        longest
                    } else {
                        streak
                    }) as int,
                ),
        decreases n - i,
    {
        let ghost prev_max: int = if longest >= streak { longest as int } else { streak as int };
        proof {
            lemma_previous_day(a@, i as int);
        }
        if i > 0 && a[i] == a[i - 1] + 1 {
            proof {
                assert(has_date(a@, a@[i as int] as int));
                assert forall|j: int| 0 <= j < streak + 1 implies #[trigger] has_date(a@, a@[i as int] - j) by {
                    if j > 0 {
                        assert(has_date(a@, a@[i - 1] - (j - 1)));
                    }
                }
            }
            streak = streak + 1;
        } else {
            if streak > longest {
                longest = streak;
            }
            streak = 1;
            proof {
                assert(has_date(a@, a@[i as int] as int));
                assert(consecutive_to(a@, a@[i as int] as int, 1));
            }
        }
        proof {
            let cur_max: int = if longest >= streak { longest as int } else { streak as int };
            assert(cur_max >= prev_max);
            assert(cur_max >= streak);
            assert forall|j: int, k: int|
                0 <= j < i + 1 && consecutive_to(a@, a@[j] as int, k) implies k <= cur_max by {
                if j == i as int && k > streak {
                    assert(has_date(a@, a@[j] - streak));
                }
            }
            if cur_max == streak {
                assert(consecutive_to(a@, a@[i as int] as int, cur_max));
            } else if i > 0 {
                let j0 = choose|j: int|
                    0 <= j < i && consecutive_to(a@, #[trigger] a@[j] as int, prev_max);
                assert(consecutive_to(a@, a@[j0] as int, cur_max));
            }
        }
        i = i + 1;
    }
    if streak > longest {
        longest = streak;
    }
    proof {
        assert forall|d: int, k: int| consecutive_to(dates@, d, k) implies k <= longest by {
            if k > 0 {
                assert(has_date(dates@, d - 0));
                assert(has_date(a@, d));
                let j = choose|j: int| 0 <= j < a@.len() && a@[j] as int == d;
                assert(consecutive_to(a@, a@[j] as int, k));
            }
        }
        if n > 0 {
            let j0 = choose|j: int| 0 <= j < n && consecutive_to(a@, #[trigger] a@[j] as int, longest as int);
            assert(consecutive_to(dates@, a@[j0] as int, longest as int));
        } else {
            assert(consecutive_to(dates@, 0, 0));
        }
    }
    (current, longest)
}

} // verus!

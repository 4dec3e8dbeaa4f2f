//! The layout of the contribution graph: the days of the last year, week by week.
use vstd::prelude::*;

use crate::streaks::DAY_BOUND;

verus! {

/// The weekday of a day number counted from Sunday (0) to Saturday (6); day 1 is a Monday.
pub open spec fn weekday_from_sunday(day: int) -> int {
    day % 7
}

/// The first day the graph shows for `today`: the Sunday 52 weeks before this week's.
pub open spec fn graph_start(today: int) -> int {
    today - (364 + weekday_from_sunday(today))
}

/// One day of the graph: its day number, and the index of its daily row when it has one.
#[derive(Debug, Clone)]
pub struct GraphCell {
    pub day: i64,
    pub daily: Option<usize>,
}

/// The cells of the weeks, week after week.
pub open spec fn flatten_weeks(weeks: Seq<Vec<GraphCell>>) -> Seq<GraphCell>
    decreases weeks.len(),
{
    if weeks.len() == 0 {
        Seq::empty()
    } else {
        flatten_weeks(weeks.drop_last()) + weeks.last()@
    }
}

/// The last index of `days` holding `d`, if any.
pub open spec fn last_index_of(days: Seq<i64>, d: int) -> Option<usize>
    decreases days.len(),
{
    if days.len() == 0 {
        None
    } else if days.last() == d {
        Some((days.len() - 1) as usize)
    } else {
        last_index_of(days.drop_last(), d)
    }
}

/// The graph of `today` over the days with usage `days`: the days from the graph's start up to
/// today, each with the (last) daily row of that day, split into weeks that end on Saturdays
/// (and a last week ending today).
pub open spec fn is_graph(days: Seq<i64>, today: int, weeks: Seq<Vec<GraphCell>>) -> bool {
    let cells = flatten_weeks(weeks);
    let start = graph_start(today);
    &&& cells.len() == today - start + 1
    &&& forall|i: int| 0 <= i < cells.len() ==> (#[trigger] cells[i]).day == start + i && cells[i].daily
        == last_index_of(days, start + i)
    &&& forall|w: int| 0 <= w < weeks.len() ==> (#[trigger] weeks[w])@.len() > 0
    &&& forall|w: int, c: int|
        0 <= w < weeks.len() && 0 <= c < weeks[w]@.len() ==> (weekday_from_sunday(
            (#[trigger] weeks[w]@[c]).day as int,
        ) == 6 || weeks[w]@[c].day == today <==> c == weeks[w]@.len() - 1)
}

fn last_index(days: &Vec<i64>, d: i64) -> (r: Option<usize>)
    ensures
        r == last_index_of(days@, d as int),
{
    let mut i: usize = days.len();
    assert(days@.take(i as int) =~= days@);
    while i > 0
        invariant
            i <= days@.len(),
            last_index_of(days@, d as int) == last_index_of(days@.take(i as int), d as int),
        decreases i,
    {
        assert(days@.take(i as int).drop_last() =~= days@.take(i - 1));
        if days[i - 1] == d {
            return Some(i - 1);
        }
        i = i - 1;
    }
    None
}

proof fn lemma_flatten_push(weeks: Seq<Vec<GraphCell>>, w: Vec<GraphCell>)
    ensures
        flatten_weeks(weeks.push(w)) == flatten_weeks(weeks) + w@,
{
    assert(weeks.push(w).drop_last() =~= weeks);
}

/// The contribution graph layout for `today` (a day number): empty when there is no usage.
pub fn build_contribution_graph_for_today(days: &Vec<i64>, today: i64) -> (r: Vec<Vec<GraphCell>>)
    requires
        -DAY_BOUND <= today <= DAY_BOUND,
    ensures
        days@.len() == 0 ==> r@.len() == 0,
        days@.len() > 0 ==> is_graph(days@, today as int, r@),
{
    if days.len() == 0 {
        return Vec::new();
    }
    let wd: i64 = (today + 700000000) % 7;
    assert(wd == weekday_from_sunday(today as int)) by {
        assert((today + 700000000) % 7 == today % 7) by (nonlinear_arith)
            requires -100000000 <= today <= 100000000;
    }
    let start: i64 = today - (364 + wd);
    let mut weeks: Vec<Vec<GraphCell>> = Vec::new();
    let mut current: Vec<GraphCell> = Vec::new();
    let mut d: i64 = start;
    while d <= today
        invariant
            start == graph_start(today as int),
            -DAY_BOUND <= today <= DAY_BOUND,
            start <= d <= today + 1,
            flatten_weeks(weeks@).len() + current@.len() == d - start,
            forall|i: int| 0 <= i < d - start ==> (#[trigger] (flatten_weeks(weeks@) + current@)[i]).day == start + i
                && (flatten_weeks(weeks@) + current@)[i].daily == last_index_of(days@, start + i),
            forall|w: int| 0 <= w < weeks@.len() ==> (#[trigger] weeks@[w])@.len() > 0,
            forall|w: int, c: int|
                0 <= w < weeks@.len() && 0 <= c < weeks@[w]@.len() ==> (weekday_from_sunday(
                    (#[trigger] weeks@[w]@[c]).day as int,
                ) == 6 || weeks@[w]@[c].day == today <==> c == weeks@[w]@.len() - 1),
            forall|c: int|
                0 <= c < current@.len() ==> weekday_from_sunday((#[trigger] current@[c]).day as int) != 6
                    && current@[c].day != today,
            d > today ==> current@.len() == 0,
        decreases today + 1 - d,
    {
        let cell = GraphCell { day: d, daily: last_index(days, d) };
        let ghost old_current = current@;
        let ghost old_weeks = weeks@;
        let ghost old_seq = flatten_weeks(old_weeks) + old_current;
        current.push(cell);
        let sat = (d + 700000000) % 7 == 6;
        assert(sat == (weekday_from_sunday(d as int) == 6)) by {
            assert((d + 700000000) % 7 == d % 7) by (nonlinear_arith)
                requires -200000000 <= d <= 100000000;
        }
        if sat || d == today {
            let done = current;
            current = Vec::new();
            weeks.push(done);
            proof {
                lemma_flatten_push(old_weeks, done);
                assert(flatten_weeks(weeks@) + current@ =~= flatten_weeks(old_weeks) + old_current.push(cell));
                assert forall|w: int, c: int|
                    0 <= w < weeks@.len() && 0 <= c < weeks@[w]@.len() implies (weekday_from_sunday(
                        (#[trigger] weeks@[w]@[c]).day as int,
                    ) == 6 || weeks@[w]@[c].day == today <==> c == weeks@[w]@.len() - 1) by {
                    if w < old_weeks.len() {
                        assert(weeks@[w] == old_weeks[w]);
                    } else {
                        assert(weeks@[w]@ == old_current.push(cell));
                        if c < old_current.len() {
                            assert(weeks@[w]@[c] == old_current[c]);
                        }
                    }
                }
                assert forall|w: int| 0 <= w < weeks@.len() implies (#[trigger] weeks@[w])@.len() > 0 by {
                    if w < old_weeks.len() {
                        assert(weeks@[w] == old_weeks[w]);
                    }
                }
            }
        } else {
            assert(flatten_weeks(weeks@) + current@ =~= flatten_weeks(old_weeks) + old_current.push(cell));
        }
        proof {
            assert(flatten_weeks(weeks@) + current@ =~= old_seq.push(cell));
            assert forall|i: int| 0 <= i < d + 1 - start implies (#[trigger] (flatten_weeks(weeks@) + current@)[i]).day == start + i
                && (flatten_weeks(weeks@) + current@)[i].daily == last_index_of(days@, start + i) by {
                if i < d - start {
                    assert((flatten_weeks(weeks@) + current@)[i] == old_seq[i]);
                } else {
                    assert((flatten_weeks(weeks@) + current@)[i] == cell);
                }
            }
        }
        d = d + 1;
    }
    proof {
        assert(flatten_weeks(weeks@) + current@ =~= flatten_weeks(weeks@));
        let cells = flatten_weeks(weeks@);
        assert forall|i: int| 0 <= i < cells.len() implies (#[trigger] cells[i]).day == start + i && cells[i].daily
            == last_index_of(days@, start + i) by {
            assert((flatten_weeks(weeks@) + current@)[i] == cells[i]);
        }
    }
    weeks
}

} // verus!

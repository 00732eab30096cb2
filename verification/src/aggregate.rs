//! The aggregation engine: scans the completed-interval log in file order,
//! keeps the intervals over the discard threshold (or all of them under
//! quash), and totals them flat, by ISO week, or by day of month. Week and
//! day grouping is contiguous-run grouping: the counter flushes whenever the
//! key differs from the previous interval's, so interleaved weeks give
//! several rows for one week number.
use vstd::prelude::*;

use crate::calendar::{day_of_month_of, day_of_timestamp, iso_week_of, week_of_timestamp,
    MAX_CALENDAR_TS};
use crate::record::CompletedInterval;
use crate::store::DISCARD_THRESHOLD;

verus! {

/// How the log is grouped.
#[derive(PartialEq, Eq, Structural, Clone, Copy)]
pub enum Grouping {
    Flat,
    Week,
    Day,
}

/// One output row: either one included interval, or one contiguous run of
/// equal keys with its total seconds.
pub enum GroupRow {
    Interval { project_code: String, task: String, start_time: u64, duration: u64 },
    Run { key: u32, total: u64 },
}

/// Whether an interval survives the discard filter.
pub open spec fn included(c: CompletedInterval, quash: bool) -> bool {
    c.duration > DISCARD_THRESHOLD || quash
}

/// The included intervals, in log order.
pub open spec fn filtered(log: Seq<CompletedInterval>, quash: bool) -> Seq<CompletedInterval>
    decreases log.len(),
{
    if log.len() == 0 {
        Seq::<CompletedInterval>::empty()
    } else {
        let rest = filtered(log.drop_first(), quash);
        if included(log[0], quash) {
            seq![log[0]] + rest
        } else {
            rest
        }
    }
}

/// The seconds of all included intervals.
pub open spec fn included_total(log: Seq<CompletedInterval>, quash: bool) -> int
    decreases log.len(),
{
    if log.len() == 0 {
        0
    } else {
        (if included(log[0], quash) {
            log[0].duration as int
        } else {
            0
        }) + included_total(log.drop_first(), quash)
    }
}

/// The grouping key of an interval: its start's day of month, or its start's
/// ISO week number.
pub open spec fn run_key(c: CompletedInterval, by_day: bool) -> int {
    if by_day {
        day_of_month_of(c.start_time as int)
    } else {
        iso_week_of(c.start_time as int)
    }
}

/// The contiguous-run rows over already-filtered intervals, from a pending
/// key (`pointer`) and a pending total (`counter`). A change of key flushes
/// the pending pair unless its total is zero; the final pending pair is
/// always flushed, even at zero.
pub open spec fn runs(items: Seq<CompletedInterval>, by_day: bool, pointer: int, counter: int) -> Seq<
    (int, int),
>
    decreases items.len(),
{
    if items.len() == 0 {
        seq![(pointer, counter)]
    } else {
        let k = run_key(items[0], by_day);
        if k == pointer {
            runs(items.drop_first(), by_day, pointer, counter + items[0].duration)
        } else {
            (if counter != 0 {
                seq![(pointer, counter)]
            } else {
                Seq::<(int, int)>::empty()
            }) + runs(items.drop_first(), by_day, k, items[0].duration as int)
        }
    }
}

/// The row built from one included interval.
pub open spec fn interval_row(c: CompletedInterval) -> GroupRow {
    GroupRow::Interval {
        project_code: c.project_code,
        task: c.task,
        start_time: c.start_time,
        duration: c.duration,
    }
}

/// The key/total pair of a run row.
pub open spec fn run_pair(r: GroupRow) -> (int, int) {
    match r {
        GroupRow::Run { key, total } => (key as int, total as int),
        GroupRow::Interval { .. } => (0, 0),
    }
}

/// The rows are exactly the given run pairs, in order.
pub open spec fn rows_match(rows: Seq<GroupRow>, pairs: Seq<(int, int)>) -> bool {
    &&& rows.len() == pairs.len()
    &&& forall|i: int| 0 <= i < rows.len() ==> (#[trigger] rows[i]) is Run
    &&& forall|i: int| 0 <= i < rows.len() ==> run_pair(#[trigger] rows[i]) == pairs[i]
}

/// Every included interval starts inside the calendar wrappers' range.
pub open spec fn keyed_in_range(log: Seq<CompletedInterval>, quash: bool) -> bool {
    forall|i: int|
        0 <= i < log.len() && included(#[trigger] log[i], quash) ==> log[i].start_time
            <= MAX_CALENDAR_TS
}

pub proof fn lemma_included_total_nonneg(log: Seq<CompletedInterval>, quash: bool)
    ensures
        included_total(log, quash) >= 0,
    decreases log.len(),
{
    if log.len() > 0 {
        lemma_included_total_nonneg(log.drop_first(), quash);
    }
}

/// One row per included interval, in log order, and the grand total of their
/// seconds.
pub fn aggregate_flat(log: &Vec<CompletedInterval>, quash: bool) -> (r: (Vec<GroupRow>, u64))
    requires
        included_total(log@, quash) <= u64::MAX,
    ensures
        r.1 as int == included_total(log@, quash),
        r.0@.len() == filtered(log@, quash).len(),
        forall|i: int|
            0 <= i < r.0@.len() ==> r.0@[i] == interval_row(#[trigger] filtered(log@, quash)[i]),
{
    let mut rows: Vec<GroupRow> = Vec::new();
    let mut total: u64 = 0;
    let ghost whole = log@;
    let mut i: usize = 0;
    proof {
        assert(whole.skip(0) =~= whole);
    }
    while i < log.len()
        invariant
            0 <= i <= whole.len(),
            whole == log@,
            included_total(whole, quash) <= u64::MAX,
            total as int == included_total(whole, quash) - included_total(
                whole.skip(i as int),
                quash,
            ),
            filtered(whole, quash) =~= filtered(whole.take(i as int), quash) + filtered(
                whole.skip(i as int),
                quash,
            ),
            rows@.len() == filtered(whole.take(i as int), quash).len(),
            forall|j: int|
                0 <= j < rows@.len() ==> rows@[j] == interval_row(
                    #[trigger] filtered(whole.take(i as int), quash)[j],
                ),
        decreases whole.len() - i,
    {
        proof {
            assert(whole.skip(i as int)[0] == whole[i as int]);
            assert(whole.skip(i as int).drop_first() =~= whole.skip(i + 1));
            lemma_included_total_nonneg(whole.skip(i + 1), quash);
            lemma_take_snoc_filter(whole, i as int, quash);
        }
        let c = &log[i];
        if c.duration > DISCARD_THRESHOLD || quash {
            let row = GroupRow::Interval {
                project_code: c.project_code.clone(),
                task: c.task.clone(),
                start_time: c.start_time,
                duration: c.duration,
            };
            rows.push(row);
            total = total + c.duration;
        }
        i = i + 1;
    }
    proof {
        assert(whole.take(i as int) =~= whole);
        assert(whole.skip(i as int) =~= Seq::<CompletedInterval>::empty());
    }
    (rows, total)
}

/// The key/total pairs of a row sequence.
pub open spec fn row_pairs(rows: Seq<GroupRow>) -> Seq<(int, int)> {
    Seq::new(rows.len(), |i: int| run_pair(rows[i]))
}

/// One row per contiguous run of equal keys among the included intervals, in
/// log order, and the grand total of the included seconds. The final pending
/// run is always flushed, even at zero.
pub fn aggregate_runs(log: &Vec<CompletedInterval>, by_day: bool, quash: bool) -> (r: (
    Vec<GroupRow>,
    u64,
))
    requires
        included_total(log@, quash) <= u64::MAX,
        keyed_in_range(log@, quash),
    ensures
        r.1 as int == included_total(log@, quash),
        rows_match(r.0@, runs(filtered(log@, quash), by_day, 0, 0)),
{
    let mut rows: Vec<GroupRow> = Vec::new();
    let mut total: u64 = 0;
    let mut pointer: u32 = 0;
    let mut counter: u64 = 0;
    let ghost whole = log@;
    let mut i: usize = 0;
    proof {
        assert(whole.skip(0) =~= whole);
        assert(row_pairs(rows@) =~~= Seq::<(int, int)>::empty());
    }
    while i < log.len()
        invariant
            0 <= i <= whole.len(),
            whole == log@,
            included_total(whole, quash) <= u64::MAX,
            keyed_in_range(whole, quash),
            total as int == included_total(whole, quash) - included_total(
                whole.skip(i as int),
                quash,
            ),
            counter <= total,
            forall|j: int| 0 <= j < rows@.len() ==> (#[trigger] rows@[j]) is Run,
            runs(filtered(whole, quash), by_day, 0, 0) =~~= row_pairs(rows@) + runs(
                filtered(whole.skip(i as int), quash),
                by_day,
                pointer as int,
                counter as int,
            ),
        decreases whole.len() - i,
    {
        proof {
            assert(whole.skip(i as int)[0] == whole[i as int]);
            assert(whole.skip(i as int).drop_first() =~= whole.skip(i + 1));
            lemma_included_total_nonneg(whole.skip(i + 1), quash);
        }
        let c = &log[i];
        if c.duration > DISCARD_THRESHOLD || quash {
            proof {
                assert(filtered(whole.skip(i as int), quash) =~= seq![whole[i as int]] + filtered(
                    whole.skip(i + 1),
                    quash,
                ));
                assert((seq![whole[i as int]] + filtered(whole.skip(i + 1), quash))[0] == whole[
                    i as int
                ]);
                assert((seq![whole[i as int]] + filtered(whole.skip(i + 1), quash)).drop_first()
                    =~= filtered(whole.skip(i + 1), quash));
            }
            let k = if by_day {
                day_of_timestamp(c.start_time)
            } else {
                week_of_timestamp(c.start_time)
            };
            if k == pointer {
                counter = counter + c.duration;
            } else {
                if counter != 0 {
                    let ghost before = rows@;
                    rows.push(GroupRow::Run { key: pointer, total: counter });
                    proof {
                        assert(row_pairs(rows@) =~~= row_pairs(before).push(
                            (pointer as int, counter as int),
                        ));
                        assert(row_pairs(before) + (seq![(pointer as int, counter as int)] + runs(
                            filtered(whole.skip(i + 1), quash),
                            by_day,
                            k as int,
                            c.duration as int,
                        )) =~~= row_pairs(rows@) + runs(
                            filtered(whole.skip(i + 1), quash),
                            by_day,
                            k as int,
                            c.duration as int,
                        ));
                    }
                }
                pointer = k;
                counter = c.duration;
            }
            total = total + c.duration;
        }
        i = i + 1;
    }
    proof {
        assert(whole.skip(i as int) =~= Seq::<CompletedInterval>::empty());
        assert(filtered(Seq::<CompletedInterval>::empty(), quash) =~= Seq::<
            CompletedInterval,
        >::empty());
    }
    let ghost before = rows@;
    rows.push(GroupRow::Run { key: pointer, total: counter });
    proof {
        assert(row_pairs(rows@) =~~= row_pairs(before).push((pointer as int, counter as int)));
        assert(runs(filtered(whole, quash), by_day, 0, 0) =~~= row_pairs(rows@));
    }
    (rows, total)
}

/// The single aggregation contract: scans the log in order, applies the
/// discard filter, and groups as asked. The grand total is the included
/// seconds under every grouping.
pub fn aggregate(log: &Vec<CompletedInterval>, grouping: Grouping, quash: bool) -> (r: (
    Vec<GroupRow>,
    u64,
))
    requires
        included_total(log@, quash) <= u64::MAX,
        grouping != Grouping::Flat ==> keyed_in_range(log@, quash),
    ensures
        r.1 as int == included_total(log@, quash),
        grouping == Grouping::Flat ==> r.0@.len() == filtered(log@, quash).len() && (forall|i: int|
            0 <= i < r.0@.len() ==> r.0@[i] == interval_row(#[trigger] filtered(log@, quash)[i])),
        grouping == Grouping::Week ==> rows_match(r.0@, runs(filtered(log@, quash), false, 0, 0)),
        grouping == Grouping::Day ==> rows_match(r.0@, runs(filtered(log@, quash), true, 0, 0)),
{
    match grouping {
        Grouping::Flat => aggregate_flat(log, quash),
        Grouping::Week => aggregate_runs(log, false, quash),
        Grouping::Day => aggregate_runs(log, true, quash),
    }
}

/// Extending a prefix by one interval extends its filtered form by that
/// interval exactly when it is included.
proof fn lemma_take_snoc_filter(log: Seq<CompletedInterval>, i: int, quash: bool)
    requires
        0 <= i < log.len(),
    ensures
        included(log[i], quash) ==> filtered(log.take(i + 1), quash) =~= filtered(
            log.take(i),
            quash,
        ).push(log[i]),
        !included(log[i], quash) ==> filtered(log.take(i + 1), quash) =~= filtered(
            log.take(i),
            quash,
        ),
    decreases i,
{
    if i == 0 {
        assert(log.take(1)[0] == log[0]);
        assert(log.take(1).drop_first() =~= Seq::<CompletedInterval>::empty());
        assert(log.take(0) =~= Seq::<CompletedInterval>::empty());
        assert(filtered(Seq::<CompletedInterval>::empty(), quash) =~= Seq::<
            CompletedInterval,
        >::empty());
        if included(log[0], quash) {
            assert(filtered(log.take(1), quash) =~= seq![log[0]]);
            assert(filtered(log.take(0), quash).push(log[0]) =~= seq![log[0]]);
        }
    } else {
        lemma_take_snoc_filter(log.drop_first(), i - 1, quash);
        assert(log.take(i + 1)[0] == log[0]);
        assert(log.take(i + 1).drop_first() =~= log.drop_first().take(i));
        assert(log.take(i)[0] == log[0]);
        assert(log.take(i).drop_first() =~= log.drop_first().take(i - 1));
        assert(log.drop_first()[i - 1] == log[i]);
        if included(log[i], quash) {
            if included(log[0], quash) {
                assert(filtered(log.take(i + 1), quash) =~= seq![log[0]] + filtered(
                    log.drop_first().take(i),
                    quash,
                ));
                assert(filtered(log.take(i + 1), quash) =~= filtered(log.take(i), quash).push(
                    log[i],
                ));
            } else {
                assert(filtered(log.take(i + 1), quash) =~= filtered(log.take(i), quash).push(
                    log[i],
                ));
            }
        }
    }
}

} // verus!

//! The log store: one daily log per calendar date, an active date that
//! mutations are directed to, and range aggregation against a calorie
//! target. A date's log is created lazily on first use.

use vstd::prelude::*;
use vstd::string::StringSliceAdditionalSpecFns;
use crate::daily_log::{
    spec_add_entry, spec_apply_undo, spec_log_calories, spec_remove_entry, spec_undo, entries_ok,
    entries_view, has_entry, lemma_add_then_undo, DailyLog, DailyLogV, LogEntry,
};
use crate::date::{
    format_date, next_date, parse_date, spec_format_date, spec_parse_date, today, Date,
    lemma_key_injective,
};
use crate::error::TrackerError;
use crate::food_database::{str_bytes, BasicFood};
use crate::num::clamp64;
use crate::util::{first_index, lemma_first_index};

verus! {

pub open spec fn logs_view(s: Seq<DailyLog>) -> Seq<DailyLogV> {
    s.map_values(|l: DailyLog| l@)
}

pub open spec fn log_dates(s: Seq<DailyLogV>) -> Seq<Date> {
    s.map_values(|l: DailyLogV| l.date)
}

pub open spec fn has_log(s: Seq<DailyLogV>, d: Date) -> bool {
    first_index(log_dates(s), d) != -1
}

/// The index of the log for `d`; meaningful only when `has_log` holds.
pub open spec fn log_index(s: Seq<DailyLogV>, d: Date) -> int {
    first_index(log_dates(s), d)
}

pub open spec fn empty_log(d: Date) -> DailyLogV {
    DailyLogV { date: d, entries: Seq::empty(), undo: Seq::empty() }
}

/// How loading persisted daily-log snapshots can fail: a date string that
/// is not a real `YYYY-MM-DD` date, or a corrupt snapshot (a repeated date,
/// a repeated food identifier within one day, or a non-positive serving
/// count).
#[verifier::ext_equal]
pub ghost enum SnapshotFailure {
    BadDate,
    Corrupt,
}

pub open spec fn entry_recs_view(rs: Seq<(String, u64, u64)>) -> Seq<crate::daily_log::LogEntryV> {
    rs.map_values(
        |r: (String, u64, u64)| crate::daily_log::LogEntryV {
            food_id: r.0@,
            servings: r.1 as int,
            calories: r.2 as int,
        },
    )
}

pub open spec fn snapshots_view(rs: Seq<(String, Vec<(String, u64, u64)>)>) -> Seq<
    (Seq<u8>, Seq<crate::daily_log::LogEntryV>),
> {
    rs.map_values(
        |r: (String, Vec<(String, u64, u64)>)| (str_bytes(r.0@), entry_recs_view(r.1@)),
    )
}

/// Loading daily-log snapshots, in file order: each snapshot becomes one
/// daily log with an empty undo stack. The first bad date or corrupt
/// snapshot stops the load.
pub open spec fn spec_load_snapshots(
    logs: Seq<DailyLogV>,
    snaps: Seq<(Seq<u8>, Seq<crate::daily_log::LogEntryV>)>,
) -> Result<Seq<DailyLogV>, SnapshotFailure>
    decreases snaps.len(),
{
    if snaps.len() == 0 {
        Ok(logs)
    } else {
        let snap = snaps.first();
        match spec_parse_date(snap.0) {
            None => Err(SnapshotFailure::BadDate),
            Some(d) => {
                if has_log(logs, d) || !entries_ok(snap.1) {
                    Err(SnapshotFailure::Corrupt)
                } else {
                    spec_load_snapshots(
                        logs.push(DailyLogV { date: d, entries: snap.1, undo: Seq::empty() }),
                        snaps.drop_first(),
                    )
                }
            },
        }
    }
}

/// The store of daily logs for one user.
#[derive(Debug)]
pub struct FoodLog {
    pub user_name: String,
    pub daily_logs: Vec<DailyLog>,
    pub current_date: Date,
}

#[verifier::ext_equal]
pub ghost struct FoodLogV {
    pub user_name: Seq<char>,
    pub logs: Seq<DailyLogV>,
    pub current: Date,
}

impl View for FoodLog {
    type V = FoodLogV;

    open spec fn view(&self) -> FoodLogV {
        FoodLogV {
            user_name: self.user_name@,
            logs: logs_view(self.daily_logs@),
            current: self.current_date,
        }
    }
}

impl FoodLogV {
    /// Store invariant: at most one daily log per date, every log
    /// well-formed, and the active date a real calendar date.
    pub open spec fn wf(self) -> bool {
        &&& forall|i: int, j: int|
            0 <= i < j < self.logs.len() ==> (#[trigger] self.logs[i]).date != (
            #[trigger] self.logs[j]).date
        &&& forall|i: int| 0 <= i < self.logs.len() ==> (#[trigger] self.logs[i]).wf()
        &&& self.current.wf()
    }
}

/// The daily log recorded for a date, if any.
pub open spec fn spec_log_for(logs: Seq<DailyLogV>, d: Date) -> Option<DailyLogV> {
    if has_log(logs, d) {
        Some(logs[log_index(logs, d)])
    } else {
        None
    }
}

/// The exact calorie total logged for a date: the sum over the date's
/// entries, or zero when the date has no log.
pub open spec fn spec_calories_for_date(st: FoodLogV, d: Date) -> int {
    match spec_log_for(st.logs, d) {
        Some(l) => spec_log_calories(l.entries),
        None => 0,
    }
}

/// Adding a food to the store: the active date's log takes the entry; a
/// missing log is created empty first.
pub open spec fn spec_store_add(
    st: FoodLogV,
    food_id: Seq<char>,
    servings: int,
    calories: int,
) -> FoodLogV {
    if has_log(st.logs, st.current) {
        let i = log_index(st.logs, st.current);
        FoodLogV {
            logs: st.logs.update(i, spec_add_entry(st.logs[i], food_id, servings, calories)),
            ..st
        }
    } else {
        FoodLogV {
            logs: st.logs.push(spec_add_entry(empty_log(st.current), food_id, servings, calories)),
            ..st
        }
    }
}

/// One row of a range summary: the calories actually logged on a date,
/// the target, and their signed difference.
#[derive(Clone, Copy, PartialEq, Eq, Structural, Debug)]
pub struct DaySummary {
    pub date: Date,
    pub actual: u64,
    pub target: u64,
    pub difference: i128,
}

/// A store with no logs at all reports zero calories for every date.
pub proof fn lemma_empty_store_calories(st: FoodLogV, d: Date)
    requires
        st.logs.len() == 0,
    ensures
        spec_calories_for_date(st, d) == 0,
{
    lemma_first_index(log_dates(st.logs), d);
}

/// A date that has no log contributes zero actual calories, so a range
/// summary row for it shows the negated target as its difference.
pub proof fn lemma_unlogged_date_zero_calories(st: FoodLogV, d: Date)
    requires
        !has_log(st.logs, d),
    ensures
        spec_calories_for_date(st, d) == 0,
{
}

/// Undo inverts add at the store level too: logging a food on the active
/// date and undoing at once returns the store to its state before the add,
/// except that the active date's log, created empty on demand by the add,
/// remains as an empty log.
pub proof fn lemma_store_add_then_undo(st: FoodLogV, food_id: Seq<char>, servings: int, calories: int)
    requires
        st.wf(),
        1 <= servings <= u64::MAX,
        0 <= calories <= u64::MAX,
    ensures
        ({
            let st1 = spec_store_add(st, food_id, servings, calories);
            let i = log_index(st1.logs, st1.current);
            let l = st1.logs[i];
            &&& has_log(st1.logs, st1.current)
            &&& l.undo.len() > 0
            &&& spec_apply_undo(l.entries, l.undo.last()) is Some
            &&& (FoodLogV { logs: st1.logs.update(i, spec_undo(l)), ..st1 }) == (if has_log(
                st.logs,
                st.current,
            ) {
                st
            } else {
                FoodLogV { logs: st.logs.push(empty_log(st.current)), ..st }
            })
        }),
{
    let st1 = spec_store_add(st, food_id, servings, calories);
    lemma_first_index(log_dates(st.logs), st.current);
    if has_log(st.logs, st.current) {
        let i = log_index(st.logs, st.current);
        let l0 = st.logs[i];
        let l1 = spec_add_entry(l0, food_id, servings, calories);
        assert(l1.date == l0.date);
        assert(st1.logs == st.logs.update(i, l1));
        assert(log_dates(st1.logs) =~= log_dates(st.logs));
        assert(log_index(st1.logs, st.current) == i);
        assert(st1.logs[i] == l1);
        lemma_add_then_undo(l0, food_id, servings, calories);
        assert(spec_undo(l1) == l0);
        assert(st1.logs.update(i, l0) =~= st.logs);
        assert((FoodLogV { logs: st1.logs.update(i, spec_undo(l1)), ..st1 }) =~= st);
    } else {
        let n = st.logs.len() as int;
        let l0 = empty_log(st.current);
        let l1 = spec_add_entry(l0, food_id, servings, calories);
        assert(l1.date == st.current);
        assert(st1.logs == st.logs.push(l1));
        assert(log_dates(st1.logs)[n] == st.current);
        lemma_first_index(log_dates(st1.logs), st.current);
        assert(has_log(st1.logs, st.current));
        let r = log_index(st1.logs, st.current);
        assert forall|j: int| 0 <= j < n implies log_dates(st1.logs)[j] != st.current by {
            assert(st1.logs[j] == st.logs[j]);
            assert(log_dates(st.logs)[j] == st.logs[j].date);
        }
        assert(r == n);
        assert(l0.wf());
        lemma_add_then_undo(l0, food_id, servings, calories);
        assert(spec_undo(l1) == l0);
        assert(st1.logs.update(n, l0) =~= st.logs.push(l0));
        assert((FoodLogV { logs: st1.logs.update(n, spec_undo(l1)), ..st1 }) =~= (FoodLogV {
            logs: st.logs.push(empty_log(st.current)),
            ..st
        }));
    }
}

/// The calendar successor of `a` is the least well-formed date above `a`.
pub proof fn lemma_next_minimal(a: Date, b: Date)
    requires
        a.wf(),
        b.wf(),
        a.key() < b.key(),
    ensures
        a.spec_next().key() <= b.key(),
{
}

proof fn lemma_logs_view_push(s: Seq<DailyLog>, x: DailyLog)
    ensures
        logs_view(s.push(x)) == logs_view(s).push(x@),
{
    assert(logs_view(s.push(x)) =~= logs_view(s).push(x@));
}

proof fn lemma_logs_view_remove_insert(s: Seq<DailyLog>, i: int, x: DailyLog)
    requires
        0 <= i < s.len(),
    ensures
        logs_view(s.remove(i).insert(i, x)) == logs_view(s).update(i, x@),
{
    assert(logs_view(s.remove(i).insert(i, x)) =~= logs_view(s).update(i, x@));
}

/// The index of the log for `d` in a plain list of logs, if one exists.
fn find_log_in(logs: &Vec<DailyLog>, d: Date) -> (r: Option<usize>)
    ensures
        r matches Some(i) ==> i < logs.len() && log_index(logs_view(logs@), d) == i as int,
        r is None ==> !has_log(logs_view(logs@), d),
{
    let ghost ds = log_dates(logs_view(logs@));
    let mut i: usize = 0;
    while i < logs.len()
        invariant
            i <= logs.len(),
            ds == log_dates(logs_view(logs@)),
            ds.len() == logs.len(),
            forall|j: int| 0 <= j < i ==> ds[j] != d,
        decreases logs.len() - i,
    {
        if logs[i].date == d {
            proof {
                assert(ds[i as int] == d);
                lemma_first_index(ds, d);
            }
            return Some(i);
        }
        proof {
            assert(ds[i as int] == logs_view(logs@)[i as int].date);
        }
        i += 1;
    }
    proof {
        lemma_first_index(ds, d);
    }
    None
}

/// Turn one snapshot's entry records into log entries, checking that the
/// snapshot is sound: positive servings and no repeated food identifier.
fn check_entries(entries: &Vec<(String, u64, u64)>) -> (r: Option<Vec<LogEntry>>)
    ensures
        r matches Some(v) ==> entries_view(v@) == entry_recs_view(entries@) && entries_ok(
            entry_recs_view(entries@),
        ),
        r is None ==> !entries_ok(entry_recs_view(entries@)),
{
    let ghost evs = entry_recs_view(entries@);
    let mut out: Vec<LogEntry> = Vec::new();
    proof {
        assert(entries_view(out@) =~= evs.take(0));
    }
    let mut i: usize = 0;
    while i < entries.len()
        invariant
            i <= entries.len(),
            evs == entry_recs_view(entries@),
            evs.len() == entries.len(),
            entries_view(out@) == evs.take(i as int),
            out@.len() == i,
            entries_ok(evs.take(i as int)),
        decreases entries.len() - i,
    {
        let servings = entries[i].1;
        let calories = entries[i].2;
        proof {
            assert(evs[i as int] == entry_recs_view(entries@)[i as int]);
        }
        if servings == 0 {
            proof {
                assert(evs[i as int].servings == 0);
                assert(!entries_ok(evs));
            }
            return None;
        }
        let mut j: usize = 0;
        while j < out.len()
            invariant
                i < entries.len(),
                j <= out.len(),
                evs == entry_recs_view(entries@),
                evs.len() == entries.len(),
                entries_view(out@) == evs.take(i as int),
                out@.len() == i,
                forall|k: int| 0 <= k < j ==> evs[k].food_id != evs[i as int].food_id,
            decreases out.len() - j,
        {
            if out[j].food_id == entries[i].0 {
                proof {
                    assert(entries_view(out@)[j as int] == out@[j as int]@);
                    assert(evs[j as int].food_id == evs[i as int].food_id);
                    assert(!entries_ok(evs));
                }
                return None;
            }
            proof {
                assert(entries_view(out@)[j as int] == out@[j as int]@);
                assert(evs.take(i as int)[j as int] == evs[j as int]);
            }
            j += 1;
        }
        let ghost oldout = out@;
        out.push(
            LogEntry { food_id: entries[i].0.clone(), servings, calories },
        );
        proof {
            assert(entries_view(out@) =~= entries_view(oldout).push(out@.last()@));
            assert(out@.last()@ == evs[i as int]);
            assert(evs.take(i as int + 1).drop_last() =~= evs.take(i as int));
            assert(entries_view(out@) =~= evs.take(i as int + 1));
            assert forall|a: int, b: int|
                0 <= a < b < i as int + 1 implies (#[trigger] evs.take(i as int + 1)[a]).food_id
                    != (#[trigger] evs.take(i as int + 1)[b]).food_id by {
                if b < i as int {
                    assert(evs.take(i as int)[a] == evs[a]);
                    assert(evs.take(i as int)[b] == evs[b]);
                } else {
                    assert(evs.take(i as int + 1)[a] == evs[a]);
                    assert(evs.take(i as int + 1)[b] == evs[i as int]);
                }
            }
        }
        i += 1;
    }
    proof {
        assert(evs.take(entries.len() as int) =~= evs);
    }
    Some(out)
}

impl FoodLog {
    /// A fresh store for a user: no logs yet, and the active date set to
    /// today according to the system clock.
    pub fn new(user_name: &str) -> (r: Self)
        ensures
            r@.user_name == user_name@,
            r@.logs.len() == 0,
            r@.wf(),
    {
        let r = FoodLog {
            user_name: user_name.to_owned(),
            daily_logs: Vec::new(),
            current_date: today(),
        };
        proof {
            assert(r@.logs =~= Seq::<DailyLogV>::empty());
        }
        r
    }

    /// Replace all daily logs with persisted snapshots, one per date, in
    /// file order, each with an empty undo stack (undo history is never
    /// persisted). Fails with `InvalidDate` on a date string that is not a
    /// real `YYYY-MM-DD` date, and with `InconsistentState` on a corrupt
    /// snapshot (a repeated date, a repeated food identifier within one
    /// day, or a non-positive serving count); on failure the store is left
    /// unchanged.
    pub fn load(&mut self, snapshots: Vec<(String, Vec<(String, u64, u64)>)>) -> (r: Result<
        (),
        TrackerError,
    >)
        requires
            old(self)@.wf(),
        ensures
            final(self)@.wf(),
            ({
                let res = spec_load_snapshots(Seq::empty(), snapshots_view(snapshots@));
                &&& (res matches Ok(logs) ==> r is Ok && final(self)@ == (FoodLogV {
                    logs,
                    ..old(self)@
                }))
                &&& (res matches Err(f) ==> final(self)@ == old(self)@ && (match f {
                    SnapshotFailure::BadDate => r matches Err(e) && e is InvalidDate,
                    SnapshotFailure::Corrupt => r matches Err(e) && e is InconsistentState,
                }))
            }),
    {
        let ghost snaps0 = snapshots_view(snapshots@);
        let mut built: Vec<DailyLog> = Vec::new();
        let mut snaps = snapshots;
        proof {
            assert(logs_view(built@) =~= Seq::<DailyLogV>::empty());
        }
        while snaps.len() > 0
            invariant
                snaps0 == snapshots_view(snapshots@),
                old(self)@.wf(),
                self@ == old(self)@,
                spec_load_snapshots(Seq::empty(), snaps0) == spec_load_snapshots(
                    logs_view(built@),
                    snapshots_view(snaps@),
                ),
                forall|i: int| 0 <= i < built@.len() ==> (#[trigger] logs_view(built@)[i]).wf(),
                forall|i: int, j: int|
                    0 <= i < j < built@.len() ==> (#[trigger] logs_view(built@)[i]).date != (
                    #[trigger] logs_view(built@)[j]).date,
            decreases snaps.len(),
        {
            let ghost prevlogs = logs_view(built@);
            let ghost pre = snapshots_view(snaps@);
            let snap = snaps.remove(0);
            proof {
                assert(snapshots_view(snaps@) =~= pre.drop_first());
                assert(pre.first() == (str_bytes(snap.0@), entry_recs_view(snap.1@)));
            }
            let d = match parse_date(snap.0.as_str()) {
                Some(d) => d,
                None => {
                    proof {
                        assert(spec_load_snapshots(prevlogs, pre) == Err::<
                            Seq<DailyLogV>,
                            SnapshotFailure,
                        >(SnapshotFailure::BadDate));
                    }
                    return Err(TrackerError::InvalidDate);
                },
            };
            if find_log_in(&built, d).is_some() {
                proof {
                    assert(spec_load_snapshots(prevlogs, pre) == Err::<
                        Seq<DailyLogV>,
                        SnapshotFailure,
                    >(SnapshotFailure::Corrupt));
                }
                return Err(TrackerError::InconsistentState);
            }
            match check_entries(&snap.1) {
                None => {
                    proof {
                        assert(spec_load_snapshots(prevlogs, pre) == Err::<
                            Seq<DailyLogV>,
                            SnapshotFailure,
                        >(SnapshotFailure::Corrupt));
                    }
                    return Err(TrackerError::InconsistentState);
                },
                Some(list) => {
                    let log = DailyLog { date: d, entries: list, undo_stack: Vec::new() };
                    let ghost lv = log@;
                    let ghost prevvec = built@;
                    built.push(log);
                    proof {
                        lemma_logs_view_push(prevvec, built@.last());
                        assert(lv.undo =~= Seq::<crate::daily_log::UndoActionV>::empty());
                        assert(lv =~= (DailyLogV {
                            date: d,
                            entries: entry_recs_view(snap.1@),
                            undo: Seq::empty(),
                        }));
                        assert(logs_view(built@) =~= prevlogs.push(lv));
                        lemma_first_index(log_dates(prevlogs), d);
                        assert forall|a: int, b: int|
                            0 <= a < b < built@.len() implies (
                        #[trigger] logs_view(built@)[a]).date != (
                        #[trigger] logs_view(built@)[b]).date by {
                            if b < prevlogs.len() {
                                assert(logs_view(built@)[a] == prevlogs[a]);
                                assert(logs_view(built@)[b] == prevlogs[b]);
                            } else {
                                assert(logs_view(built@)[b] == lv);
                                assert(logs_view(built@)[a] == prevlogs[a]);
                                assert(log_dates(prevlogs)[a] == prevlogs[a].date);
                            }
                        }
                    }
                },
            }
        }
        proof {
            assert(snapshots_view(snaps@) =~= Seq::<
                (Seq<u8>, Seq<crate::daily_log::LogEntryV>),
            >::empty());
        }
        self.daily_logs = built;
        proof {
            assert(self@ =~= (FoodLogV {
                logs: logs_view(self.daily_logs@),
                ..old(self)@
            }));
        }
        Ok(())
    }

    /// The index of the log for this date, if one exists.
    fn find_log(&self, d: Date) -> (r: Option<usize>)
        ensures
            r matches Some(i) ==> i < self.daily_logs.len() && log_index(self@.logs, d) == i as int,
            r is None ==> !has_log(self@.logs, d),
    {
        let ghost ds = log_dates(self@.logs);
        let mut i: usize = 0;
        while i < self.daily_logs.len()
            invariant
                i <= self.daily_logs.len(),
                ds == log_dates(self@.logs),
                ds.len() == self.daily_logs.len(),
                forall|j: int| 0 <= j < i ==> ds[j] != d,
            decreases self.daily_logs.len() - i,
        {
            if self.daily_logs[i].date == d {
                proof {
                    assert(ds[i as int] == d);
                    lemma_first_index(ds, d);
                }
                return Some(i);
            }
            proof {
                assert(ds[i as int] == self@.logs[i as int].date);
            }
            i += 1;
        }
        proof {
            lemma_first_index(ds, d);
        }
        None
    }

    /// Change the active date. The string must spell a real calendar date
    /// in `YYYY-MM-DD` form, else `InvalidDate`; an empty log is created
    /// for the date if none exists yet, whether past or future.
    pub fn set_current_date(&mut self, date: &str) -> (r: Result<(), TrackerError>)
        requires
            old(self)@.wf(),
        ensures
            final(self)@.wf(),
            spec_parse_date(date.spec_bytes()) is None ==> (r matches Err(e) && e is InvalidDate
                && final(self)@ == old(self)@),
            spec_parse_date(date.spec_bytes()) matches Some(d) ==> (r is Ok && final(self)@.current
                == d && final(self)@.user_name == old(self)@.user_name && (if has_log(
                old(self)@.logs,
                d,
            ) {
                final(self)@.logs == old(self)@.logs
            } else {
                final(self)@.logs == old(self)@.logs.push(empty_log(d))
            })),
    {
        match parse_date(date) {
            None => Err(TrackerError::InvalidDate),
            Some(d) => {
                self.current_date = d;
                match self.find_log(d) {
                    Some(_) => Ok(()),
                    None => {
                        let ghost olds = self.daily_logs@;
                        let log = DailyLog::new(d);
                        let ghost lv = log@;
                        self.daily_logs.push(log);
                        proof {
                            lemma_logs_view_push(olds, self.daily_logs@.last());
                            assert(logs_view(olds) == old(self)@.logs);
                            assert(lv =~= empty_log(d));
                            assert(self@.logs =~= old(self)@.logs.push(empty_log(d)));
                            lemma_first_index(log_dates(old(self)@.logs), d);
                            let newl = self@.logs;
                            assert forall|a: int, b: int|
                                0 <= a < b < newl.len() implies (#[trigger] newl[a]).date != (
                            #[trigger] newl[b]).date by {
                                if b < old(self)@.logs.len() {
                                    assert(newl[a] == old(self)@.logs[a]);
                                    assert(newl[b] == old(self)@.logs[b]);
                                } else {
                                    assert(newl[b] == empty_log(d));
                                    assert(newl[a] == old(self)@.logs[a]);
                                    assert(log_dates(old(self)@.logs)[a] == old(
                                        self,
                                    )@.logs[a].date);
                                }
                            }
                        }
                        Ok(())
                    },
                }
            },
        }
    }

    /// Log servings of an atomic food on the active date, creating the
    /// date's log if needed. Requires a positive serving count; always
    /// succeeds.
    pub fn add_food_entry(&mut self, food: &BasicFood, servings: u64) -> (r: Result<
        (),
        TrackerError,
    >)
        requires
            old(self)@.wf(),
            servings >= 1,
        ensures
            final(self)@.wf(),
            r is Ok,
            final(self)@ == spec_store_add(
                old(self)@,
                food@.identifier,
                servings as int,
                food@.calories_per_serving,
            ),
    {
        let ghost oldv = self@;
        match self.find_log(self.current_date) {
            Some(i) => {
                let ghost olds = self.daily_logs@;
                let mut log = self.daily_logs.remove(i);
                log.add_entry(food, servings);
                self.daily_logs.insert(i, log);
                proof {
                    lemma_logs_view_remove_insert(olds, i as int, self.daily_logs@[i as int]);
                    assert(self@ =~= spec_store_add(
                        oldv,
                        food@.identifier,
                        servings as int,
                        food@.calories_per_serving,
                    ));
                    assert forall|a: int, b: int|
                        0 <= a < b < self@.logs.len() implies (#[trigger] self@.logs[a]).date != (
                    #[trigger] self@.logs[b]).date by {
                        assert(self@.logs[a].date == oldv.logs[a].date);
                        assert(self@.logs[b].date == oldv.logs[b].date);
                    }
                }
                Ok(())
            },
            None => {
                let mut log = DailyLog::new(self.current_date);
                log.add_entry(food, servings);
                let ghost olds = self.daily_logs@;
                let ghost lv = log@;
                self.daily_logs.push(log);
                proof {
                    lemma_logs_view_push(olds, self.daily_logs@.last());
                    assert(lv == spec_add_entry(
                        empty_log(oldv.current),
                        food@.identifier,
                        servings as int,
                        food@.calories_per_serving,
                    ));
                    assert(self@ =~= spec_store_add(
                        oldv,
                        food@.identifier,
                        servings as int,
                        food@.calories_per_serving,
                    ));
                    lemma_first_index(log_dates(oldv.logs), oldv.current);
                    assert(lv.date == oldv.current);
                    assert forall|a: int, b: int|
                        0 <= a < b < self@.logs.len() implies (#[trigger] self@.logs[a]).date != (
                    #[trigger] self@.logs[b]).date by {
                        if b < oldv.logs.len() {
                            assert(self@.logs[a] == oldv.logs[a]);
                            assert(self@.logs[b] == oldv.logs[b]);
                        } else {
                            assert(self@.logs[b] == lv);
                            assert(self@.logs[a] == oldv.logs[a]);
                            assert(log_dates(oldv.logs)[a] == oldv.logs[a].date);
                        }
                    }
                }
                Ok(())
            },
        }
    }

    /// Remove the entry for a food from the active date's log. Fails with
    /// `NoLogForDate` when the active date has no log yet, and with
    /// `NotFound` when the log has no entry for the identifier.
    pub fn remove_food_entry(&mut self, food_id: &str) -> (r: Result<(), TrackerError>)
        requires
            old(self)@.wf(),
        ensures
            final(self)@.wf(),
            !has_log(old(self)@.logs, old(self)@.current) ==> (r matches Err(e)
                && e is NoLogForDate && final(self)@ == old(self)@),
            has_log(old(self)@.logs, old(self)@.current) ==> {
                let i = log_index(old(self)@.logs, old(self)@.current);
                let l = old(self)@.logs[i];
                if has_entry(l.entries, food_id@) {
                    r is Ok && final(self)@ == (FoodLogV {
                        logs: old(self)@.logs.update(i, spec_remove_entry(l, food_id@)),
                        ..old(self)@
                    })
                } else {
                    r matches Err(e) && e is NotFound && final(self)@ == old(self)@
                }
            },
    {
        let ghost oldv = self@;
        match self.find_log(self.current_date) {
            Some(i) => {
                let ghost olds = self.daily_logs@;
                let mut log = self.daily_logs.remove(i);
                let res = log.remove_entry(food_id);
                self.daily_logs.insert(i, log);
                proof {
                    lemma_logs_view_remove_insert(olds, i as int, self.daily_logs@[i as int]);
                    assert(logs_view(olds).update(i as int, oldv.logs[i as int]) =~= oldv.logs);
                    if has_entry(oldv.logs[i as int].entries, food_id@) {
                        assert(self@ =~= (FoodLogV {
                            logs: oldv.logs.update(
                                i as int,
                                spec_remove_entry(oldv.logs[i as int], food_id@),
                            ),
                            ..oldv
                        }));
                    } else {
                        assert(self@ =~= oldv);
                    }
                    assert forall|a: int, b: int|
                        0 <= a < b < self@.logs.len() implies (#[trigger] self@.logs[a]).date != (
                    #[trigger] self@.logs[b]).date by {
                        assert(self@.logs[a].date == oldv.logs[a].date);
                        assert(self@.logs[b].date == oldv.logs[b].date);
                    }
                }
                res
            },
            None => Err(TrackerError::NoLogForDate),
        }
    }

    /// Undo the most recent action on the active date's log. Fails with
    /// `NoLogForDate` when the active date has no log; otherwise behaves
    /// as the daily log's own undo.
    pub fn undo(&mut self) -> (r: Result<(), TrackerError>)
        requires
            old(self)@.wf(),
        ensures
            final(self)@.wf(),
            !has_log(old(self)@.logs, old(self)@.current) ==> (r matches Err(e)
                && e is NoLogForDate && final(self)@ == old(self)@),
            has_log(old(self)@.logs, old(self)@.current) ==> {
                let i = log_index(old(self)@.logs, old(self)@.current);
                let l = old(self)@.logs[i];
                if l.undo.len() == 0 {
                    r matches Err(e) && e is NothingToUndo && final(self)@ == old(self)@
                } else if spec_apply_undo(l.entries, l.undo.last()) is Some {
                    r is Ok && final(self)@ == (FoodLogV {
                        logs: old(self)@.logs.update(i, spec_undo(l)),
                        ..old(self)@
                    })
                } else {
                    r matches Err(e) && e is InconsistentState && final(self)@ == (FoodLogV {
                        logs: old(self)@.logs.update(
                            i,
                            DailyLogV { entries: l.entries, undo: l.undo.drop_last(), ..l },
                        ),
                        ..old(self)@
                    })
                }
            },
    {
        let ghost oldv = self@;
        match self.find_log(self.current_date) {
            Some(i) => {
                let ghost olds = self.daily_logs@;
                let mut log = self.daily_logs.remove(i);
                let res = log.undo();
                self.daily_logs.insert(i, log);
                proof {
                    lemma_logs_view_remove_insert(olds, i as int, self.daily_logs@[i as int]);
                    let l = oldv.logs[i as int];
                    if l.undo.len() == 0 {
                        assert(logs_view(olds).update(i as int, l) =~= oldv.logs);
                        assert(self@ =~= oldv);
                    } else if spec_apply_undo(l.entries, l.undo.last()) is Some {
                        assert(self@ =~= (FoodLogV {
                            logs: oldv.logs.update(i as int, spec_undo(l)),
                            ..oldv
                        }));
                    } else {
                        assert(self@ =~= (FoodLogV {
                            logs: oldv.logs.update(
                                i as int,
                                DailyLogV { entries: l.entries, undo: l.undo.drop_last(), ..l },
                            ),
                            ..oldv
                        }));
                    }
                    assert forall|a: int, b: int|
                        0 <= a < b < self@.logs.len() implies (#[trigger] self@.logs[a]).date != (
                    #[trigger] self@.logs[b]).date by {
                        assert(self@.logs[a].date == oldv.logs[a].date);
                        assert(self@.logs[b].date == oldv.logs[b].date);
                    }
                }
                res
            },
            None => Err(TrackerError::NoLogForDate),
        }
    }

    /// The ordered entry list for a date, when the string is a valid date
    /// with a log; absent otherwise.
    pub fn get_entries_for_date(&self, date: &str) -> (r: Option<&Vec<LogEntry>>)
        ensures
            r matches Some(v) ==> (spec_parse_date(date.spec_bytes()) matches Some(d) && has_log(
                self@.logs,
                d,
            ) && crate::daily_log::entries_view(v@) == spec_log_for(self@.logs, d)->Some_0.entries),
            r is None ==> (spec_parse_date(date.spec_bytes()) is None || !has_log(
                self@.logs,
                spec_parse_date(date.spec_bytes())->Some_0,
            )),
    {
        match parse_date(date) {
            None => None,
            Some(d) => {
                match self.find_log(d) {
                    Some(i) => Some(self.daily_logs[i].entries()),
                    None => None,
                }
            },
        }
    }

    /// The active date's log, if it exists yet.
    pub fn get_current_log(&self) -> (r: Option<&DailyLog>)
        ensures
            r matches Some(l) ==> has_log(self@.logs, self@.current) && l@ == spec_log_for(
                self@.logs,
                self@.current,
            )->Some_0,
            r is None ==> !has_log(self@.logs, self@.current),
    {
        match self.find_log(self.current_date) {
            Some(i) => Some(&self.daily_logs[i]),
            None => None,
        }
    }

    /// The saturating calorie total for a date given as a plain value.
    fn calories_for(&self, d: Date) -> (r: u64)
        ensures
            r as int == clamp64(spec_calories_for_date(self@, d)),
    {
        match self.find_log(d) {
            Some(i) => self.daily_logs[i].calculate_total_calories(),
            None => 0,
        }
    }

    /// The calorie total logged under a date string: zero when the string
    /// is not a valid date or the date has no log.
    pub fn calculate_calories_for_date(&self, date: &str) -> (r: u64)
        ensures
            spec_parse_date(date.spec_bytes()) matches Some(d) ==> r as int == clamp64(
                spec_calories_for_date(self@, d),
            ),
            spec_parse_date(date.spec_bytes()) is None ==> r == 0,
    {
        match parse_date(date) {
            None => 0,
            Some(d) => self.calories_for(d),
        }
    }

    /// Every date that has a log, rendered as `YYYY-MM-DD`, in storage
    /// order.
    pub fn get_logged_dates(&self) -> (r: Vec<String>)
        requires
            self@.wf(),
        ensures
            r@.len() == self@.logs.len(),
            forall|i: int|
                0 <= i < r@.len() ==> (#[trigger] r@[i])@ == spec_format_date(self@.logs[i].date),
    {
        let mut out: Vec<String> = Vec::new();
        let mut i: usize = 0;
        while i < self.daily_logs.len()
            invariant
                self@.wf(),
                i <= self.daily_logs.len(),
                self@.logs.len() == self.daily_logs.len(),
                out@.len() == i,
                forall|j: int|
                    0 <= j < i ==> (#[trigger] out@[j])@ == spec_format_date(self@.logs[j].date),
            decreases self.daily_logs.len() - i,
        {
            proof {
                assert(self@.logs[i as int].date == self.daily_logs@[i as int]@.date);
            }
            let s = format_date(&self.daily_logs[i].date);
            out.push(s);
            i += 1;
        }
        out
    }

    /// Compare a date's logged calories to a target: the actual total, the
    /// target, and their signed difference. Absent when the string is not
    /// a valid date or the date has no log.
    pub fn compare_to_target(&self, date: &str, target: u64) -> (r: Option<(u64, u64, i128)>)
        ensures
            r matches Some(t) ==> (spec_parse_date(date.spec_bytes()) matches Some(d) && has_log(
                self@.logs,
                d,
            ) && t.0 as int == clamp64(spec_calories_for_date(self@, d)) && t.1 == target && t.2
                == t.0 as int - target as int),
            r is None ==> (spec_parse_date(date.spec_bytes()) is None || !has_log(
                self@.logs,
                spec_parse_date(date.spec_bytes())->Some_0,
            )),
    {
        match parse_date(date) {
            None => None,
            Some(d) => {
                match self.find_log(d) {
                    Some(i) => {
                        let actual = self.daily_logs[i].calculate_total_calories();
                        let difference: i128 = actual as i128 - target as i128;
                        Some((actual, target, difference))
                    },
                    None => None,
                }
            },
        }
    }
}

/// A per-day summary of the inclusive date range from `start_date` to
/// `end_date`: for each calendar date in ascending order, the calories
/// actually logged (zero for dates without a log), the target, and their
/// signed difference. Fails with `InvalidDate` when either bound is not a
/// real `YYYY-MM-DD` date, and with `InvalidRange` when the start lies
/// after the end.
pub fn get_calorie_summary(
    food_log: &FoodLog,
    start_date: &str,
    end_date: &str,
    target: u64,
) -> (r: Result<Vec<DaySummary>, TrackerError>)
    ensures
        spec_parse_date(start_date.spec_bytes()) is None || spec_parse_date(
            end_date.spec_bytes(),
        ) is None ==> (r matches Err(e) && e is InvalidDate),
        ({
            let s = spec_parse_date(start_date.spec_bytes())->Some_0;
            let e = spec_parse_date(end_date.spec_bytes())->Some_0;
            spec_parse_date(start_date.spec_bytes()) is Some && spec_parse_date(
                end_date.spec_bytes(),
            ) is Some && s.key() > e.key() ==> (r matches Err(er) && er is InvalidRange)
        }),
        ({
            let s = spec_parse_date(start_date.spec_bytes())->Some_0;
            let e = spec_parse_date(end_date.spec_bytes())->Some_0;
            spec_parse_date(start_date.spec_bytes()) is Some && spec_parse_date(
                end_date.spec_bytes(),
            ) is Some && s.key() <= e.key() ==> (r matches Ok(rows) && {
            &&& rows@.len() >= 1
            &&& rows@[0].date == s
            &&& rows@[rows@.len() - 1].date == e
            &&& forall|i: int|
                0 <= i < rows@.len() - 1 ==> (#[trigger] rows@[i + 1]).date == rows@[i].date.spec_next()
            &&& forall|i: int|
                0 <= i < rows@.len() - 1 ==> (#[trigger] rows@[i]).date.key() < rows@[i + 1].date.key()
            &&& forall|i: int|
                0 <= i < rows@.len() ==> {
                    let row = #[trigger] rows@[i];
                    &&& row.date.wf()
                    &&& row.actual as int == clamp64(spec_calories_for_date(food_log@, row.date))
                    &&& row.target == target
                    &&& row.difference == row.actual as int - target as int
                }
            })
        }),
{
    let start = match parse_date(start_date) {
        Some(d) => d,
        None => {
            return Err(TrackerError::InvalidDate);
        },
    };
    let end = match parse_date(end_date) {
        Some(d) => d,
        None => {
            return Err(TrackerError::InvalidDate);
        },
    };
    if !crate::date::date_le(&start, &end) {
        return Err(TrackerError::InvalidRange);
    }
    let mut rows: Vec<DaySummary> = Vec::new();
    let mut cur = start;
    while cur != end
        invariant
            start.wf(),
            end.wf(),
            cur.wf(),
            cur.key() <= end.key(),
            rows@.len() == 0 ==> cur == start,
            rows@.len() > 0 ==> rows@[0].date == start && rows@[rows@.len() - 1].date.spec_next()
                == cur && rows@[rows@.len() - 1].date.key() < cur.key(),
            forall|i: int|
                0 <= i < rows@.len() - 1 ==> (#[trigger] rows@[i + 1]).date == rows@[i].date.spec_next(),
            forall|i: int|
                0 <= i < rows@.len() - 1 ==> (#[trigger] rows@[i]).date.key() < rows@[i + 1].date.key(),
            forall|i: int|
                0 <= i < rows@.len() ==> {
                    let row = #[trigger] rows@[i];
                    &&& row.date.wf()
                    &&& row.actual as int == clamp64(spec_calories_for_date(food_log@, row.date))
                    &&& row.target == target
                    &&& row.difference == row.actual as int - target as int
                },
        decreases end.key() - cur.key(),
    {
        proof {
            if cur.key() == end.key() {
                lemma_key_injective(cur, end);
            }
        }
        let actual = food_log.calories_for(cur);
        let difference: i128 = actual as i128 - target as i128;
        rows.push(DaySummary { date: cur, actual, target, difference });
        proof {
            lemma_next_minimal(cur, end);
        }
        cur = next_date(&cur);
    }
    let actual = food_log.calories_for(cur);
    let difference: i128 = actual as i128 - target as i128;
    rows.push(DaySummary { date: cur, actual, target, difference });
    Ok(rows)
}

} // verus!

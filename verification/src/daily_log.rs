//! One calendar day's consumption log: an ordered list of entries, unique
//! by food identifier, and an undo stack of reversible actions. Every
//! mutation pushes the inverse action; `undo` pops one and applies it.

use vstd::prelude::*;
use crate::date::Date;
use crate::error::TrackerError;
use crate::food_database::BasicFood;
use crate::num::{clamp64, sat_add, sat_mul};
use crate::util::{first_index, lemma_first_index};

verus! {

/// A logged consumption: a food identifier, a serving count, and the
/// calorie rate snapshotted at insertion time, so later catalog edits do
/// not retroactively change historical totals.
#[derive(Debug)]
pub struct LogEntry {
    pub food_id: String,
    pub servings: u64,
    pub calories: u64,
}

#[verifier::ext_equal]
pub ghost struct LogEntryV {
    pub food_id: Seq<char>,
    pub servings: int,
    pub calories: int,
}

impl View for LogEntry {
    type V = LogEntryV;

    open spec fn view(&self) -> LogEntryV {
        LogEntryV {
            food_id: self.food_id@,
            servings: self.servings as int,
            calories: self.calories as int,
        }
    }
}

/// The recorded inverse of one mutation. `MergedAdd` carries the servings
/// an entry had before an add (zero meaning the entry was newly created);
/// `Removed` carries the full removed entry so it can be restored.
#[derive(Debug)]
pub enum UndoAction {
    MergedAdd(String, u64),
    Removed(LogEntry),
}

#[verifier::ext_equal]
pub ghost enum UndoActionV {
    MergedAdd(Seq<char>, int),
    Removed(LogEntryV),
}

impl View for UndoAction {
    type V = UndoActionV;

    open spec fn view(&self) -> UndoActionV {
        match self {
            UndoAction::MergedAdd(id, prev) => UndoActionV::MergedAdd(id@, *prev as int),
            UndoAction::Removed(e) => UndoActionV::Removed(e@),
        }
    }
}

pub open spec fn entries_view(s: Seq<LogEntry>) -> Seq<LogEntryV> {
    s.map_values(|e: LogEntry| e@)
}

pub open spec fn actions_view(s: Seq<UndoAction>) -> Seq<UndoActionV> {
    s.map_values(|a: UndoAction| a@)
}

pub open spec fn entry_ids(s: Seq<LogEntryV>) -> Seq<Seq<char>> {
    s.map_values(|e: LogEntryV| e.food_id)
}

pub open spec fn has_entry(s: Seq<LogEntryV>, id: Seq<char>) -> bool {
    first_index(entry_ids(s), id) != -1
}

/// The index of the entry for `id`; meaningful only when `has_entry` holds.
pub open spec fn entry_index(s: Seq<LogEntryV>, id: Seq<char>) -> int {
    first_index(entry_ids(s), id)
}

/// Entry-list invariant: entries are unique by food identifier, servings
/// are positive, and both numeric fields fit the u64 range.
pub open spec fn entries_ok(s: Seq<LogEntryV>) -> bool {
    &&& forall|i: int, j: int|
        0 <= i < j < s.len() ==> (#[trigger] s[i]).food_id != (#[trigger] s[j]).food_id
    &&& forall|i: int|
        0 <= i < s.len() ==> 1 <= (#[trigger] s[i]).servings <= u64::MAX && 0 <= s[i].calories
            <= u64::MAX
}

/// Undo-stack invariant: every recorded value fits the u64 range, and a
/// recorded removed entry has positive servings.
pub open spec fn stack_ok(s: Seq<UndoActionV>) -> bool {
    forall|i: int|
        0 <= i < s.len() ==> match #[trigger] s[i] {
            UndoActionV::MergedAdd(_, prev) => 0 <= prev <= u64::MAX,
            UndoActionV::Removed(e) => 1 <= e.servings <= u64::MAX && 0 <= e.calories <= u64::MAX,
        }
}

/// The effect of applying one undo action to an entry list. `None` means
/// the action no longer fits the list: its target vanished, or a removed
/// entry's identifier is present again. Undoing a merged add restores the
/// previous servings, or deletes the entry outright when it was newly
/// created; undoing a removal re-appends the removed entry at the end.
pub open spec fn spec_apply_undo(s: Seq<LogEntryV>, a: UndoActionV) -> Option<Seq<LogEntryV>> {
    match a {
        UndoActionV::MergedAdd(id, prev) => {
            if has_entry(s, id) && 0 <= prev <= u64::MAX {
                let i = entry_index(s, id);
                if prev > 0 {
                    Some(s.update(i, LogEntryV { servings: prev, ..s[i] }))
                } else {
                    Some(s.remove(i))
                }
            } else {
                None
            }
        },
        UndoActionV::Removed(e) => {
            if !has_entry(s, e.food_id) && 1 <= e.servings <= u64::MAX && 0 <= e.calories
                <= u64::MAX {
                Some(s.push(e))
            } else {
                None
            }
        },
    }
}

#[verifier::ext_equal]
pub ghost struct DailyLogV {
    pub date: Date,
    pub entries: Seq<LogEntryV>,
    pub undo: Seq<UndoActionV>,
}

impl DailyLogV {
    pub open spec fn wf(self) -> bool {
        self.date.wf() && entries_ok(self.entries) && stack_ok(self.undo)
    }
}

/// Adding `servings` of a food: an existing entry for the identifier has
/// its servings increased (saturating) and the previous count recorded;
/// otherwise a fresh entry is appended and a zero previous count recorded.
pub open spec fn spec_add_entry(
    log: DailyLogV,
    food_id: Seq<char>,
    servings: int,
    calories: int,
) -> DailyLogV {
    if has_entry(log.entries, food_id) {
        let i = entry_index(log.entries, food_id);
        let e = log.entries[i];
        DailyLogV {
            entries: log.entries.update(
                i,
                LogEntryV { servings: clamp64(e.servings + servings), ..e },
            ),
            undo: log.undo.push(UndoActionV::MergedAdd(food_id, e.servings)),
            ..log
        }
    } else {
        DailyLogV {
            entries: log.entries.push(LogEntryV { food_id, servings, calories }),
            undo: log.undo.push(UndoActionV::MergedAdd(food_id, 0)),
            ..log
        }
    }
}

/// Removing the entry for an identifier, recording the removed entry;
/// meaningful only when `has_entry` holds.
pub open spec fn spec_remove_entry(log: DailyLogV, food_id: Seq<char>) -> DailyLogV {
    let i = entry_index(log.entries, food_id);
    DailyLogV {
        entries: log.entries.remove(i),
        undo: log.undo.push(UndoActionV::Removed(log.entries[i])),
        ..log
    }
}

/// The state after a successful undo: the top action popped and applied;
/// meaningful only when the stack is nonempty and the application succeeds.
pub open spec fn spec_undo(log: DailyLogV) -> DailyLogV {
    DailyLogV {
        entries: spec_apply_undo(log.entries, log.undo.last())->Some_0,
        undo: log.undo.drop_last(),
        ..log
    }
}

/// The exact calorie total of an entry list: the sum of servings times the
/// snapshotted rate over its elements.
pub open spec fn spec_log_calories(s: Seq<LogEntryV>) -> int
    decreases s.len(),
{
    if s.len() == 0 {
        0
    } else {
        spec_log_calories(s.drop_last()) + s.last().servings * s.last().calories
    }
}

pub proof fn lemma_log_calories_nonneg(s: Seq<LogEntryV>)
    requires
        forall|i: int|
            0 <= i < s.len() ==> (#[trigger] s[i]).servings >= 0 && s[i].calories >= 0,
    ensures
        spec_log_calories(s) >= 0,
    decreases s.len(),
{
    if s.len() > 0 {
        lemma_log_calories_nonneg(s.drop_last());
        vstd::arithmetic::mul::lemma_mul_nonnegative(s.last().servings, s.last().calories);
    }
}

proof fn lemma_entries_view_push(s: Seq<LogEntry>, x: LogEntry)
    ensures
        entries_view(s.push(x)) == entries_view(s).push(x@),
{
    assert(entries_view(s.push(x)) =~= entries_view(s).push(x@));
}

proof fn lemma_entries_view_update(s: Seq<LogEntry>, i: int, x: LogEntry)
    requires
        0 <= i < s.len(),
    ensures
        entries_view(s.update(i, x)) == entries_view(s).update(i, x@),
{
    assert(entries_view(s.update(i, x)) =~= entries_view(s).update(i, x@));
}

proof fn lemma_entries_view_remove(s: Seq<LogEntry>, i: int)
    requires
        0 <= i < s.len(),
    ensures
        entries_view(s.remove(i)) == entries_view(s).remove(i),
{
    assert(entries_view(s.remove(i)) =~= entries_view(s).remove(i));
}

proof fn lemma_actions_view_push(s: Seq<UndoAction>, x: UndoAction)
    ensures
        actions_view(s.push(x)) == actions_view(s).push(x@),
{
    assert(actions_view(s.push(x)) =~= actions_view(s).push(x@));
}

proof fn lemma_actions_view_drop_last(s: Seq<UndoAction>)
    requires
        s.len() > 0,
    ensures
        actions_view(s.drop_last()) == actions_view(s).drop_last(),
{
    assert(actions_view(s.drop_last()) =~= actions_view(s).drop_last());
}

/// One calendar day's log.
#[derive(Debug)]
pub struct DailyLog {
    pub date: Date,
    pub entries: Vec<LogEntry>,
    pub undo_stack: Vec<UndoAction>,
}

impl View for DailyLog {
    type V = DailyLogV;

    open spec fn view(&self) -> DailyLogV {
        DailyLogV {
            date: self.date,
            entries: entries_view(self.entries@),
            undo: actions_view(self.undo_stack@),
        }
    }
}

impl DailyLog {
    pub fn new(date: Date) -> (r: Self)
        requires
            date.wf(),
        ensures
            r@ == (DailyLogV { date, entries: Seq::empty(), undo: Seq::empty() }),
            r@.wf(),
    {
        let r = DailyLog { date, entries: Vec::new(), undo_stack: Vec::new() };
        proof {
            assert(r@.entries =~= Seq::<LogEntryV>::empty());
            assert(r@.undo =~= Seq::<UndoActionV>::empty());
            assert(r@ =~= (DailyLogV { date, entries: Seq::empty(), undo: Seq::empty() }));
        }
        r
    }

    pub fn date(&self) -> (r: Date)
        ensures
            r == self@.date,
    {
        self.date
    }

    /// The ordered entry list, read-only.
    pub fn entries(&self) -> (r: &Vec<LogEntry>)
        ensures
            entries_view(r@) == self@.entries,
    {
        &self.entries
    }

    /// How many actions can still be undone.
    pub fn undo_depth(&self) -> (r: usize)
        ensures
            r == self@.undo.len(),
    {
        self.undo_stack.len()
    }

    /// The index of the entry for this identifier, if present.
    fn find_entry(&self, food_id: &str) -> (r: Option<usize>)
        ensures
            r matches Some(i) ==> i < self.entries.len() && entry_index(self@.entries, food_id@)
                == i as int,
            r is None ==> !has_entry(self@.entries, food_id@),
    {
        let key: String = food_id.to_owned();
        let ghost ids = entry_ids(self@.entries);
        let mut i: usize = 0;
        while i < self.entries.len()
            invariant
                i <= self.entries.len(),
                ids == entry_ids(self@.entries),
                ids.len() == self.entries.len(),
                key@ == food_id@,
                forall|j: int| 0 <= j < i ==> ids[j] != food_id@,
            decreases self.entries.len() - i,
        {
            if self.entries[i].food_id == key {
                proof {
                    assert(ids[i as int] == food_id@);
                    lemma_first_index(ids, food_id@);
                }
                return Some(i);
            }
            proof {
                assert(ids[i as int] == self@.entries[i as int].food_id);
            }
            i += 1;
        }
        proof {
            lemma_first_index(ids, food_id@);
        }
        None
    }

    /// Log `servings` of an atomic food. Requires a positive serving count;
    /// always succeeds: an existing entry for the food is merged into,
    /// a missing one is appended, and the inverse action is recorded.
    pub fn add_entry(&mut self, food: &BasicFood, servings: u64)
        requires
            old(self)@.wf(),
            servings >= 1,
        ensures
            final(self)@ == spec_add_entry(
                old(self)@,
                food@.identifier,
                servings as int,
                food@.calories_per_serving,
            ),
            final(self)@.wf(),
    {
        let ghost oldv = self@;
        match self.find_entry(food.identifier.as_str()) {
            Some(i) => {
                let prev = self.entries[i].servings;
                let merged = sat_add(prev, servings);
                let ghost olde = self.entries@;
                let updated = LogEntry {
                    food_id: self.entries[i].food_id.clone(),
                    servings: merged,
                    calories: self.entries[i].calories,
                };
                proof {
                    assert(updated@ =~= (LogEntryV {
                        servings: clamp64(oldv.entries[i as int].servings + servings),
                        ..oldv.entries[i as int]
                    }));
                }
                self.entries.set(i, updated);
                let ghost olda = self.undo_stack@;
                self.undo_stack.push(UndoAction::MergedAdd(food.identifier.clone(), prev));
                proof {
                    lemma_entries_view_update(olde, i as int, self.entries@[i as int]);
                    lemma_actions_view_push(olda, self.undo_stack@.last());
                    assert(self.undo_stack@.last()@ == UndoActionV::MergedAdd(
                        food@.identifier,
                        oldv.entries[i as int].servings,
                    ));
                    assert(self@ =~= spec_add_entry(
                        oldv,
                        food@.identifier,
                        servings as int,
                        food@.calories_per_serving,
                    ));
                    assert(entry_ids(self@.entries) =~= entry_ids(oldv.entries));
                }
            },
            None => {
                let entry = LogEntry {
                    food_id: food.identifier.clone(),
                    servings,
                    calories: food.calories_per_serving,
                };
                let ghost olde = self.entries@;
                let ghost ev = entry@;
                self.entries.push(entry);
                let ghost olda = self.undo_stack@;
                self.undo_stack.push(UndoAction::MergedAdd(food.identifier.clone(), 0));
                proof {
                    lemma_entries_view_push(olde, self.entries@.last());
                    lemma_actions_view_push(olda, self.undo_stack@.last());
                    assert(ev == (LogEntryV {
                        food_id: food@.identifier,
                        servings: servings as int,
                        calories: food@.calories_per_serving,
                    }));
                    assert(self@ =~= spec_add_entry(
                        oldv,
                        food@.identifier,
                        servings as int,
                        food@.calories_per_serving,
                    ));
                    lemma_first_index(entry_ids(oldv.entries), food@.identifier);
                    assert forall|a: int, b: int|
                        0 <= a < b < self@.entries.len() implies (
                    #[trigger] self@.entries[a]).food_id != (
                    #[trigger] self@.entries[b]).food_id by {
                        if b < oldv.entries.len() {
                            assert(self@.entries[a] == oldv.entries[a]);
                            assert(self@.entries[b] == oldv.entries[b]);
                        } else {
                            assert(self@.entries[b] == ev);
                            assert(self@.entries[a] == oldv.entries[a]);
                            assert(entry_ids(oldv.entries)[a] == oldv.entries[a].food_id);
                        }
                    }
                }
            },
        }
    }

    /// Remove the entry for this identifier, recording it for undo. Fails
    /// with `NotFound` when no entry matches; succeeds exactly when one does.
    pub fn remove_entry(&mut self, food_id: &str) -> (r: Result<(), TrackerError>)
        requires
            old(self)@.wf(),
        ensures
            final(self)@.wf(),
            has_entry(old(self)@.entries, food_id@) ==> (r is Ok && final(self)@
                == spec_remove_entry(old(self)@, food_id@)),
            !has_entry(old(self)@.entries, food_id@) ==> (r matches Err(e) && e is NotFound
                && final(self)@ == old(self)@),
    {
        let ghost oldv = self@;
        match self.find_entry(food_id) {
            Some(i) => {
                let ghost olde = self.entries@;
                let removed = self.entries.remove(i);
                let ghost olda = self.undo_stack@;
                self.undo_stack.push(UndoAction::Removed(removed));
                proof {
                    lemma_entries_view_remove(olde, i as int);
                    lemma_actions_view_push(olda, self.undo_stack@.last());
                    assert(self.undo_stack@.last()@ == UndoActionV::Removed(
                        oldv.entries[i as int],
                    ));
                    assert(self@ =~= spec_remove_entry(oldv, food_id@));
                    lemma_entries_ok_remove(oldv.entries, i as int);
                }
                Ok(())
            },
            None => Err(TrackerError::NotFound),
        }
    }

    /// Pop the most recent recorded action and apply its inverse. Fails
    /// with `NothingToUndo` on an empty stack; fails with
    /// `InconsistentState`, the action staying popped and the entries
    /// untouched, when the popped action no longer fits the entry list
    /// (its target vanished, or a removed entry's identifier is present
    /// again) — which signals a corrupted log.
    pub fn undo(&mut self) -> (r: Result<(), TrackerError>)
        requires
            old(self)@.wf(),
        ensures
            final(self)@.wf(),
            old(self)@.undo.len() == 0 ==> (r matches Err(e) && e is NothingToUndo && final(self)@
                == old(self)@),
            old(self)@.undo.len() > 0 && spec_apply_undo(
                old(self)@.entries,
                old(self)@.undo.last(),
            ) is Some ==> (r is Ok && final(self)@ == spec_undo(old(self)@)),
            old(self)@.undo.len() > 0 && spec_apply_undo(
                old(self)@.entries,
                old(self)@.undo.last(),
            ) is None ==> (r matches Err(e) && e is InconsistentState && final(self)@
                == (DailyLogV {
                entries: old(self)@.entries,
                undo: old(self)@.undo.drop_last(),
                ..old(self)@
            })),
    {
        let ghost oldv = self@;
        let ghost olds = self.undo_stack@;
        match self.undo_stack.pop() {
            None => {
                proof {
                    assert(oldv.undo =~= actions_view(olds));
                    assert(self@ =~= oldv);
                }
                Err(TrackerError::NothingToUndo)
            },
            Some(action) => {
                proof {
                    assert(self.undo_stack@ =~= olds.drop_last());
                    lemma_actions_view_drop_last(olds);
                    assert(action@ == oldv.undo.last());
                }
                match action {
                    UndoAction::MergedAdd(id, prev) => {
                        match self.find_entry(id.as_str()) {
                            Some(i) => {
                                if prev > 0 {
                                    let ghost olde = self.entries@;
                                    let restored = LogEntry {
                                        food_id: self.entries[i].food_id.clone(),
                                        servings: prev,
                                        calories: self.entries[i].calories,
                                    };
                                    self.entries.set(i, restored);
                                    proof {
                                        lemma_entries_view_update(
                                            olde,
                                            i as int,
                                            self.entries@[i as int],
                                        );
                                        assert(self.entries@[i as int]@ =~= (LogEntryV {
                                            servings: prev as int,
                                            ..oldv.entries[i as int]
                                        }));
                                        assert(self@ =~= spec_undo(oldv));
                                        assert(entry_ids(self@.entries) =~= entry_ids(
                                            oldv.entries,
                                        ));
                                    }
                                    Ok(())
                                } else {
                                    let ghost olde = self.entries@;
                                    let _ = self.entries.remove(i);
                                    proof {
                                        lemma_entries_view_remove(olde, i as int);
                                        assert(self@ =~= spec_undo(oldv));
                                        lemma_entries_ok_remove(oldv.entries, i as int);
                                    }
                                    Ok(())
                                }
                            },
                            None => Err(TrackerError::InconsistentState),
                        }
                    },
                    UndoAction::Removed(entry) => {
                        match self.find_entry(entry.food_id.as_str()) {
                            Some(_) => Err(TrackerError::InconsistentState),
                            None => {
                                let ghost olde = self.entries@;
                                let ghost ev = entry@;
                                proof {
                                    assert(oldv.undo.last() == UndoActionV::Removed(ev));
                                    assert(stack_ok(oldv.undo));
                                    assert(1 <= ev.servings <= u64::MAX && 0 <= ev.calories
                                        <= u64::MAX);
                                }
                                self.entries.push(entry);
                                proof {
                                    lemma_entries_view_push(olde, self.entries@.last());
                                    assert(self@ =~= spec_undo(oldv));
                                    lemma_first_index(entry_ids(oldv.entries), ev.food_id);
                                    assert forall|a: int, b: int|
                                        0 <= a < b < self@.entries.len() implies (
                                    #[trigger] self@.entries[a]).food_id != (
                                    #[trigger] self@.entries[b]).food_id by {
                                        if b < oldv.entries.len() {
                                            assert(self@.entries[a] == oldv.entries[a]);
                                            assert(self@.entries[b] == oldv.entries[b]);
                                        } else {
                                            assert(self@.entries[b] == ev);
                                            assert(self@.entries[a] == oldv.entries[a]);
                                            assert(entry_ids(oldv.entries)[a]
                                                == oldv.entries[a].food_id);
                                        }
                                    }
                                }
                                Ok(())
                            },
                        }
                    },
                }
            },
        }
    }

    /// The calorie total of this day: the sum of servings times the
    /// snapshotted rate over all entries, saturating at the u64 range.
    pub fn calculate_total_calories(&self) -> (r: u64)
        ensures
            r as int == clamp64(spec_log_calories(self@.entries)),
    {
        let ghost all = self@.entries;
        let mut total: u64 = 0;
        let mut i: usize = 0;
        while i < self.entries.len()
            invariant
                i <= self.entries.len(),
                all == self@.entries,
                all.len() == self.entries.len(),
                total as int == clamp64(spec_log_calories(all.take(i as int))),
            decreases self.entries.len() - i,
        {
            let e = &self.entries[i];
            let prod = sat_mul(e.servings, e.calories);
            proof {
                let pre = all.take(i as int);
                assert(all.take(i as int + 1).drop_last() =~= pre);
                assert(all.take(i as int + 1).last() == all[i as int]);
                assert(all[i as int] == self.entries@[i as int]@);
                assert forall|j: int|
                    0 <= j < pre.len() implies (#[trigger] pre[j]).servings >= 0
                        && pre[j].calories >= 0 by {
                    assert(pre[j] == all[j]);
                    assert(all[j] == self.entries@[j]@);
                }
                lemma_log_calories_nonneg(pre);
                vstd::arithmetic::mul::lemma_mul_nonnegative(
                    all[i as int].servings,
                    all[i as int].calories,
                );
                crate::num::lemma_clamp_add(
                    spec_log_calories(pre),
                    all[i as int].servings * all[i as int].calories,
                );
            }
            total = sat_add(total, prod);
            i += 1;
        }
        proof {
            assert(all.take(self.entries.len() as int) =~= all);
        }
        total
    }
}

/// Removing an element keeps an entry list well-formed.
proof fn lemma_entries_ok_remove(s: Seq<LogEntryV>, i: int)
    requires
        entries_ok(s),
        0 <= i < s.len(),
    ensures
        entries_ok(s.remove(i)),
{
    let s2 = s.remove(i);
    assert forall|a: int, b: int|
        0 <= a < b < s2.len() implies (#[trigger] s2[a]).food_id != (
    #[trigger] s2[b]).food_id by {
        if b < i {
            assert(s2[a] == s[a]);
            assert(s2[b] == s[b]);
        } else if a < i {
            assert(s2[a] == s[a]);
            assert(s2[b] == s[b + 1]);
        } else {
            assert(s2[a] == s[a + 1]);
            assert(s2[b] == s[b + 1]);
        }
    }
    assert forall|k: int|
        0 <= k < s2.len() implies 1 <= (#[trigger] s2[k]).servings <= u64::MAX && 0
            <= s2[k].calories <= u64::MAX by {
        if k < i {
            assert(s2[k] == s[k]);
        } else {
            assert(s2[k] == s[k + 1]);
        }
    }
}

/// In a well-formed entry list, removing the entry for an identifier
/// leaves that identifier absent.
proof fn lemma_remove_unique_absent(s: Seq<LogEntryV>, i: int)
    requires
        entries_ok(s),
        0 <= i < s.len(),
    ensures
        !has_entry(s.remove(i), s[i].food_id),
{
    let s2 = s.remove(i);
    assert forall|j: int| 0 <= j < s2.len() implies entry_ids(s2)[j] != s[i].food_id by {
        if j < i {
            assert(s2[j] == s[j]);
        } else {
            assert(s2[j] == s[j + 1]);
        }
    }
    lemma_first_index(entry_ids(s2), s[i].food_id);
}

/// Undo inverts add: logging servings of a food and undoing at once
/// restores the log exactly — servings, entry presence and undo stack —
/// both when the entry already existed and when it was newly created.
pub proof fn lemma_add_then_undo(log: DailyLogV, food_id: Seq<char>, servings: int, calories: int)
    requires
        log.wf(),
        1 <= servings <= u64::MAX,
        0 <= calories <= u64::MAX,
    ensures
        ({
            let l1 = spec_add_entry(log, food_id, servings, calories);
            l1.undo.len() > 0 && spec_apply_undo(l1.entries, l1.undo.last()) is Some && spec_undo(
                l1,
            ) == log
        }),
{
    let l1 = spec_add_entry(log, food_id, servings, calories);
    lemma_first_index(entry_ids(log.entries), food_id);
    if has_entry(log.entries, food_id) {
        let i = entry_index(log.entries, food_id);
        assert(entry_ids(l1.entries) =~= entry_ids(log.entries));
        assert(has_entry(l1.entries, food_id));
        assert(entry_index(l1.entries, food_id) == i);
        let prev = log.entries[i].servings;
        assert(1 <= prev <= u64::MAX);
        let back = spec_apply_undo(l1.entries, l1.undo.last())->Some_0;
        assert(l1.entries[i] == (LogEntryV {
            servings: clamp64(log.entries[i].servings + servings),
            ..log.entries[i]
        }));
        assert((LogEntryV { servings: prev, ..l1.entries[i] }) =~= log.entries[i]);
        assert(back =~= log.entries);
        assert(l1.undo.drop_last() =~= log.undo);
        assert(spec_undo(l1) =~= log);
    } else {
        let n = log.entries.len() as int;
        assert(l1.entries[n].food_id == food_id);
        lemma_first_index(entry_ids(l1.entries), food_id);
        assert(entry_ids(l1.entries)[n] == food_id);
        assert(has_entry(l1.entries, food_id));
        let r = entry_index(l1.entries, food_id);
        assert forall|j: int| 0 <= j < n implies entry_ids(l1.entries)[j] != food_id by {
            assert(l1.entries[j] == log.entries[j]);
            assert(entry_ids(log.entries)[j] == log.entries[j].food_id);
        }
        assert(r == n);
        let back = spec_apply_undo(l1.entries, l1.undo.last())->Some_0;
        assert(back =~= log.entries);
        assert(l1.undo.drop_last() =~= log.undo);
        assert(spec_undo(l1) =~= log);
    }
}

/// Undo inverts removal: removing an entry and undoing at once restores
/// the removed entry with its original servings and calorie rate, the
/// undo stack returning to its prior state. The entry is re-appended at
/// the end; the relative order of the other entries is preserved.
pub proof fn lemma_remove_then_undo(log: DailyLogV, food_id: Seq<char>)
    requires
        log.wf(),
        has_entry(log.entries, food_id),
    ensures
        ({
            let i = entry_index(log.entries, food_id);
            let l1 = spec_remove_entry(log, food_id);
            l1.undo.len() > 0 && spec_apply_undo(l1.entries, l1.undo.last()) is Some && spec_undo(
                l1,
            ) == (DailyLogV {
                entries: log.entries.remove(i).push(log.entries[i]),
                undo: log.undo,
                ..log
            })
        }),
{
    lemma_first_index(entry_ids(log.entries), food_id);
    let i = entry_index(log.entries, food_id);
    assert(entry_ids(log.entries)[i] == log.entries[i].food_id);
    assert(log.entries[i].food_id == food_id);
    let l1 = spec_remove_entry(log, food_id);
    lemma_remove_unique_absent(log.entries, i);
    assert(1 <= log.entries[i].servings <= u64::MAX && 0 <= log.entries[i].calories <= u64::MAX);
    assert(spec_apply_undo(l1.entries, l1.undo.last()) is Some);
    assert(l1.undo.drop_last() =~= log.undo);
    assert(spec_undo(l1) =~= (DailyLogV {
        entries: log.entries.remove(i).push(log.entries[i]),
        undo: log.undo,
        ..log
    }));
}

} // verus!

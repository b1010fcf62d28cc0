//! Undoable log operations: recording a consumption, and deleting one
//! while remembering it for restoration.

use vstd::prelude::*;
use vstd::string::*;

use crate::command::{Command, CommandType};
use crate::datastore::Datastore;
use crate::date::{Date, Timestamp};
use crate::food::id_ok;
use crate::log::{last_match, wf_entry_model, wf_log_model, DailyLogModel, FoodEntry, FoodEntryModel};
use crate::log_repository::{add_entry_spec, log_index};
use crate::text::{amount_digits, dec_digits, push_amount, push_usize};

verus! {

/// Records a consumption under a date; undone by removing the most
/// recent entry for the same food.
pub struct AddLogEntryCommand {
    pub date: Date,
    pub food_id: String,
    /// Servings in hundredths.
    pub servings: u32,
    pub executed: bool,
}

impl AddLogEntryCommand {
    pub open spec fn valid_spec(&self) -> bool {
        self.date.wf() && id_ok(self.food_id@)
    }

    pub fn new(date: Date, food_id: String, servings: u32) -> (r: AddLogEntryCommand)
        ensures
            r.date == date,
            r.food_id@ == food_id@,
            r.servings == servings,
            !r.executed,
    {
        AddLogEntryCommand { date, food_id, servings, executed: false }
    }

    /// Appends the entry, stamped with the current time.
    pub fn run(&mut self, data: &mut Datastore) -> (r: Result<(), String>)
        requires
            old(self).valid_spec(),
            old(data).wf(),
        ensures
            final(self).valid_spec(),
            final(data).wf(),
            final(self).date == old(self).date,
            final(self).food_id@ == old(self).food_id@,
            final(self).servings == old(self).servings,
            final(data).foods == old(data).foods,
            final(data).profile == old(data).profile,
            r is Ok,
            final(self).executed,
            exists|ts: Timestamp|
                ts.wf() && final(data).logs.models() =~= add_entry_spec(
                    old(data).logs.models(),
                    old(self).date,
                    (FoodEntryModel {
                        food_id: old(self).food_id@,
                        servings: old(self).servings,
                        timestamp: ts,
                    }),
                ),
    {
        data.logs.add_entry(self.date, self.food_id.clone(), self.servings);
        self.executed = true;
        Ok(())
    }

    /// Removes the most recent entry naming this food on this date;
    /// fails only when the command never ran.
    pub fn revert(&mut self, data: &mut Datastore) -> (r: Result<(), String>)
        requires
            old(self).valid_spec(),
            old(data).wf(),
        ensures
            final(self).valid_spec(),
            final(data).wf(),
            final(self).date == old(self).date,
            final(self).food_id@ == old(self).food_id@,
            final(self).servings == old(self).servings,
            final(data).foods == old(data).foods,
            final(data).profile == old(data).profile,
            !old(self).executed ==> r is Err && final(data).logs.models() =~= old(data).logs.models() && r.unwrap_err()@ == "Command was not executed"@,
            old(self).executed ==> r is Ok && !final(self).executed && ({
                let li = log_index(old(data).logs.models(), old(self).date);
                if li < old(data).logs.models().len() {
                    let k = last_match(
                        old(data).logs.models()[li].entries,
                        old(self).food_id@,
                    );
                    if k >= 0 {
                        final(data).logs.models() =~= old(data).logs.models().update(
                            li,
                            (DailyLogModel {
                                date: old(data).logs.models()[li].date,
                                entries: old(data).logs.models()[li].entries.remove(k),
                            }),
                        )
                    } else {
                        final(data).logs.models() =~= old(data).logs.models()
                    }
                } else {
                    final(data).logs.models() =~= old(data).logs.models()
                }
            }),
    {
        if !self.executed {
            return Err(String::from_str("Command was not executed"));
        }
        data.logs.remove_last_matching(self.date, &self.food_id);
        self.executed = false;
        Ok(())
    }

    pub fn describe(&self) -> (r: String)
        requires
            self.date.wf(),
        ensures
            r@ == "Add log entry: "@ + amount_digits(self.servings as nat) + " servings of "@
                + self.food_id@ + " on "@ + self.date.digits(),
    {
        let mut s = String::from_str("Add log entry: ");
        push_amount(&mut s, self.servings);
        s.append(" servings of ");
        s.append(self.food_id.as_str());
        s.append(" on ");
        self.date.push_onto(&mut s);
        proof {
            assert(s@ =~= "Add log entry: "@ + amount_digits(self.servings as nat)
                + " servings of "@ + self.food_id@ + " on "@ + self.date.digits());
        }
        s
    }
}

impl Command for AddLogEntryCommand {
    open spec fn valid(&self) -> bool {
        self.valid_spec()
    }

    fn execute(&mut self, data: &mut Datastore) -> (r: Result<(), String>)
        ensures
            crate::command_manager::AppCommand::AddLogEntry(*old(self)).run_effect(
                *old(data),
                *final(data),
                r,
            ),
    {
        self.run(data)
    }

    fn undo(&mut self, data: &mut Datastore) -> (r: Result<(), String>)
        ensures
            crate::command_manager::AppCommand::AddLogEntry(*old(self)).undo_effect(
                *old(data),
                *final(data),
                r,
            ),
    {
        self.revert(data)
    }

    fn get_type(&self) -> (r: CommandType)
        ensures
            r is AddLog,
    {
        CommandType::AddLog
    }

    fn description(&self) -> (r: String) {
        self.describe()
    }
}

/// Deletes the entry at an index of a day's log; undone by putting the
/// remembered entry back at the same place.
pub struct RemoveLogEntryCommand {
    pub date: Date,
    pub index: usize,
    pub removed_entry: Option<FoodEntry>,
    pub executed: bool,
}

impl RemoveLogEntryCommand {
    pub open spec fn valid_spec(&self) -> bool {
        self.date.wf() && match self.removed_entry {
            Some(e) => e.wf(),
            None => true,
        }
    }

    pub fn new(date: Date, index: usize) -> (r: RemoveLogEntryCommand)
        ensures
            r.date == date,
            r.index == index,
            r.removed_entry is None,
            !r.executed,
    {
        RemoveLogEntryCommand { date, index, removed_entry: None, executed: false }
    }

    /// Removes the entry at the index, remembering it; fails, changing
    /// nothing, when the date has no log or the index is out of range.
    pub fn run(&mut self, data: &mut Datastore) -> (r: Result<(), String>)
        requires
            old(self).valid_spec(),
            old(data).wf(),
        ensures
            final(self).valid_spec(),
            final(data).wf(),
            final(self).date == old(self).date,
            final(self).index == old(self).index,
            final(data).foods == old(data).foods,
            final(data).profile == old(data).profile,
            ({
                let li = log_index(old(data).logs.models(), old(self).date);
                if li < old(data).logs.models().len() && old(self).index < old(data).logs.models()[li].entries.len() {
                    r is Ok && final(self).executed && final(self).removed_entry is Some && final(self).removed_entry.unwrap()@ == old(data).logs.models()[li].entries[old(self).index as int] && final(data).logs.models() =~= old(data).logs.models().update(
                        li,
                        (DailyLogModel {
                            date: old(data).logs.models()[li].date,
                            entries: old(data).logs.models()[li].entries.remove(
                                old(self).index as int,
                            ),
                        }),
                    )
                } else {
                    r is Err && final(self).executed == old(self).executed && final(self).removed_entry == old(self).removed_entry && final(data).logs.models() =~= old(data).logs.models() && r.unwrap_err()@ == "No entry at index "@ + dec_digits(
                        old(self).index as nat,
                    ) + " to remove"@
                }
            }),
    {
        match data.logs.remove_entry(self.date, self.index) {
            Some(e) => {
                proof {
                    let li = log_index(old(data).logs.models(), self.date);
                    crate::log_repository::lemma_log_index(old(data).logs.models(), self.date);
                    if li < old(data).logs.models().len() {
                        assert(wf_log_model(old(data).logs.models()[li]));
                        assert(wf_entry_model(
                            old(data).logs.models()[li].entries[self.index as int],
                        ));
                    }
                }
                self.removed_entry = Some(e);
                self.executed = true;
                Ok(())
            },
            None => {
                let mut msg = String::from_str("No entry at index ");
                push_usize(&mut msg, self.index);
                msg.append(" to remove");
                Err(msg)
            },
        }
    }

    /// Puts the remembered entry back at its index; fails when the
    /// command never ran, nothing was remembered, or the position no
    /// longer exists.
    pub fn revert(&mut self, data: &mut Datastore) -> (r: Result<(), String>)
        requires
            old(self).valid_spec(),
            old(data).wf(),
        ensures
            final(self).valid_spec(),
            final(data).wf(),
            final(self).date == old(self).date,
            final(self).index == old(self).index,
            final(data).foods == old(data).foods,
            final(data).profile == old(data).profile,
            !old(self).executed ==> r is Err && final(data).logs.models() =~= old(data).logs.models() && r.unwrap_err()@ == "Command was not executed"@,
            old(self).executed && old(self).removed_entry is None ==> r is Err && final(data).logs.models() =~= old(data).logs.models() && r.unwrap_err()@
                == "No entry to restore"@,
            old(self).executed && old(self).removed_entry is Some ==> ({
                let e = old(self).removed_entry.unwrap()@;
                let li = log_index(old(data).logs.models(), old(self).date);
                if li < old(data).logs.models().len() {
                    if old(self).index <= old(data).logs.models()[li].entries.len() {
                        r is Ok && !final(self).executed && final(data).logs.models() =~= old(data).logs.models().update(
                            li,
                            (DailyLogModel {
                                date: old(data).logs.models()[li].date,
                                entries: old(data).logs.models()[li].entries.insert(
                                    old(self).index as int,
                                    e,
                                ),
                            }),
                        )
                    } else {
                        r is Err && final(data).logs.models() =~= old(data).logs.models()
                            && r.unwrap_err()@ == "No entry to restore"@
                    }
                } else {
                    if old(self).index == 0 {
                        r is Ok && !final(self).executed && final(data).logs.models() =~= old(data).logs.models().push(
                            (DailyLogModel { date: old(self).date, entries: seq![e] }),
                        )
                    } else {
                        r is Err && final(data).logs.models() =~= old(data).logs.models()
                            && r.unwrap_err()@ == "No entry to restore"@
                    }
                }
            }),
    {
        if !self.executed {
            return Err(String::from_str("Command was not executed"));
        }
        match &self.removed_entry {
            Some(e) => {
                if data.logs.insert_entry(self.date, self.index, e.duplicate()) {
                    self.executed = false;
                    Ok(())
                } else {
                    Err(String::from_str("No entry to restore"))
                }
            },
            None => Err(String::from_str("No entry to restore")),
        }
    }

    pub fn describe(&self) -> (r: String)
        requires
            self.date.wf(),
        ensures
            match self.removed_entry {
                Some(e) => r@ == "Remove log entry: "@ + amount_digits(e@.servings as nat)
                    + " servings of "@ + e@.food_id + " on "@ + self.date.digits(),
                None => r@ == "Remove log entry at index "@ + dec_digits(self.index as nat)
                    + " on "@ + self.date.digits(),
            },
    {
        match &self.removed_entry {
            Some(e) => {
                let mut s = String::from_str("Remove log entry: ");
                push_amount(&mut s, e.servings);
                s.append(" servings of ");
                s.append(e.food_id.as_str());
                s.append(" on ");
                self.date.push_onto(&mut s);
                proof {
                    assert(s@ =~= "Remove log entry: "@ + amount_digits(
                        self.removed_entry.unwrap()@.servings as nat,
                    ) + " servings of "@ + self.removed_entry.unwrap()@.food_id + " on "@
                        + self.date.digits());
                }
                s
            },
            None => {
                let mut s = String::from_str("Remove log entry at index ");
                push_usize(&mut s, self.index);
                s.append(" on ");
                self.date.push_onto(&mut s);
                proof {
                    assert(s@ =~= "Remove log entry at index "@ + dec_digits(self.index as nat)
                        + " on "@ + self.date.digits());
                }
                s
            },
        }
    }
}

impl Command for RemoveLogEntryCommand {
    open spec fn valid(&self) -> bool {
        self.valid_spec()
    }

    fn execute(&mut self, data: &mut Datastore) -> (r: Result<(), String>)
        ensures
            crate::command_manager::AppCommand::RemoveLogEntry(*old(self)).run_effect(
                *old(data),
                *final(data),
                r,
            ),
    {
        self.run(data)
    }

    fn undo(&mut self, data: &mut Datastore) -> (r: Result<(), String>)
        ensures
            crate::command_manager::AppCommand::RemoveLogEntry(*old(self)).undo_effect(
                *old(data),
                *final(data),
                r,
            ),
    {
        self.revert(data)
    }

    fn get_type(&self) -> (r: CommandType)
        ensures
            r is DeleteLog,
    {
        CommandType::DeleteLog
    }

    fn description(&self) -> (r: String) {
        self.describe()
    }
}

} // verus!

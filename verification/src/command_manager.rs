//! The undo stack: executes commands, keeps the ones that succeeded up
//! to a size limit, and undoes the most recent on request.

use vstd::prelude::*;
use vstd::string::*;

use crate::command::{Command, CommandType};
use crate::datastore::Datastore;
use crate::date::Timestamp;
use crate::food::{find_food, food_index};
use crate::food_commands::{AddFoodCommand, UpdateFoodCommand};
use crate::log::{last_match, DailyLogModel, FoodEntryModel};
use crate::log_commands::{AddLogEntryCommand, RemoveLogEntryCommand};
use crate::log_repository::{add_entry_spec, log_index};
use crate::profile::{drop_date, DailyProfile, UserProfileModel};
use crate::profile_commands::{UpdateDailyProfileCommand, UpdateUserProfileCommand};
use crate::profile_repository::merge_daily;
use crate::text::{amount_digits, dec_digits};

verus! {

/// Any of the application's undoable operations.
pub enum AppCommand {
    AddFood(AddFoodCommand),
    UpdateFood(UpdateFoodCommand),
    AddLogEntry(AddLogEntryCommand),
    RemoveLogEntry(RemoveLogEntryCommand),
    UpdateUserProfile(UpdateUserProfileCommand),
    UpdateDailyProfile(UpdateDailyProfileCommand),
}

impl AppCommand {
    pub open spec fn valid_spec(&self) -> bool {
        match self {
            AppCommand::AddFood(c) => c.valid_spec(),
            AppCommand::UpdateFood(c) => c.valid_spec(),
            AppCommand::AddLogEntry(c) => c.valid_spec(),
            AppCommand::RemoveLogEntry(c) => c.valid_spec(),
            AppCommand::UpdateUserProfile(c) => c.valid_spec(),
            AppCommand::UpdateDailyProfile(c) => c.valid_spec(),
        }
    }

    /// The history line each command shows.
    pub open spec fn description_spec(&self) -> Seq<char> {
        match self {
            AppCommand::AddFood(c) => "Add food: "@ + c.food@.name,
            AppCommand::UpdateFood(c) => "Update food: "@ + c.new_food@.name,
            AppCommand::AddLogEntry(c) => "Add log entry: "@ + amount_digits(c.servings as nat)
                + " servings of "@ + c.food_id@ + " on "@ + c.date.digits(),
            AppCommand::RemoveLogEntry(c) => match c.removed_entry {
                Some(e) => "Remove log entry: "@ + amount_digits(e@.servings as nat)
                    + " servings of "@ + e@.food_id + " on "@ + c.date.digits(),
                None => "Remove log entry at index "@ + dec_digits(c.index as nat) + " on "@
                    + c.date.digits(),
            },
            AppCommand::UpdateUserProfile(_) => "Update user profile"@,
            AppCommand::UpdateDailyProfile(c) => "Update daily profile for "@
                + c.daily_profile.date.digits(),
        }
    }

    /// What running this command does: the exact relation between the
    /// datastore before, the datastore after, and the result, case by
    /// case — each arm restates the ensures of that command's `run`.
    pub open spec fn run_effect(self, d0: Datastore, d1: Datastore, r: Result<(), String>) -> bool {
        match self {
            AppCommand::AddFood(c) => {
                &&& d1.logs == d0.logs
                &&& d1.profile == d0.profile
                &&& if find_food(d0.foods.models(), c.food@.id) is Some {
                    &&& r is Err
                    &&& d1.foods.models() == d0.foods.models()
                    &&& r.unwrap_err()@ == "Food with ID "@ + c.food@.id + " already exists"@
                } else {
                    &&& r is Ok
                    &&& d1.foods.models() == d0.foods.models().push(c.food@)
                }
            },
            AppCommand::UpdateFood(c) => {
                &&& d1.logs == d0.logs
                &&& d1.profile == d0.profile
                &&& if find_food(d0.foods.models(), c.new_food@.id) is Some {
                    &&& r is Ok
                    &&& d1.foods.models() == d0.foods.models().update(
                        food_index(d0.foods.models(), c.new_food@.id),
                        c.new_food@,
                    )
                } else {
                    &&& r is Err
                    &&& d1.foods.models() == d0.foods.models()
                    &&& r.unwrap_err()@ == "Food with ID "@ + c.new_food@.id + " not found"@
                }
            },
            AppCommand::AddLogEntry(c) => {
                &&& d1.foods == d0.foods
                &&& d1.profile == d0.profile
                &&& r is Ok
                &&& exists|ts: Timestamp|
                    ts.wf() && d1.logs.models() == add_entry_spec(
                        d0.logs.models(),
                        c.date,
                        (FoodEntryModel { food_id: c.food_id@, servings: c.servings, timestamp: ts }),
                    )
            },
            AppCommand::RemoveLogEntry(c) => {
                &&& d1.foods == d0.foods
                &&& d1.profile == d0.profile
                &&& ({
                    let ls = d0.logs.models();
                    let li = log_index(ls, c.date);
                    if li < ls.len() && c.index < ls[li].entries.len() {
                        &&& r is Ok
                        &&& d1.logs.models() == ls.update(
                            li,
                            (DailyLogModel {
                                date: ls[li].date,
                                entries: ls[li].entries.remove(c.index as int),
                            }),
                        )
                    } else {
                        &&& r is Err
                        &&& d1.logs.models() == ls
                        &&& r.unwrap_err()@ == "No entry at index "@ + dec_digits(c.index as nat)
                            + " to remove"@
                    }
                })
            },
            AppCommand::UpdateUserProfile(c) => {
                &&& d1.foods == d0.foods
                &&& d1.logs == d0.logs
                &&& r is Ok
                &&& d1.profile.model() == Some(c.new_profile@)
            },
            AppCommand::UpdateDailyProfile(c) => {
                &&& d1.foods == d0.foods
                &&& d1.logs == d0.logs
                &&& if d0.profile.model() is Some {
                    &&& r is Ok
                    &&& d1.profile.model() == Some(
                        merge_daily(d0.profile.model().unwrap(), c.daily_profile),
                    )
                } else {
                    &&& r is Err
                    &&& d1.profile.model() is None
                    &&& r.unwrap_err()@ == "No user profile exists"@
                }
            },
        }
    }

    /// What undoing this command does, case by case — each arm restates
    /// the ensures of that command's `revert`.
    pub open spec fn undo_effect(self, d0: Datastore, d1: Datastore, r: Result<(), String>) -> bool {
        match self {
            AppCommand::AddFood(c) => {
                &&& d1.logs == d0.logs
                &&& d1.profile == d0.profile
                &&& if !c.executed {
                    &&& r is Err
                    &&& d1.foods.models() == d0.foods.models()
                    &&& r.unwrap_err()@ == "Command was not executed"@
                } else {
                    &&& r is Ok
                    &&& d1.foods.models() == (if find_food(d0.foods.models(), c.food@.id) is Some {
                        d0.foods.models().remove(food_index(d0.foods.models(), c.food@.id))
                    } else {
                        d0.foods.models()
                    })
                }
            },
            AppCommand::UpdateFood(c) => {
                &&& d1.logs == d0.logs
                &&& d1.profile == d0.profile
                &&& if !c.executed {
                    &&& r is Err
                    &&& d1.foods.models() == d0.foods.models()
                    &&& r.unwrap_err()@ == "Command was not executed"@
                } else {
                    match c.old_food {
                        Some(f) => if find_food(d0.foods.models(), f@.id) is Some {
                            &&& r is Ok
                            &&& d1.foods.models() == d0.foods.models().update(
                                food_index(d0.foods.models(), f@.id),
                                f@,
                            )
                        } else {
                            &&& r is Err
                            &&& d1.foods.models() == d0.foods.models()
                            &&& r.unwrap_err()@ == "Food with ID "@ + f@.id + " not found"@
                        },
                        None => {
                            &&& r is Ok
                            &&& d1.foods.models() == (if find_food(
                                d0.foods.models(),
                                c.new_food@.id,
                            ) is Some {
                                d0.foods.models().remove(
                                    food_index(d0.foods.models(), c.new_food@.id),
                                )
                            } else {
                                d0.foods.models()
                            })
                        },
                    }
                }
            },
            AppCommand::AddLogEntry(c) => {
                &&& d1.foods == d0.foods
                &&& d1.profile == d0.profile
                &&& if !c.executed {
                    &&& r is Err
                    &&& d1.logs.models() == d0.logs.models()
                    &&& r.unwrap_err()@ == "Command was not executed"@
                } else {
                    &&& r is Ok
                    &&& ({
                        let ls = d0.logs.models();
                        let li = log_index(ls, c.date);
                        if li < ls.len() {
                            let k = last_match(ls[li].entries, c.food_id@);
                            if k >= 0 {
                                d1.logs.models() == ls.update(
                                    li,
                                    (DailyLogModel {
                                        date: ls[li].date,
                                        entries: ls[li].entries.remove(k),
                                    }),
                                )
                            } else {
                                d1.logs.models() == ls
                            }
                        } else {
                            d1.logs.models() == ls
                        }
                    })
                }
            },
            AppCommand::RemoveLogEntry(c) => {
                &&& d1.foods == d0.foods
                &&& d1.profile == d0.profile
                &&& if !c.executed {
                    &&& r is Err
                    &&& d1.logs.models() == d0.logs.models()
                    &&& r.unwrap_err()@ == "Command was not executed"@
                } else {
                    match c.removed_entry {
                        None => {
                            &&& r is Err
                            &&& d1.logs.models() == d0.logs.models()
                            &&& r.unwrap_err()@ == "No entry to restore"@
                        },
                        Some(e) => {
                            let ls = d0.logs.models();
                            let li = log_index(ls, c.date);
                            if li < ls.len() {
                                if c.index <= ls[li].entries.len() {
                                    &&& r is Ok
                                    &&& d1.logs.models() == ls.update(
                                        li,
                                        (DailyLogModel {
                                            date: ls[li].date,
                                            entries: ls[li].entries.insert(c.index as int, e@),
                                        }),
                                    )
                                } else {
                                    &&& r is Err
                                    &&& d1.logs.models() == ls
                                    &&& r.unwrap_err()@ == "No entry to restore"@
                                }
                            } else {
                                if c.index == 0 {
                                    &&& r is Ok
                                    &&& d1.logs.models() == ls.push(
                                        (DailyLogModel { date: c.date, entries: seq![e@] }),
                                    )
                                } else {
                                    &&& r is Err
                                    &&& d1.logs.models() == ls
                                    &&& r.unwrap_err()@ == "No entry to restore"@
                                }
                            }
                        },
                    }
                }
            },
            AppCommand::UpdateUserProfile(c) => {
                &&& d1.foods == d0.foods
                &&& d1.logs == d0.logs
                &&& if !c.executed {
                    &&& r is Err
                    &&& d1.profile == d0.profile
                    &&& r.unwrap_err()@ == "Command was not executed"@
                } else {
                    &&& r is Ok
                    &&& d1.profile.model() == Some(
                        match c.old_profile {
                            Some(p) => p@,
                            None => (UserProfileModel {
                                gender: c.new_profile@.gender,
                                height: c.new_profile@.height,
                                birth_date: c.new_profile@.birth_date,
                                daily_profiles: Seq::<DailyProfile>::empty(),
                                calculation_method: "harris_benedict"@,
                            }),
                        },
                    )
                }
            },
            AppCommand::UpdateDailyProfile(c) => {
                &&& d1.foods == d0.foods
                &&& d1.logs == d0.logs
                &&& if !c.executed {
                    &&& r is Err
                    &&& d1.profile == d0.profile
                    &&& r.unwrap_err()@ == "Command was not executed"@
                } else if d0.profile.model() is None {
                    &&& r is Err
                    &&& d1.profile.model() is None
                    &&& r.unwrap_err()@ == "No user profile exists"@
                } else {
                    &&& r is Ok
                    &&& d1.profile.model() == Some(
                        match c.old_daily_profile {
                            Some(dp) => merge_daily(d0.profile.model().unwrap(), dp),
                            None => (UserProfileModel {
                                daily_profiles: drop_date(
                                    d0.profile.model().unwrap().daily_profiles,
                                    c.daily_profile.date,
                                ),
                                ..d0.profile.model().unwrap()
                            }),
                        },
                    )
                }
            },
        }
    }

    /// The history line this command will show once run against `data`:
    /// deleting a log entry learns which entry it removed, and every
    /// other command describes itself the same before and after.
    pub open spec fn description_after_run(self, data: Datastore) -> Seq<char> {
        match self {
            AppCommand::RemoveLogEntry(c) => {
                let ls = data.logs.models();
                let li = log_index(ls, c.date);
                if li < ls.len() && c.index < ls[li].entries.len() {
                    "Remove log entry: "@ + amount_digits(
                        ls[li].entries[c.index as int].servings as nat,
                    ) + " servings of "@ + ls[li].entries[c.index as int].food_id + " on "@
                        + c.date.digits()
                } else {
                    self.description_spec()
                }
            },
            _ => self.description_spec(),
        }
    }

    /// Runs the command: the datastore changes exactly as `run_effect`
    /// says, and the command keeps track of its history line.
    pub fn run(&mut self, data: &mut Datastore) -> (r: Result<(), String>)
        requires
            old(self).valid_spec(),
            old(data).wf(),
        ensures
            final(self).valid_spec(),
            final(data).wf(),
            old(self).run_effect(*old(data), *final(data), r),
            r is Ok ==> final(self).description_spec() == old(self).description_after_run(
                *old(data),
            ),
            r is Err ==> final(self).description_spec() == old(self).description_spec(),
    {
        match self {
            AppCommand::AddFood(c) => c.run(data),
            AppCommand::UpdateFood(c) => c.run(data),
            AppCommand::AddLogEntry(c) => c.run(data),
            AppCommand::RemoveLogEntry(c) => c.run(data),
            AppCommand::UpdateUserProfile(c) => c.run(data),
            AppCommand::UpdateDailyProfile(c) => c.run(data),
        }
    }

    /// Undoes the command: the datastore changes exactly as
    /// `undo_effect` says.
    pub fn revert(&mut self, data: &mut Datastore) -> (r: Result<(), String>)
        requires
            old(self).valid_spec(),
            old(data).wf(),
        ensures
            final(self).valid_spec(),
            final(data).wf(),
            old(self).undo_effect(*old(data), *final(data), r),
    {
        match self {
            AppCommand::AddFood(c) => c.revert(data),
            AppCommand::UpdateFood(c) => c.revert(data),
            AppCommand::AddLogEntry(c) => c.revert(data),
            AppCommand::RemoveLogEntry(c) => c.revert(data),
            AppCommand::UpdateUserProfile(c) => c.revert(data),
            AppCommand::UpdateDailyProfile(c) => c.revert(data),
        }
    }

    /// The history line, as text.
    pub fn describe(&self) -> (r: String)
        requires
            self.valid_spec(),
        ensures
            r@ == self.description_spec(),
    {
        match self {
            AppCommand::AddFood(c) => c.describe(),
            AppCommand::UpdateFood(c) => c.describe(),
            AppCommand::AddLogEntry(c) => c.describe(),
            AppCommand::RemoveLogEntry(c) => c.describe(),
            AppCommand::UpdateUserProfile(c) => c.describe(),
            AppCommand::UpdateDailyProfile(c) => c.describe(),
        }
    }
}

impl Command for AppCommand {
    open spec fn valid(&self) -> bool {
        self.valid_spec()
    }

    fn execute(&mut self, data: &mut Datastore) -> (r: Result<(), String>)
        ensures
            old(self).run_effect(*old(data), *final(data), r),
    {
        self.run(data)
    }

    fn undo(&mut self, data: &mut Datastore) -> (r: Result<(), String>)
        ensures
            old(self).undo_effect(*old(data), *final(data), r),
    {
        self.revert(data)
    }

    fn get_type(&self) -> (r: CommandType)
        ensures
            self is AddFood ==> r is AddFood,
            self is UpdateFood ==> r is RemoveFood,
            self is AddLogEntry ==> r is AddLog,
            self is RemoveLogEntry ==> r is DeleteLog,
            self is UpdateUserProfile ==> r is UpdateProfile,
            self is UpdateDailyProfile ==> r is UpdateProfile,
    {
        match self {
            AppCommand::AddFood(c) => c.get_type(),
            AppCommand::UpdateFood(c) => c.get_type(),
            AppCommand::AddLogEntry(c) => c.get_type(),
            AppCommand::RemoveLogEntry(c) => c.get_type(),
            AppCommand::UpdateUserProfile(c) => c.get_type(),
            AppCommand::UpdateDailyProfile(c) => c.get_type(),
        }
    }

    fn description(&self) -> (r: String) {
        self.describe()
    }
}

/// A stack capped at a size limit: pushing onto a full stack lets the
/// oldest element go.
pub open spec fn capped_push(s: Seq<AppCommand>, c: AppCommand, max: int) -> Seq<AppCommand> {
    if s.push(c).len() > max {
        s.push(c).drop_first()
    } else {
        s.push(c)
    }
}

/// Executes commands and keeps the successful ones for undoing, newest
/// last, at most `max_stack_size` of them.
pub struct CommandManager {
    pub undo_stack: Vec<AppCommand>,
    pub max_stack_size: usize,
}

impl CommandManager {
    /// The stack never exceeds its limit, and every kept command's own
    /// data is intact.
    pub open spec fn wf(&self) -> bool {
        &&& self.undo_stack@.len() <= self.max_stack_size
        &&& forall|i: int|
            0 <= i < self.undo_stack@.len() ==> (#[trigger] self.undo_stack@[i]).valid_spec()
    }

    /// An empty manager that will keep at most `max_stack_size`
    /// commands.
    pub fn new(max_stack_size: usize) -> (r: CommandManager)
        ensures
            r.wf(),
            r.undo_stack@.len() == 0,
            r.max_stack_size == max_stack_size,
    {
        CommandManager { undo_stack: Vec::new(), max_stack_size }
    }

    /// Runs the command; a command that succeeds is kept for undoing,
    /// under the history line it acquired by running, and the oldest
    /// kept command is let go when the stack is full; a command that
    /// fails is discarded and the stack stays as it was.
    pub fn execute_command(&mut self, data: &mut Datastore, command: AppCommand) -> (r: Result<
        (),
        String,
    >)
        requires
            old(self).wf(),
            command.valid_spec(),
            old(data).wf(),
        ensures
            final(self).wf(),
            final(data).wf(),
            final(self).max_stack_size == old(self).max_stack_size,
            command.run_effect(*old(data), *final(data), r),
            r is Ok ==> (exists|c: AppCommand|
                c.valid_spec() && c.description_spec() == command.description_after_run(
                    *old(data),
                ) && final(self).undo_stack@ =~= capped_push(
                    old(self).undo_stack@,
                    c,
                    old(self).max_stack_size as int,
                )),
            r is Err ==> final(self).undo_stack@ =~= old(self).undo_stack@,
    {
        let mut command = command;
        let result = command.run(data);
        match &result {
            Ok(_) => {
                self.undo_stack.push(command);
                if self.undo_stack.len() > self.max_stack_size {
                    self.undo_stack.remove(0);
                    proof {
                        assert(self.undo_stack@ =~= old(self).undo_stack@.push(
                            command,
                        ).drop_first());
                    }
                }
            },
            Err(_) => {},
        }
        result
    }

    /// Undoes and discards the most recent kept command; fails when
    /// nothing is left to undo.
    pub fn undo_last_command(&mut self, data: &mut Datastore) -> (r: Result<(), String>)
        requires
            old(self).wf(),
            old(data).wf(),
        ensures
            final(self).wf(),
            final(data).wf(),
            final(self).max_stack_size == old(self).max_stack_size,
            old(self).undo_stack@.len() == 0 ==> r is Err && final(self).undo_stack@ =~= old(
                self,
            ).undo_stack@ && r.unwrap_err()@ == "No command to undo"@,
            old(self).undo_stack@.len() > 0 ==> final(self).undo_stack@ =~= old(
                self,
            ).undo_stack@.drop_last(),
    {
        match self.undo_stack.pop() {
            Some(mut command) => {
                proof {
                    assert(old(self).undo_stack@[old(self).undo_stack@.len() - 1].valid_spec());
                }
                command.undo(data)
            },
            None => Err(String::from_str("No command to undo")),
        }
    }

    /// How many commands can still be undone.
    pub fn get_undo_stack_size(&self) -> (r: usize)
        ensures
            r == self.undo_stack@.len(),
    {
        self.undo_stack.len()
    }

    /// Whether anything is left to undo.
    pub fn has_commands_to_undo(&self) -> (r: bool)
        ensures
            r == (self.undo_stack@.len() > 0),
    {
        self.undo_stack.len() > 0
    }

    /// The kept commands' history lines, oldest first.
    pub fn get_command_history(&self) -> (r: Vec<String>)
        requires
            self.wf(),
        ensures
            r@.len() == self.undo_stack@.len(),
            forall|i: int|
                0 <= i < r@.len() ==> (#[trigger] r@[i])@ == self.undo_stack@[i].description_spec(),
    {
        let mut out: Vec<String> = Vec::new();
        let mut i: usize = 0;
        while i < self.undo_stack.len()
            invariant
                0 <= i <= self.undo_stack@.len(),
                self.wf(),
                out@.len() == i,
                forall|j: int|
                    0 <= j < i ==> (#[trigger] out@[j])@ == self.undo_stack@[j].description_spec(),
            decreases self.undo_stack@.len() - i,
        {
            proof {
                assert(self.undo_stack@[i as int].valid_spec());
            }
            out.push(self.undo_stack[i].describe());
            i = i + 1;
        }
        out
    }
}

} // verus!

//! Undoable profile operations: replacing the whole profile, and
//! merging one daily snapshot, each remembering what it displaced.

use vstd::prelude::*;
use vstd::string::*;

use crate::command::{Command, CommandType};
use crate::datastore::Datastore;
use crate::profile::{
    drop_date, find_daily, lemma_daily_index, storable_profile, DailyProfile, UserProfile,
    UserProfileModel,
};
use crate::profile_repository::merge_daily;

verus! {

/// Replaces the user profile; undone by restoring the one it replaced,
/// or a bare profile built from the new one's fixed traits when none
/// existed.
pub struct UpdateUserProfileCommand {
    pub old_profile: Option<UserProfile>,
    pub new_profile: UserProfile,
    pub executed: bool,
}

impl UpdateUserProfileCommand {
    pub open spec fn valid_spec(&self) -> bool {
        storable_profile(self.new_profile@) && match self.old_profile {
            Some(p) => storable_profile(p@),
            None => true,
        }
    }

    /// Captures the current profile, for the undo step.
    pub fn new(profile_repo: &crate::profile_repository::ProfileRepository, new_profile: UserProfile) -> (r:
        UpdateUserProfileCommand)
        requires
            profile_repo.wf(),
        ensures
            r.new_profile@ == new_profile@,
            !r.executed,
            match r.old_profile {
                Some(p) => profile_repo.model() == Some(p@) && storable_profile(p@),
                None => profile_repo.model() is None,
            },
    {
        let old_profile = match profile_repo.get_profile() {
            Some(p) => Some(p.duplicate()),
            None => None,
        };
        UpdateUserProfileCommand { old_profile, new_profile, executed: false }
    }

    /// Installs the new profile.
    pub fn run(&mut self, data: &mut Datastore) -> (r: Result<(), String>)
        requires
            old(self).valid_spec(),
            old(data).wf(),
        ensures
            final(self).valid_spec(),
            final(data).wf(),
            final(self).new_profile@ == old(self).new_profile@,
            final(self).old_profile == old(self).old_profile,
            final(data).foods == old(data).foods,
            final(data).logs == old(data).logs,
            r is Ok,
            final(self).executed,
            final(data).profile.model() == Some(old(self).new_profile@),
    {
        data.profile.set_profile(self.new_profile.duplicate());
        self.executed = true;
        Ok(())
    }

    /// Restores the captured profile, or installs a bare one from the
    /// new profile's fixed traits; fails when the command never ran.
    pub fn revert(&mut self, data: &mut Datastore) -> (r: Result<(), String>)
        requires
            old(self).valid_spec(),
            old(data).wf(),
        ensures
            final(self).valid_spec(),
            final(data).wf(),
            final(data).foods == old(data).foods,
            final(data).logs == old(data).logs,
            !old(self).executed ==> r is Err && final(data).profile == old(data).profile
                && r.unwrap_err()@ == "Command was not executed"@,
            old(self).executed ==> r is Ok && !final(self).executed && final(data).profile.model() == Some(
                match old(self).old_profile {
                    Some(p) => p@,
                    None => (UserProfileModel {
                        gender: old(self).new_profile@.gender,
                        height: old(self).new_profile@.height,
                        birth_date: old(self).new_profile@.birth_date,
                        daily_profiles: Seq::<DailyProfile>::empty(),
                        calculation_method: "harris_benedict"@,
                    }),
                },
            ),
    {
        if !self.executed {
            return Err(String::from_str("Command was not executed"));
        }
        match &self.old_profile {
            Some(p) => {
                data.profile.set_profile(p.duplicate());
            },
            None => {
                let bare = UserProfile::new(
                    self.new_profile.gender,
                    self.new_profile.height,
                    self.new_profile.birth_date,
                );
                proof {
                    crate::profile::lemma_default_method_ok();
                }
                data.profile.set_profile(bare);
            },
        }
        self.executed = false;
        Ok(())
    }

    pub fn describe(&self) -> (r: String)
        ensures
            r@ == "Update user profile"@,
    {
        String::from_str("Update user profile")
    }
}

impl Command for UpdateUserProfileCommand {
    open spec fn valid(&self) -> bool {
        self.valid_spec()
    }

    fn execute(&mut self, data: &mut Datastore) -> (r: Result<(), String>)
        ensures
            crate::command_manager::AppCommand::UpdateUserProfile(*old(self)).run_effect(
                *old(data),
                *final(data),
                r,
            ),
    {
        self.run(data)
    }

    fn undo(&mut self, data: &mut Datastore) -> (r: Result<(), String>)
        ensures
            crate::command_manager::AppCommand::UpdateUserProfile(*old(self)).undo_effect(
                *old(data),
                *final(data),
                r,
            ),
    {
        self.revert(data)
    }

    fn get_type(&self) -> (r: CommandType)
        ensures
            r is UpdateProfile,
    {
        CommandType::UpdateProfile
    }

    fn description(&self) -> (r: String) {
        self.describe()
    }
}

/// Merges one daily snapshot into the profile; undone by restoring the
/// snapshot it displaced, or discarding the date when it was new.
pub struct UpdateDailyProfileCommand {
    pub daily_profile: DailyProfile,
    pub old_daily_profile: Option<DailyProfile>,
    pub executed: bool,
}

impl UpdateDailyProfileCommand {
    pub open spec fn valid_spec(&self) -> bool {
        self.daily_profile.date.wf() && match self.old_daily_profile {
            Some(dp) => dp.date.wf(),
            None => true,
        }
    }

    /// Captures the current snapshot for the same date, if any.
    pub fn new(profile_repo: &crate::profile_repository::ProfileRepository, daily_profile: DailyProfile) -> (r:
        UpdateDailyProfileCommand)
        requires
            profile_repo.wf(),
        ensures
            r.daily_profile == daily_profile,
            !r.executed,
            match r.old_daily_profile {
                Some(dp) => profile_repo.model() is Some && find_daily(
                    profile_repo.model().unwrap().daily_profiles,
                    daily_profile.date,
                ) == Some(dp) && dp.date.wf(),
                None => profile_repo.model() is None || find_daily(
                    profile_repo.model().unwrap().daily_profiles,
                    daily_profile.date,
                ) is None,
            },
    {
        let old_daily_profile = match profile_repo.get_profile() {
            Some(p) => {
                match p.get_daily_profile(daily_profile.date) {
                    Some(dp) => {
                        proof {
                            lemma_daily_index(p@.daily_profiles, daily_profile.date);
                        }
                        Some(*dp)
                    },
                    None => None,
                }
            },
            None => None,
        };
        UpdateDailyProfileCommand { daily_profile, old_daily_profile, executed: false }
    }

    /// Merges the snapshot; fails, changing nothing, while no profile
    /// exists.
    pub fn run(&mut self, data: &mut Datastore) -> (r: Result<(), String>)
        requires
            old(self).valid_spec(),
            old(data).wf(),
        ensures
            final(self).valid_spec(),
            final(data).wf(),
            final(self).daily_profile == old(self).daily_profile,
            final(self).old_daily_profile == old(self).old_daily_profile,
            final(data).foods == old(data).foods,
            final(data).logs == old(data).logs,
            old(data).profile.model() is Some ==> r is Ok && final(self).executed && final(data).profile.model() == Some(
                merge_daily(old(data).profile.model().unwrap(), old(self).daily_profile),
            ),
            old(data).profile.model() is None ==> r is Err && final(self).executed == old(self).executed && final(data).profile.model() is None && r.unwrap_err()@
                == "No user profile exists"@,
    {
        let result = data.profile.add_or_update_daily_profile(self.daily_profile);
        match &result {
            Ok(_) => {
                self.executed = true;
            },
            Err(_) => {},
        }
        result
    }

    /// Restores the displaced snapshot, or discards the date; fails
    /// when the command never ran or no profile exists any more.
    pub fn revert(&mut self, data: &mut Datastore) -> (r: Result<(), String>)
        requires
            old(self).valid_spec(),
            old(data).wf(),
        ensures
            final(self).valid_spec(),
            final(data).wf(),
            final(self).daily_profile == old(self).daily_profile,
            final(self).old_daily_profile == old(self).old_daily_profile,
            final(data).foods == old(data).foods,
            final(data).logs == old(data).logs,
            !old(self).executed ==> r is Err && final(data).profile == old(data).profile
                && r.unwrap_err()@ == "Command was not executed"@,
            old(self).executed && old(data).profile.model() is None ==> r is Err && final(data).profile.model() is None && r.unwrap_err()@ == "No user profile exists"@,
            old(self).executed && old(data).profile.model() is Some ==> r is Ok && !final(self).executed && final(data).profile.model() == Some(
                match old(self).old_daily_profile {
                    Some(dp) => merge_daily(old(data).profile.model().unwrap(), dp),
                    None => (UserProfileModel {
                        daily_profiles: drop_date(
                            old(data).profile.model().unwrap().daily_profiles,
                            old(self).daily_profile.date,
                        ),
                        ..old(data).profile.model().unwrap()
                    }),
                },
            ),
    {
        if !self.executed {
            return Err(String::from_str("Command was not executed"));
        }
        let has_profile = match &data.profile.profile {
            Some(_) => true,
            None => false,
        };
        if !has_profile {
            return Err(String::from_str("No user profile exists"));
        }
        match &self.old_daily_profile {
            Some(dp) => {
                let restored = *dp;
                match data.profile.add_or_update_daily_profile(restored) {
                    Ok(_) => {},
                    Err(e) => {
                        return Err(e);
                    },
                }
            },
            None => {
                data.profile.remove_daily_profile(self.daily_profile.date);
            },
        }
        self.executed = false;
        Ok(())
    }

    pub fn describe(&self) -> (r: String)
        requires
            self.daily_profile.date.wf(),
        ensures
            r@ == "Update daily profile for "@ + self.daily_profile.date.digits(),
    {
        let mut s = String::from_str("Update daily profile for ");
        self.daily_profile.date.push_onto(&mut s);
        proof {
            assert(s@ =~= "Update daily profile for "@ + self.daily_profile.date.digits());
        }
        s
    }
}

impl Command for UpdateDailyProfileCommand {
    open spec fn valid(&self) -> bool {
        self.valid_spec()
    }

    fn execute(&mut self, data: &mut Datastore) -> (r: Result<(), String>)
        ensures
            crate::command_manager::AppCommand::UpdateDailyProfile(*old(self)).run_effect(
                *old(data),
                *final(data),
                r,
            ),
    {
        self.run(data)
    }

    fn undo(&mut self, data: &mut Datastore) -> (r: Result<(), String>)
        ensures
            crate::command_manager::AppCommand::UpdateDailyProfile(*old(self)).undo_effect(
                *old(data),
                *final(data),
                r,
            ),
    {
        self.revert(data)
    }

    fn get_type(&self) -> (r: CommandType)
        ensures
            r is UpdateProfile,
    {
        CommandType::UpdateProfile
    }

    fn description(&self) -> (r: String) {
        self.describe()
    }
}

} // verus!

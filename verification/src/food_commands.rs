//! Undoable catalog operations: adding a food, and updating one while
//! remembering what it replaced.

use vstd::prelude::*;
use vstd::string::*;

use crate::command::{Command, CommandType};
use crate::datastore::Datastore;
use crate::food::{find_food, food_index, Food};
use crate::food_repository::FoodRepository;

verus! {

/// Adds a food to the catalog; undone by removing it again.
pub struct AddFoodCommand {
    pub food: Food,
    pub executed: bool,
}

impl AddFoodCommand {
    pub open spec fn valid_spec(&self) -> bool {
        self.food.wf()
    }

    pub fn new(food: Food) -> (r: AddFoodCommand)
        ensures
            r.food@ == food@,
            !r.executed,
    {
        AddFoodCommand { food, executed: false }
    }

    /// Adds the food; fails, changing nothing, when the id is taken.
    pub fn run(&mut self, data: &mut Datastore) -> (r: Result<(), String>)
        requires
            old(self).valid_spec(),
            old(data).wf(),
        ensures
            final(self).valid_spec(),
            final(data).wf(),
            final(self).food@ == old(self).food@,
            final(data).logs == old(data).logs,
            final(data).profile == old(data).profile,
            find_food(old(data).foods.models(), old(self).food@.id) is Some ==> r is Err && final(data).foods.models() =~= old(data).foods.models() && final(self).executed == old(self).executed && r.unwrap_err()@ == "Food with ID "@ + old(self).food@.id
                + " already exists"@,
            find_food(old(data).foods.models(), old(self).food@.id) is None ==> r is Ok && final(data).foods.models() =~= old(data).foods.models().push(old(self).food@) && final(self).executed,
    {
        let result = data.foods.add_food(self.food.duplicate());
        match &result {
            Ok(_) => {
                self.executed = true;
            },
            Err(_) => {},
        }
        result
    }

    /// Takes the food out again; fails when the command never ran.
    pub fn revert(&mut self, data: &mut Datastore) -> (r: Result<(), String>)
        requires
            old(self).valid_spec(),
            old(data).wf(),
        ensures
            final(self).valid_spec(),
            final(data).wf(),
            final(self).food@ == old(self).food@,
            final(data).logs == old(data).logs,
            final(data).profile == old(data).profile,
            !old(self).executed ==> r is Err && final(data).foods.models() =~= old(data).foods.models() && final(self).executed == old(self).executed && r.unwrap_err()@
                == "Command was not executed"@,
            old(self).executed ==> r is Ok && !final(self).executed && final(data).foods.models()
                =~= (if find_food(old(data).foods.models(), old(self).food@.id) is Some {
                old(data).foods.models().remove(
                    food_index(old(data).foods.models(), old(self).food@.id),
                )
            } else {
                old(data).foods.models()
            }),
    {
        if !self.executed {
            return Err(String::from_str("Command was not executed"));
        }
        let _removed = data.foods.remove_food(self.food.id.as_str());
        self.executed = false;
        Ok(())
    }

    pub fn describe(&self) -> (r: String)
        ensures
            r@ == "Add food: "@ + self.food@.name,
    {
        let mut s = String::from_str("Add food: ");
        s.append(self.food.name.as_str());
        s
    }
}

impl Command for AddFoodCommand {
    open spec fn valid(&self) -> bool {
        self.valid_spec()
    }

    fn execute(&mut self, data: &mut Datastore) -> (r: Result<(), String>)
        ensures
            crate::command_manager::AppCommand::AddFood(*old(self)).run_effect(
                *old(data),
                *final(data),
                r,
            ),
    {
        self.run(data)
    }

    fn undo(&mut self, data: &mut Datastore) -> (r: Result<(), String>)
        ensures
            crate::command_manager::AppCommand::AddFood(*old(self)).undo_effect(
                *old(data),
                *final(data),
                r,
            ),
    {
        self.revert(data)
    }

    fn get_type(&self) -> (r: CommandType)
        ensures
            r is AddFood,
    {
        CommandType::AddFood
    }

    fn description(&self) -> (r: String) {
        self.describe()
    }
}

/// Replaces a food in the catalog; undone by restoring what it
/// replaced, or removing the food when it was newly created.
pub struct UpdateFoodCommand {
    pub old_food: Option<Food>,
    pub new_food: Food,
    pub executed: bool,
}

impl UpdateFoodCommand {
    pub open spec fn valid_spec(&self) -> bool {
        self.new_food.wf() && match self.old_food {
            Some(f) => f.wf(),
            None => true,
        }
    }

    /// Captures the current food with the same id, for the undo step.
    pub fn new(food_repo: &FoodRepository, new_food: Food) -> (r: UpdateFoodCommand)
        requires
            food_repo.wf(),
        ensures
            r.new_food@ == new_food@,
            !r.executed,
            match r.old_food {
                Some(f) => find_food(food_repo.models(), new_food@.id) == Some(f@) && f.wf(),
                None => find_food(food_repo.models(), new_food@.id) is None,
            },
    {
        let old_food = match food_repo.get_food(new_food.id.as_str()) {
            Some(f) => {
                proof {
                    crate::food::lemma_food_index(food_repo.models(), new_food@.id);
                    assert(crate::food::wf_model(
                        food_repo.models()[food_index(food_repo.models(), new_food@.id)],
                    ));
                }
                Some(f.duplicate())
            },
            None => None,
        };
        UpdateFoodCommand { old_food, new_food, executed: false }
    }

    /// Replaces the stored food; fails, changing nothing, when no food
    /// has this id.
    pub fn run(&mut self, data: &mut Datastore) -> (r: Result<(), String>)
        requires
            old(self).valid_spec(),
            old(data).wf(),
        ensures
            final(self).valid_spec(),
            final(data).wf(),
            final(self).new_food@ == old(self).new_food@,
            final(self).old_food == old(self).old_food,
            final(data).logs == old(data).logs,
            final(data).profile == old(data).profile,
            find_food(old(data).foods.models(), old(self).new_food@.id) is Some ==> r is Ok
                && final(data).foods.models() =~= old(data).foods.models().update(
                food_index(old(data).foods.models(), old(self).new_food@.id),
                old(self).new_food@,
            ) && final(self).executed,
            find_food(old(data).foods.models(), old(self).new_food@.id) is None ==> r is Err
                && final(data).foods.models() =~= old(data).foods.models() && final(self).executed
                == old(self).executed && r.unwrap_err()@ == "Food with ID "@ + old(
                self,
            ).new_food@.id + " not found"@,
    {
        let result = data.foods.update_food(self.new_food.duplicate());
        match &result {
            Ok(_) => {
                self.executed = true;
            },
            Err(_) => {},
        }
        result
    }

    /// Restores the captured food, or removes the new one; fails when
    /// the command never ran, or the captured food's id vanished.
    pub fn revert(&mut self, data: &mut Datastore) -> (r: Result<(), String>)
        requires
            old(self).valid_spec(),
            old(data).wf(),
        ensures
            final(self).valid_spec(),
            final(data).wf(),
            final(data).logs == old(data).logs,
            final(data).profile == old(data).profile,
            !old(self).executed ==> r is Err && final(data).foods.models() =~= old(data).foods.models() && r.unwrap_err()@ == "Command was not executed"@,
            old(self).executed && old(self).old_food is Some ==> ({
                let f = old(self).old_food.unwrap()@;
                if find_food(old(data).foods.models(), f.id) is Some {
                    r is Ok && !final(self).executed && final(data).foods.models() =~= old(data).foods.models().update(food_index(old(data).foods.models(), f.id), f)
                } else {
                    r is Err && final(data).foods.models() =~= old(data).foods.models()
                        && r.unwrap_err()@ == "Food with ID "@ + f.id + " not found"@
                }
            }),
            old(self).executed && old(self).old_food is None ==> r is Ok && !final(self).executed
                && final(data).foods.models() =~= (if find_food(
                old(data).foods.models(),
                old(self).new_food@.id,
            ) is Some {
                old(data).foods.models().remove(
                    food_index(old(data).foods.models(), old(self).new_food@.id),
                )
            } else {
                old(data).foods.models()
            }),
    {
        if !self.executed {
            return Err(String::from_str("Command was not executed"));
        }
        match &self.old_food {
            Some(old_food) => {
                match data.foods.update_food(old_food.duplicate()) {
                    Ok(_) => {},
                    Err(e) => {
                        return Err(e);
                    },
                }
            },
            None => {
                let _removed = data.foods.remove_food(self.new_food.id.as_str());
            },
        }
        self.executed = false;
        Ok(())
    }

    pub fn describe(&self) -> (r: String)
        ensures
            r@ == "Update food: "@ + self.new_food@.name,
    {
        let mut s = String::from_str("Update food: ");
        s.append(self.new_food.name.as_str());
        s
    }
}

impl Command for UpdateFoodCommand {
    open spec fn valid(&self) -> bool {
        self.valid_spec()
    }

    fn execute(&mut self, data: &mut Datastore) -> (r: Result<(), String>)
        ensures
            crate::command_manager::AppCommand::UpdateFood(*old(self)).run_effect(
                *old(data),
                *final(data),
                r,
            ),
    {
        self.run(data)
    }

    fn undo(&mut self, data: &mut Datastore) -> (r: Result<(), String>)
        ensures
            crate::command_manager::AppCommand::UpdateFood(*old(self)).undo_effect(
                *old(data),
                *final(data),
                r,
            ),
    {
        self.revert(data)
    }

    fn get_type(&self) -> (r: CommandType)
        ensures
            r is RemoveFood,
    {
        CommandType::RemoveFood
    }

    fn description(&self) -> (r: String) {
        self.describe()
    }
}

} // verus!

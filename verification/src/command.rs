//! The interface every undoable operation implements: a forward step,
//! a reversal, a category, and a line of text describing it.

use vstd::prelude::*;
use vstd::string::*;

use crate::datastore::Datastore;

verus! {

/// The category an undoable operation falls under.
pub enum CommandType {
    AddFood,
    RemoveFood,
    AddLog,
    DeleteLog,
    UpdateProfile,
    Other(String),
}

impl CommandType {
    /// The category's display text.
    pub open spec fn label_spec(&self) -> Seq<char> {
        match self {
            CommandType::AddFood => "Add Food"@,
            CommandType::RemoveFood => "Remove Food"@,
            CommandType::AddLog => "Add Log Entry"@,
            CommandType::DeleteLog => "Delete Log Entry"@,
            CommandType::UpdateProfile => "Update Profile"@,
            CommandType::Other(s) => s@,
        }
    }

    /// The category's display text.
    pub fn label(&self) -> (r: String)
        ensures
            r@ == self.label_spec(),
    {
        match self {
            CommandType::AddFood => String::from_str("Add Food"),
            CommandType::RemoveFood => String::from_str("Remove Food"),
            CommandType::AddLog => String::from_str("Add Log Entry"),
            CommandType::DeleteLog => String::from_str("Delete Log Entry"),
            CommandType::UpdateProfile => String::from_str("Update Profile"),
            CommandType::Other(s) => s.clone(),
        }
    }
}

/// An undoable operation over the datastore.  `valid` states what the
/// operation's own data must satisfy; both steps keep it, keep the
/// datastore well formed, and report failure through their result.
pub trait Command: Sized {
    spec fn valid(&self) -> bool;

    fn execute(&mut self, data: &mut Datastore) -> (r: Result<(), String>)
        requires
            old(self).valid(),
            old(data).wf(),
        ensures
            final(self).valid(),
            final(data).wf(),
    ;

    fn undo(&mut self, data: &mut Datastore) -> (r: Result<(), String>)
        requires
            old(self).valid(),
            old(data).wf(),
        ensures
            final(self).valid(),
            final(data).wf(),
    ;

    fn get_type(&self) -> CommandType;

    fn description(&self) -> (r: String)
        requires
            self.valid(),
    ;
}

} // verus!

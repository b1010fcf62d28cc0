//! The three repositories that commands operate on, held together so
//! that every command takes the same context.

use vstd::prelude::*;

use crate::food_repository::FoodRepository;
use crate::log_repository::LogRepository;
use crate::profile_repository::ProfileRepository;

verus! {

/// All application state: the catalog, the consumption history, and
/// the user profile.
pub struct Datastore {
    pub foods: FoodRepository,
    pub logs: LogRepository,
    pub profile: ProfileRepository,
}

impl Datastore {
    pub open spec fn wf(&self) -> bool {
        self.foods.wf() && self.logs.wf() && self.profile.wf()
    }

    /// An empty datastore.
    pub fn new() -> (r: Datastore)
        ensures
            r.wf(),
            r.foods.models() =~= Seq::<crate::food::FoodModel>::empty(),
            r.logs.models() =~= Seq::<crate::log::DailyLogModel>::empty(),
            r.profile.model() is None,
    {
        Datastore {
            foods: FoodRepository::new(),
            logs: LogRepository::new(),
            profile: ProfileRepository::new(),
        }
    }
}

} // verus!

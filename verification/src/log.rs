//! Daily consumption logs: one log per date, each an ordered list of
//! entries naming a food, a serving count in hundredths, and the moment
//! it was recorded.

use vstd::prelude::*;
use vstd::string::*;

use crate::clock::now_timestamp;
use crate::date::{Date, Timestamp};
use crate::food::{find_food, id_ok, FoodModel};
use crate::food_repository::FoodRepository;

verus! {

/// The mathematical content of one log entry.
#[verifier::ext_equal]
pub struct FoodEntryModel {
    pub food_id: Seq<char>,
    /// Servings in hundredths.
    pub servings: u32,
    pub timestamp: Timestamp,
}

/// One recorded consumption: a food, an amount, and when.
pub struct FoodEntry {
    pub food_id: String,
    /// Servings in hundredths.
    pub servings: u32,
    pub timestamp: Timestamp,
}

impl View for FoodEntry {
    type V = FoodEntryModel;

    open spec fn view(&self) -> FoodEntryModel {
        FoodEntryModel {
            food_id: self.food_id@,
            servings: self.servings,
            timestamp: self.timestamp,
        }
    }
}

/// A storable entry: a usable food id and a valid moment.
pub open spec fn wf_entry_model(m: FoodEntryModel) -> bool {
    id_ok(m.food_id) && m.timestamp.wf()
}

impl FoodEntry {
    pub open spec fn wf(self) -> bool {
        wf_entry_model(self@)
    }

    /// An independent copy with the same content.
    pub fn duplicate(&self) -> (r: FoodEntry)
        ensures
            r@ == self@,
    {
        FoodEntry {
            food_id: self.food_id.clone(),
            servings: self.servings,
            timestamp: self.timestamp,
        }
    }
}

/// The mathematical content of one day's log.
#[verifier::ext_equal]
pub struct DailyLogModel {
    pub date: Date,
    pub entries: Seq<FoodEntryModel>,
}

/// The consumption log for one date.
pub struct DailyLog {
    pub date: Date,
    pub entries: Vec<FoodEntry>,
}

impl View for DailyLog {
    type V = DailyLogModel;

    open spec fn view(&self) -> DailyLogModel {
        DailyLogModel {
            date: self.date,
            entries: Seq::new(self.entries@.len(), |i: int| self.entries@[i]@),
        }
    }
}

/// What a day's total calories are against a catalog: for each entry,
/// the named food's calories per serving times the servings, scaled
/// back to hundredths; entries naming unknown foods count as zero.
pub open spec fn log_calories(ms: Seq<FoodModel>, entries: Seq<FoodEntryModel>) -> int
    decreases entries.len(),
{
    if entries.len() == 0 {
        0
    } else {
        log_calories(ms, entries.drop_last()) + (match find_food(ms, entries.last().food_id) {
            Some(f) => (f.calories_per_serving as int) * (entries.last().servings as int) / 100,
            None => 0,
        })
    }
}

pub proof fn lemma_log_calories_nonneg(ms: Seq<FoodModel>, entries: Seq<FoodEntryModel>)
    ensures
        log_calories(ms, entries) >= 0,
    decreases entries.len(),
{
    if entries.len() > 0 {
        lemma_log_calories_nonneg(ms, entries.drop_last());
    }
}

/// Clamps a calorie total into the range of the returned counter.
pub open spec fn clamp_total(x: int) -> int {
    if x > u64::MAX {
        u64::MAX as int
    } else {
        x
    }
}

/// Index of the last entry naming `id`, or -1 when none does.
pub open spec fn last_match(entries: Seq<FoodEntryModel>, id: Seq<char>) -> int
    decreases entries.len(),
{
    if entries.len() == 0 {
        -1
    } else if entries.last().food_id == id {
        entries.len() - 1
    } else {
        last_match(entries.drop_last(), id)
    }
}

pub proof fn lemma_last_match_bounds(entries: Seq<FoodEntryModel>, id: Seq<char>)
    ensures
        -1 <= last_match(entries, id) < entries.len(),
    decreases entries.len(),
{
    if entries.len() > 0 && entries.last().food_id != id {
        lemma_last_match_bounds(entries.drop_last(), id);
    }
}

/// A scan that hits at `i` and misses after pins the last match.
pub proof fn lemma_last_match_is(entries: Seq<FoodEntryModel>, id: Seq<char>, i: int)
    requires
        0 <= i < entries.len(),
        entries[i].food_id == id,
        forall|j: int| i < j < entries.len() ==> (#[trigger] entries[j]).food_id != id,
    ensures
        last_match(entries, id) == i,
    decreases entries.len(),
{
    if i < entries.len() - 1 {
        assert(entries.last().food_id != id);
        assert forall|j: int|
            i < j < entries.drop_last().len() implies (#[trigger] entries.drop_last()[j]).food_id
            != id by {
            assert(entries.drop_last()[j] == entries[j]);
        }
        assert(entries.drop_last()[i] == entries[i]);
        lemma_last_match_is(entries.drop_last(), id, i);
    }
}

/// A scan that misses everywhere means there is no match.
pub proof fn lemma_last_match_none(entries: Seq<FoodEntryModel>, id: Seq<char>)
    requires
        forall|j: int| 0 <= j < entries.len() ==> (#[trigger] entries[j]).food_id != id,
    ensures
        last_match(entries, id) == -1,
    decreases entries.len(),
{
    if entries.len() > 0 {
        assert forall|j: int|
            0 <= j < entries.drop_last().len() implies (#[trigger] entries.drop_last()[j]).food_id
            != id by {
            assert(entries.drop_last()[j] == entries[j]);
        }
        lemma_last_match_none(entries.drop_last(), id);
    }
}

/// A storable log: a valid date and storable entries.
pub open spec fn wf_log_model(m: DailyLogModel) -> bool {
    m.date.wf() && forall|i: int| 0 <= i < m.entries.len() ==> wf_entry_model(#[trigger] m.entries[i])
}

impl DailyLog {
    pub open spec fn wf(self) -> bool {
        wf_log_model(self@)
    }

    /// An empty log for a date.
    pub fn new(date: Date) -> (r: DailyLog)
        ensures
            r@.date == date,
            r@.entries =~= Seq::<FoodEntryModel>::empty(),
    {
        DailyLog { date, entries: Vec::new() }
    }

    /// Appends an entry carrying the given moment.
    pub fn add_entry_at(&mut self, food_id: String, servings: u32, timestamp: Timestamp)
        ensures
            final(self)@.date == old(self)@.date,
            final(self)@.entries =~= old(self)@.entries.push(
                FoodEntryModel { food_id: food_id@, servings, timestamp },
            ),
    {
        self.entries.push(FoodEntry { food_id, servings, timestamp });
        proof {
            assert(self@.entries =~= old(self)@.entries.push(
                FoodEntryModel { food_id: food_id@, servings, timestamp },
            ));
        }
    }

    /// Appends an entry stamped with the current time.  Which moment the
    /// clock returns cannot be pinned down; it is valid in any case.
    pub fn add_entry(&mut self, food_id: String, servings: u32)
        ensures
            final(self)@.date == old(self)@.date,
            exists|ts: Timestamp|
                ts.wf() && final(self)@.entries =~= old(self)@.entries.push(
                    FoodEntryModel { food_id: food_id@, servings, timestamp: ts },
                ),
    {
        let ts = now_timestamp();
        self.add_entry_at(food_id, servings, ts);
    }

    /// Removes and returns the entry at `index`, when it exists.
    pub fn remove_entry(&mut self, index: usize) -> (r: Option<FoodEntry>)
        ensures
            final(self)@.date == old(self)@.date,
            index < old(self)@.entries.len() ==> r is Some && r.unwrap()@ == old(
                self,
            )@.entries[index as int] && final(self)@.entries =~= old(self)@.entries.remove(
                index as int,
            ),
            index >= old(self)@.entries.len() ==> r is None && final(self)@.entries =~= old(
                self,
            )@.entries,
    {
        if index < self.entries.len() {
            let e = self.entries.remove(index);
            proof {
                assert(self@.entries =~= old(self)@.entries.remove(index as int));
            }
            Some(e)
        } else {
            None
        }
    }

    /// Puts an entry back at `index`, when that position exists.
    pub fn insert_entry_at(&mut self, index: usize, entry: FoodEntry) -> (r: bool)
        ensures
            final(self)@.date == old(self)@.date,
            index <= old(self)@.entries.len() ==> r && final(self)@.entries =~= old(
                self,
            )@.entries.insert(index as int, entry@),
            index > old(self)@.entries.len() ==> !r && final(self)@.entries =~= old(
                self,
            )@.entries,
    {
        if index <= self.entries.len() {
            self.entries.insert(index, entry);
            proof {
                assert(self@.entries =~= old(self)@.entries.insert(index as int, entry@));
            }
            true
        } else {
            false
        }
    }

    /// Removes the most recent entry naming `food_id`, when one exists.
    pub fn remove_last_matching(&mut self, food_id: &String)
        ensures
            final(self)@.date == old(self)@.date,
            ({
                let k = last_match(old(self)@.entries, food_id@);
                if k >= 0 {
                    final(self)@.entries =~= old(self)@.entries.remove(k)
                } else {
                    final(self)@.entries =~= old(self)@.entries
                }
            }),
    {
        let ghost orig = self@.entries;
        let mut i: usize = self.entries.len();
        while i > 0
            invariant
                0 <= i <= self.entries@.len(),
                orig == self@.entries,
                self.date == old(self).date,
                self.entries@.len() == old(self).entries@.len(),
                self.entries@ == old(self).entries@,
                forall|j: int| i <= j < orig.len() ==> (#[trigger] orig[j]).food_id != food_id@,
            decreases i,
        {
            i = i - 1;
            if self.entries[i].food_id == *food_id {
                proof {
                    lemma_last_match_is(orig, food_id@, i as int);
                }
                self.entries.remove(i);
                proof {
                    assert(self@.entries =~= orig.remove(i as int));
                }
                return ;
            }
            assert(orig[i as int].food_id != food_id@);
        }
        proof {
            lemma_last_match_none(orig, food_id@);
        }
    }

    /// The day's calorie total against a catalog, in hundredths of a
    /// kilocalorie, clamped into the counter's range.
    pub fn total_calories(&self, foods: &FoodRepository) -> (r: u64)
        ensures
            r == clamp_total(log_calories(foods.models(), self@.entries)),
    {
        let ghost entries = self@.entries;
        let mut acc: u64 = 0;
        let mut i: usize = 0;
        while i < self.entries.len()
            invariant
                0 <= i <= self.entries@.len(),
                entries == self@.entries,
                entries.len() == self.entries@.len(),
                acc == clamp_total(log_calories(foods.models(), entries.take(i as int))),
            decreases self.entries@.len() - i,
        {
            proof {
                lemma_log_calories_nonneg(foods.models(), entries.take(i as int));
                lemma_log_calories_nonneg(foods.models(), entries.take(i + 1));
                assert(entries.take(i + 1).drop_last() =~= entries.take(i as int));
                assert(entries.take(i + 1).last() == entries[i as int]);
            }
            let term: u64 = match foods.get_food(self.entries[i].food_id.as_str()) {
                Some(f) => {
                    proof {
                        assert((f.calories_per_serving as u64) * (self.entries@[i as int].servings
                            as u64) <= (u32::MAX as u64) * (u32::MAX as u64)) by (nonlinear_arith)
                            requires
                                f.calories_per_serving <= u32::MAX,
                                self.entries@[i as int].servings <= u32::MAX,
                        ;
                    }
                    (f.calories_per_serving as u64) * (self.entries[i].servings as u64) / 100
                },
                None => 0,
            };
            acc = match acc.checked_add(term) {
                Some(v) => v,
                None => u64::MAX,
            };
            i = i + 1;
        }
        proof {
            assert(entries.take(entries.len() as int) =~= entries);
        }
        acc
    }

    /// An independent copy with the same content.
    pub fn duplicate(&self) -> (r: DailyLog)
        ensures
            r@ == self@,
    {
        let mut entries: Vec<FoodEntry> = Vec::new();
        let mut i: usize = 0;
        while i < self.entries.len()
            invariant
                0 <= i <= self.entries@.len(),
                entries@.len() == i,
                forall|j: int| 0 <= j < i ==> (#[trigger] entries@[j])@ == self.entries@[j]@,
            decreases self.entries@.len() - i,
        {
            entries.push(self.entries[i].duplicate());
            i = i + 1;
        }
        let r = DailyLog { date: self.date, entries };
        proof {
            assert(r@.entries =~= self@.entries);
            assert(r@ =~~= self@);
        }
        r
    }
}

} // verus!

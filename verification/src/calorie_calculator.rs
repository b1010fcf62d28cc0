//! Daily energy-expenditure estimation.  Two formulas compute a basal
//! metabolic rate from gender, weight, height and age, clamp it at zero,
//! and scale it by an activity multiplier.  All arithmetic is exact over
//! integers: weights and heights arrive in hundredths of their unit,
//! intermediate rates are millionths of a kilocalorie, multipliers are
//! thousandths, and results are hundredths of a kilocalorie per day.

use vstd::prelude::*;
use vstd::string::*;

use crate::date::Date;
use crate::profile::{age_spec, find_daily, ActivityLevel, Gender, UserProfile};

verus! {

/// Activity multiplier in thousandths: 1.2 for sedentary up to 1.9 for
/// extremely active.
pub open spec fn activity_multiplier_millis(a: ActivityLevel) -> int {
    match a {
        ActivityLevel::Sedentary => 1200,
        ActivityLevel::LightlyActive => 1375,
        ActivityLevel::ModeratelyActive => 1550,
        ActivityLevel::VeryActive => 1725,
        ActivityLevel::ExtremelyActive => 1900,
    }
}

pub open spec fn clamp0(x: int) -> int {
    if x < 0 {
        0
    } else {
        x
    }
}

/// Revised Harris-Benedict basal rate in millionths of a kilocalorie:
/// 88.362 + 13.397 w + 4.799 h - 5.677 a for men and
/// 447.593 + 9.247 w + 3.098 h - 4.330 a for women (w in kg, h in cm,
/// a in years), each clamped at zero; the midpoint of the two otherwise.
pub open spec fn harris_benedict_bmr_micro(g: Gender, w: int, h: int, a: int) -> int {
    let male = clamp0(88_362_000 + 133_970 * w + 47_990 * h - 5_677_000 * a);
    let female = clamp0(447_593_000 + 92_470 * w + 30_980 * h - 4_330_000 * a);
    match g {
        Gender::Male => male,
        Gender::Female => female,
        Gender::Other => (male + female) / 2,
    }
}

/// Mifflin-St Jeor basal rate in millionths of a kilocalorie:
/// 10 w + 6.25 h - 5 a + 5 for men and 10 w + 6.25 h - 5 a - 161 for
/// women, each clamped at zero; the midpoint of the two otherwise.
pub open spec fn mifflin_st_jeor_bmr_micro(g: Gender, w: int, h: int, a: int) -> int {
    let male = clamp0(100_000 * w + 62_500 * h - 5_000_000 * a + 5_000_000);
    let female = clamp0(100_000 * w + 62_500 * h - 5_000_000 * a - 161_000_000);
    match g {
        Gender::Male => male,
        Gender::Female => female,
        Gender::Other => (male + female) / 2,
    }
}

/// Scales a basal rate (millionths of a kilocalorie) by an activity
/// multiplier (thousandths) down to hundredths of a kilocalorie.
pub open spec fn scaled_target_centi(bmr_micro: int, mult_millis: int) -> int {
    bmr_micro * mult_millis / 10_000_000
}

/// The Harris-Benedict daily target for a profile on a date, in
/// hundredths of a kilocalorie; zero when no snapshot exists for the
/// date.
pub open spec fn harris_benedict_target_spec(p: crate::profile::UserProfileModel, date: Date) -> int {
    match find_daily(p.daily_profiles, date) {
        None => 0,
        Some(dp) => scaled_target_centi(
            harris_benedict_bmr_micro(
                p.gender,
                dp.weight as int,
                p.height as int,
                age_spec(p.birth_date, date),
            ),
            activity_multiplier_millis(dp.activity_level),
        ),
    }
}

/// The Mifflin-St Jeor daily target, with the same conventions.
pub open spec fn mifflin_st_jeor_target_spec(p: crate::profile::UserProfileModel, date: Date) -> int {
    match find_daily(p.daily_profiles, date) {
        None => 0,
        Some(dp) => scaled_target_centi(
            mifflin_st_jeor_bmr_micro(
                p.gender,
                dp.weight as int,
                p.height as int,
                age_spec(p.birth_date, date),
            ),
            activity_multiplier_millis(dp.activity_level),
        ),
    }
}

fn activity_multiplier_of(a: ActivityLevel) -> (r: u64)
    ensures
        r == activity_multiplier_millis(a),
{
    match a {
        ActivityLevel::Sedentary => 1200,
        ActivityLevel::LightlyActive => 1375,
        ActivityLevel::ModeratelyActive => 1550,
        ActivityLevel::VeryActive => 1725,
        ActivityLevel::ExtremelyActive => 1900,
    }
}

fn harris_benedict_bmr_of(g: Gender, w: u32, h: u32, a: u32) -> (r: u64)
    ensures
        r == harris_benedict_bmr_micro(g, w as int, h as int, a as int),
        r <= 900_000_000_000_000,
{
    let male_raw: i64 = 88_362_000 + 133_970 * (w as i64) + 47_990 * (h as i64) - 5_677_000 * (
    a as i64);
    let female_raw: i64 = 447_593_000 + 92_470 * (w as i64) + 30_980 * (h as i64) - 4_330_000 * (
    a as i64);
    let male: u64 = if male_raw < 0 {
        0
    } else {
        male_raw as u64
    };
    let female: u64 = if female_raw < 0 {
        0
    } else {
        female_raw as u64
    };
    match g {
        Gender::Male => male,
        Gender::Female => female,
        Gender::Other => (male + female) / 2,
    }
}

fn mifflin_st_jeor_bmr_of(g: Gender, w: u32, h: u32, a: u32) -> (r: u64)
    ensures
        r == mifflin_st_jeor_bmr_micro(g, w as int, h as int, a as int),
        r <= 900_000_000_000_000,
{
    let male_raw: i64 = 100_000 * (w as i64) + 62_500 * (h as i64) - 5_000_000 * (a as i64)
        + 5_000_000;
    let female_raw: i64 = 100_000 * (w as i64) + 62_500 * (h as i64) - 5_000_000 * (a as i64)
        - 161_000_000;
    let male: u64 = if male_raw < 0 {
        0
    } else {
        male_raw as u64
    };
    let female: u64 = if female_raw < 0 {
        0
    } else {
        female_raw as u64
    };
    match g {
        Gender::Male => male,
        Gender::Female => female,
        Gender::Other => (male + female) / 2,
    }
}

/// A daily calorie-target formula.
pub trait CalorieCalculator {
    fn calculate_target_calories(&self, profile: &UserProfile, date: Date) -> u64
        requires
            profile.wf(),
            date.wf(),
            profile.birth_date.le_spec(date),
    ;

    fn name(&self) -> &'static str;

    fn description(&self) -> &'static str;
}

/// The revised (1984) Harris-Benedict formula.
pub struct HarrisBenedictCalculator {}

impl HarrisBenedictCalculator {
    /// The daily target in hundredths of a kilocalorie.
    pub fn target_calories(&self, profile: &UserProfile, date: Date) -> (r: u64)
        requires
            profile.wf(),
            date.wf(),
            profile.birth_date.le_spec(date),
        ensures
            r == harris_benedict_target_spec(profile@, date),
    {
        let daily = match profile.get_daily_profile(date) {
            Some(p) => *p,
            None => {
                return 0;
            },
        };
        let age = profile.age(date);
        let bmr = harris_benedict_bmr_of(profile.gender, daily.weight, profile.height, age);
        let mult = activity_multiplier_of(daily.activity_level);
        bmr * mult / 10_000_000
    }
}

impl CalorieCalculator for HarrisBenedictCalculator {
    fn calculate_target_calories(&self, profile: &UserProfile, date: Date) -> (r: u64)
        ensures
            r == harris_benedict_target_spec(profile@, date),
    {
        self.target_calories(profile, date)
    }

    fn name(&self) -> (r: &'static str)
        ensures
            r@ == "harris_benedict"@,
    {
        "harris_benedict"
    }

    fn description(&self) -> (r: &'static str)
        ensures
            r@ == "Harris-Benedict Equation (Revised 1984)"@,
    {
        "Harris-Benedict Equation (Revised 1984)"
    }
}

/// The Mifflin-St Jeor formula.
pub struct MifflinStJeorCalculator {}

impl MifflinStJeorCalculator {
    /// The daily target in hundredths of a kilocalorie.
    pub fn target_calories(&self, profile: &UserProfile, date: Date) -> (r: u64)
        requires
            profile.wf(),
            date.wf(),
            profile.birth_date.le_spec(date),
        ensures
            r == mifflin_st_jeor_target_spec(profile@, date),
    {
        let daily = match profile.get_daily_profile(date) {
            Some(p) => *p,
            None => {
                return 0;
            },
        };
        let age = profile.age(date);
        let bmr = mifflin_st_jeor_bmr_of(profile.gender, daily.weight, profile.height, age);
        let mult = activity_multiplier_of(daily.activity_level);
        bmr * mult / 10_000_000
    }
}

impl CalorieCalculator for MifflinStJeorCalculator {
    fn calculate_target_calories(&self, profile: &UserProfile, date: Date) -> (r: u64)
        ensures
            r == mifflin_st_jeor_target_spec(profile@, date),
    {
        self.target_calories(profile, date)
    }

    fn name(&self) -> (r: &'static str)
        ensures
            r@ == "mifflin_st_jeor"@,
    {
        "mifflin_st_jeor"
    }

    fn description(&self) -> (r: &'static str)
        ensures
            r@ == "Mifflin-St Jeor Equation"@,
    {
        "Mifflin-St Jeor Equation"
    }
}

/// One of the formulas this library offers, selectable by name.
#[derive(Clone, Copy, PartialEq, Eq, Structural, Debug)]
pub enum CalculatorChoice {
    HarrisBenedict,
    MifflinStJeor,
}

/// The name each formula registers under.
pub open spec fn choice_name(c: CalculatorChoice) -> Seq<char> {
    match c {
        CalculatorChoice::HarrisBenedict => "harris_benedict"@,
        CalculatorChoice::MifflinStJeor => "mifflin_st_jeor"@,
    }
}

impl CalculatorChoice {
    pub fn name(&self) -> (r: &'static str)
        ensures
            r@ == choice_name(*self),
    {
        match self {
            CalculatorChoice::HarrisBenedict => HarrisBenedictCalculator {  }.name(),
            CalculatorChoice::MifflinStJeor => MifflinStJeorCalculator {  }.name(),
        }
    }

    /// The daily target in hundredths of a kilocalorie under this formula.
    pub fn target_calories(&self, profile: &UserProfile, date: Date) -> (r: u64)
        requires
            profile.wf(),
            date.wf(),
            profile.birth_date.le_spec(date),
        ensures
            self is HarrisBenedict ==> r == harris_benedict_target_spec(profile@, date),
            self is MifflinStJeor ==> r == mifflin_st_jeor_target_spec(profile@, date),
    {
        match self {
            CalculatorChoice::HarrisBenedict => HarrisBenedictCalculator {  }.target_calories(
                profile,
                date,
            ),
            CalculatorChoice::MifflinStJeor => MifflinStJeorCalculator {  }.target_calories(
                profile,
                date,
            ),
        }
    }
}

/// Index of the first registered calculator with the given name, or the
/// length when absent.
pub open spec fn calculator_index(v: Seq<(Seq<char>, CalculatorChoice)>, name: Seq<char>) -> int
    decreases v.len(),
{
    if v.len() == 0 {
        0
    } else if v[0].0 == name {
        0
    } else {
        1 + calculator_index(v.drop_first(), name)
    }
}

proof fn lemma_calculator_index_is(
    v: Seq<(Seq<char>, CalculatorChoice)>,
    name: Seq<char>,
    i: int,
)
    requires
        0 <= i <= v.len(),
        forall|j: int| 0 <= j < i ==> (#[trigger] v[j]).0 != name,
        i < v.len() ==> v[i].0 == name,
    ensures
        calculator_index(v, name) == i,
    decreases v.len(),
{
    if v.len() > 0 {
        if i == 0 {
        } else {
            assert(v[0].0 != name);
            assert forall|j: int| 0 <= j < i - 1 implies (#[trigger] v.drop_first()[j]).0
                != name by {
                assert(v.drop_first()[j] == v[j + 1]);
            }
            if i - 1 < v.drop_first().len() {
                assert(v.drop_first()[i - 1] == v[i]);
            }
            lemma_calculator_index_is(v.drop_first(), name, i - 1);
        }
    }
}

/// The two formulas register under different names.
proof fn lemma_choice_names_distinct()
    ensures
        "harris_benedict"@ != "mifflin_st_jeor"@,
{
    reveal_strlit("harris_benedict");
    reveal_strlit("mifflin_st_jeor");
    assert("harris_benedict"@[0] != "mifflin_st_jeor"@[0]);
}

/// A registry of the available formulas, keyed by their names.
pub struct CalorieCalculatorFactory {
    pub calculators: Vec<(String, CalculatorChoice)>,
}

impl CalorieCalculatorFactory {
    pub open spec fn entries(&self) -> Seq<(Seq<char>, CalculatorChoice)> {
        Seq::new(self.calculators@.len(), |i: int| (self.calculators@[i].0@, self.calculators@[i].1))
    }

    /// A registry holding both built-in formulas under their names.
    pub fn new() -> (r: CalorieCalculatorFactory)
        ensures
            r.entries() =~= seq![
                ("harris_benedict"@, CalculatorChoice::HarrisBenedict),
                ("mifflin_st_jeor"@, CalculatorChoice::MifflinStJeor),
            ],
    {
        let mut factory = CalorieCalculatorFactory { calculators: Vec::new() };
        proof {
            assert(factory.entries() =~= Seq::<(Seq<char>, CalculatorChoice)>::empty());
        }
        factory.register_calculator(CalculatorChoice::HarrisBenedict);
        proof {
            assert(factory.entries() =~= seq![
                ("harris_benedict"@, CalculatorChoice::HarrisBenedict),
            ]);
        }
        factory.register_calculator(CalculatorChoice::MifflinStJeor);
        proof {
            lemma_choice_names_distinct();
            lemma_calculator_index_is(
                seq![("harris_benedict"@, CalculatorChoice::HarrisBenedict)],
                "mifflin_st_jeor"@,
                1,
            );
        }
        factory
    }

    /// Registers a formula under its own name: an entry already carrying
    /// that name is replaced in place, and a new name is appended.
    pub fn register_calculator(&mut self, calculator: CalculatorChoice)
        ensures
            ({
                let name = choice_name(calculator);
                let i = calculator_index(old(self).entries(), name);
                final(self).entries() =~= if i < old(self).entries().len() {
                    old(self).entries().update(i, (name, calculator))
                } else {
                    old(self).entries().push((name, calculator))
                }
            }),
    {
        let name = calculator.name();
        let key = name.to_owned();
        let mut i: usize = 0;
        while i < self.calculators.len()
            invariant
                0 <= i <= self.calculators@.len(),
                key@ == choice_name(calculator),
                self.calculators@ == old(self).calculators@,
                forall|j: int| 0 <= j < i ==> (#[trigger] self.entries()[j]).0 != key@,
            decreases self.calculators@.len() - i,
        {
            if self.calculators[i].0 == key {
                proof {
                    lemma_calculator_index_is(self.entries(), key@, i as int);
                }
                self.calculators.set(i, (key, calculator));
                proof {
                    assert(self.entries() =~= old(self).entries().update(
                        calculator_index(old(self).entries(), choice_name(calculator)),
                        (choice_name(calculator), calculator),
                    ));
                }
                return ;
            }
            assert(self.entries()[i as int].0 != key@);
            i = i + 1;
        }
        proof {
            lemma_calculator_index_is(self.entries(), key@, self.entries().len() as int);
        }
        self.calculators.push((key, calculator));
        proof {
            assert(self.entries() =~= old(self).entries().push(
                (choice_name(calculator), calculator),
            ));
        }
    }

    /// Looks a formula up by name.
    pub fn get_calculator(&self, name: &str) -> (r: Option<CalculatorChoice>)
        ensures
            ({
                let i = calculator_index(self.entries(), name@);
                if i < self.entries().len() {
                    r == Some(self.entries()[i].1)
                } else {
                    r is None
                }
            }),
    {
        let mut i: usize = 0;
        let key = name.to_owned();
        while i < self.calculators.len()
            invariant
                0 <= i <= self.calculators@.len(),
                key@ == name@,
                forall|j: int| 0 <= j < i ==> (#[trigger] self.entries()[j]).0 != name@,
            decreases self.calculators@.len() - i,
        {
            if self.calculators[i].0 == key {
                proof {
                    lemma_calculator_index_is(self.entries(), name@, i as int);
                }
                return Some(self.calculators[i].1);
            }
            assert(self.entries()[i as int].0 != name@);
            i = i + 1;
        }
        proof {
            lemma_calculator_index_is(self.entries(), name@, self.entries().len() as int);
        }
        None
    }

    /// The names of all registered formulas, in registration order.
    pub fn get_all_calculators(&self) -> (r: Vec<String>)
        ensures
            r@.len() == self.entries().len(),
            forall|i: int| 0 <= i < r@.len() ==> (#[trigger] r@[i])@ == self.entries()[i].0,
    {
        let mut names: Vec<String> = Vec::new();
        let mut i: usize = 0;
        while i < self.calculators.len()
            invariant
                0 <= i <= self.calculators@.len(),
                names@.len() == i,
                forall|j: int| 0 <= j < i ==> (#[trigger] names@[j])@ == self.entries()[j].0,
            decreases self.calculators@.len() - i,
        {
            names.push(self.calculators[i].0.clone());
            i = i + 1;
        }
        names
    }
}

} // verus!

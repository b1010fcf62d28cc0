//! The user's profile: fixed traits (gender, height, birth date), a
//! per-date series of weight and activity snapshots, and the name of the
//! preferred energy-expenditure formula.  Heights are hundredths of a
//! centimetre and weights hundredths of a kilogram.

use vstd::prelude::*;
use vstd::string::*;

use crate::date::{valid_ymd, Date};
use crate::food::name_ok;

verus! {

#[derive(Clone, Copy, PartialEq, Eq, Structural, Debug)]
pub enum Gender {
    Male,
    Female,
    Other,
}

#[derive(Clone, Copy, PartialEq, Eq, Structural, Debug)]
pub enum ActivityLevel {
    Sedentary,
    LightlyActive,
    ModeratelyActive,
    VeryActive,
    ExtremelyActive,
}

/// Weight and activity for one date.
#[derive(Clone, Copy, PartialEq, Eq, Structural, Debug)]
pub struct DailyProfile {
    pub date: Date,
    /// Weight in hundredths of a kilogram.
    pub weight: u32,
    pub activity_level: ActivityLevel,
}

/// The mathematical content of a user profile.
#[verifier::ext_equal]
pub struct UserProfileModel {
    pub gender: Gender,
    /// Height in hundredths of a centimetre.
    pub height: u32,
    pub birth_date: Date,
    pub daily_profiles: Seq<DailyProfile>,
    pub calculation_method: Seq<char>,
}

pub struct UserProfile {
    pub gender: Gender,
    /// Height in hundredths of a centimetre.
    pub height: u32,
    pub birth_date: Date,
    pub daily_profiles: Vec<DailyProfile>,
    pub calculation_method: String,
}

impl View for UserProfile {
    type V = UserProfileModel;

    open spec fn view(&self) -> UserProfileModel {
        UserProfileModel {
            gender: self.gender,
            height: self.height,
            birth_date: self.birth_date,
            daily_profiles: self.daily_profiles@,
            calculation_method: self.calculation_method@,
        }
    }
}

/// Index of the first snapshot for `date`, or the length when absent.
pub open spec fn daily_index(profiles: Seq<DailyProfile>, date: Date) -> int
    decreases profiles.len(),
{
    if profiles.len() == 0 {
        0
    } else if profiles[0].date == date {
        0
    } else {
        1 + daily_index(profiles.drop_first(), date)
    }
}

/// The first snapshot recorded for `date`, if any.
pub open spec fn find_daily(profiles: Seq<DailyProfile>, date: Date) -> Option<DailyProfile> {
    let i = daily_index(profiles, date);
    if i < profiles.len() {
        Some(profiles[i])
    } else {
        None
    }
}

pub proof fn lemma_daily_index(profiles: Seq<DailyProfile>, date: Date)
    ensures
        0 <= daily_index(profiles, date) <= profiles.len(),
        daily_index(profiles, date) < profiles.len() ==> profiles[daily_index(
            profiles,
            date,
        )].date == date,
        forall|j: int| 0 <= j < daily_index(profiles, date) ==> profiles[j].date != date,
    decreases profiles.len(),
{
    if profiles.len() > 0 && profiles[0].date != date {
        lemma_daily_index(profiles.drop_first(), date);
        assert forall|j: int| 0 <= j < daily_index(profiles, date) implies profiles[j].date
            != date by {
            if j > 0 {
                assert(profiles.drop_first()[j - 1] == profiles[j]);
            }
        }
    }
}

/// A scan that misses before `i` and hits at `i` pins the index.
pub proof fn lemma_daily_index_is(profiles: Seq<DailyProfile>, date: Date, i: int)
    requires
        0 <= i <= profiles.len(),
        forall|j: int| 0 <= j < i ==> (#[trigger] profiles[j]).date != date,
        i < profiles.len() ==> profiles[i].date == date,
    ensures
        daily_index(profiles, date) == i,
    decreases profiles.len(),
{
    if profiles.len() > 0 {
        if i == 0 {
            if profiles.len() > 0 && profiles[0].date != date {
                lemma_daily_index(profiles, date);
            }
        } else {
            assert(profiles[0].date != date);
            assert forall|j: int|
                0 <= j < i - 1 implies (#[trigger] profiles.drop_first()[j]).date != date by {
                assert(profiles.drop_first()[j] == profiles[j + 1]);
            }
            if i - 1 < profiles.drop_first().len() {
                assert(profiles.drop_first()[i - 1] == profiles[i]);
            }
            lemma_daily_index_is(profiles.drop_first(), date, i - 1);
        }
    }
}

/// How many completed years lie between `birth` and `as_of`: the year
/// difference, less one when the birthday (mapped into the later year;
/// February 29 falls back to the birth date itself when absent there)
/// has not yet arrived.
pub open spec fn age_spec(birth: Date, as_of: Date) -> int {
    let years = as_of.year - birth.year;
    let anniversary = if valid_ymd(as_of.year as int, birth.month as int, birth.day as int) {
        Date { year: as_of.year, month: birth.month, day: birth.day }
    } else {
        birth
    };
    if !anniversary.le_spec(as_of) {
        years - 1
    } else {
        years
    }
}

/// A profile whose dates are all valid.
pub open spec fn wf_profile_model(m: UserProfileModel) -> bool {
    m.birth_date.wf() && forall|i: int|
        0 <= i < m.daily_profiles.len() ==> (#[trigger] m.daily_profiles[i]).date.wf()
}

/// A profile that can be stored and reloaded faithfully: valid dates,
/// one snapshot per date, and a method name free of the line format's
/// separators.
pub open spec fn storable_profile(m: UserProfileModel) -> bool {
    &&& wf_profile_model(m)
    &&& name_ok(m.calculation_method)
    &&& forall|i: int, j: int|
        0 <= i < j < m.daily_profiles.len() ==> (#[trigger] m.daily_profiles[i]).date != (
        #[trigger] m.daily_profiles[j]).date
}

/// The default formula's name is usable in the storage format.
pub proof fn lemma_default_method_ok()
    ensures
        name_ok("harris_benedict"@),
{
    reveal_strlit("harris_benedict");
}

/// The snapshots of `profiles` whose date is not `date`, in order.
pub open spec fn drop_date(profiles: Seq<DailyProfile>, date: Date) -> Seq<DailyProfile>
    decreases profiles.len(),
{
    if profiles.len() == 0 {
        Seq::empty()
    } else {
        drop_date(profiles.drop_last(), date) + if profiles.last().date == date {
            Seq::empty()
        } else {
            seq![profiles.last()]
        }
    }
}

impl UserProfile {
    pub open spec fn wf(self) -> bool {
        wf_profile_model(self@)
    }

    /// A fresh profile with no snapshots, preferring the revised
    /// Harris-Benedict formula.
    pub fn new(gender: Gender, height: u32, birth_date: Date) -> (r: UserProfile)
        ensures
            r@ == (UserProfileModel {
                gender,
                height,
                birth_date,
                daily_profiles: Seq::<DailyProfile>::empty(),
                calculation_method: "harris_benedict"@,
            }),
    {
        let r = UserProfile {
            gender,
            height,
            birth_date,
            daily_profiles: Vec::new(),
            calculation_method: String::from_str("harris_benedict"),
        };
        proof {
            assert(r.daily_profiles@ =~= Seq::<DailyProfile>::empty());
        }
        r
    }

    /// Completed years of age at `as_of_date`.
    pub fn age(&self, as_of_date: Date) -> (r: u32)
        requires
            self.birth_date.wf(),
            as_of_date.wf(),
            self.birth_date.le_spec(as_of_date),
        ensures
            r == age_spec(self.birth_date, as_of_date),
            r <= 9998,
    {
        let years = as_of_date.year - self.birth_date.year;
        let anniversary = match self.birth_date.with_year(as_of_date.year) {
            Some(d) => d,
            None => self.birth_date,
        };
        if !anniversary.le(&as_of_date) {
            assert(years > 0) by {
                if years == 0 {
                    assert(anniversary == self.birth_date);
                }
            }
            years - 1
        } else {
            years
        }
    }

    /// The snapshot recorded for `date`, if any.
    pub fn get_daily_profile(&self, date: Date) -> (r: Option<&DailyProfile>)
        ensures
            match r {
                Some(p) => find_daily(self@.daily_profiles, date) == Some(*p),
                None => find_daily(self@.daily_profiles, date) is None,
            },
    {
        let profiles = &self.daily_profiles;
        let mut i: usize = 0;
        while i < profiles.len()
            invariant
                profiles@ == self@.daily_profiles,
                0 <= i <= profiles@.len(),
                forall|j: int| 0 <= j < i ==> (#[trigger] profiles@[j]).date != date,
            decreases profiles@.len() - i,
        {
            if profiles[i].date == date {
                proof {
                    lemma_daily_index_is(profiles@, date, i as int);
                }
                return Some(&profiles[i]);
            }
            i = i + 1;
        }
        proof {
            lemma_daily_index_is(profiles@, date, profiles@.len() as int);
        }
        None
    }

    /// Replaces the snapshot for the same date, or appends a new one.
    pub fn add_or_update_daily_profile(&mut self, profile: DailyProfile)
        ensures
            ({
                let i = daily_index(old(self)@.daily_profiles, profile.date);
                final(self)@.daily_profiles == if i < old(self)@.daily_profiles.len() {
                    old(self)@.daily_profiles.update(i, profile)
                } else {
                    old(self)@.daily_profiles.push(profile)
                }
            }),
            final(self)@.gender == old(self)@.gender,
            final(self)@.height == old(self)@.height,
            final(self)@.birth_date == old(self)@.birth_date,
            final(self)@.calculation_method == old(self)@.calculation_method,
    {
        let ghost orig = self.daily_profiles@;
        let n = self.daily_profiles.len();
        let mut i: usize = 0;
        while i < n
            invariant
                0 <= i <= n == self.daily_profiles@.len(),
                orig == old(self)@.daily_profiles,
                self.daily_profiles@ == orig,
                self.gender == old(self).gender,
                self.height == old(self).height,
                self.birth_date == old(self).birth_date,
                self.calculation_method == old(self).calculation_method,
                forall|j: int| 0 <= j < i ==> (#[trigger] orig[j]).date != profile.date,
            decreases n - i,
        {
            if self.daily_profiles[i].date == profile.date {
                proof {
                    lemma_daily_index_is(orig, profile.date, i as int);
                }
                self.daily_profiles.set(i, profile);
                return ;
            }
            i = i + 1;
        }
        proof {
            lemma_daily_index_is(orig, profile.date, orig.len() as int);
        }
        self.daily_profiles.push(profile);
    }

    /// Whether this profile can be stored and reloaded faithfully.
    pub fn is_storable(&self) -> (r: bool)
        ensures
            r == storable_profile(self@),
    {
        let by = self.birth_date;
        let birth_ok = match Date::from_ymd(by.year, by.month, by.day) {
            Some(_) => true,
            None => false,
        };
        if !birth_ok {
            return false;
        }
        if !crate::food::is_name_ok(self.calculation_method.as_str()) {
            return false;
        }
        let mut i: usize = 0;
        while i < self.daily_profiles.len()
            invariant
                0 <= i <= self.daily_profiles@.len(),
                forall|j: int| 0 <= j < i ==> (#[trigger] self@.daily_profiles[j]).date.wf(),
                forall|j: int, k: int|
                    0 <= j < k < i ==> (#[trigger] self@.daily_profiles[j]).date != (
                    #[trigger] self@.daily_profiles[k]).date,
            decreases self.daily_profiles@.len() - i,
        {
            let d = self.daily_profiles[i].date;
            let date_ok = match Date::from_ymd(d.year, d.month, d.day) {
                Some(_) => true,
                None => false,
            };
            if !date_ok {
                return false;
            }
            let mut j: usize = 0;
            while j < i
                invariant
                    0 <= j <= i < self.daily_profiles@.len(),
                    d == self@.daily_profiles[i as int].date,
                    forall|k: int|
                        0 <= k < j ==> (#[trigger] self@.daily_profiles[k]).date != d,
                decreases i - j,
            {
                if self.daily_profiles[j].date == d {
                    return false;
                }
                j = j + 1;
            }
            i = i + 1;
        }
        true
    }

    /// Discards the snapshot for `date`, when one exists.
    pub fn remove_daily_profile(&mut self, date: Date)
        ensures
            final(self)@.daily_profiles =~= drop_date(old(self)@.daily_profiles, date),
            final(self)@.gender == old(self)@.gender,
            final(self)@.height == old(self)@.height,
            final(self)@.birth_date == old(self)@.birth_date,
            final(self)@.calculation_method == old(self)@.calculation_method,
    {
        let ghost orig = self.daily_profiles@;
        let mut kept: Vec<DailyProfile> = Vec::new();
        let mut i: usize = 0;
        while i < self.daily_profiles.len()
            invariant
                0 <= i <= self.daily_profiles@.len(),
                self.daily_profiles@ == orig,
                kept@ =~= drop_date(orig.take(i as int), date),
            decreases self.daily_profiles@.len() - i,
        {
            proof {
                assert(orig.take(i + 1).drop_last() =~= orig.take(i as int));
                assert(orig.take(i + 1).last() == orig[i as int]);
            }
            if !(self.daily_profiles[i].date == date) {
                kept.push(self.daily_profiles[i]);
            }
            i = i + 1;
        }
        proof {
            assert(orig.take(orig.len() as int) =~= orig);
        }
        self.daily_profiles = kept;
    }

    /// An independent copy with the same content.
    pub fn duplicate(&self) -> (r: UserProfile)
        ensures
            r@ == self@,
    {
        let mut daily_profiles: Vec<DailyProfile> = Vec::new();
        let mut i: usize = 0;
        while i < self.daily_profiles.len()
            invariant
                0 <= i <= self.daily_profiles@.len(),
                daily_profiles@ =~= self.daily_profiles@.take(i as int),
            decreases self.daily_profiles@.len() - i,
        {
            daily_profiles.push(self.daily_profiles[i]);
            proof {
                assert(daily_profiles@ =~= self.daily_profiles@.take(i + 1));
            }
            i = i + 1;
        }
        proof {
            assert(self.daily_profiles@.take(self.daily_profiles@.len() as int)
                =~= self.daily_profiles@);
        }
        UserProfile {
            gender: self.gender,
            height: self.height,
            birth_date: self.birth_date,
            daily_profiles,
            calculation_method: self.calculation_method.clone(),
        }
    }
}

} // verus!
